use shine_lights::brightness::{dim_color, scale_channel};
use shine_lights::color::{ColorContainer, RgbContainer, RgbwContainer, RGB, RGBW};
use shine_lights::effect::{Effect, EffectIterator};
use shine_lights::geometry::TransformationError;
use shine_lights::shine::{Shine, ShineError};

fn black() -> RGB {
    RGB { red: 0, green: 0, blue: 0 }
}

fn red() -> RGB {
    RGB { red: 255, green: 0, blue: 0 }
}

fn create_test_shine() -> Shine<RGB> {
    let points = vec![black(), black()];
    let colors = vec![red()];
    Shine::new(points, colors, 1, 2, 2, 1).expect("Failed to create Shine")
}

#[test]
fn test_shade_of_red_with_no_green_or_blue() {
    let mut shine = create_test_shine();
    for _ in 0..5 {
        shine.get_frame();
    }
    let points = shine.get_frame();
    let mut found_shade_of_red = false;
    for color in points.iter() {
        if color.red > 0 && color.green == 0 && color.blue == 0 {
            found_shade_of_red = true;
            break;
        }
    }
    assert!(
        found_shade_of_red,
        "Failed to find at least one point that is a shade of red with no green or blue elements."
    );
}

#[test]
fn batch_larger_than_points_is_refused() {
    let r = Shine::new(vec![black(), black()], vec![red()], 1, 2, 2, 3);
    assert!(matches!(r, Err(ShineError::InvalidNumStartSimultaneous)));
}

#[test]
fn zero_batch_is_refused() {
    let r = Shine::new(vec![black(), black()], vec![red()], 1, 2, 2, 0);
    assert!(matches!(r, Err(ShineError::InvalidNumStartSimultaneous)));
}

#[test]
fn empty_palette_is_refused() {
    let r = Shine::new(vec![black(), black()], vec![], 1, 2, 2, 1);
    assert!(matches!(r, Err(ShineError::ColorSetIsEmpty)));
}

#[test]
fn batch_size_is_checked_before_palette() {
    let r = Shine::new(vec![black()], vec![], 1, 2, 2, 2);
    assert!(matches!(r, Err(ShineError::InvalidNumStartSimultaneous)));
}

#[test]
fn error_messages() {
    assert_eq!(
        ShineError::ColorSetIsEmpty.message(),
        "colors set must not be empty"
    );
    assert_eq!(
        ShineError::InvalidNumStartSimultaneous.message(),
        "num_start_simultaneous must be between 1 up to and including the total number of points"
    );
    assert_eq!(
        TransformationError::InvalidRotation.message(),
        "Invalid rotation axis or angle"
    );
}

#[test]
fn new_engine_initial_state() {
    let blue = RGB { red: 0, green: 0, blue: 255 };
    let s = Shine::new(vec![black(), red(), black()], vec![red(), red(), blue], 4, 3, 5, 2).unwrap();
    assert_eq!(s.current_frame(), 16);
    assert_eq!(s.frames_since_last_glow(), 4);
    assert_eq!(s.num_start_simultaneous(), 2);
    assert_eq!(s.glow_start_times(), &vec![0u64, 0, 0]);
    assert_eq!(s.current_glow_colors(), &vec![red(), red(), red()]);
    assert_eq!(s.colors(), &vec![red(), blue]);
    assert_eq!(s.points(), vec![black(), red(), black()]);
    assert_eq!(s.eligible_points(), vec![0usize, 1, 2]);
}

#[test]
fn frame_has_one_color_per_point() {
    let mut s = Shine::new(vec![black(); 7], vec![red()], 0, 3, 3, 3).unwrap();
    for _ in 0..50 {
        assert_eq!(s.get_frame().len(), 7);
    }
}

#[test]
fn frame_counter_advances_by_one() {
    let mut s = create_test_shine();
    let mut last = s.current_frame();
    for _ in 0..20 {
        s.get_frame();
        assert_eq!(s.current_frame(), last + 1);
        last = s.current_frame();
    }
}

#[test]
fn shown_color_never_exceeds_glow_color() {
    let palette = vec![
        RGB { red: 200, green: 100, blue: 7 },
        RGB { red: 1, green: 255, blue: 90 },
        RGB { red: 255, green: 255, blue: 255 },
    ];
    let mut s = Shine::new(vec![black(); 6], palette, 1, 5, 7, 2).unwrap();
    for _ in 0..200 {
        let frame = s.get_frame();
        let glow = s.current_glow_colors();
        for i in 0..frame.len() {
            assert!(frame[i].red <= glow[i].red);
            assert!(frame[i].green <= glow[i].green);
            assert!(frame[i].blue <= glow[i].blue);
        }
    }
}

#[test]
fn brightness_curve_values() {
    assert_eq!(scale_channel(255, 0, 2, 2), 0);
    assert_eq!(scale_channel(255, 1, 2, 2), 127);
    assert_eq!(scale_channel(255, 2, 2, 2), 255);
    assert_eq!(scale_channel(255, 3, 2, 2), 127);
    assert_eq!(scale_channel(255, 4, 2, 2), 0);
    assert_eq!(scale_channel(255, 100, 2, 2), 0);
    assert_eq!(scale_channel(100, 1, 3, 4), 33);
    assert_eq!(scale_channel(100, 5, 3, 4), 50);
    assert_eq!(scale_channel(200, 0, 0, 4), 200);
    assert_eq!(scale_channel(200, 0, 0, 0), 0);
}

#[test]
fn dim_color_scales_each_channel() {
    let c = RGB { red: 200, green: 100, blue: 9 };
    assert_eq!(dim_color(c, 1, 4, 4), RGB { red: 50, green: 25, blue: 2 });
    assert_eq!(dim_color(c, 6, 4, 4), RGB { red: 100, green: 50, blue: 4 });
}

#[test]
fn batch_starts_at_most_batch_size() {
    let mut s = Shine::new(vec![black(); 10], vec![red()], 0, 1, 1, 3).unwrap();
    for _ in 0..100 {
        let before = s.glow_start_times().clone();
        s.get_frame();
        let after = s.glow_start_times();
        let changed = (0..10).filter(|&i| before[i] != after[i]).count();
        assert!(changed <= 3);
    }
}

#[test]
fn glowing_point_is_not_restarted() {
    let mut s = Shine::new(vec![black(); 5], vec![red()], 0, 3, 4, 5).unwrap();
    for _ in 0..200 {
        let frame = s.current_frame();
        let before = s.glow_start_times().clone();
        s.get_frame();
        let after = s.glow_start_times();
        for i in 0..5 {
            if frame - before[i] < 7 {
                assert_eq!(before[i], after[i]);
            } else if before[i] != after[i] {
                assert_eq!(after[i], frame);
            }
        }
    }
}

#[test]
fn step_with_given_draws() {
    let green = RGB { red: 0, green: 255, blue: 0 };
    let blue = RGB { red: 0, green: 0, blue: 100 };
    let mut s = Shine::new(vec![black(); 3], vec![red(), green, blue], 1, 2, 2, 2).unwrap();
    // frame 8: a batch; points 2 and 0 are offered in that order, both start.
    let frame = s.step(&vec![2, 0, 1], &vec![green, green, blue], &vec![blue, green, green]);
    assert_eq!(s.glow_start_times(), &vec![8u64, 0, 8]);
    assert_eq!(s.frames_since_last_glow(), 0);
    // points 0 and 2 turned non-black keep their glow color (red); point 1 was
    // black and takes its refresh color; elapsed 0 shows black for 0 and 2,
    // point 1 is idle and shows black too.
    assert_eq!(s.current_glow_colors(), &vec![red(), green, red()]);
    assert_eq!(frame, vec![black(), black(), black()]);
    assert_eq!(s.current_frame(), 9);
    // frame 9: no batch; all black, so every glow color is refreshed.
    let frame = s.step(&vec![], &vec![red(), red(), red()], &vec![blue, blue, green]);
    assert_eq!(s.frames_since_last_glow(), 1);
    assert_eq!(s.current_glow_colors(), &vec![blue, blue, green]);
    assert_eq!(frame, vec![RGB { red: 0, green: 0, blue: 50 }, black(), RGB { red: 0, green: 127, blue: 0 }]);
    // frame 10: a batch; only point 1 is idle.
    assert_eq!(s.eligible_points(), vec![1usize]);
    let frame = s.step(&vec![1], &vec![red(), red(), red()], &vec![green, green, green]);
    assert_eq!(s.glow_start_times(), &vec![8u64, 10, 8]);
    assert_eq!(frame, vec![RGB { red: 0, green: 0, blue: 100 }, black(), RGB { red: 0, green: 255, blue: 0 }]);
}

#[test]
fn single_color_palette_glows_in_that_color() {
    let green = RGB { red: 0, green: 255, blue: 0 };
    let mut s = Shine::new(vec![black(); 4], vec![green], 0, 2, 2, 4).unwrap();
    let mut lit = false;
    for _ in 0..10 {
        for c in s.get_frame() {
            assert_eq!(c.red, 0);
            assert_eq!(c.blue, 0);
            if c.green > 0 {
                lit = true;
            }
        }
    }
    assert!(lit);
    assert_eq!(s.current_glow_colors(), &vec![green; 4]);
}

#[test]
fn iterator_keeps_producing_frames() {
    let mut it = EffectIterator::new(create_test_shine());
    for _ in 0..10 {
        let frame = it.next().unwrap();
        assert_eq!(frame.len(), 2);
    }
    assert_eq!(it.into_inner().current_frame(), 18);
}

#[test]
fn rgb_color_operations() {
    assert!(black().is_black());
    assert!(!red().is_black());
    assert_eq!(red().get_rgb(), red());
    let c = red().copy_with_new_rgb(RGB { red: 1, green: 2, blue: 3 });
    assert_eq!(c, RGB { red: 1, green: 2, blue: 3 });
}

#[test]
fn rgbw_color_operations() {
    let w = RGBW { red: 0, green: 0, blue: 0, white: 5 };
    assert!(!w.is_black());
    assert!(RGBW { red: 0, green: 0, blue: 0, white: 0 }.is_black());
    assert_eq!(w.get_rgbw(), w);
    let c = w.copy_with_new_rgbw(RGBW { red: 1, green: 2, blue: 3, white: 4 });
    assert_eq!(c, RGBW { red: 1, green: 2, blue: 3, white: 4 });
}

#[test]
fn first_glow_goes_to_varying_points() {
    let mut firsts = Vec::new();
    for _ in 0..30 {
        let mut s = Shine::new(vec![black(); 10], vec![red()], 0, 2, 2, 1).unwrap();
        let start = s.current_frame();
        s.get_frame();
        let times = s.glow_start_times();
        let chosen: Vec<usize> = (0..10).filter(|&i| times[i] == start).collect();
        assert_eq!(chosen.len(), 1);
        firsts.push(chosen[0]);
    }
    assert!(firsts.iter().any(|&i| i != firsts[0]));
}

#[test]
fn batch_starts_as_many_idle_points_as_allowed() {
    let mut s = Shine::new(vec![black(); 10], vec![red()], 0, 2, 2, 3).unwrap();
    let start = s.current_frame();
    s.get_frame();
    let started = s.glow_start_times().iter().filter(|&&t| t == start).count();
    assert_eq!(started, 3);
    // the next batch frame has seven idle points left and starts three more
    let start = s.current_frame();
    s.get_frame();
    let started = s.glow_start_times().iter().filter(|&&t| t == start).count();
    assert_eq!(started, 3);
}
