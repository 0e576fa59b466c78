use vstd::prelude::*;

use crate::brightness::{dim_color, dimmed, lemma_scaled_channel_bounded};
use crate::color::{ColorContainer, RgbContainer};
use crate::effect::Effect;
use crate::random::{choose_color, shuffle_indices};

verus! {

/// Why an engine could not be built.
#[derive(Debug, Clone, Copy, PartialEq, Eq, Structural)]
pub enum ShineError {
    /// The batch size is zero or larger than the number of points.
    InvalidNumStartSimultaneous,
    /// The palette holds no color.
    ColorSetIsEmpty,
}

impl ShineError {
    pub fn message(&self) -> (r: String)
        ensures
            *self == ShineError::InvalidNumStartSimultaneous ==> r@
                == "num_start_simultaneous must be between 1 up to and including the total number of points"@,
            *self == ShineError::ColorSetIsEmpty ==> r@ == "colors set must not be empty"@,
    {
        match self {
            ShineError::InvalidNumStartSimultaneous => String::from_str(
                "num_start_simultaneous must be between 1 up to and including the total number of points",
            ),
            ShineError::ColorSetIsEmpty => String::from_str("colors set must not be empty"),
        }
    }
}

/// The twinkle engine. Each frame, in batches, a few idle points start a
/// glow that rises to a palette color and fades back to black.
pub struct Shine<U: RgbContainer> {
    points: Vec<U>,
    colors: Vec<U>,
    frames_between_glow_start: u32,
    frames_to_max_glow: u32,
    frames_to_fade: u32,
    num_start_simultaneous: usize,
    current_frame: u64,
    glow_start_times: Vec<u64>,
    frames_since_last_glow: u32,
    current_glow_colors: Vec<U>,
}

/// `i` stands among the first `m` entries of `order`.
pub open spec fn listed_within(order: Seq<usize>, m: int, i: int) -> bool {
    exists|k: int| 0 <= k < m && k < order.len() && order[k] as int == i
}

/// The state of an engine as plain values.
pub struct ShineView<U> {
    /// The color each point shows, in the order of the points.
    pub points: Seq<U>,
    /// The palette, without repeats.
    pub colors: Seq<U>,
    pub frames_between_glow_start: int,
    pub frames_to_max_glow: int,
    pub frames_to_fade: int,
    pub num_start_simultaneous: int,
    pub current_frame: int,
    /// The frame at which each point last started to glow.
    pub glow_start_times: Seq<int>,
    pub frames_since_last_glow: int,
    /// The color each point glows through.
    pub current_glow_colors: Seq<U>,
}

impl<U: RgbContainer> ShineView<U> {
    pub open spec fn num_points(self) -> int {
        self.points.len() as int
    }

    /// The invariant of an engine's state: one start time and one glow color
    /// per point, a batch size between one and the number of points, a
    /// non-empty palette without repeats that every glow color comes from, no
    /// start time in the future, and a batch counter that never passes the
    /// interval.
    pub open spec fn consistent(self) -> bool {
        let n = self.num_points();
        &&& self.glow_start_times.len() == n
        &&& self.current_glow_colors.len() == n
        &&& 1 <= self.num_start_simultaneous <= n
        &&& self.colors.len() > 0
        &&& self.colors.no_duplicates()
        &&& forall|i: int|
            0 <= i < n ==> 0 <= #[trigger] self.glow_start_times[i] <= self.current_frame
        &&& forall|i: int| 0 <= i < n ==> self.colors.contains(#[trigger] self.current_glow_colors[i])
        &&& 0 <= self.frames_to_max_glow
        &&& 0 <= self.frames_to_fade
        &&& 0 <= self.frames_since_last_glow <= self.frames_between_glow_start
    }

    /// The idle points.
    pub open spec fn idle_points(self) -> Set<usize> {
        Set::new(|i: usize| (i as int) < self.num_points() && self.eligible(i as int))
    }

    /// The points that start a glow this frame, given the order of the idle
    /// points.
    pub open spec fn started(self, order: Seq<usize>) -> Set<usize> {
        Set::new(|i: usize| (i as int) < self.num_points() && self.selected(order, i as int))
    }

    /// The points whose glow start time differs between `self` and `next`.
    pub open spec fn restarted(self, next: ShineView<U>) -> Set<int> {
        Set::new(
            |i: int|
                0 <= i < self.num_points() && next.glow_start_times[i] != self.glow_start_times[i],
        )
    }

    /// Frames from the start of a glow until the point is dark and idle.
    pub open spec fn cycle(self) -> int {
        self.frames_to_max_glow + self.frames_to_fade
    }

    pub open spec fn elapsed(self, i: int) -> int {
        self.current_frame - self.glow_start_times[i]
    }

    /// Point `i` has finished its last glow and may start another.
    pub open spec fn eligible(self, i: int) -> bool {
        self.elapsed(i) >= self.cycle()
    }

    /// This frame starts a batch of glows.
    pub open spec fn batch_due(self) -> bool {
        self.frames_since_last_glow >= self.frames_between_glow_start
    }

    /// Point `i` starts a glow this frame: it is among the first
    /// `num_start_simultaneous` entries of `order`.
    pub open spec fn selected(self, order: Seq<usize>, i: int) -> bool {
        self.batch_due() && listed_within(order, self.num_start_simultaneous, i)
    }

    /// What a frame's random draws must be: `order` lists idle points only,
    /// each at most once, and every color drawn comes from the palette.
    pub open spec fn valid_draws(self, order: Seq<usize>, batch: Seq<U>, refresh: Seq<U>) -> bool {
        &&& order.no_duplicates()
        &&& forall|k: int|
            0 <= k < order.len() ==> order[k] < self.num_points() && self.eligible(
                order[k] as int,
            )
        &&& batch.len() == self.num_points()
        &&& refresh.len() == self.num_points()
        &&& forall|i: int| 0 <= i < batch.len() ==> self.colors.contains(#[trigger] batch[i])
        &&& forall|i: int| 0 <= i < refresh.len() ==> self.colors.contains(#[trigger] refresh[i])
    }

    /// On a batch frame `order` lists every idle point: with `valid_draws`,
    /// it is the idle points in some order.
    pub open spec fn complete_order(self, order: Seq<usize>) -> bool {
        self.batch_due() ==> forall|i: int|
            0 <= i < self.num_points() && self.eligible(i) ==> order.contains(i as usize)
    }

    /// The color point `i` shows after the batch, before dimming.
    pub open spec fn batch_color(self, order: Seq<usize>, batch: Seq<U>, i: int) -> U {
        if self.selected(order, i) {
            self.points[i].with_rgb(batch[i].rgb_view())
        } else {
            self.points[i]
        }
    }

    /// The state after one frame, given the frame's draws: the shuffled idle
    /// points `order`, a palette color per point for a glow that starts
    /// (`batch`), and a palette color per point for a point that has gone
    /// dark (`refresh`).
    pub open spec fn next(self, order: Seq<usize>, batch: Seq<U>, refresh: Seq<U>) -> ShineView<U> {
        let n = self.num_points();
        let starts = Seq::new(
            n as nat,
            |i: int|
                if self.selected(order, i) {
                    self.current_frame
                } else {
                    self.glow_start_times[i]
                },
        );
        let glow = Seq::new(
            n as nat,
            |i: int|
                if self.batch_color(order, batch, i).black() {
                    refresh[i]
                } else {
                    self.current_glow_colors[i]
                },
        );
        ShineView {
            points: Seq::new(
                n as nat,
                |i: int|
                    self.batch_color(order, batch, i).with_rgb(dimmed(
                        glow[i].rgb_view(),
                        self.current_frame - starts[i],
                        self.frames_to_max_glow,
                        self.frames_to_fade,
                    )),
            ),
            colors: self.colors,
            frames_between_glow_start: self.frames_between_glow_start,
            frames_to_max_glow: self.frames_to_max_glow,
            frames_to_fade: self.frames_to_fade,
            num_start_simultaneous: self.num_start_simultaneous,
            current_frame: self.current_frame + 1,
            glow_start_times: starts,
            frames_since_last_glow: if self.batch_due() {
                0
            } else {
                self.frames_since_last_glow + 1
            },
            current_glow_colors: glow,
        }
    }
}

/// A frame never shows a point brighter than the color it glows through:
/// each channel shown is at most that channel of the point's glow color.
pub proof fn lemma_frame_attenuates<U: RgbContainer>(
    s: ShineView<U>,
    order: Seq<usize>,
    batch: Seq<U>,
    refresh: Seq<U>,
)
    requires
        s.consistent(),
        s.valid_draws(order, batch, refresh),
    ensures
        ({
            let t = s.next(order, batch, refresh);
            forall|i: int|
                0 <= i < t.num_points() ==> {
                    &&& (#[trigger] t.points[i]).rgb_view().red <= t.current_glow_colors[i].rgb_view().red
                    &&& t.points[i].rgb_view().green <= t.current_glow_colors[i].rgb_view().green
                    &&& t.points[i].rgb_view().blue <= t.current_glow_colors[i].rgb_view().blue
                }
        }),
{
    let t = s.next(order, batch, refresh);
    assert forall|i: int| 0 <= i < t.num_points() implies {
        &&& (#[trigger] t.points[i]).rgb_view().red <= t.current_glow_colors[i].rgb_view().red
        &&& t.points[i].rgb_view().green <= t.current_glow_colors[i].rgb_view().green
        &&& t.points[i].rgb_view().blue <= t.current_glow_colors[i].rgb_view().blue
    } by {
        let g = t.current_glow_colors[i].rgb_view();
        let e = s.current_frame - t.glow_start_times[i];
        assert(s.glow_start_times[i] <= s.current_frame);
        s.batch_color(order, batch, i).lemma_with_rgb(
            dimmed(g, e, s.frames_to_max_glow, s.frames_to_fade),
        );
        lemma_scaled_channel_bounded(g.red as int, e, s.frames_to_max_glow, s.frames_to_fade);
        lemma_scaled_channel_bounded(g.green as int, e, s.frames_to_max_glow, s.frames_to_fade);
        lemma_scaled_channel_bounded(g.blue as int, e, s.frames_to_max_glow, s.frames_to_fade);
    }
}

/// No more than `num_start_simultaneous` points take a new glow start time in
/// one frame.
pub proof fn lemma_batch_bounded<U: RgbContainer>(
    s: ShineView<U>,
    order: Seq<usize>,
    batch: Seq<U>,
    refresh: Seq<U>,
)
    requires
        s.consistent(),
        s.valid_draws(order, batch, refresh),
    ensures
        s.restarted(s.next(order, batch, refresh)).len() <= s.num_start_simultaneous,
{
    broadcast use vstd::seq_lib::seq_to_set_is_finite;

    let t = s.next(order, batch, refresh);
    let m = if order.len() < s.num_start_simultaneous {
        order.len() as int
    } else {
        s.num_start_simultaneous
    };
    let listed = order.take(m).map_values(|x: usize| x as int);
    let sup = listed.to_set();
    assert forall|i: int| s.restarted(t).contains(i) implies sup.contains(i) by {
        let k = choose|k: int|
            0 <= k < s.num_start_simultaneous && k < order.len() && order[k] as int == i;
        assert(listed[k] == i);
    }
    listed.lemma_cardinality_of_set();
    vstd::set_lib::lemma_len_subset(s.restarted(t), sup);
}

/// On a batch frame whose order lists every idle point, as many points start
/// a glow as the batch size allows: `num_start_simultaneous`, or all the idle
/// points when there are fewer.
pub proof fn lemma_batch_size<U: RgbContainer>(
    s: ShineView<U>,
    order: Seq<usize>,
    batch: Seq<U>,
    refresh: Seq<U>,
)
    requires
        s.consistent(),
        s.valid_draws(order, batch, refresh),
        s.complete_order(order),
        s.batch_due(),
    ensures
        s.started(order).len() == if s.idle_points().len() < s.num_start_simultaneous {
            s.idle_points().len() as int
        } else {
            s.num_start_simultaneous
        },
{
    let m = if order.len() < s.num_start_simultaneous {
        order.len() as int
    } else {
        s.num_start_simultaneous
    };
    assert(order.to_set() =~= s.idle_points());
    order.unique_seq_to_set();
    let head = order.take(m);
    assert(head.no_duplicates());
    assert forall|x: usize| #[trigger] s.started(order).contains(x) <==> head.to_set().contains(x) by {
        if s.started(order).contains(x) {
            let k = choose|k: int|
                0 <= k < s.num_start_simultaneous && k < order.len() && order[k] as int == x as int;
            assert(head[k] == x);
        }
        if head.to_set().contains(x) {
            let k = choose|k: int| 0 <= k < head.len() && head[k] == x;
            assert(order[k] == x);
        }
    }
    assert(s.started(order) =~= head.to_set());
    head.unique_seq_to_set();
}

/// A point that has not finished its glow keeps its glow start time: it is
/// not offered a new glow before it has gone dark and idle.
pub proof fn lemma_cool_down<U: RgbContainer>(s: ShineView<U>, order: Seq<usize>, batch: Seq<U>, refresh: Seq<U>)
    requires
        s.consistent(),
        s.valid_draws(order, batch, refresh),
    ensures
        forall|i: int|
            0 <= i < s.num_points() && !s.eligible(i) ==> #[trigger] s.next(
                order,
                batch,
                refresh,
            ).glow_start_times[i] == s.glow_start_times[i],
{
    assert forall|i: int| 0 <= i < s.num_points() && !s.eligible(i) implies #[trigger] s.next(
        order,
        batch,
        refresh,
    ).glow_start_times[i] == s.glow_start_times[i] by {
        if s.selected(order, i) {
            let k = choose|k: int|
                0 <= k < s.num_start_simultaneous && k < order.len() && order[k] as int == i;
            assert(s.eligible(order[k] as int));
        }
    }
}

impl<U: RgbContainer> View for Shine<U> {
    type V = ShineView<U>;

    closed spec fn view(&self) -> ShineView<U> {
        ShineView {
            points: self.points@,
            colors: self.colors@,
            frames_between_glow_start: self.frames_between_glow_start as int,
            frames_to_max_glow: self.frames_to_max_glow as int,
            frames_to_fade: self.frames_to_fade as int,
            num_start_simultaneous: self.num_start_simultaneous as int,
            current_frame: self.current_frame as int,
            glow_start_times: self.glow_start_times@.map_values(|t: u64| t as int),
            frames_since_last_glow: self.frames_since_last_glow as int,
            current_glow_colors: self.current_glow_colors@,
        }
    }
}

impl<U: RgbContainer> Shine<U> {
    /// The engine's invariant.
    pub open spec fn wf(&self) -> bool {
        self@.consistent()
    }

    /// Everything but the points, their glow start times and the counters is
    /// as in `s`.
    closed spec fn keeps_setup(&self, s: ShineView<U>) -> bool {
        &&& self.colors@ == s.colors
        &&& self.frames_between_glow_start as int == s.frames_between_glow_start
        &&& self.frames_to_max_glow as int == s.frames_to_max_glow
        &&& self.frames_to_fade as int == s.frames_to_fade
        &&& self.num_start_simultaneous as int == s.num_start_simultaneous
        &&& self.current_frame as int == s.current_frame
    }

    /// Produces one frame from the given draws: `order` holds idle points in
    /// the order in which they are offered a glow, `batch[i]` is the color
    /// point `i` starts glowing with if it is chosen, and `refresh[i]` the
    /// color it glows through from now on if it is dark.
    pub fn step(&mut self, order: &Vec<usize>, batch: &Vec<U>, refresh: &Vec<U>) -> (r: Vec<
        U,
    >)
        requires
            old(self).wf(),
            old(self)@.current_frame < u64::MAX,
            old(self)@.valid_draws(order@, batch@, refresh@),
        ensures
            final(self).wf(),
            final(self)@ == old(self)@.next(order@, batch@, refresh@),
            r@ == final(self)@.points,
    {
        let ghost s = self@;
        let ghost t = s.next(order@, batch@, refresh@);
        let n = self.points.len();
        let due = self.frames_since_last_glow >= self.frames_between_glow_start;
        if due {
            let m = if order.len() < self.num_start_simultaneous {
                order.len()
            } else {
                self.num_start_simultaneous
            };
            let mut k: usize = 0;
            while k < m
                invariant
                    k <= m,
                    m <= order@.len(),
                    m <= self.num_start_simultaneous,
                    m == order@.len() || m == self.num_start_simultaneous,
                    n == s.num_points(),
                    self.keeps_setup(s),
                    self.current_glow_colors@ == s.current_glow_colors,
                    self.points@.len() == n,
                    self.glow_start_times@.len() == n,
                    s.valid_draws(order@, batch@, refresh@),
                    forall|i: int|
                        0 <= i < n ==> #[trigger] self.glow_start_times@[i] as int == if listed_within(
                            order@,
                            k as int,
                            i,
                        ) {
                            s.current_frame
                        } else {
                            s.glow_start_times[i]
                        },
                    forall|i: int|
                        0 <= i < n ==> #[trigger] self.points@[i] == if listed_within(
                            order@,
                            k as int,
                            i,
                        ) {
                            s.points[i].with_rgb(batch@[i].rgb_view())
                        } else {
                            s.points[i]
                        },
                decreases m - k,
            {
                let idx = order[k];
                proof {
                    if listed_within(order@, k as int, idx as int) {
                        let j = choose|j: int|
                            0 <= j < k as int && j < order@.len() && order@[j] as int == idx as int;
                        assert(order@[j] == order@[k as int]);
                    }
                }
                let c = self.points[idx].copy_with_new_rgb(batch[idx].get_rgb());
                self.glow_start_times.set(idx, self.current_frame);
                self.points.set(idx, c);
                proof {
                    assert forall|i: int|
                        listed_within(order@, k as int + 1, i) <==> listed_within(
                            order@,
                            k as int,
                            i,
                        ) || i == idx as int by {
                        if i == idx as int {
                            assert(order@[k as int] as int == i);
                        }
                        if listed_within(order@, k as int + 1, i) && i != idx as int {
                            let j = choose|j: int|
                                0 <= j < k as int + 1 && j < order@.len() && order@[j] as int
                                    == i;
                            assert(j < k as int);
                        }
                    }
                }
                k += 1;
            }
            proof {
                assert forall|i: int|
                    listed_within(order@, k as int, i) <==> listed_within(
                        order@,
                        s.num_start_simultaneous,
                        i,
                    ) by {
                    if listed_within(order@, s.num_start_simultaneous, i) {
                        let j = choose|j: int|
                            0 <= j < s.num_start_simultaneous && j < order@.len() && order@[j]
                                as int == i;
                        assert(j < k);
                    }
                }
            }
            self.frames_since_last_glow = 0;
        } else {
            self.frames_since_last_glow = self.frames_since_last_glow + 1;
        }
        assert(s.current_glow_colors.len() == n && s.glow_start_times.len() == n);
        assert forall|i: int| 0 <= i < n implies #[trigger] self.glow_start_times@[i] as int
            == t.glow_start_times[i] && self.points@[i] == s.batch_color(order@, batch@, i)
            && self.glow_start_times@[i] <= self.current_frame by {
            assert(s.glow_start_times[i] <= s.current_frame);
        }
        let mut i: usize = 0;
        while i < n
            invariant
                i <= n,
                n == s.num_points(),
                self.keeps_setup(s),
                self.points@.len() == n,
                self.glow_start_times@.len() == n,
                self.current_glow_colors@.len() == n,
                s.valid_draws(order@, batch@, refresh@),
                t == s.next(order@, batch@, refresh@),
                self.frames_since_last_glow as int == t.frames_since_last_glow,
                forall|j: int|
                    0 <= j < n ==> #[trigger] self.glow_start_times@[j] as int
                        == t.glow_start_times[j],
                s.current_glow_colors.len() == n,
                s.glow_start_times.len() == n,
                forall|j: int| 0 <= j < i ==> #[trigger] self.points@[j] == t.points[j],
                forall|j: int|
                    0 <= j < i ==> #[trigger] self.current_glow_colors@[j]
                        == t.current_glow_colors[j],
                forall|j: int|
                    i <= j < n ==> #[trigger] self.points@[j] == s.batch_color(order@, batch@, j),
                forall|j: int|
                    i <= j < n ==> #[trigger] self.current_glow_colors@[j]
                        == s.current_glow_colors[j],
                forall|j: int|
                    0 <= j < n ==> self.colors@.contains(#[trigger] self.current_glow_colors@[j]),
                forall|j: int| 0 <= j < n ==> self.glow_start_times@[j] <= self.current_frame,
            decreases n - i,
        {
            let elapsed = self.current_frame - self.glow_start_times[i];
            let glow = if self.points[i].is_black() {
                assert(s.colors.contains(refresh@[i as int]));
                self.current_glow_colors.set(i, refresh[i]);
                refresh[i]
            } else {
                self.current_glow_colors[i]
            };
            let shown = dim_color(glow.get_rgb(), elapsed, self.frames_to_max_glow, self.frames_to_fade);
            let c = self.points[i].copy_with_new_rgb(shown);
            self.points.set(i, c);
            i += 1;
        }
        self.current_frame = self.current_frame + 1;
        proof {
            assert(self.points@ =~= t.points);
            assert(self.current_glow_colors@ =~= t.current_glow_colors);
            assert(self@.glow_start_times =~= t.glow_start_times);
        }
        copy_all(&self.points)
    }

    /// The colors the points show, in the order of the points.
    pub fn points(&self) -> (r: Vec<U>)
        ensures
            r@ == self@.points,
    {
        copy_all(&self.points)
    }

    /// The palette.
    pub fn colors(&self) -> (r: &Vec<U>)
        ensures
            r@ == self@.colors,
    {
        &self.colors
    }

    pub fn current_frame(&self) -> (r: u64)
        ensures
            r == self@.current_frame,
    {
        self.current_frame
    }

    pub fn frames_since_last_glow(&self) -> (r: u32)
        ensures
            r == self@.frames_since_last_glow,
    {
        self.frames_since_last_glow
    }

    pub fn num_start_simultaneous(&self) -> (r: usize)
        ensures
            r == self@.num_start_simultaneous,
    {
        self.num_start_simultaneous
    }

    /// The frame at which each point last started to glow.
    pub fn glow_start_times(&self) -> (r: &Vec<u64>)
        ensures
            r@.len() == self@.glow_start_times.len(),
            forall|i: int| 0 <= i < r@.len() ==> r@[i] as int == #[trigger] self@.glow_start_times[i],
    {
        &self.glow_start_times
    }

    /// The color each point glows through.
    pub fn current_glow_colors(&self) -> (r: &Vec<U>)
        ensures
            r@ == self@.current_glow_colors,
    {
        &self.current_glow_colors
    }

    /// The idle points, in increasing order.
    pub fn eligible_points(&self) -> (r: Vec<usize>)
        requires
            self.wf(),
        ensures
            forall|k: int|
                0 <= k < r@.len() ==> r@[k] < self@.num_points() && self@.eligible(
                    #[trigger] r@[k] as int,
                ),
            forall|i: int| 0 <= i < self@.num_points() && self@.eligible(i) ==> r@.contains(i as usize),
            forall|k1: int, k2: int| 0 <= k1 < k2 < r@.len() ==> r@[k1] < r@[k2],
    {
        let n = self.points.len();
        let cycle: u64 = self.frames_to_max_glow as u64 + self.frames_to_fade as u64;
        let mut r: Vec<usize> = Vec::new();
        let mut i: usize = 0;
        while i < n
            invariant
                i <= n,
                n == self@.num_points(),
                self.wf(),
                cycle == self@.cycle(),
                forall|k: int|
                    0 <= k < r@.len() ==> r@[k] < i && self@.eligible(#[trigger] r@[k] as int),
                forall|j: int| 0 <= j < i && self@.eligible(j) ==> r@.contains(j as usize),
                forall|k1: int, k2: int| 0 <= k1 < k2 < r@.len() ==> r@[k1] < r@[k2],
            decreases n - i,
        {
            assert(self@.glow_start_times[i as int] == self.glow_start_times@[i as int]);
            let ghost before = r@;
            if self.current_frame - self.glow_start_times[i] >= cycle {
                r.push(i);
                assert(r@ =~= before.push(i));
                assert(r@[r@.len() - 1] == i);
                assert forall|x: usize| before.contains(x) implies #[trigger] r@.contains(x) by {
                    let k = choose|k: int| 0 <= k < before.len() && before[k] == x;
                    assert(r@[k] == x);
                }
            }
            i += 1;
        }
        r
    }

    /// `n` colors drawn from the palette.
    fn draw_colors(&self, n: usize) -> (r: Vec<U>)
        requires
            self.wf(),
        ensures
            r@.len() == n,
            forall|k: int| 0 <= k < r@.len() ==> self@.colors.contains(#[trigger] r@[k]),
    {
        let mut r: Vec<U> = Vec::new();
        while r.len() < n
            invariant
                r@.len() <= n,
                self.wf(),
                forall|k: int| 0 <= k < r@.len() ==> self@.colors.contains(#[trigger] r@[k]),
            decreases n - r@.len(),
        {
            let c = match choose_color(&self.colors) {
                Some(c) => c,
                None => self.colors[0],
            };
            r.push(c);
            assert(r@[r@.len() - 1] == c);
        }
        r
    }

    /// Builds an engine over the points' colors, with a palette made of the
    /// distinct colors of `colors`.
    pub fn new(
        points: Vec<U>,
        colors: Vec<U>,
        frames_between_glow_start: u32,
        frames_to_max_glow: u32,
        frames_to_fade: u32,
        num_start_simultaneous: usize,
    ) -> (r: Result<Shine<U>, ShineError>)
        ensures
            (num_start_simultaneous == 0 || num_start_simultaneous > points@.len()) <==> r
                == Err::<Shine<U>, ShineError>(ShineError::InvalidNumStartSimultaneous),
            r == Err::<Shine<U>, ShineError>(ShineError::ColorSetIsEmpty) <==> (1
                <= num_start_simultaneous <= points@.len() && colors@.len() == 0),
            r is Ok <==> (1 <= num_start_simultaneous <= points@.len() && colors@.len() > 0),
            r matches Ok(s) ==> {
                &&& s.wf()
                &&& s@.points == points@
                &&& forall|c: U| s@.colors.contains(c) <==> colors@.contains(c)
                &&& s@.frames_between_glow_start == frames_between_glow_start
                &&& s@.frames_to_max_glow == frames_to_max_glow
                &&& s@.frames_to_fade == frames_to_fade
                &&& s@.num_start_simultaneous == num_start_simultaneous
                &&& s@.current_frame == 2 * (frames_to_max_glow + frames_to_fade)
                &&& s@.glow_start_times == Seq::new(points@.len(), |i: int| 0int)
                &&& s@.frames_since_last_glow == frames_between_glow_start
                &&& s@.current_glow_colors == Seq::new(points@.len(), |i: int| colors@[0])
            },
    {
        if num_start_simultaneous == 0 || num_start_simultaneous > points.len() {
            return Err(ShineError::InvalidNumStartSimultaneous);
        }
        if colors.len() == 0 {
            return Err(ShineError::ColorSetIsEmpty);
        }
        let palette = distinct(&colors);
        let current_frame: u64 = 2 * (frames_to_max_glow as u64 + frames_to_fade as u64);
        let n = points.len();
        let glow_start_times: Vec<u64> = vec![0u64; n];
        let first = palette[0];
        let current_glow_colors: Vec<U> = repeat(first, n);
        let s = Shine {
            points,
            colors: palette,
            frames_between_glow_start,
            frames_to_max_glow,
            frames_to_fade,
            num_start_simultaneous,
            current_frame,
            glow_start_times,
            frames_since_last_glow: frames_between_glow_start,
            current_glow_colors,
        };
        assert(s@.glow_start_times =~= Seq::new(n as nat, |i: int| 0int));
        assert(s@.current_glow_colors =~= Seq::new(n as nat, |i: int| colors@[0]));
        Ok(s)
    }
}

impl<U: RgbContainer> Effect<U> for Shine<U> {
    open spec fn ready(&self) -> bool {
        self.wf() && self@.current_frame < u64::MAX
    }

    open spec fn frame_count(&self) -> int {
        self@.current_frame
    }

    open spec fn num_points(&self) -> nat {
        self@.points.len()
    }

    /// The next state follows from some valid draws of the random source.
    open spec fn advances(&self, next: Self, frame: Seq<U>) -> bool {
        &&& next.wf()
        &&& frame == next@.points
        &&& exists|order: Seq<usize>, batch: Seq<U>, refresh: Seq<U>|
            self@.valid_draws(order, batch, refresh) && self@.complete_order(order) && next@
                == self@.next(order, batch, refresh)
    }

    /// Produces the next frame: on a batch frame the idle points are shuffled
    /// and the first `num_start_simultaneous` of them start a glow with a
    /// random palette color; then every point is dimmed along its glow.
    fn get_frame(&mut self) -> (r: Vec<U>) {
        broadcast use vstd::seq_lib::group_to_multiset_ensures;

        let n = self.points.len();
        let due = self.frames_since_last_glow >= self.frames_between_glow_start;
        let mut order: Vec<usize> = Vec::new();
        let batch: Vec<U>;
        if due {
            order = self.eligible_points();
            let ghost listed = order@;
            shuffle_indices(&mut order);
            assert forall|k: int| 0 <= k < order@.len() implies order@[k] < n && self@.eligible(
                #[trigger] order@[k] as int,
            ) by {
                assert(order@.to_multiset().count(order@[k]) > 0);
                assert(listed.contains(order@[k]));
            }
            proof {
                assert forall|a: int, b: int|
                    0 <= a < listed.len() && 0 <= b < listed.len() && a != b implies listed[a]
                    != listed[b] by {
                    if a < b {
                        assert(listed[a] < listed[b]);
                    } else {
                        assert(listed[b] < listed[a]);
                    }
                }
                listed.lemma_multiset_has_no_duplicates();
                order@.lemma_multiset_has_no_duplicates_conv();
                assert forall|i: int|
                    0 <= i < self@.num_points() && self@.eligible(i) implies order@.contains(
                    i as usize,
                ) by {
                    assert(listed.contains(i as usize));
                    assert(listed.to_multiset().count(i as usize) > 0);
                }
            }
            batch = self.draw_colors(n);
        } else {
            let first = self.colors[0];
            batch = repeat(first, n);
            assert forall|k: int| 0 <= k < batch@.len() implies self@.colors.contains(
                #[trigger] batch@[k],
            ) by {
                assert(self@.colors[0] == batch@[k]);
            }
        }
        let refresh = self.draw_colors(n);
        let ghost s = self@;
        let r = self.step(&order, &batch, &refresh);
        assert(s.valid_draws(order@, batch@, refresh@));
        assert(s.complete_order(order@));
        r
    }
}

/// A copy of `v`.
fn copy_all<T: Copy>(v: &Vec<T>) -> (r: Vec<T>)
    ensures
        r@ == v@,
{
    let mut r: Vec<T> = Vec::new();
    let mut i: usize = 0;
    while i < v.len()
        invariant
            i <= v@.len(),
            r@ == v@.take(i as int),
        decreases v@.len() - i,
    {
        r.push(v[i]);
        i += 1;
        assert(r@ =~= v@.take(i as int));
    }
    assert(v@.take(i as int) =~= v@);
    r
}

/// `n` copies of `x`.
fn repeat<T: Copy>(x: T, n: usize) -> (r: Vec<T>)
    ensures
        r@ == Seq::new(n as nat, |i: int| x),
{
    let mut r: Vec<T> = Vec::new();
    while r.len() < n
        invariant
            r@.len() <= n,
            forall|i: int| 0 <= i < r@.len() ==> r@[i] == x,
        decreases n - r@.len(),
    {
        r.push(x);
    }
    assert(r@ =~= Seq::new(n as nat, |i: int| x));
    r
}

/// The distinct colors of `colors`, each where it first occurs.
fn distinct<U: RgbContainer>(colors: &Vec<U>) -> (r: Vec<U>)
    ensures
        r@.no_duplicates(),
        forall|c: U| r@.contains(c) <==> colors@.contains(c),
        colors@.len() > 0 ==> r@.len() > 0 && r@[0] == colors@[0],
{
    let mut r: Vec<U> = Vec::new();
    let mut k: usize = 0;
    while k < colors.len()
        invariant
            k <= colors@.len(),
            r@.no_duplicates(),
            forall|c: U| r@.contains(c) <==> colors@.take(k as int).contains(c),
            k > 0 ==> r@.len() > 0 && r@[0] == colors@[0],
            k == 0 ==> r@.len() == 0,
        decreases colors@.len() - k,
    {
        let c = colors[k];
        let mut seen = false;
        let mut j: usize = 0;
        while j < r.len()
            invariant
                j <= r@.len(),
                seen <==> r@.take(j as int).contains(c),
            decreases r@.len() - j,
        {
            proof {
                assert(r@.take(j as int + 1) =~= r@.take(j as int).push(r@[j as int]));
                assert(r@.take(j as int + 1)[j as int] == r@[j as int]);
                assert(forall|x: U|
                    r@.take(j as int).contains(x) ==> #[trigger] r@.take(j as int + 1).contains(
                        x,
                    ));
            }
            if r[j].same_color(&c) {
                seen = true;
            }
            j += 1;
        }
        proof {
            assert(r@.take(j as int) =~= r@);
            assert(colors@.take(k as int + 1) =~= colors@.take(k as int).push(c));
            assert(colors@.take(k as int + 1)[k as int] == c);
            assert(forall|x: U|
                colors@.take(k as int).contains(x) ==> #[trigger] colors@.take(
                    k as int + 1,
                ).contains(x));
            assert(forall|x: U|
                #[trigger] colors@.take(k as int + 1).contains(x) ==> colors@.take(
                    k as int,
                ).contains(x) || x == c);
        }
        let ghost old_r = r@;
        if !seen {
            r.push(c);
            proof {
                assert(r@ =~= old_r.push(c));
                assert(r@[r@.len() - 1] == c);
                assert forall|x: U| old_r.contains(x) implies #[trigger] r@.contains(x) by {
                    let i = choose|i: int| 0 <= i < old_r.len() && old_r[i] == x;
                    assert(r@[i] == x);
                }
                assert(forall|x: U|
                    #[trigger] r@.contains(x) ==> old_r.contains(x) || x == c);
            }
        }
        k += 1;
    }
    proof {
        assert(colors@.take(k as int) =~= colors@);
    }
    r
}

} // verus!
