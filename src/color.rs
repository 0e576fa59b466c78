use vstd::prelude::*;

verus! {

/// A color value that can tell whether it is fully dark.
pub trait ColorContainer: Sized + Copy {
    /// Every channel is zero.
    spec fn black(&self) -> bool;

    fn is_black(&self) -> (r: bool)
        ensures
            r == self.black(),
    ;

    /// The two values are the same color.
    fn same_color(&self, other: &Self) -> (r: bool)
        ensures
            r == (*self == *other),
    ;
}

/// A color whose red, green and blue channels can be read and replaced.
pub trait RgbContainer: ColorContainer {
    /// The red, green and blue channels of the value.
    spec fn rgb_view(&self) -> RGB;

    /// The value with its red, green and blue channels set to `rgb`.
    spec fn with_rgb(&self, rgb: RGB) -> Self;

    /// Setting the red, green and blue channels sets them and nothing else
    /// that they show.
    proof fn lemma_with_rgb(&self, rgb: RGB)
        ensures
            self.with_rgb(rgb).rgb_view() == rgb,
    ;

    fn get_rgb(&self) -> (r: RGB)
        ensures
            r == self.rgb_view(),
    ;

    /// The same kind of color with its red, green and blue channels
    /// replaced; what becomes of any other channel it carries is left to the
    /// type.
    fn copy_with_new_rgb(&self, rgb: RGB) -> (r: Self)
        ensures
            r == self.with_rgb(rgb),
    ;
}

/// A color whose red, green, blue and white channels can be read and replaced.
pub trait RgbwContainer: ColorContainer {
    /// The red, green, blue and white channels of the value.
    spec fn rgbw_view(&self) -> RGBW;

    fn get_rgbw(&self) -> (r: RGBW)
        ensures
            r == self.rgbw_view(),
    ;

    fn copy_with_new_rgbw(&self, rgbw: RGBW) -> (r: Self)
        ensures
            r.rgbw_view() == rgbw,
    ;
}

#[derive(Debug, Clone, Copy, PartialEq, Eq, Hash, Structural)]
pub struct RGB {
    pub red: u8,
    pub green: u8,
    pub blue: u8,
}

#[derive(Debug, Clone, Copy, PartialEq, Eq, Hash, Structural)]
pub struct RGBW {
    pub red: u8,
    pub green: u8,
    pub blue: u8,
    pub white: u8,
}

impl ColorContainer for RGB {
    open spec fn black(&self) -> bool {
        self.red == 0 && self.green == 0 && self.blue == 0
    }

    fn is_black(&self) -> (r: bool) {
        self.red == 0 && self.green == 0 && self.blue == 0
    }

    fn same_color(&self, other: &Self) -> (r: bool) {
        self.red == other.red && self.green == other.green && self.blue == other.blue
    }
}

impl RgbContainer for RGB {
    open spec fn rgb_view(&self) -> RGB {
        *self
    }

    open spec fn with_rgb(&self, rgb: RGB) -> RGB {
        rgb
    }

    proof fn lemma_with_rgb(&self, rgb: RGB) {
    }

    fn get_rgb(&self) -> (r: RGB) {
        *self
    }

    fn copy_with_new_rgb(&self, rgb: RGB) -> (r: Self) {
        RGB { red: rgb.red, green: rgb.green, blue: rgb.blue }
    }
}

impl ColorContainer for RGBW {
    open spec fn black(&self) -> bool {
        self.red == 0 && self.green == 0 && self.blue == 0 && self.white == 0
    }

    fn is_black(&self) -> (r: bool) {
        self.red == 0 && self.green == 0 && self.blue == 0 && self.white == 0
    }

    fn same_color(&self, other: &Self) -> (r: bool) {
        self.red == other.red && self.green == other.green && self.blue == other.blue
            && self.white == other.white
    }
}

impl RgbwContainer for RGBW {
    open spec fn rgbw_view(&self) -> RGBW {
        *self
    }

    fn get_rgbw(&self) -> (r: RGBW) {
        *self
    }

    fn copy_with_new_rgbw(&self, rgbw: RGBW) -> (r: Self) {
        RGBW { red: rgbw.red, green: rgbw.green, blue: rgbw.blue, white: rgbw.white }
    }
}

} // verus!
