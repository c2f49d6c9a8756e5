//! An 8-bit RGBA colour.
use vstd::prelude::*;
use vstd::std_specs::convert::FromSpecImpl;

verus! {

/// A colour with one byte per channel; alpha 255 is opaque.
#[derive(Clone, Copy, Debug, PartialEq, Eq, Structural)]
pub struct Color {
    red: u8,
    green: u8,
    blue: u8,
    alpha: u8,
}

impl Color {
    /// The channels as (red, green, blue, alpha).
    pub closed spec fn channels(self) -> (u8, u8, u8, u8) {
        (self.red, self.green, self.blue, self.alpha)
    }

    /// The colour with the given (red, green, blue, alpha).
    pub closed spec fn with_channels(c: (u8, u8, u8, u8)) -> Color {
        Color { red: c.0, green: c.1, blue: c.2, alpha: c.3 }
    }

    pub broadcast proof fn lemma_channels_of(c: (u8, u8, u8, u8))
        ensures
            #[trigger] Color::with_channels(c).channels() == c,
    {
    }

    /// An opaque colour.
    pub fn new(red: u8, green: u8, blue: u8) -> (c: Self)
        ensures
            c.channels() == (red, green, blue, 255u8),
    {
        Color { red, green, blue, alpha: 255 }
    }

    pub fn new_alpha(red: u8, green: u8, blue: u8, alpha: u8) -> (c: Self)
        ensures
            c.channels() == (red, green, blue, alpha),
    {
        Color { red, green, blue, alpha }
    }

    /// The channels as (red, green, blue, alpha); the renderer widens them
    /// to floats.
    pub fn rgba(&self) -> (r: (u8, u8, u8, u8))
        ensures
            r == self.channels(),
    {
        (self.red, self.green, self.blue, self.alpha)
    }

    /// The colour that a list of channel values describes: red, green,
    /// blue and alpha in that order, a missing colour channel taken as 0
    /// and a missing alpha as 255; values past the fourth are ignored.
    pub open spec fn channels_from_values(values: Seq<u8>) -> (u8, u8, u8, u8) {
        (
            if values.len() > 0 { values[0] } else { 0 },
            if values.len() > 1 { values[1] } else { 0 },
            if values.len() > 2 { values[2] } else { 0 },
            if values.len() > 3 { values[3] } else { 255 },
        )
    }
}

impl From<&[u8]> for Color {
    fn from(values: &[u8]) -> (c: Self) {
        let red = if values.len() > 0 {
            values[0]
        } else {
            0
        };
        let green = if values.len() > 1 {
            values[1]
        } else {
            0
        };
        let blue = if values.len() > 2 {
            values[2]
        } else {
            0
        };
        let alpha = if values.len() > 3 {
            values[3]
        } else {
            255
        };
        Color { red, green, blue, alpha }
    }
}

impl FromSpecImpl<&[u8]> for Color {
    open spec fn obeys_from_spec() -> bool {
        true
    }

    open spec fn from_spec(values: &[u8]) -> Color {
        Color::with_channels(Color::channels_from_values(values@))
    }
}

impl From<[u8; 3]> for Color {
    fn from(values: [u8; 3]) -> (c: Self) {
        Color { red: values[0], green: values[1], blue: values[2], alpha: 255 }
    }
}

impl FromSpecImpl<[u8; 3]> for Color {
    open spec fn obeys_from_spec() -> bool {
        true
    }

    open spec fn from_spec(values: [u8; 3]) -> Color {
        Color::with_channels((values@[0], values@[1], values@[2], 255u8))
    }
}

impl From<[u8; 4]> for Color {
    fn from(values: [u8; 4]) -> (c: Self) {
        Color { red: values[0], green: values[1], blue: values[2], alpha: values[3] }
    }
}

impl FromSpecImpl<[u8; 4]> for Color {
    open spec fn obeys_from_spec() -> bool {
        true
    }

    open spec fn from_spec(values: [u8; 4]) -> Color {
        Color::with_channels((values@[0], values@[1], values@[2], values@[3]))
    }
}

} // verus!
