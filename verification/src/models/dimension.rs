use vstd::prelude::*;
use crate::text::{append_decimal, decimal};

verus! {

/// The width and height of a video track, in pixels.
#[derive(Clone, Copy, Debug, PartialEq, Eq, Structural)]
pub struct Dimension {
    pub width: u32,
    pub height: u32,
}

/// A dimension as a playlist writes it: `WIDTHxHEIGHT`.
pub open spec fn dimension_text(width: u32, height: u32) -> Seq<char> {
    decimal(width as nat) + seq!['x'] + decimal(height as nat)
}

impl Dimension {
    pub fn new(width: u32, height: u32) -> (res: Dimension)
        ensures
            res.width == width,
            res.height == height,
    {
        Dimension { width, height }
    }

    /// The dimension as text, such as `1920x1080`.
    pub fn to_string(&self) -> (res: String)
        ensures
            res@ == dimension_text(self.width, self.height),
    {
        let mut out = String::new();
        append_decimal(&mut out, self.width as u64);
        proof {
            reveal_strlit("x");
        }
        out.append("x");
        append_decimal(&mut out, self.height as u64);
        out
    }
}

} // verus!
