use vstd::prelude::*;

pub mod formatter;
pub mod parser;
pub mod round_trip;

verus! {

/// The notations a color can be written in.
#[derive(Clone, Copy, Debug, PartialEq, Eq, PartialOrd, Ord, Hash, Structural)]
pub enum TargetFormats {
    Intrgb,
    Intrgba,
    Floatrgb,
    Floatrgba,
    Hexrgb,
    Hexrgba,
}

} // verus!
