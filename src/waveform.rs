use vstd::prelude::*;

verus! {

/// Oscillator wave shapes.
#[derive(Clone, Copy, PartialEq, Eq, Structural, Debug)]
pub enum Waveform {
    Sine,
    Square,
    Triangle,
    Sawtooth,
}

pub const IDX_SINE: usize = 0;

pub const IDX_SAWTOOTH: usize = 1;

pub const IDX_SQUARE: usize = 2;

pub const IDX_TRIANGLE: usize = 3;

/// Number of wave shapes, and so the bound of a valid index.
pub const WAVEFORM_COUNT: usize = 4;

/// The stored index of each wave shape.
pub open spec fn index_of(w: Waveform) -> usize {
    match w {
        Waveform::Sine => IDX_SINE,
        Waveform::Sawtooth => IDX_SAWTOOTH,
        Waveform::Square => IDX_SQUARE,
        Waveform::Triangle => IDX_TRIANGLE,
    }
}

impl Waveform {
    pub fn to_index(self) -> (r: usize)
        ensures
            r == index_of(self),
            r < WAVEFORM_COUNT,
    {
        match self {
            Self::Sine => IDX_SINE,
            Self::Sawtooth => IDX_SAWTOOTH,
            Self::Square => IDX_SQUARE,
            Self::Triangle => IDX_TRIANGLE,
        }
    }

    /// The wave shape stored under `index`; the inverse of `to_index`.
    pub fn from_index(index: usize) -> (r: Waveform)
        requires
            index < WAVEFORM_COUNT,
        ensures
            index_of(r) == index,
    {
        if index == IDX_SINE {
            Self::Sine
        } else if index == IDX_SAWTOOTH {
            Self::Sawtooth
        } else if index == IDX_SQUARE {
            Self::Square
        } else {
            Self::Triangle
        }
    }
}

} // verus!
