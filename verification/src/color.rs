//! An RGB colour and its checked conversions from signed integers.

use vstd::prelude::*;
use vstd::std_specs::convert::TryFromSpecImpl;

verus! {

/// A colour of three channels.
#[derive(Debug, PartialEq, Eq, Structural)]
pub struct Color {
    pub red: u8,
    pub green: u8,
    pub blue: u8,
}

/// Why a conversion into a colour failed.
#[derive(Debug, PartialEq, Eq, Structural)]
pub enum IntoColorError {
    /// The slice does not hold exactly three values.
    BadLen,
    /// A value is outside `0..=255`.
    IntConversion,
}

/// `v` fits a colour channel.
pub open spec fn is_channel(v: i16) -> bool {
    0 <= v <= 255
}

/// The colour of three channel values, or the error when one of them does
/// not fit.
pub open spec fn color_of(red: i16, green: i16, blue: i16) -> Result<Color, IntoColorError> {
    if is_channel(red) && is_channel(green) && is_channel(blue) {
        Ok(Color { red: red as u8, green: green as u8, blue: blue as u8 })
    } else {
        Err(IntoColorError::IntConversion)
    }
}

/// The colour of a sequence of channel values: it must hold three values,
/// and each must fit.
pub open spec fn color_of_seq(values: Seq<i16>) -> Result<Color, IntoColorError> {
    if values.len() != 3 {
        Err(IntoColorError::BadLen)
    } else {
        color_of(values[0], values[1], values[2])
    }
}

fn channel_fits(v: i16) -> (fits: bool)
    ensures
        fits == is_channel(v),
{
    0 <= v && v <= 255
}

impl TryFromSpecImpl<(i16, i16, i16)> for Color {
    open spec fn obeys_try_from_spec() -> bool {
        true
    }

    open spec fn try_from_spec(tuple: (i16, i16, i16)) -> Result<Self, Self::Error> {
        color_of(tuple.0, tuple.1, tuple.2)
    }
}

impl TryFrom<(i16, i16, i16)> for Color {
    type Error = IntoColorError;

    fn try_from(tuple: (i16, i16, i16)) -> (ret: Result<Self, Self::Error>) {
        let (red, green, blue) = tuple;
        if red < 0 || red > 255 || green < 0 || green > 255 || blue < 0 || blue > 255 {
            return Err(IntoColorError::IntConversion);
        }
        Ok(Color { red: red as u8, green: green as u8, blue: blue as u8 })
    }
}

impl TryFromSpecImpl<[i16; 3]> for Color {
    open spec fn obeys_try_from_spec() -> bool {
        true
    }

    open spec fn try_from_spec(arr: [i16; 3]) -> Result<Self, Self::Error> {
        color_of_seq(arr@)
    }
}

impl TryFrom<[i16; 3]> for Color {
    type Error = IntoColorError;

    fn try_from(arr: [i16; 3]) -> (ret: Result<Self, Self::Error>) {
        if !channel_fits(arr[0]) || !channel_fits(arr[1]) || !channel_fits(arr[2]) {
            return Err(IntoColorError::IntConversion);
        }
        Ok(Color { red: arr[0] as u8, green: arr[1] as u8, blue: arr[2] as u8 })
    }
}

impl TryFromSpecImpl<&[i16]> for Color {
    open spec fn obeys_try_from_spec() -> bool {
        true
    }

    open spec fn try_from_spec(slice: &[i16]) -> Result<Self, Self::Error> {
        color_of_seq(slice@)
    }
}

impl TryFrom<&[i16]> for Color {
    type Error = IntoColorError;

    fn try_from(slice: &[i16]) -> (ret: Result<Self, Self::Error>) {
        if slice.len() != 3 {
            return Err(IntoColorError::BadLen);
        }
        if !channel_fits(slice[0]) || !channel_fits(slice[1]) || !channel_fits(slice[2]) {
            return Err(IntoColorError::IntConversion);
        }
        Ok(Color { red: slice[0] as u8, green: slice[1] as u8, blue: slice[2] as u8 })
    }
}

} // verus!
