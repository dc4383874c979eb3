/*!
 * Error values for nImage header parsing and validation.
 *
 * Part-level failures found while parsing an image header are wrapped in
 * `ImageValidError::InvalidPart` together with the index of the offending
 * part, so the cause of a nested failure stays visible.
 */

use vstd::prelude::*;

verus! {

/// Errors that may be seen when parsing/validating an nImage header
#[derive(Clone, Copy, Debug, PartialEq, Eq, Structural)]
pub enum ImageValidError {
    BadSize(usize),
    BadMagic(u64),
    UnsupportedVersion(u8),
    NameTooLong(usize),
    TooManyParts(usize),
    InvalidPart { index: usize, err: PartValidError },
    BadHash { expected: u32, actual: u32 },
}

/// Errors that may be seen when parsing/validating an nImage part header
#[derive(Clone, Copy, Debug, PartialEq, Eq, Structural)]
pub enum PartValidError {
    BadSize(usize),
    BadMagic(u64),
    BadType(u8),
    BadComp(u8),
    BadHash { expected: u32, actual: u32 },
}

pub type ImageValidResult<T> = Result<T, ImageValidError>;

pub type PartValidResult<T> = Result<T, PartValidError>;

impl ImageValidError {
    /// Explicit accessor for the nested cause of an `InvalidPart` error.
    pub fn cause(&self) -> (r: Option<&PartValidError>)
        ensures
            match *self {
                ImageValidError::InvalidPart { index, err } => r == Some(&err),
                _ => r is None,
            },
    {
        match self {
            ImageValidError::InvalidPart { index: _, err } => Some(err),
            _ => None,
        }
    }
}

} // verus!
