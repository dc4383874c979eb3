/*!
 * nimage: parsing, validation, and serialization for the nImage binary
 * container format, with machine-checked contracts.
 */

use vstd::prelude::*;

pub mod cmdline;
pub mod errors;
pub mod format;
pub mod util;
pub mod xxhio;

verus! {

/// 8-byte magic for the nImage header, "NEWBSIMG" in ASCII as a little-endian u64
pub const NIMG_HDR_MAGIC: u64 = 0x474D4953_4257454E_u64;

/// 8-byte magic for each nImage part, "NIMGPART" in ASCII as a little-endian u64
pub const NIMG_PHDR_MAGIC: u64 = 0x54524150_474d494e_u64;

/// Current (latest) version of the nImage format supported by this code
pub const NIMG_CURRENT_VERSION: u8 = 3;

/// Size of the nImage header
pub const NIMG_HDR_SIZE: usize = 1024;

/// Size of each nImage part header
pub const NIMG_PHDR_SIZE: usize = 32;

/// Max length (in bytes without a null-terminator) of the nImage name field
pub const NIMG_NAME_LEN: usize = 128;

/// Max number of parts in an image
pub const NIMG_MAX_PARTS: usize = 27;

} // verus!
