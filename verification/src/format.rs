/*!
 * Definitions, parsing, and serialization for the nImage header and binary
 * format.
 *
 * The wire format is fixed: a 1024-byte image header holding a magic, a
 * version, a part count, a 128-byte name field, up to 27 part-header slots
 * of 32 bytes each, reserved zero bytes, and a trailing xxHash32 checksum
 * over everything before it. The spec functions in this module state that
 * layout byte for byte, and the executable codec is proved against them.
 */

use vstd::bytes::{spec_u32_from_le_bytes, spec_u32_to_le_bytes, spec_u64_from_le_bytes,
    spec_u64_to_le_bytes, u32_to_le_bytes};
use vstd::prelude::*;
use vstd::string::StringExecFns;
use vstd::utf8::{decode_utf8, encode_utf8, valid_utf8};

use crate::errors::{ImageValidError, ImageValidResult, PartValidError, PartValidResult};
use crate::util::{zero_seq, ReadHelper, SliceCursor, SeekFrom, VecCursor, WriteHelper};
use crate::xxhio::{xxh32_of, xxhash32};
use crate::{NIMG_CURRENT_VERSION, NIMG_HDR_MAGIC, NIMG_HDR_SIZE, NIMG_MAX_PARTS, NIMG_NAME_LEN,
    NIMG_PHDR_MAGIC, NIMG_PHDR_SIZE};

verus! {

/// Content type of one image part.
#[derive(Copy, Clone, Debug, Eq, PartialEq, Structural)]
pub enum PartType {
    /// Invalid/undefined type
    Invalid,
    /// Filesystem image for /boot, should be FAT for Raspberry Pi
    BootImg,
    /// Filesystem contents to be extracted to /boot
    BootTar,
    /// Filesystem image for the rootfs that should be mounted read-only
    Rootfs,
    /// Filesystem image for the rootfs that should be mounted read-write
    RootfsRw,
}

/// Compression mode of one image part's stored bytes.
#[derive(Copy, Clone, Debug, Eq, PartialEq, Structural)]
pub enum CompMode {
    /// Part is uncompressed
    NoComp,
    /// Part is compressed with zstd
    Zstd,
    /// Part is compressed with an unspecified format that's readable by
    /// libarchive(3) or bsdcat(1), but otherwise opaque to this library.
    LibArchive,
}

/// The wire encoding of a part type.
pub open spec fn spec_part_type_u8(t: PartType) -> u8 {
    match t {
        PartType::Invalid => 0,
        PartType::BootImg => 1,
        PartType::BootTar => 2,
        PartType::Rootfs => 3,
        PartType::RootfsRw => 4,
    }
}

/// The part type a wire byte stands for, if any.
pub open spec fn spec_part_type_of_u8(v: u8) -> Option<PartType> {
    if v == 0 {
        Some(PartType::Invalid)
    } else if v == 1 {
        Some(PartType::BootImg)
    } else if v == 2 {
        Some(PartType::BootTar)
    } else if v == 3 {
        Some(PartType::Rootfs)
    } else if v == 4 {
        Some(PartType::RootfsRw)
    } else {
        None
    }
}

/// The display/CLI name of a part type.
pub open spec fn spec_part_type_name(t: PartType) -> Seq<char> {
    match t {
        PartType::Invalid => "invalid"@,
        PartType::BootImg => "boot_img"@,
        PartType::BootTar => "boot_tar"@,
        PartType::Rootfs => "rootfs"@,
        PartType::RootfsRw => "rootfs_rw"@,
    }
}

/// The wire encoding of a compression mode.
pub open spec fn spec_comp_mode_u8(c: CompMode) -> u8 {
    match c {
        CompMode::NoComp => 0,
        CompMode::Zstd => 1,
        CompMode::LibArchive => 2,
    }
}

/// The compression mode a wire byte stands for, if any.
pub open spec fn spec_comp_mode_of_u8(v: u8) -> Option<CompMode> {
    if v == 0 {
        Some(CompMode::NoComp)
    } else if v == 1 {
        Some(CompMode::Zstd)
    } else if v == 2 {
        Some(CompMode::LibArchive)
    } else {
        None
    }
}

/// The display/CLI name of a compression mode.
pub open spec fn spec_comp_mode_name(c: CompMode) -> Seq<char> {
    match c {
        CompMode::NoComp => "none"@,
        CompMode::Zstd => "zstd"@,
        CompMode::LibArchive => "libarchive"@,
    }
}

impl PartType {
    /// The wire byte of this part type.
    pub fn to_u8(self) -> (r: u8)
        ensures
            r == spec_part_type_u8(self),
    {
        match self {
            PartType::Invalid => 0,
            PartType::BootImg => 1,
            PartType::BootTar => 2,
            PartType::Rootfs => 3,
            PartType::RootfsRw => 4,
        }
    }

    /// Convert a u8 into a PartType, returning Err on an unrecognized type.
    pub fn from_u8(val: u8) -> (r: Result<Self, PartValidError>)
        ensures
            r == match spec_part_type_of_u8(val) {
                Some(t) => Ok::<PartType, PartValidError>(t),
                None => Err::<PartType, PartValidError>(PartValidError::BadType(val)),
            },
    {
        match val {
            0 => Ok(PartType::Invalid),
            1 => Ok(PartType::BootImg),
            2 => Ok(PartType::BootTar),
            3 => Ok(PartType::Rootfs),
            4 => Ok(PartType::RootfsRw),
            _ => Err(PartValidError::BadType(val)),
        }
    }

    /// Like from_u8 but also map the explicit Invalid variant to an error.
    pub fn from_u8_valid(val: u8) -> (r: PartValidResult<Self>)
        ensures
            r == match spec_part_type_of_u8(val) {
                Some(PartType::Invalid) => Err::<PartType, PartValidError>(
                    PartValidError::BadType(0),
                ),
                Some(t) => Ok::<PartType, PartValidError>(t),
                None => Err::<PartType, PartValidError>(PartValidError::BadType(val)),
            },
    {
        match PartType::from_u8(val) {
            Ok(PartType::Invalid) => Err(PartValidError::BadType(0)),
            Ok(t) => Ok(t),
            Err(e) => Err(e),
        }
    }

    /// The display/CLI name of this part type.
    pub fn name(self) -> (r: &'static str)
        ensures
            r@ == spec_part_type_name(self),
    {
        match self {
            PartType::Invalid => "invalid",
            PartType::BootImg => "boot_img",
            PartType::BootTar => "boot_tar",
            PartType::Rootfs => "rootfs",
            PartType::RootfsRw => "rootfs_rw",
        }
    }

    /// Convert a display/CLI name into a PartType; Err means the name is not
    /// a part type name.
    pub fn from_name(name: &str) -> (r: Result<Self, ()>)
        ensures
            match r {
                Ok(t) => spec_part_type_name(t) == name@,
                Err(_) => forall|t: PartType| spec_part_type_name(t) != name@,
            },
    {
        if crate::util::str_eq(name, "invalid") {
            Ok(PartType::Invalid)
        } else if crate::util::str_eq(name, "boot_img") {
            Ok(PartType::BootImg)
        } else if crate::util::str_eq(name, "boot_tar") {
            Ok(PartType::BootTar)
        } else if crate::util::str_eq(name, "rootfs") {
            Ok(PartType::Rootfs)
        } else if crate::util::str_eq(name, "rootfs_rw") {
            Ok(PartType::RootfsRw)
        } else {
            proof {
                assert forall|t: PartType| spec_part_type_name(t) != name@ by {
                    match t {
                        PartType::Invalid => assert(spec_part_type_name(t) == "invalid"@),
                        PartType::BootImg => assert(spec_part_type_name(t) == "boot_img"@),
                        PartType::BootTar => assert(spec_part_type_name(t) == "boot_tar"@),
                        PartType::Rootfs => assert(spec_part_type_name(t) == "rootfs"@),
                        PartType::RootfsRw => assert(spec_part_type_name(t) == "rootfs_rw"@),
                    }
                }
            }
            Err(())
        }
    }
}

impl Default for PartType {
    fn default() -> (r: Self)
        ensures
            r == PartType::Invalid,
    {
        PartType::Invalid
    }
}

impl CompMode {
    /// The wire byte of this compression mode.
    pub fn to_u8(self) -> (r: u8)
        ensures
            r == spec_comp_mode_u8(self),
    {
        match self {
            CompMode::NoComp => 0,
            CompMode::Zstd => 1,
            CompMode::LibArchive => 2,
        }
    }

    /// Convert a u8 into a CompMode, returning Err on an unrecognized mode.
    pub fn from_u8(val: u8) -> (r: Result<Self, PartValidError>)
        ensures
            r == match spec_comp_mode_of_u8(val) {
                Some(c) => Ok::<CompMode, PartValidError>(c),
                None => Err::<CompMode, PartValidError>(PartValidError::BadComp(val)),
            },
    {
        match val {
            0 => Ok(CompMode::NoComp),
            1 => Ok(CompMode::Zstd),
            2 => Ok(CompMode::LibArchive),
            _ => Err(PartValidError::BadComp(val)),
        }
    }

    /// The display/CLI name of this compression mode.
    pub fn name(self) -> (r: &'static str)
        ensures
            r@ == spec_comp_mode_name(self),
    {
        match self {
            CompMode::NoComp => "none",
            CompMode::Zstd => "zstd",
            CompMode::LibArchive => "libarchive",
        }
    }

    /// Convert a display/CLI name into a CompMode; Err means the name is not
    /// a compression mode name.
    pub fn from_name(name: &str) -> (r: Result<Self, ()>)
        ensures
            match r {
                Ok(c) => spec_comp_mode_name(c) == name@,
                Err(_) => forall|c: CompMode| spec_comp_mode_name(c) != name@,
            },
    {
        if crate::util::str_eq(name, "none") {
            Ok(CompMode::NoComp)
        } else if crate::util::str_eq(name, "zstd") {
            Ok(CompMode::Zstd)
        } else if crate::util::str_eq(name, "libarchive") {
            Ok(CompMode::LibArchive)
        } else {
            proof {
                assert forall|c: CompMode| spec_comp_mode_name(c) != name@ by {
                    match c {
                        CompMode::NoComp => assert(spec_comp_mode_name(c) == "none"@),
                        CompMode::Zstd => assert(spec_comp_mode_name(c) == "zstd"@),
                        CompMode::LibArchive => assert(spec_comp_mode_name(c) == "libarchive"@),
                    }
                }
            }
            Err(())
        }
    }
}

impl Default for CompMode {
    fn default() -> (r: Self)
        ensures
            r == CompMode::NoComp,
    {
        CompMode::NoComp
    }
}

/// Struct representing the subheader for each nImage part, using native Rust
/// types rather than a packed representation of the on-disk format.
#[derive(Copy, Clone, Debug, Eq, PartialEq, Structural)]
pub struct PartHeader {
    // 8 byte magic "NIMGPART"
    /// size of the part data
    pub size: u64,
    /// offset of the start of image data, relative to the end of the main header
    pub offset: u64,
    /// part type (1 byte)
    pub ptype: PartType,
    /// compression mode (1 byte)
    pub comp: CompMode,
    // 2 unused bytes
    /// 4 byte xxHash32 checksum of the image data
    pub xxh: u32,
}

impl Default for PartHeader {
    fn default() -> (r: Self)
        ensures
            r == (PartHeader {
                size: 0,
                offset: 0,
                ptype: PartType::Invalid,
                comp: CompMode::NoComp,
                xxh: 0,
            }),
    {
        PartHeader { size: 0, offset: 0, ptype: PartType::Invalid, comp: CompMode::NoComp, xxh: 0 }
    }
}

/// The main nImage header struct, in native Rust types. This parsed
/// representation of the header omits the magic string and unused fields,
/// containing only data that matters.
#[derive(Clone, Debug, Eq, PartialEq)]
pub struct ImageHeader {
    // 8 byte magic "NEWBSIMG"
    /// nImage format version
    pub version: u8,
    // 1 byte number of parts in the image, up to NIMG_MAX_PARTS (as parts.len())
    // 6 unused bytes
    /// name of the image, max NIMG_NAME_LEN (128) bytes
    pub name: String,
    /// vector of part headers, up to NIMG_MAX_PARTS (27)
    pub parts: Vec<PartHeader>,
    // 12 unused bytes
    // 4 byte xxHash32 checksum of the rest of the image header data
}

/// The mathematical content of an `ImageHeader`: the version, the name as a
/// character sequence, and the parts in order.
pub struct ImageModel {
    pub version: u8,
    pub name: Seq<char>,
    pub parts: Seq<PartHeader>,
}

impl View for ImageHeader {
    type V = ImageModel;

    open spec fn view(&self) -> ImageModel {
        ImageModel { version: self.version, name: self.name@, parts: self.parts@ }
    }
}

impl Default for ImageHeader {
    fn default() -> (r: Self)
        ensures
            r@.version == NIMG_CURRENT_VERSION,
            r@.name == Seq::<char>::empty(),
            r@.parts == Seq::<PartHeader>::empty(),
    {
        ImageHeader { version: NIMG_CURRENT_VERSION, name: String::new(), parts: Vec::new() }
    }
}

/// The 32 wire bytes of one part header: magic, size, offset, type byte,
/// compression byte, two reserved zero bytes, payload checksum.
pub open spec fn spec_part_bytes(p: PartHeader) -> Seq<u8> {
    spec_u64_to_le_bytes(NIMG_PHDR_MAGIC) + spec_u64_to_le_bytes(p.size) + spec_u64_to_le_bytes(
        p.offset,
    ) + seq![spec_part_type_u8(p.ptype), spec_comp_mode_u8(p.comp), 0u8, 0u8]
        + spec_u32_to_le_bytes(p.xxh)
}

/// The wire bytes of a sequence of part headers, in order.
pub open spec fn spec_parts_bytes(parts: Seq<PartHeader>) -> Seq<u8>
    decreases parts.len(),
{
    if parts.len() == 0 {
        Seq::empty()
    } else {
        spec_part_bytes(parts[0]) + spec_parts_bytes(parts.drop_first())
    }
}

/// The 128-byte name field: the UTF-8 bytes of the name, zero-filled to the
/// full field width.
pub open spec fn spec_name_field(name: Seq<char>) -> Seq<u8> {
    let bytes = encode_utf8(name);
    if bytes.len() <= NIMG_NAME_LEN {
        bytes + zero_seq((NIMG_NAME_LEN - bytes.len()) as nat)
    } else {
        bytes
    }
}

/// The first 1020 wire bytes of an image header: everything the trailing
/// checksum covers.
pub open spec fn spec_image_body(m: ImageModel) -> Seq<u8> {
    spec_u64_to_le_bytes(NIMG_HDR_MAGIC) + seq![m.version, m.parts.len() as u8] + zero_seq(6)
        + spec_name_field(m.name) + spec_parts_bytes(m.parts) + zero_seq(
        if m.parts.len() <= NIMG_MAX_PARTS {
            (NIMG_PHDR_SIZE * (NIMG_MAX_PARTS - m.parts.len())) as nat
        } else {
            0
        },
    ) + zero_seq(12)
}

/// The full 1024 wire bytes of an image header: the body followed by its
/// xxHash32 checksum, little-endian.
pub open spec fn spec_image_bytes(m: ImageModel) -> Seq<u8> {
    spec_image_body(m) + spec_u32_to_le_bytes(xxh32_of(spec_image_body(m)))
}

/// The index of the first part with the sentinel Invalid type, if any.
pub open spec fn spec_first_invalid(parts: Seq<PartHeader>) -> Option<int>
    decreases parts.len(),
{
    if parts.len() == 0 {
        None
    } else if parts[0].ptype is Invalid {
        Some(0)
    } else {
        match spec_first_invalid(parts.drop_first()) {
            Some(i) => Some(i + 1),
            None => None,
        }
    }
}

/// What validating an image header yields: the version must be current, the
/// name must fit its field, the part count must fit the part table, and no
/// part may have the sentinel Invalid type; the first violation in that
/// order is the error.
pub open spec fn spec_validate(m: ImageModel) -> Result<(), ImageValidError> {
    if m.version != NIMG_CURRENT_VERSION {
        Err(ImageValidError::UnsupportedVersion(m.version))
    } else if encode_utf8(m.name).len() > NIMG_NAME_LEN {
        Err(ImageValidError::NameTooLong(encode_utf8(m.name).len() as usize))
    } else if m.parts.len() > NIMG_MAX_PARTS {
        Err(ImageValidError::TooManyParts(m.parts.len() as usize))
    } else {
        match spec_first_invalid(m.parts) {
            Some(i) => Err(
                ImageValidError::InvalidPart { index: i as usize, err: PartValidError::BadType(0) },
            ),
            None => Ok(()),
        }
    }
}

/// What parsing 32 part-header bytes yields: the checks run in order (size,
/// magic, type byte, compression byte), and the first failure is the error.
pub open spec fn spec_parse_part(b: Seq<u8>) -> Result<PartHeader, PartValidError> {
    if b.len() != NIMG_PHDR_SIZE {
        Err(PartValidError::BadSize(b.len() as usize))
    } else if spec_u64_from_le_bytes(b.subrange(0, 8)) != NIMG_PHDR_MAGIC {
        Err(PartValidError::BadMagic(spec_u64_from_le_bytes(b.subrange(0, 8))))
    } else if spec_part_type_of_u8(b[24]) is None || b[24] == 0 {
        Err(PartValidError::BadType(b[24]))
    } else if spec_comp_mode_of_u8(b[25]) is None {
        Err(PartValidError::BadComp(b[25]))
    } else {
        Ok(
            PartHeader {
                size: spec_u64_from_le_bytes(b.subrange(8, 16)),
                offset: spec_u64_from_le_bytes(b.subrange(16, 24)),
                ptype: spec_part_type_of_u8(b[24]).unwrap(),
                comp: spec_comp_mode_of_u8(b[25]).unwrap(),
                xxh: spec_u32_from_le_bytes(b.subrange(28, 32)),
            },
        )
    }
}

/// The 32-byte slot of part `i` within a 1024-byte image header.
pub open spec fn spec_part_slot(buf: Seq<u8>, i: int) -> Seq<u8> {
    buf.subrange(144 + 32 * i, 144 + 32 * i + 32)
}

/// What parsing the first `n` part slots of an image header yields: the
/// parts in order, or the first part-level failure wrapped with its index.
pub open spec fn spec_parse_parts(buf: Seq<u8>, n: int) -> Result<Seq<PartHeader>, ImageValidError>
    decreases n,
{
    if n <= 0 {
        Ok(Seq::empty())
    } else {
        match spec_parse_parts(buf, n - 1) {
            Err(e) => Err(e),
            Ok(s) => match spec_parse_part(spec_part_slot(buf, n - 1)) {
                Err(pe) => Err(
                    ImageValidError::InvalidPart { index: (n - 1) as usize, err: pe },
                ),
                Ok(p) => Ok(s.push(p)),
            },
        }
    }
}

/// The index of the first zero byte, or the length if there is none.
pub open spec fn spec_first_zero(s: Seq<u8>) -> int
    decreases s.len(),
{
    if s.len() == 0 {
        0
    } else if s[0] == 0 {
        0
    } else {
        1 + spec_first_zero(s.drop_first())
    }
}

/// What lossy UTF-8 decoding yields: valid byte sequences decode exactly;
/// invalid ones decode to whatever `utf8_lossy_of` names (replacement
/// characters for the ill-formed parts).
pub open spec fn spec_lossy_utf8(b: Seq<u8>) -> Seq<char> {
    if valid_utf8(b) {
        decode_utf8(b)
    } else {
        crate::util::utf8_lossy_of(b)
    }
}

/// What parsing a full image header buffer yields. The checks run in order:
/// exact buffer size, magic, trailing checksum over everything before it,
/// version, part count, then each declared part slot in order; the first
/// failure is the error. The name is the 128-byte name field up to its first
/// zero byte, decoded as UTF-8 with lossy replacement.
pub open spec fn spec_parse_image(buf: Seq<u8>) -> Result<ImageModel, ImageValidError> {
    if buf.len() != NIMG_HDR_SIZE {
        Err(ImageValidError::BadSize(buf.len() as usize))
    } else if spec_u64_from_le_bytes(buf.subrange(0, 8)) != NIMG_HDR_MAGIC {
        Err(ImageValidError::BadMagic(spec_u64_from_le_bytes(buf.subrange(0, 8))))
    } else if spec_u32_from_le_bytes(buf.subrange(1020, 1024)) != xxh32_of(
        buf.subrange(0, 1020),
    ) {
        Err(
            ImageValidError::BadHash {
                expected: spec_u32_from_le_bytes(buf.subrange(1020, 1024)),
                actual: xxh32_of(buf.subrange(0, 1020)),
            },
        )
    } else if buf[8] != NIMG_CURRENT_VERSION {
        Err(ImageValidError::UnsupportedVersion(buf[8]))
    } else if buf[9] > NIMG_MAX_PARTS {
        Err(ImageValidError::TooManyParts(buf[9] as usize))
    } else {
        let name_field = buf.subrange(16, 144);
        let name = spec_lossy_utf8(name_field.subrange(0, spec_first_zero(name_field)));
        match spec_parse_parts(buf, buf[9] as int) {
            Err(e) => Err(e),
            Ok(parts) => Ok(ImageModel { version: buf[8], name, parts }),
        }
    }
}

/// Scan for the first zero byte matching `spec_first_zero`.
fn find_first_zero(s: &[u8]) -> (r: usize)
    ensures
        r == spec_first_zero(s@),
        0 <= r <= s@.len(),
{
    let n = s.len();
    let mut i: usize = 0;
    while i < n
        invariant
            i <= n,
            n == s@.len(),
            forall|j: int| 0 <= j < i ==> s@[j] != 0,
        decreases n - i,
    {
        if *vstd::slice::slice_index_get(s, i) == 0 {
            proof {
                lemma_first_zero_at(s@, i as int);
            }
            return i;
        }
        i = i + 1;
    }
    proof {
        lemma_first_zero_at(s@, n as int);
    }
    n
}

/// A scan that saw no zero before `i`, and a zero at `i` unless `i` is the
/// length, has found `spec_first_zero`.
proof fn lemma_first_zero_at(s: Seq<u8>, i: int)
    requires
        0 <= i <= s.len(),
        forall|j: int| 0 <= j < i ==> s[j] != 0,
        i < s.len() ==> s[i] == 0,
    ensures
        spec_first_zero(s) == i,
    decreases i,
{
    if i == 0 {
    } else {
        assert(s[0] != 0);
        let rest = s.drop_first();
        assert forall|j: int| 0 <= j < i - 1 implies rest[j] != 0 by {
            assert(rest[j] == s[j + 1]);
        }
        lemma_first_zero_at(rest, i - 1);
    }
}

impl PartHeader {
    /// Parse and validate an nImage part header read from disk.
    /// Data must be exactly NIMG_PHDR_SIZE (32) bytes long.
    pub fn from_bytes(buf: &[u8]) -> (r: PartValidResult<Self>)
        ensures
            match r {
                Ok(p) => spec_parse_part(buf@) == Ok::<PartHeader, PartValidError>(p),
                Err(e) => spec_parse_part(buf@) == Err::<PartHeader, PartValidError>(e),
            },
    {
        if buf.len() != NIMG_PHDR_SIZE {
            return Err(PartValidError::BadSize(buf.len()));
        }
        let mut reader = SliceCursor::new(buf);

        let magic = reader.read_u64_le().unwrap();
        if magic != NIMG_PHDR_MAGIC {
            return Err(PartValidError::BadMagic(magic));
        }

        let size = reader.read_u64_le().unwrap();
        let offset = reader.read_u64_le().unwrap();
        let ptype = match PartType::from_u8_valid(reader.read_byte().unwrap()) {
            Ok(t) => t,
            Err(e) => return Err(e),
        };
        let comp = match CompMode::from_u8(reader.read_byte().unwrap()) {
            Ok(c) => c,
            Err(e) => return Err(e),
        };

        reader.skip(2);
        let xxh = reader.read_u32_le().unwrap();

        Ok(PartHeader { size, offset, ptype, comp, xxh })
    }

    /// Serialize this part header into exactly 32 wire bytes.
    pub fn write_to(&self) -> (r: Vec<u8>)
        ensures
            r@ == spec_part_bytes(*self),
            r@.len() == NIMG_PHDR_SIZE,
    {
        let mut w = VecCursor::new(NIMG_PHDR_SIZE);
        proof {
            vstd::bytes::lemma_auto_spec_u64_to_from_le_bytes();
            vstd::bytes::lemma_auto_spec_u32_to_from_le_bytes();
            assert(Seq::<u8>::empty() + zero_seq(32) =~= zero_seq(32));
        }
        let ghost s0 = Seq::<u8>::empty();
        let _ = w.write_u64_le(NIMG_PHDR_MAGIC);
        proof {
            crate::util::lemma_overwrite_append(s0, 32, spec_u64_to_le_bytes(NIMG_PHDR_MAGIC));
        }
        let ghost s1 = s0 + spec_u64_to_le_bytes(NIMG_PHDR_MAGIC);
        let _ = w.write_u64_le(self.size);
        proof {
            crate::util::lemma_overwrite_append(s1, 24, spec_u64_to_le_bytes(self.size));
        }
        let ghost s2 = s1 + spec_u64_to_le_bytes(self.size);
        let _ = w.write_u64_le(self.offset);
        proof {
            crate::util::lemma_overwrite_append(s2, 16, spec_u64_to_le_bytes(self.offset));
        }
        let ghost s3 = s2 + spec_u64_to_le_bytes(self.offset);
        let _ = w.write_byte(self.ptype.to_u8());
        proof {
            crate::util::lemma_overwrite_append(s3, 8, seq![spec_part_type_u8(self.ptype)]);
        }
        let ghost s4 = s3 + seq![spec_part_type_u8(self.ptype)];
        let _ = w.write_byte(self.comp.to_u8());
        proof {
            crate::util::lemma_overwrite_append(s4, 7, seq![spec_comp_mode_u8(self.comp)]);
        }
        let ghost s5 = s4 + seq![spec_comp_mode_u8(self.comp)];
        let _ = w.write_zeros(2);
        proof {
            crate::util::lemma_overwrite_append(s5, 6, zero_seq(2));
        }
        let ghost s6 = s5 + zero_seq(2);
        let _ = w.write_u32_le(self.xxh);
        proof {
            crate::util::lemma_overwrite_append(s6, 4, spec_u32_to_le_bytes(self.xxh));
        }
        let r = w.into_vec();
        proof {
            assert(r@ =~= spec_part_bytes(*self));
        }
        r
    }
}

/// Each part record is 32 bytes, so `n` parts take `32 * n` bytes.
pub proof fn lemma_part_bytes_len(p: PartHeader)
    ensures
        spec_part_bytes(p).len() == NIMG_PHDR_SIZE,
{
    vstd::bytes::lemma_auto_spec_u64_to_from_le_bytes();
    vstd::bytes::lemma_auto_spec_u32_to_from_le_bytes();
}

/// The serialized part table of `n` parts is `32 * n` bytes long.
pub proof fn lemma_parts_bytes_len(parts: Seq<PartHeader>)
    ensures
        spec_parts_bytes(parts).len() == NIMG_PHDR_SIZE * parts.len(),
    decreases parts.len(),
{
    if parts.len() == 0 {
    } else {
        lemma_part_bytes_len(parts[0]);
        lemma_parts_bytes_len(parts.drop_first());
    }
}

/// Serializing one more part appends its 32 bytes to the table.
proof fn lemma_parts_bytes_snoc(parts: Seq<PartHeader>, i: int)
    requires
        0 <= i < parts.len(),
    ensures
        spec_parts_bytes(parts.take(i + 1)) == spec_parts_bytes(parts.take(i)) + spec_part_bytes(
            parts[i],
        ),
    decreases i,
{
    if i == 0 {
        reveal_with_fuel(spec_parts_bytes, 3);
        assert(parts.take(1).drop_first() =~= Seq::<PartHeader>::empty());
        assert(parts.take(0) =~= Seq::<PartHeader>::empty());
        assert(parts.take(1)[0] == parts[0]);
        assert(spec_parts_bytes(parts.take(1)) == spec_part_bytes(parts[0]) + spec_parts_bytes(
            Seq::<PartHeader>::empty(),
        ));
        assert(spec_part_bytes(parts[0]) + Seq::<u8>::empty() =~= Seq::<u8>::empty()
            + spec_part_bytes(parts[0]));
    } else {
        let rest = parts.drop_first();
        lemma_parts_bytes_snoc(rest, i - 1);
        assert(parts.take(i + 1).drop_first() =~= rest.take(i));
        assert(parts.take(i).drop_first() =~= rest.take(i - 1));
        assert(parts.take(i + 1)[0] == parts[0]);
        assert(parts.take(i)[0] == parts[0]);
        assert(rest[i - 1] == parts[i]);
        assert((spec_part_bytes(parts[0]) + spec_parts_bytes(rest.take(i - 1))) + spec_part_bytes(
            parts[i],
        ) =~= spec_part_bytes(parts[0]) + (spec_parts_bytes(rest.take(i - 1)) + spec_part_bytes(
            parts[i],
        )));
    }
}

/// A scan that saw no Invalid part before `i` decides `spec_first_invalid`:
/// an Invalid part at `i` is the first one, and a clean scan to the end
/// means there is none.
proof fn lemma_first_invalid_prefix(parts: Seq<PartHeader>, i: int)
    requires
        0 <= i <= parts.len(),
        spec_first_invalid(parts.take(i)) is None,
    ensures
        i < parts.len() && parts[i].ptype is Invalid ==> spec_first_invalid(parts) == Some(i),
        i < parts.len() && !(parts[i].ptype is Invalid) ==> spec_first_invalid(parts.take(i + 1))
            is None,
        i == parts.len() ==> spec_first_invalid(parts) is None,
    decreases i,
{
    if i == 0 {
        reveal_with_fuel(spec_first_invalid, 3);
        if parts.len() > 0 {
            if parts[0].ptype is Invalid {
                assert(parts.take(1int)[0] == parts[0]);
            } else {
                assert(parts.take(1)[0] == parts[0]);
                assert(parts.take(1).drop_first() =~= Seq::<PartHeader>::empty());
            }
        } else {
            assert(parts.take(0) =~= parts);
        }
    } else {
        let rest = parts.drop_first();
        assert(parts.take(i)[0] == parts[0]);
        assert(parts.take(i).drop_first() =~= rest.take(i - 1));
        lemma_first_invalid_prefix(rest, i - 1);
        if i < parts.len() {
            assert(rest[i - 1] == parts[i]);
            if parts[i].ptype is Invalid {
            } else {
                assert(parts.take(i + 1)[0] == parts[0]);
                assert(parts.take(i + 1).drop_first() =~= rest.take(i));
            }
        }
    }
}

/// A failing part slot fails the whole table parse, wrapped with its index,
/// for every count that includes it.
proof fn lemma_parse_parts_err_propagates(buf: Seq<u8>, i: int, n: int, pe: PartValidError)
    requires
        0 <= i < n,
        spec_parse_parts(buf, i) is Ok,
        spec_parse_part(spec_part_slot(buf, i)) == Err::<PartHeader, PartValidError>(pe),
    ensures
        spec_parse_parts(buf, n) == Err::<Seq<PartHeader>, ImageValidError>(
            ImageValidError::InvalidPart { index: i as usize, err: pe },
        ),
    decreases n,
{
    if n == i + 1 {
    } else {
        lemma_parse_parts_err_propagates(buf, i, n - 1, pe);
    }
}

impl ImageHeader {
    /// Creates a new empty image header with no parts yet.
    pub fn new(name: &str) -> (r: Self)
        ensures
            r@.version == NIMG_CURRENT_VERSION,
            r@.name == name@,
            r@.parts == Seq::<PartHeader>::empty(),
    {
        ImageHeader { version: NIMG_CURRENT_VERSION, name: name.to_owned(), parts: Vec::new() }
    }

    /// Validate an nImage header before serialization: current version, name
    /// that fits its field, part count within bounds, and no part with the
    /// sentinel Invalid type.
    #[verifier::loop_isolation(false)]
    pub fn validate(&self) -> (r: ImageValidResult<()>)
        ensures
            r == spec_validate(self@),
    {
        if self.version != NIMG_CURRENT_VERSION {
            return Err(ImageValidError::UnsupportedVersion(self.version));
        }
        let name_len = self.name.as_str().as_bytes().len();
        if name_len > NIMG_NAME_LEN {
            return Err(ImageValidError::NameTooLong(name_len));
        }
        if self.parts.len() > NIMG_MAX_PARTS {
            return Err(ImageValidError::TooManyParts(self.parts.len()));
        }
        let n = self.parts.len();
        let mut i: usize = 0;
        while i < n
            invariant
                i <= n,
                n == self.parts@.len(),
                spec_first_invalid(self.parts@.take(i as int)) is None,
            decreases n - i,
        {
            let ptype = self.parts[i].ptype;
            proof {
                lemma_first_invalid_prefix(self.parts@, i as int);
            }
            if ptype == PartType::Invalid {
                return Err(
                    ImageValidError::InvalidPart { index: i, err: PartValidError::BadType(0) },
                );
            }
            i = i + 1;
        }
        proof {
            lemma_first_invalid_prefix(self.parts@, n as int);
            assert(self.parts@.take(n as int) =~= self.parts@);
        }
        Ok(())
    }

    /// Parse and validate an nImage header read from disk.
    /// Data must be exactly NIMG_HDR_SIZE (1024) bytes long.
    /// Relevant data is copied out of buf, so the returned object has no
    /// lifetime restrictions.
    #[verifier::loop_isolation(false)]
    pub fn from_bytes(buf: &[u8]) -> (r: ImageValidResult<Self>)
        ensures
            match r {
                Ok(h) => spec_parse_image(buf@) == Ok::<ImageModel, ImageValidError>(h@),
                Err(e) => spec_parse_image(buf@) == Err::<ImageModel, ImageValidError>(e),
            },
    {
        if buf.len() != NIMG_HDR_SIZE {
            return Err(ImageValidError::BadSize(buf.len()));
        }
        let mut reader = SliceCursor::new(buf);

        // read and validate magic
        let magic = reader.read_u64_le().unwrap();
        if magic != NIMG_HDR_MAGIC {
            return Err(ImageValidError::BadMagic(magic));
        }

        // validate the hash: seek to the last 4 bytes where the hash is
        reader.seek(SeekFrom::End(-4));
        let expected_xxh = reader.read_u32_le().unwrap();
        let actual_xxh = xxhash32(vstd::slice::slice_subrange(buf, 0, NIMG_HDR_SIZE - 4));
        if expected_xxh != actual_xxh {
            return Err(ImageValidError::BadHash { expected: expected_xxh, actual: actual_xxh });
        }

        // seek back to right after the magic
        reader.seek(SeekFrom::Start(8));

        let version = reader.read_byte().unwrap();
        if version != NIMG_CURRENT_VERSION {
            return Err(ImageValidError::UnsupportedVersion(version));
        }

        let num_parts = reader.read_byte().unwrap() as usize;
        if num_parts > NIMG_MAX_PARTS {
            return Err(ImageValidError::TooManyParts(num_parts));
        }

        // 6 unused bytes
        let _ = reader.skip(6);

        // the name is a 128 byte field that may or may not be null-terminated;
        // take everything before the first null byte, decoded lossily as UTF-8
        let name_bytes = reader.read_borrow(NIMG_NAME_LEN);
        let nullpos = find_first_zero(name_bytes);
        let name = crate::util::from_utf8_lossy(
            vstd::slice::slice_subrange(name_bytes, 0, nullpos),
        );

        let mut parts: Vec<PartHeader> = Vec::new();
        let mut pidx: usize = 0;
        while pidx < num_parts
            invariant
                pidx <= num_parts,
                num_parts <= NIMG_MAX_PARTS,
                buf@.len() == NIMG_HDR_SIZE,
                reader.wf(),
                reader.bytes() == buf@,
                reader.pos() == 144 + 32 * pidx,
                spec_parse_parts(buf@, pidx as int) == Ok::<Seq<PartHeader>, ImageValidError>(
                    parts@,
                ),
            decreases num_parts - pidx,
        {
            let phdr_slice = reader.read_borrow(NIMG_PHDR_SIZE);
            proof {
                assert(phdr_slice@ =~= spec_part_slot(buf@, pidx as int));
            }
            match PartHeader::from_bytes(phdr_slice) {
                Ok(p) => {
                    parts.push(p);
                },
                Err(e) => {
                    proof {
                        lemma_parse_parts_err_propagates(
                            buf@,
                            pidx as int,
                            num_parts as int,
                            e,
                        );
                    }
                    return Err(ImageValidError::InvalidPart { index: pidx, err: e });
                },
            }
            pidx = pidx + 1;
        }

        // everything after the last used part header slot is ignored: empty
        // part slots, 12 unused bytes, and the 4 byte hash (already handled)
        Ok(ImageHeader { version, name, parts })
    }
}

impl ImageHeader {
    /// Serialize this image header into its exact 1024 wire bytes: the 1020
    /// byte body, then the xxHash32 of that body. Validation runs first and
    /// a validation failure is returned unchanged.
    #[verifier::loop_isolation(false)]
    pub fn write_to(&self) -> (r: Result<Vec<u8>, ImageValidError>)
        ensures
            match r {
                Ok(v) => spec_validate(self@) is Ok && v@ == spec_image_bytes(self@) && v@.len()
                    == NIMG_HDR_SIZE,
                Err(e) => spec_validate(self@) == Err::<(), ImageValidError>(e),
            },
    {
        if let Err(e) = self.validate() {
            return Err(e);
        }
        let nparts = self.parts.len();
        let name_bytes = self.name.as_str().as_bytes();
        let name_len = name_bytes.len();

        let mut w = VecCursor::new(NIMG_HDR_SIZE - 4);
        proof {
            vstd::bytes::lemma_auto_spec_u64_to_from_le_bytes();
            vstd::bytes::lemma_auto_spec_u32_to_from_le_bytes();
            assert(Seq::<u8>::empty() + zero_seq(1020) =~= zero_seq(1020));
        }
        let ghost s0 = Seq::<u8>::empty();
        let _ = w.write_u64_le(NIMG_HDR_MAGIC);
        proof {
            crate::util::lemma_overwrite_append(s0, 1020, spec_u64_to_le_bytes(NIMG_HDR_MAGIC));
        }
        let ghost s1 = s0 + spec_u64_to_le_bytes(NIMG_HDR_MAGIC);
        let _ = w.write_byte(self.version);
        proof {
            crate::util::lemma_overwrite_append(s1, 1012, seq![self.version]);
        }
        let ghost s2 = s1 + seq![self.version];
        let _ = w.write_byte(nparts as u8);
        proof {
            crate::util::lemma_overwrite_append(s2, 1011, seq![self.parts@.len() as u8]);
        }
        let ghost s3 = s2 + seq![self.parts@.len() as u8];
        let _ = w.write_zeros(6);
        proof {
            crate::util::lemma_overwrite_append(s3, 1010, zero_seq(6));
        }
        let ghost s4 = s3 + zero_seq(6);
        let _ = w.write_all(name_bytes);
        proof {
            crate::util::lemma_overwrite_append(s4, 1004, name_bytes@);
        }
        let ghost s5 = s4 + name_bytes@;
        let _ = w.write_zeros(NIMG_NAME_LEN - name_len);
        proof {
            crate::util::lemma_overwrite_append(
                s5,
                (1004 - name_len) as nat,
                zero_seq((NIMG_NAME_LEN - name_len) as nat),
            );
        }
        let ghost s6 = s5 + zero_seq((NIMG_NAME_LEN - name_len) as nat);
        proof {
            assert(s6 =~= s4 + spec_name_field(self.name@));
            assert(s6.len() == 144);
            assert(self.parts@.take(0) =~= Seq::<PartHeader>::empty());
            assert(s6 + spec_parts_bytes(self.parts@.take(0)) + zero_seq(876) =~= s6 + zero_seq(
                876,
            ));
        }

        let mut pidx: usize = 0;
        while pidx < nparts
            invariant
                pidx <= nparts,
                w.wf(),
                w.buf().len() == 1020,
                w.buf() == s6 + spec_parts_bytes(self.parts@.take(pidx as int)) + zero_seq(
                    (876 - 32 * pidx) as nat,
                ),
                w.pos() == 144 + 32 * pidx,
            decreases nparts - pidx,
        {
            let pb = self.parts[pidx].write_to();
            let ghost sp = s6 + spec_parts_bytes(self.parts@.take(pidx as int));
            proof {
                lemma_parts_bytes_len(self.parts@.take(pidx as int));
                assert(sp.len() == 144 + 32 * pidx);
            }
            let _ = w.write_all(pb.as_slice());
            proof {
                crate::util::lemma_overwrite_append(sp, (876 - 32 * pidx) as nat, pb@);
                lemma_parts_bytes_snoc(self.parts@, pidx as int);
                assert(sp + pb@ + zero_seq((876 - 32 * (pidx + 1)) as nat) =~= s6
                    + spec_parts_bytes(self.parts@.take(pidx as int + 1)) + zero_seq(
                    (876 - 32 * (pidx + 1)) as nat,
                ));
            }
            pidx = pidx + 1;
        }
        proof {
            assert(self.parts@.take(nparts as int) =~= self.parts@);
            lemma_parts_bytes_len(self.parts@);
        }
        let ghost s7 = s6 + spec_parts_bytes(self.parts@);
        let _ = w.write_zeros(NIMG_PHDR_SIZE * (NIMG_MAX_PARTS - nparts));
        proof {
            crate::util::lemma_overwrite_append(
                s7,
                (876 - 32 * nparts) as nat,
                zero_seq((32 * (27 - nparts)) as nat),
            );
        }
        let ghost s8 = s7 + zero_seq((32 * (27 - nparts)) as nat);
        let _ = w.write_zeros(12);
        proof {
            crate::util::lemma_overwrite_append(s8, 12, zero_seq(12));
        }
        let ghost s9 = s8 + zero_seq(12);

        let body = w.into_vec();
        proof {
            assert(s9 =~= spec_image_body(self@));
            assert(body@ == spec_image_body(self@));
        }
        let xxh = xxhash32(body.as_slice());
        let mut out = body;
        let mut tail = u32_to_le_bytes(xxh);
        out.append(&mut tail);
        Ok(out)
    }
}

/// The UTF-8 encoding of a scalar other than NUL has no zero byte.
proof fn lemma_encode_scalar_no_zero(c: char)
    requires
        c != '\u{0}',
    ensures
        forall|j: int|
            0 <= j < vstd::utf8::encode_scalar(c as u32).len() ==> #[trigger] vstd::utf8::encode_scalar(c as u32)[j] != 0,
{
    vstd::utf8::char_is_scalar(c);
    let s = c as u32;
    if s == 0 {
        vstd::utf8::char_u32_cast(c, s);
        assert('\u{0}' as u32 == 0);
        vstd::utf8::char_u32_cast('\u{0}', 0);
    }
    if vstd::utf8::has_width_1_encoding(s) {
        assert((s & 0x7F) as u8 != 0) by (bit_vector)
            requires
                s <= 0x7F && s != 0,
        ;
    } else {
        assert((0xC0 | ((s >> 6) & 0x1F) as u8) != 0) by (bit_vector);
        assert((0xE0 | ((s >> 12) & 0x0F) as u8) != 0) by (bit_vector);
        assert((0xF0 | ((s >> 18) & 0x7) as u8) != 0) by (bit_vector);
        assert((0x80 | (s & 0x3F) as u8) != 0) by (bit_vector);
        assert((0x80 | ((s >> 6) & 0x3F) as u8) != 0) by (bit_vector);
        assert((0x80 | ((s >> 12) & 0x3F) as u8) != 0) by (bit_vector);
    }
}

/// The UTF-8 encoding of a name without NUL characters has no zero byte.
proof fn lemma_encode_no_zero(name: Seq<char>)
    requires
        !name.contains('\u{0}'),
    ensures
        forall|j: int| 0 <= j < encode_utf8(name).len() ==> #[trigger] encode_utf8(name)[j] != 0,
    decreases name.len(),
{
    if name.len() == 0 {
    } else {
        assert(name[0] != '\u{0}') by {
            assert(name.contains(name[0]));
        }
        lemma_encode_scalar_no_zero(name[0]);
        let rest = name.drop_first();
        assert(!rest.contains('\u{0}')) by {
            if rest.contains('\u{0}') {
                let k = choose|k: int| 0 <= k < rest.len() && rest[k] == '\u{0}';
                assert(name[k + 1] == '\u{0}');
                assert(name.contains('\u{0}'));
            }
        }
        lemma_encode_no_zero(rest);
        let head = vstd::utf8::encode_scalar(name[0] as u32);
        assert forall|j: int| 0 <= j < encode_utf8(name).len() implies encode_utf8(name)[j] != 0 by {
            if j < head.len() {
                assert(encode_utf8(name)[j] == head[j]);
            } else {
                assert(encode_utf8(name)[j] == encode_utf8(rest)[j - head.len()]);
            }
        }
    }
}

/// Each 32-byte slot in the serialized part table holds exactly that part's
/// record.
proof fn lemma_parts_bytes_index(parts: Seq<PartHeader>, i: int)
    requires
        0 <= i < parts.len(),
    ensures
        spec_parts_bytes(parts).subrange(32 * i, 32 * i + 32) == spec_part_bytes(parts[i]),
    decreases i,
{
    lemma_parts_bytes_len(parts);
    lemma_part_bytes_len(parts[0]);
    let rest = parts.drop_first();
    if i == 0 {
        assert(spec_parts_bytes(parts).subrange(0, 32) =~= spec_part_bytes(parts[0]));
    } else {
        lemma_parts_bytes_index(rest, i - 1);
        lemma_parts_bytes_len(rest);
        lemma_part_bytes_len(parts[i]);
        assert(rest[i - 1] == parts[i]);
        assert(spec_parts_bytes(parts).subrange(32 * i, 32 * i + 32) =~= spec_parts_bytes(
            rest,
        ).subrange(32 * (i - 1), 32 * (i - 1) + 32));
    }
}

/// Parsing the 32 bytes a part serializes to yields that part back, for any
/// part without the sentinel Invalid type.
pub proof fn lemma_part_round_trip(p: PartHeader)
    requires
        !(p.ptype is Invalid),
    ensures
        spec_parse_part(spec_part_bytes(p)) == Ok::<PartHeader, PartValidError>(p),
{
    vstd::bytes::lemma_auto_spec_u64_to_from_le_bytes();
    vstd::bytes::lemma_auto_spec_u32_to_from_le_bytes();
    let b = spec_part_bytes(p);
    assert(b.len() == 32);
    assert(b.subrange(0, 8) =~= spec_u64_to_le_bytes(NIMG_PHDR_MAGIC));
    assert(b.subrange(8, 16) =~= spec_u64_to_le_bytes(p.size));
    assert(b.subrange(16, 24) =~= spec_u64_to_le_bytes(p.offset));
    assert(b[24] == spec_part_type_u8(p.ptype));
    assert(b[25] == spec_comp_mode_u8(p.comp));
    assert(b.subrange(28, 32) =~= spec_u32_to_le_bytes(p.xxh));
}

/// A table whose first-invalid scan found nothing has no Invalid part.
proof fn lemma_first_invalid_none(parts: Seq<PartHeader>)
    requires
        spec_first_invalid(parts) is None,
    ensures
        forall|i: int| 0 <= i < parts.len() ==> !((#[trigger] parts[i]).ptype is Invalid),
    decreases parts.len(),
{
    if parts.len() > 0 {
        let rest = parts.drop_first();
        lemma_first_invalid_none(rest);
        assert forall|i: int|
            0 <= i < parts.len() implies !((#[trigger] parts[i]).ptype is Invalid) by {
            if i > 0 {
                assert(parts[i] == rest[i - 1]);
            }
        }
    }
}

/// If every slot up to `n` holds the record of the matching part and none is
/// Invalid, the table parse yields exactly those parts.
proof fn lemma_parse_parts_ok(bytes: Seq<u8>, parts: Seq<PartHeader>, n: int)
    requires
        0 <= n <= parts.len(),
        forall|i: int|
            0 <= i < n ==> spec_part_slot(bytes, i) == spec_part_bytes(#[trigger] parts[i]),
        forall|i: int| 0 <= i < n ==> !((#[trigger] parts[i]).ptype is Invalid),
    ensures
        spec_parse_parts(bytes, n) == Ok::<Seq<PartHeader>, ImageValidError>(parts.take(n)),
    decreases n,
{
    if n == 0 {
        assert(parts.take(0) =~= Seq::<PartHeader>::empty());
    } else {
        lemma_parse_parts_ok(bytes, parts, n - 1);
        lemma_part_round_trip(parts[n - 1]);
        assert(parts.take(n - 1).push(parts[n - 1]) =~= parts.take(n));
    }
}

/// Round trip: serializing a valid image header whose name holds no NUL
/// character, then parsing the resulting 1024 bytes, yields the same header.
/// A NUL in the name is excluded because parsing cuts the name field at its
/// first zero byte.
pub proof fn lemma_round_trip(m: ImageModel)
    requires
        spec_validate(m) is Ok,
        !m.name.contains('\u{0}'),
    ensures
        spec_parse_image(spec_image_bytes(m)) == Ok::<ImageModel, ImageValidError>(m),
{
    vstd::bytes::lemma_auto_spec_u64_to_from_le_bytes();
    vstd::bytes::lemma_auto_spec_u32_to_from_le_bytes();
    lemma_parts_bytes_len(m.parts);
    let nb = encode_utf8(m.name);
    let nlen = nb.len() as int;
    let body = spec_image_body(m);
    let bytes = spec_image_bytes(m);
    let n = m.parts.len() as int;
    assert(spec_name_field(m.name).len() == 128);
    assert(body.len() == 1020);
    assert(bytes.len() == 1024);
    assert(bytes.subrange(0, 8) =~= spec_u64_to_le_bytes(NIMG_HDR_MAGIC));
    assert(bytes.subrange(0, 1020) =~= body);
    assert(bytes.subrange(1020, 1024) =~= spec_u32_to_le_bytes(xxh32_of(body)));
    assert(bytes[8] == m.version);
    assert(bytes[9] == m.parts.len() as u8);

    let field = bytes.subrange(16, 144);
    assert(field =~= spec_name_field(m.name));
    lemma_encode_no_zero(m.name);
    assert(forall|j: int| 0 <= j < nlen ==> field[j] != 0);
    if nlen < 128 {
        assert(field[nlen] == 0);
    }
    lemma_first_zero_at(field, nlen);
    assert(field.subrange(0, nlen) =~= nb);
    vstd::utf8::encode_utf8_valid_utf8(m.name);
    vstd::utf8::encode_utf8_decode_utf8(m.name);
    assert(spec_lossy_utf8(nb) == m.name);

    assert forall|i: int|
        0 <= i < n implies spec_part_slot(bytes, i) == spec_part_bytes(
        #[trigger] m.parts[i],
    ) by {
        lemma_parts_bytes_index(m.parts, i);
        lemma_part_bytes_len(m.parts[i]);
        assert(spec_part_slot(bytes, i) =~= spec_parts_bytes(m.parts).subrange(
            32 * i,
            32 * i + 32,
        ));
    }
    lemma_first_invalid_none(m.parts);
    lemma_parse_parts_ok(bytes, m.parts, n);
    assert(m.parts.take(n) =~= m.parts);
    assert(ImageModel { version: m.version, name: m.name, parts: m.parts } == m);
}

/// A 1024-byte buffer whose leading magic is wrong is rejected as bad magic,
/// whatever the rest of the buffer, its checksum included, holds.
pub proof fn lemma_bad_magic_reported_first(buf: Seq<u8>)
    requires
        buf.len() == NIMG_HDR_SIZE,
        spec_u64_from_le_bytes(buf.subrange(0, 8)) != NIMG_HDR_MAGIC,
    ensures
        spec_parse_image(buf) == Err::<ImageModel, ImageValidError>(
            ImageValidError::BadMagic(spec_u64_from_le_bytes(buf.subrange(0, 8))),
        ),
{
}

/// A 1024-byte buffer with a good magic whose stored checksum differs from
/// the one recomputed over the first 1020 bytes is rejected as a checksum
/// mismatch carrying both values, before any other field is looked at.
pub proof fn lemma_checksum_checked_before_fields(buf: Seq<u8>)
    requires
        buf.len() == NIMG_HDR_SIZE,
        spec_u64_from_le_bytes(buf.subrange(0, 8)) == NIMG_HDR_MAGIC,
        spec_u32_from_le_bytes(buf.subrange(1020, 1024)) != xxh32_of(buf.subrange(0, 1020)),
    ensures
        spec_parse_image(buf) == Err::<ImageModel, ImageValidError>(
            ImageValidError::BadHash {
                expected: spec_u32_from_le_bytes(buf.subrange(1020, 1024)),
                actual: xxh32_of(buf.subrange(0, 1020)),
            },
        ),
{
}

/// The check and flash tools' rule for the gap before a part: a part must
/// sit at or past the running offset; the difference is padding to skip, and
/// an offset behind the running one is out of order.
pub fn padding_before(current_offset: u64, part_offset: u64) -> (r: Option<u64>)
    ensures
        r == if part_offset >= current_offset {
            Some((part_offset - current_offset) as u64)
        } else {
            Option::<u64>::None
        },
{
    if part_offset >= current_offset {
        Some(part_offset - current_offset)
    } else {
        None
    }
}

/// The create tool's alignment rule: each payload is padded with zero bytes
/// to the next 16-byte boundary.
pub fn align_padding(size: u64) -> (r: u64)
    ensures
        r < 16,
        (size + r) % 16 == 0,
{
    let m = size % 16;
    let r = if m == 0 {
        0
    } else {
        16 - m
    };
    proof {
        assert((size + r) % 16 == 0) by (nonlinear_arith)
            requires
                m == size % 16,
                r == if m == 0 { 0int } else { 16 - m },
        ;
    }
    r
}

impl PartHeader {
    /// Per-part payload verification: the caller streams exactly `size`
    /// payload bytes through the checksum engine and hands the digest here;
    /// the payload is good exactly when that digest equals the stored one.
    pub fn verify_payload(&self, actual: u32) -> (r: PartValidResult<()>)
        ensures
            r == if actual == self.xxh {
                Ok::<(), PartValidError>(())
            } else {
                Err::<(), PartValidError>(PartValidError::BadHash { expected: self.xxh, actual })
            },
    {
        if actual == self.xxh {
            Ok(())
        } else {
            Err(PartValidError::BadHash { expected: self.xxh, actual })
        }
    }

    /// Render the part metadata, one field per line, each line indented by
    /// the given number of spaces: exactly `spec_part_print`. Diagnostics
    /// only; not part of the wire format.
    pub fn print_to(&self, indent: usize) -> (r: String)
        ensures
            r@ == spec_part_print(*self, indent as nat),
    {
        let mut ind = String::new();
        let mut i: usize = 0;
        while i < indent
            invariant
                i <= indent,
                ind@ == spec_indent(i as nat),
            decreases indent - i,
        {
            ind.append(" ");
            proof {
                reveal_strlit(" ");
                assert(ind@ =~= spec_indent(i as nat + 1));
            }
            i = i + 1;
        }
        let mut out = String::new();
        out.append(ind.as_str());
        out.append("type:        ");
        out.append(self.ptype.name());
        out.append("\n");
        out.append(ind.as_str());
        out.append("compression: ");
        out.append(self.comp.name());
        out.append("\n");
        out.append(ind.as_str());
        out.append("size:        ");
        let size_text = crate::util::human_size_extended(self.size);
        out.append(size_text.as_str());
        out.append("\n");
        out.append(ind.as_str());
        out.append("offset:      ");
        let offset_text = crate::util::human_size_extended(self.offset);
        out.append(offset_text.as_str());
        out.append("\n");
        out.append(ind.as_str());
        out.append("xxHash:      0x");
        let hash_text = crate::util::fmt_hex32(self.xxh);
        out.append(hash_text.as_str());
        out.append("\n");
        proof {
            assert(out@ =~= spec_part_print(*self, indent as nat));
        }
        out
    }
}


/// An indentation of `n` spaces.
pub open spec fn spec_indent(n: nat) -> Seq<char> {
    Seq::new(n, |i: int| ' ')
}

/// The rendering of one part's metadata: type, compression, human-scaled
/// size and offset, and the payload checksum in hex, one labelled line each,
/// indented by `indent` spaces.
pub open spec fn spec_part_print(p: PartHeader, indent: nat) -> Seq<char> {
    let ind = spec_indent(indent);
    ind + "type:        "@ + spec_part_type_name(p.ptype) + "\n"@ + ind + "compression: "@
        + spec_comp_mode_name(p.comp) + "\n"@ + ind + "size:        "@
        + crate::util::spec_human_size_extended(p.size as nat) + "\n"@ + ind + "offset:      "@
        + crate::util::spec_human_size_extended(p.offset as nat) + "\n"@ + ind
        + "xxHash:      0x"@ + crate::util::spec_hex32(p.xxh) + "\n"@
}

/// The name line's text: the name itself, or a placeholder when it is empty.
pub open spec fn spec_image_name_text(name: Seq<char>) -> Seq<char> {
    if name.len() == 0 {
        "[empty]"@
    } else {
        name
    }
}

/// The renderings of the parts from index `i` on: a "Part i:" line, then the
/// part's own rendering at indent 2, for each in order.
pub open spec fn spec_parts_print(parts: Seq<PartHeader>, i: int) -> Seq<char>
    decreases parts.len() - i,
{
    if i < 0 || i >= parts.len() {
        Seq::empty()
    } else {
        "Part "@ + crate::util::spec_dec_digits(i as nat) + ":\n"@ + spec_part_print(parts[i], 2)
            + spec_parts_print(parts, i + 1)
    }
}

/// The rendering of an image header: labelled lines for the name (or its
/// placeholder), version and part count, the checksum line exactly when one
/// is supplied, then each part's rendering.
pub open spec fn spec_image_print(m: ImageModel, xxh: Option<u32>) -> Seq<char> {
    "Image Name:      "@ + spec_image_name_text(m.name) + "\n"@ + "Image Version:   "@
        + crate::util::spec_dec_digits(m.version as nat) + "\n"@ + "Number of Parts: "@
        + crate::util::spec_dec_digits(m.parts.len()) + "\n"@ + (match xxh {
        Some(h) => "Header xxHash:   0x"@ + crate::util::spec_hex32(h) + "\n"@,
        None => Seq::<char>::empty(),
    }) + spec_parts_print(m.parts, 0)
}

impl ImageHeader {
    /// Render the image header metadata: name (or a placeholder when empty),
    /// version, part count, optionally the header checksum supplied by the
    /// caller (the header does not retain its own), then each part indented:
    /// exactly `spec_image_print`. Diagnostics only; not part of the wire
    /// format.
    #[verifier::loop_isolation(false)]
    pub fn print_to(&self, xxh: Option<u32>) -> (r: String)
        ensures
            r@ == spec_image_print(self@, xxh),
    {
        let mut out = String::new();
        out.append("Image Name:      ");
        if self.name.as_str().unicode_len() == 0 {
            out.append("[empty]");
        } else {
            out.append(self.name.as_str());
        }
        out.append("\n");
        out.append("Image Version:   ");
        let version_text = crate::util::fmt_u64(self.version as u64);
        out.append(version_text.as_str());
        out.append("\n");
        out.append("Number of Parts: ");
        let count_text = crate::util::fmt_u64(self.parts.len() as u64);
        out.append(count_text.as_str());
        out.append("\n");
        if let Some(h) = xxh {
            out.append("Header xxHash:   0x");
            let hash_text = crate::util::fmt_hex32(h);
            out.append(hash_text.as_str());
            out.append("\n");
        }
        proof {
            assert(out@ + spec_parts_print(self.parts@, 0) =~= spec_image_print(self@, xxh));
        }
        let n = self.parts.len();
        let mut i: usize = 0;
        while i < n
            invariant
                i <= n,
                n == self.parts@.len(),
                out@ + spec_parts_print(self.parts@, i as int) == spec_image_print(self@, xxh),
            decreases n - i,
        {
            out.append("Part ");
            let index_text = crate::util::fmt_u64(i as u64);
            out.append(index_text.as_str());
            out.append(":\n");
            let rendered = self.parts[i].print_to(2);
            out.append(rendered.as_str());
            proof {
                assert(out@ + spec_parts_print(self.parts@, i as int + 1) =~= spec_image_print(
                    self@,
                    xxh,
                ));
            }
            i = i + 1;
        }
        proof {
            assert(out@ =~= spec_image_print(self@, xxh));
        }
        out
    }
}


/// The message of a part-level error, character for character.
pub open spec fn spec_part_error_text(e: PartValidError) -> Seq<char> {
    match e {
        PartValidError::BadSize(size) => "bad nImage part header size. Expected 32, found "@
            + crate::util::spec_dec_digits(size as nat),
        PartValidError::BadMagic(magic) => "bad nImage part magic. Expected 0x"@
            + crate::util::spec_hex64(NIMG_PHDR_MAGIC) + ", actual 0x"@ + crate::util::spec_hex64(
            magic,
        ),
        PartValidError::BadType(t) => "bad nImage part type "@ + crate::util::spec_dec_digits(
            t as nat,
        ),
        PartValidError::BadComp(c) => "bad nImage part compression mode "@
            + crate::util::spec_dec_digits(c as nat),
        PartValidError::BadHash { expected, actual } => "invalid part data hash. Expected 0x"@
            + crate::util::spec_hex32(expected) + ", found 0x"@ + crate::util::spec_hex32(actual),
    }
}

/// The message of an image-level error, character for character; a nested
/// part error carries its index and the part-level message.
pub open spec fn spec_image_error_text(e: ImageValidError) -> Seq<char> {
    match e {
        ImageValidError::BadSize(size) => "bad nImage header size. Expected 1024, found "@
            + crate::util::spec_dec_digits(size as nat),
        ImageValidError::BadMagic(magic) => "bad nImage magic. Expected 0x"@
            + crate::util::spec_hex64(NIMG_HDR_MAGIC) + ", found 0x"@ + crate::util::spec_hex64(
            magic,
        ),
        ImageValidError::UnsupportedVersion(ver) => "unsupported version "@
            + crate::util::spec_dec_digits(ver as nat),
        ImageValidError::NameTooLong(n) => "name length "@ + crate::util::spec_dec_digits(n as nat)
            + " exceeds maximum of 128"@,
        ImageValidError::TooManyParts(n) => "part count "@ + crate::util::spec_dec_digits(n as nat)
            + " exceeds maximum of 27"@,
        ImageValidError::InvalidPart { index, err } => "invalid part header at index "@
            + crate::util::spec_dec_digits(index as nat) + ": "@ + spec_part_error_text(err),
        ImageValidError::BadHash { expected, actual } => "invalid image header hash. Expected 0x"@
            + crate::util::spec_hex32(expected) + ", found 0x"@ + crate::util::spec_hex32(actual),
    }
}

impl ImageValidError {
    /// The human-readable description of the error: exactly
    /// `spec_image_error_text`. Diagnostics only; not part of the wire
    /// format.
    pub fn message(&self) -> (r: String)
        ensures
            r@ == spec_image_error_text(*self),
    {
        let mut out = String::new();
        match self {
            ImageValidError::BadSize(size) => {
                out.append("bad nImage header size. Expected 1024, found ");
                out.append(crate::util::fmt_u64(*size as u64).as_str());
                proof {
                    assert(out@ =~= spec_image_error_text(*self));
                }
            },
            ImageValidError::BadMagic(magic) => {
                out.append("bad nImage magic. Expected 0x");
                out.append(crate::util::fmt_hex64(NIMG_HDR_MAGIC).as_str());
                out.append(", found 0x");
                out.append(crate::util::fmt_hex64(*magic).as_str());
                proof {
                    assert(out@ =~= spec_image_error_text(*self));
                }
            },
            ImageValidError::UnsupportedVersion(ver) => {
                out.append("unsupported version ");
                out.append(crate::util::fmt_u64(*ver as u64).as_str());
                proof {
                    assert(out@ =~= spec_image_error_text(*self));
                }
            },
            ImageValidError::NameTooLong(n) => {
                out.append("name length ");
                out.append(crate::util::fmt_u64(*n as u64).as_str());
                out.append(" exceeds maximum of 128");
                proof {
                    assert(out@ =~= spec_image_error_text(*self));
                }
            },
            ImageValidError::TooManyParts(n) => {
                out.append("part count ");
                out.append(crate::util::fmt_u64(*n as u64).as_str());
                out.append(" exceeds maximum of 27");
                proof {
                    assert(out@ =~= spec_image_error_text(*self));
                }
            },
            ImageValidError::InvalidPart { index, err } => {
                out.append("invalid part header at index ");
                out.append(crate::util::fmt_u64(*index as u64).as_str());
                out.append(": ");
                let inner = err.message();
                out.append(inner.as_str());
                proof {
                    assert(out@ =~= spec_image_error_text(*self));
                }
            },
            ImageValidError::BadHash { expected, actual } => {
                out.append("invalid image header hash. Expected 0x");
                out.append(crate::util::fmt_hex32(*expected).as_str());
                out.append(", found 0x");
                out.append(crate::util::fmt_hex32(*actual).as_str());
                proof {
                    assert(out@ =~= spec_image_error_text(*self));
                }
            },
        }
        out
    }
}

impl PartValidError {
    /// The human-readable description of the error: exactly
    /// `spec_part_error_text`. Diagnostics only; not part of the wire
    /// format.
    pub fn message(&self) -> (r: String)
        ensures
            r@ == spec_part_error_text(*self),
    {
        let mut out = String::new();
        match self {
            PartValidError::BadSize(size) => {
                out.append("bad nImage part header size. Expected 32, found ");
                out.append(crate::util::fmt_u64(*size as u64).as_str());
                proof {
                    assert(out@ =~= spec_part_error_text(*self));
                }
            },
            PartValidError::BadMagic(magic) => {
                out.append("bad nImage part magic. Expected 0x");
                out.append(crate::util::fmt_hex64(NIMG_PHDR_MAGIC).as_str());
                out.append(", actual 0x");
                out.append(crate::util::fmt_hex64(*magic).as_str());
                proof {
                    assert(out@ =~= spec_part_error_text(*self));
                }
            },
            PartValidError::BadType(t) => {
                out.append("bad nImage part type ");
                out.append(crate::util::fmt_u64(*t as u64).as_str());
                proof {
                    assert(out@ =~= spec_part_error_text(*self));
                }
            },
            PartValidError::BadComp(c) => {
                out.append("bad nImage part compression mode ");
                out.append(crate::util::fmt_u64(*c as u64).as_str());
                proof {
                    assert(out@ =~= spec_part_error_text(*self));
                }
            },
            PartValidError::BadHash { expected, actual } => {
                out.append("invalid part data hash. Expected 0x");
                out.append(crate::util::fmt_hex32(*expected).as_str());
                out.append(", found 0x");
                out.append(crate::util::fmt_hex32(*actual).as_str());
                proof {
                    assert(out@ =~= spec_part_error_text(*self));
                }
            },
        }
        out
    }
}

} // verus!
