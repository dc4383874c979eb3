/*!
 * Positioned, bounds-checked primitives for reading and writing fixed-width
 * little-endian integers and byte spans within a fixed-size buffer.
 *
 * Short reads return `None` rather than panicking, and seeks are clamped to
 * the buffer bounds, so header parsing can rely on deterministic truncation
 * behavior for malformed input.
 */

use vstd::bytes::*;
use vstd::prelude::*;
use vstd::slice::*;
use vstd::string::StringExecFns;

verus! {

/// Target of a clamped seek: absolute from the start, relative to the
/// current position, or relative to the end of the buffer.
#[derive(Clone, Copy, Debug)]
pub enum SeekFrom {
    Start(u64),
    Current(i64),
    End(i64),
}

/// Where a seek request lands: the requested position, clamped to `[0, len]`.
pub open spec fn spec_seek_pos(from: SeekFrom, pos: int, len: int) -> int {
    let target = match from {
        SeekFrom::Start(n) => n as int,
        SeekFrom::Current(d) => pos + d as int,
        SeekFrom::End(d) => len + d as int,
    };
    if target < 0 {
        0
    } else if target > len {
        len
    } else {
        target
    }
}

/// Sequential reads of numeric fields and byte spans from a buffer.
pub trait ReadHelper {
    /// All bytes of the underlying buffer.
    spec fn bytes(&self) -> Seq<u8>;

    /// The current read position.
    spec fn pos(&self) -> int;

    /// The read position never passes the end of the buffer.
    spec fn wf(&self) -> bool;

    /// Read one byte of data, or return None if there's no byte left to read.
    fn read_byte(&mut self) -> (r: Option<u8>)
        requires
            old(self).wf(),
        ensures
            final(self).wf(),
            final(self).bytes() == old(self).bytes(),
            old(self).pos() + 1 <= old(self).bytes().len() ==> {
                &&& r == Some(old(self).bytes()[old(self).pos()])
                &&& final(self).pos() == old(self).pos() + 1
            },
            old(self).pos() + 1 > old(self).bytes().len() ==> {
                &&& r is None
                &&& final(self).pos() == old(self).pos()
            },
    ;

    /// Read 4 bytes, interpret them as a little-endian u32, and return the
    /// result. Return None if there were less than 4 bytes remaining.
    fn read_u32_le(&mut self) -> (r: Option<u32>)
        requires
            old(self).wf(),
        ensures
            final(self).wf(),
            final(self).bytes() == old(self).bytes(),
            old(self).pos() + 4 <= old(self).bytes().len() ==> {
                &&& r == Some(
                    spec_u32_from_le_bytes(
                        old(self).bytes().subrange(old(self).pos(), old(self).pos() + 4),
                    ),
                )
                &&& final(self).pos() == old(self).pos() + 4
            },
            old(self).pos() + 4 > old(self).bytes().len() ==> {
                &&& r is None
                &&& final(self).pos() == old(self).pos()
            },
    ;

    /// Read 8 bytes, interpret them as a little-endian u64, and return the
    /// result. Return None if there were less than 8 bytes remaining.
    fn read_u64_le(&mut self) -> (r: Option<u64>)
        requires
            old(self).wf(),
        ensures
            final(self).wf(),
            final(self).bytes() == old(self).bytes(),
            old(self).pos() + 8 <= old(self).bytes().len() ==> {
                &&& r == Some(
                    spec_u64_from_le_bytes(
                        old(self).bytes().subrange(old(self).pos(), old(self).pos() + 8),
                    ),
                )
                &&& final(self).pos() == old(self).pos() + 8
            },
            old(self).pos() + 8 > old(self).bytes().len() ==> {
                &&& r is None
                &&& final(self).pos() == old(self).pos()
            },
    ;

    /// Advance the read position by count bytes. Returns how many bytes were
    /// skipped, in case there were less than count bytes available to read.
    fn skip(&mut self, count: usize) -> (r: usize)
        requires
            old(self).wf(),
        ensures
            final(self).wf(),
            final(self).bytes() == old(self).bytes(),
            r == if old(self).pos() + count <= old(self).bytes().len() {
                count as int
            } else {
                old(self).bytes().len() - old(self).pos()
            },
            final(self).pos() == old(self).pos() + r,
    ;
}

/// A read cursor over a borrowed byte slice.
pub struct SliceCursor<'a> {
    data: &'a [u8],
    position: usize,
}

impl<'a> SliceCursor<'a> {
    pub fn new(data: &'a [u8]) -> (r: Self)
        ensures
            r.wf(),
            r.bytes() == data@,
            r.pos() == 0,
    {
        SliceCursor { data, position: 0 }
    }

    /// The current read position, at most the buffer length.
    pub fn position(&self) -> (r: usize)
        requires
            self.wf(),
        ensures
            r == self.pos(),
    {
        self.position
    }

    /// Read up to count bytes and return them as a borrowed slice. The
    /// returned slice's length may be less than count near the end of the
    /// buffer, or zero.
    pub fn read_borrow(&mut self, count: usize) -> (r: &'a [u8])
        requires
            old(self).wf(),
        ensures
            final(self).wf(),
            final(self).bytes() == old(self).bytes(),
            final(self).pos() == old(self).pos() + r@.len(),
            r@ == old(self).bytes().subrange(old(self).pos(), final(self).pos()),
            r@.len() == if old(self).pos() + count <= old(self).bytes().len() {
                count as int
            } else {
                old(self).bytes().len() - old(self).pos()
            },
    {
        let avail = self.data.len() - self.position;
        let k = if count <= avail {
            count
        } else {
            avail
        };
        let r = slice_subrange(self.data, self.position, self.position + k);
        self.position = self.position + k;
        r
    }

    /// Move the read position to an absolute or relative target, clamped to
    /// the buffer bounds; an out-of-range request never fails.
    pub fn seek(&mut self, from: SeekFrom) -> (r: usize)
        requires
            old(self).wf(),
        ensures
            final(self).wf(),
            final(self).bytes() == old(self).bytes(),
            final(self).pos() == spec_seek_pos(from, old(self).pos(), old(self).bytes().len() as int),
            r == final(self).pos(),
    {
        let len = self.data.len();
        let new_pos: usize = match from {
            SeekFrom::Start(n) => {
                if n >= len as u64 {
                    len
                } else {
                    n as usize
                }
            },
            SeekFrom::Current(d) => {
                if d >= 0 {
                    let mag = d as u64;
                    if mag >= (len - self.position) as u64 {
                        len
                    } else {
                        self.position + mag as usize
                    }
                } else {
                    let mag = (-(d + 1)) as u64 + 1;
                    if mag >= self.position as u64 {
                        0
                    } else {
                        self.position - mag as usize
                    }
                }
            },
            SeekFrom::End(d) => {
                if d >= 0 {
                    len
                } else {
                    let mag = (-(d + 1)) as u64 + 1;
                    if mag >= len as u64 {
                        0
                    } else {
                        len - mag as usize
                    }
                }
            },
        };
        self.position = new_pos;
        new_pos
    }
}

impl<'a> ReadHelper for SliceCursor<'a> {
    closed spec fn bytes(&self) -> Seq<u8> {
        self.data@
    }

    closed spec fn pos(&self) -> int {
        self.position as int
    }

    closed spec fn wf(&self) -> bool {
        self.position <= self.data@.len()
    }

    fn read_byte(&mut self) -> (r: Option<u8>) {
        if self.position < self.data.len() {
            let b = *slice_index_get(self.data, self.position);
            self.position = self.position + 1;
            Some(b)
        } else {
            None
        }
    }

    fn read_u32_le(&mut self) -> (r: Option<u32>) {
        if self.data.len() - self.position >= 4 {
            let s = slice_subrange(self.data, self.position, self.position + 4);
            self.position = self.position + 4;
            Some(u32_from_le_bytes(s))
        } else {
            None
        }
    }

    fn read_u64_le(&mut self) -> (r: Option<u64>) {
        if self.data.len() - self.position >= 8 {
            let s = slice_subrange(self.data, self.position, self.position + 8);
            self.position = self.position + 8;
            Some(u64_from_le_bytes(s))
        } else {
            None
        }
    }

    fn skip(&mut self, count: usize) -> (r: usize) {
        let avail = self.data.len() - self.position;
        let k = if count <= avail {
            count
        } else {
            avail
        };
        self.position = self.position + k;
        k
    }
}

/// A sequence of `n` zero bytes.
pub open spec fn zero_seq(n: nat) -> Seq<u8> {
    Seq::new(n, |i: int| 0u8)
}

/// How many of `count` bytes fit in a buffer of length `len` at position `pos`.
pub open spec fn spec_fit(len: int, pos: int, count: int) -> int {
    if pos + count <= len {
        count
    } else {
        len - pos
    }
}

/// The buffer with `data` overlaid starting at `pos`; bytes that would land
/// past the end of the buffer are discarded.
pub open spec fn spec_overwrite(buf: Seq<u8>, pos: int, data: Seq<u8>) -> Seq<u8> {
    Seq::new(buf.len(), |i: int| if pos <= i && i < pos + data.len() { data[i - pos] } else { buf[i] })
}

/// Sequential writes of numeric fields and zero padding into a fixed-size
/// buffer. A write that does not fully fit writes what fits and reports
/// failure.
pub trait WriteHelper {
    /// All bytes of the underlying buffer.
    spec fn buf(&self) -> Seq<u8>;

    /// The current write position.
    spec fn pos(&self) -> int;

    /// The write position never passes the end of the buffer.
    spec fn wf(&self) -> bool;

    /// Write one byte of data.
    fn write_byte(&mut self, val: u8) -> (r: Result<(), ()>)
        requires
            old(self).wf(),
        ensures
            final(self).wf(),
            final(self).buf() == spec_overwrite(old(self).buf(), old(self).pos(), seq![val]),
            final(self).pos() == old(self).pos() + spec_fit(
                old(self).buf().len() as int,
                old(self).pos(),
                1,
            ),
            r is Ok <==> old(self).pos() + 1 <= old(self).buf().len(),
    ;

    /// Write 4 bytes of data as a little-endian u32.
    fn write_u32_le(&mut self, val: u32) -> (r: Result<(), ()>)
        requires
            old(self).wf(),
        ensures
            final(self).wf(),
            final(self).buf() == spec_overwrite(
                old(self).buf(),
                old(self).pos(),
                vstd::bytes::spec_u32_to_le_bytes(val),
            ),
            final(self).pos() == old(self).pos() + spec_fit(
                old(self).buf().len() as int,
                old(self).pos(),
                4,
            ),
            r is Ok <==> old(self).pos() + 4 <= old(self).buf().len(),
    ;

    /// Write 8 bytes of data as a little-endian u64.
    fn write_u64_le(&mut self, val: u64) -> (r: Result<(), ()>)
        requires
            old(self).wf(),
        ensures
            final(self).wf(),
            final(self).buf() == spec_overwrite(
                old(self).buf(),
                old(self).pos(),
                vstd::bytes::spec_u64_to_le_bytes(val),
            ),
            final(self).pos() == old(self).pos() + spec_fit(
                old(self).buf().len() as int,
                old(self).pos(),
                8,
            ),
            r is Ok <==> old(self).pos() + 8 <= old(self).buf().len(),
    ;

    /// Write some number of zero bytes.
    fn write_zeros(&mut self, count: usize) -> (r: Result<(), ()>)
        requires
            old(self).wf(),
        ensures
            final(self).wf(),
            final(self).buf() == spec_overwrite(
                old(self).buf(),
                old(self).pos(),
                zero_seq(count as nat),
            ),
            final(self).pos() == old(self).pos() + spec_fit(
                old(self).buf().len() as int,
                old(self).pos(),
                count as int,
            ),
            r is Ok <==> old(self).pos() + count <= old(self).buf().len(),
    ;
}

/// A write cursor over an owned, fixed-size byte buffer.
pub struct VecCursor {
    data: Vec<u8>,
    position: usize,
}

impl VecCursor {
    /// A zero-filled buffer of the given size with the cursor at the start.
    pub fn new(size: usize) -> (r: Self)
        ensures
            r.wf(),
            r.buf() == zero_seq(size as nat),
            r.pos() == 0,
    {
        let data: Vec<u8> = vec![0u8; size];
        proof {
            assert(data@ =~= zero_seq(size as nat));
        }
        VecCursor { data, position: 0 }
    }

    /// The current write position, at most the buffer length.
    pub fn position(&self) -> (r: usize)
        requires
            self.wf(),
        ensures
            r == self.pos(),
    {
        self.position
    }

    /// Borrow the whole underlying buffer.
    pub fn as_slice(&self) -> (r: &[u8])
        ensures
            r@ == self.buf(),
    {
        self.data.as_slice()
    }

    /// Give up the cursor and hand the underlying buffer back.
    pub fn into_vec(self) -> (r: Vec<u8>)
        ensures
            r@ == self.buf(),
    {
        self.data
    }

    /// Write as much of `data` as fits at the current position, advancing the
    /// cursor; report failure if any byte did not fit.
    pub fn write_all(&mut self, data: &[u8]) -> (r: Result<(), ()>)
        requires
            old(self).wf(),
        ensures
            final(self).wf(),
            final(self).buf() == spec_overwrite(old(self).buf(), old(self).pos(), data@),
            final(self).pos() == old(self).pos() + spec_fit(
                old(self).buf().len() as int,
                old(self).pos(),
                data@.len() as int,
            ),
            r is Ok <==> old(self).pos() + data@.len() <= old(self).buf().len(),
    {
        let avail = self.data.len() - self.position;
        let k = if data.len() <= avail {
            data.len()
        } else {
            avail
        };
        let mut i: usize = 0;
        while i < k
            invariant
                i <= k,
                k == spec_fit(old(self).buf().len() as int, old(self).pos(), data@.len() as int),
                k <= data@.len(),
                self.position == old(self).pos(),
                self.position + k <= self.data@.len(),
                self.data@.len() <= usize::MAX,
                self.data@.len() == old(self).buf().len(),
                self.data@ == spec_overwrite(
                    old(self).buf(),
                    old(self).pos(),
                    data@.subrange(0, i as int),
                ),
            decreases k - i,
        {
            let idx = self.position + i;
            self.data[idx] = *vstd::slice::slice_index_get(data, i);
            proof {
                assert(self.data@ =~= spec_overwrite(
                    old(self).buf(),
                    old(self).pos(),
                    data@.subrange(0, i as int + 1),
                ));
            }
            i = i + 1;
        }
        proof {
            assert(data@.subrange(0, k as int) =~= data@.take(k as int));
            if k == data@.len() {
                assert(data@.subrange(0, k as int) =~= data@);
            } else {
                assert(spec_overwrite(old(self).buf(), old(self).pos(), data@.subrange(0, k as int))
                    =~= spec_overwrite(old(self).buf(), old(self).pos(), data@));
            }
        }
        self.position = self.position + k;
        if k == data.len() {
            Ok(())
        } else {
            Err(())
        }
    }

    /// Move the write position to an absolute or relative target, clamped to
    /// the buffer bounds; an out-of-range request never fails.
    pub fn seek(&mut self, from: SeekFrom) -> (r: usize)
        requires
            old(self).wf(),
        ensures
            final(self).wf(),
            final(self).buf() == old(self).buf(),
            final(self).pos() == spec_seek_pos(from, old(self).pos(), old(self).buf().len() as int),
            r == final(self).pos(),
    {
        let len = self.data.len();
        let new_pos: usize = match from {
            SeekFrom::Start(n) => {
                if n >= len as u64 {
                    len
                } else {
                    n as usize
                }
            },
            SeekFrom::Current(d) => {
                if d >= 0 {
                    let mag = d as u64;
                    if mag >= (len - self.position) as u64 {
                        len
                    } else {
                        self.position + mag as usize
                    }
                } else {
                    let mag = (-(d + 1)) as u64 + 1;
                    if mag >= self.position as u64 {
                        0
                    } else {
                        self.position - mag as usize
                    }
                }
            },
            SeekFrom::End(d) => {
                if d >= 0 {
                    len
                } else {
                    let mag = (-(d + 1)) as u64 + 1;
                    if mag >= len as u64 {
                        0
                    } else {
                        len - mag as usize
                    }
                }
            },
        };
        self.position = new_pos;
        new_pos
    }
}

impl WriteHelper for VecCursor {
    closed spec fn buf(&self) -> Seq<u8> {
        self.data@
    }

    closed spec fn pos(&self) -> int {
        self.position as int
    }

    closed spec fn wf(&self) -> bool {
        self.position <= self.data@.len()
    }

    fn write_byte(&mut self, val: u8) -> (r: Result<(), ()>) {
        let arr = [val];
        let res = self.write_all(arr.as_slice());
        proof {
            assert(arr@ =~= seq![val]);
        }
        res
    }

    fn write_u32_le(&mut self, val: u32) -> (r: Result<(), ()>) {
        let bytes = vstd::bytes::u32_to_le_bytes(val);
        self.write_all(bytes.as_slice())
    }

    fn write_u64_le(&mut self, val: u64) -> (r: Result<(), ()>) {
        let bytes = vstd::bytes::u64_to_le_bytes(val);
        self.write_all(bytes.as_slice())
    }

    fn write_zeros(&mut self, count: usize) -> (r: Result<(), ()>) {
        let zeros: Vec<u8> = vec![0u8; count];
        proof {
            assert(zeros@ =~= zero_seq(count as nat));
        }
        self.write_all(zeros.as_slice())
    }
}

/// What `String::from_utf8_lossy` yields on byte sequences that are not
/// valid UTF-8: the decoding with ill-formed parts replaced. The value
/// depends on the bytes alone.
pub uninterp spec fn utf8_lossy_of(bytes: Seq<u8>) -> Seq<char>;

/// Relies on String::from_utf8_lossy: bytes that are valid UTF-8 decode
/// exactly; ill-formed sequences are replaced with the replacement
/// character, a function of the bytes alone.
#[verifier::external_body]
pub fn from_utf8_lossy(b: &[u8]) -> (r: String)
    ensures
        vstd::utf8::valid_utf8(b@) ==> r@ == vstd::utf8::decode_utf8(b@),
        !vstd::utf8::valid_utf8(b@) ==> r@ == utf8_lossy_of(b@),
{
    String::from_utf8_lossy(b).into_owned()
}

/// Whether two byte slices hold the same bytes.
pub fn bytes_eq(a: &[u8], b: &[u8]) -> (r: bool)
    ensures
        r == (a@ == b@),
{
    if a.len() != b.len() {
        return false;
    }
    let n = a.len();
    let mut i: usize = 0;
    while i < n
        invariant
            i <= n,
            n == a@.len(),
            n == b@.len(),
            forall|j: int| 0 <= j < i ==> a@[j] == b@[j],
        decreases n - i,
    {
        if *slice_index_get(a, i) != *slice_index_get(b, i) {
            return false;
        }
        i = i + 1;
    }
    proof {
        assert(a@ =~= b@);
    }
    true
}

/// Whether two strings hold the same characters.
pub fn str_eq(a: &str, b: &str) -> (r: bool)
    ensures
        r == (a@ == b@),
{
    let res = bytes_eq(a.as_bytes(), b.as_bytes());
    proof {
        broadcast use vstd::utf8::encode_utf8_decode_utf8;

        if vstd::utf8::encode_utf8(a@) == vstd::utf8::encode_utf8(b@) {
            assert(vstd::utf8::decode_utf8(vstd::utf8::encode_utf8(a@)) == a@);
            assert(vstd::utf8::decode_utf8(vstd::utf8::encode_utf8(b@)) == b@);
        }
    }
    res
}

/// Writing `c` at the end of the filled prefix `x` of a zero-filled buffer
/// extends the prefix by `c` and leaves the rest zero.
pub proof fn lemma_overwrite_append(x: Seq<u8>, m: nat, c: Seq<u8>)
    requires
        c.len() <= m,
    ensures
        spec_overwrite(x + zero_seq(m), x.len() as int, c) == x + c + zero_seq((m - c.len()) as nat),
{
    assert(spec_overwrite(x + zero_seq(m), x.len() as int, c) =~= x + c + zero_seq(
        (m - c.len()) as nat,
    ));
}

/// One binary kibibyte, and its higher powers, for human-scaled rendering.
pub const KIB: u64 = 1024;

pub const MIB: u64 = 1024 * 1024;

pub const GIB: u64 = 1024 * 1024 * 1024;

pub const TIB: u64 = 1024 * 1024 * 1024 * 1024;

pub const PIB: u64 = 1024 * 1024 * 1024 * 1024 * 1024;

pub const EIB: u64 = 1024 * 1024 * 1024 * 1024 * 1024 * 1024;

/// The lowercase digit character for one digit value below sixteen.
pub open spec fn spec_digit_char(d: nat) -> char {
    if d == 0 {
        '0'
    } else if d == 1 {
        '1'
    } else if d == 2 {
        '2'
    } else if d == 3 {
        '3'
    } else if d == 4 {
        '4'
    } else if d == 5 {
        '5'
    } else if d == 6 {
        '6'
    } else if d == 7 {
        '7'
    } else if d == 8 {
        '8'
    } else if d == 9 {
        '9'
    } else if d == 10 {
        'a'
    } else if d == 11 {
        'b'
    } else if d == 12 {
        'c'
    } else if d == 13 {
        'd'
    } else if d == 14 {
        'e'
    } else {
        'f'
    }
}

/// The decimal rendering of a number: its digits, most significant first.
pub open spec fn spec_dec_digits(v: nat) -> Seq<char>
    decreases v,
{
    if v < 10 {
        seq![spec_digit_char(v)]
    } else {
        spec_dec_digits(v / 10) + seq![spec_digit_char(v % 10)]
    }
}

/// One hex digit of a 32-bit value, counted from the most significant.
pub open spec fn spec_hex_digit32(v: u32, i: int) -> char {
    spec_digit_char(((v >> (((7 - i) * 4) as u32)) & 0xf) as nat)
}

/// The eight lowercase hex digits of a 32-bit value.
pub open spec fn spec_hex32(v: u32) -> Seq<char> {
    Seq::new(8, |i: int| spec_hex_digit32(v, i))
}

/// One hex digit of a 64-bit value, counted from the most significant.
pub open spec fn spec_hex_digit64(v: u64, i: int) -> char {
    spec_digit_char(((v >> (((15 - i) * 4) as u32)) & 0xf) as nat)
}

/// The sixteen lowercase hex digits of a 64-bit value.
pub open spec fn spec_hex64(v: u64) -> Seq<char> {
    Seq::new(16, |i: int| spec_hex_digit64(v, i))
}

/// The one-character string of a digit value below sixteen.
fn digit_str(d: u8) -> (r: &'static str)
    requires
        d < 16,
    ensures
        r@ == seq![spec_digit_char(d as nat)],
{
    match d {
        0 => {
            proof {
                reveal_strlit("0");
                assert("0"@ =~= seq!['0']);
            }
            "0"
        },
        1 => {
            proof {
                reveal_strlit("1");
                assert("1"@ =~= seq!['1']);
            }
            "1"
        },
        2 => {
            proof {
                reveal_strlit("2");
                assert("2"@ =~= seq!['2']);
            }
            "2"
        },
        3 => {
            proof {
                reveal_strlit("3");
                assert("3"@ =~= seq!['3']);
            }
            "3"
        },
        4 => {
            proof {
                reveal_strlit("4");
                assert("4"@ =~= seq!['4']);
            }
            "4"
        },
        5 => {
            proof {
                reveal_strlit("5");
                assert("5"@ =~= seq!['5']);
            }
            "5"
        },
        6 => {
            proof {
                reveal_strlit("6");
                assert("6"@ =~= seq!['6']);
            }
            "6"
        },
        7 => {
            proof {
                reveal_strlit("7");
                assert("7"@ =~= seq!['7']);
            }
            "7"
        },
        8 => {
            proof {
                reveal_strlit("8");
                assert("8"@ =~= seq!['8']);
            }
            "8"
        },
        9 => {
            proof {
                reveal_strlit("9");
                assert("9"@ =~= seq!['9']);
            }
            "9"
        },
        10 => {
            proof {
                reveal_strlit("a");
                assert("a"@ =~= seq!['a']);
            }
            "a"
        },
        11 => {
            proof {
                reveal_strlit("b");
                assert("b"@ =~= seq!['b']);
            }
            "b"
        },
        12 => {
            proof {
                reveal_strlit("c");
                assert("c"@ =~= seq!['c']);
            }
            "c"
        },
        13 => {
            proof {
                reveal_strlit("d");
                assert("d"@ =~= seq!['d']);
            }
            "d"
        },
        14 => {
            proof {
                reveal_strlit("e");
                assert("e"@ =~= seq!['e']);
            }
            "e"
        },
        _ => {
            proof {
                reveal_strlit("f");
                assert("f"@ =~= seq!['f']);
            }
            "f"
        },
    }
}

/// The decimal rendering of an integer.
pub fn fmt_u64(v: u64) -> (r: String)
    ensures
        r@ == spec_dec_digits(v as nat),
    decreases v,
{
    let d = (v % 10) as u8;
    let ds = digit_str(d);
    if v < 10 {
        let r = ds.to_owned();
        proof {
            assert(r@ =~= spec_dec_digits(v as nat));
        }
        r
    } else {
        let mut r = fmt_u64(v / 10);
        r.append(ds);
        proof {
            assert(r@ =~= spec_dec_digits(v as nat));
        }
        r
    }
}

/// The eight lowercase hex digits of a 32-bit value.
pub fn fmt_hex32(v: u32) -> (r: String)
    ensures
        r@ == spec_hex32(v),
{
    let mut r = String::new();
    let mut i: usize = 0;
    while i < 8
        invariant
            i <= 8,
            r@.len() == i,
            forall|j: int| 0 <= j < i ==> r@[j] == spec_hex_digit32(v, j),
        decreases 8 - i,
    {
        let shift: u32 = ((7 - i) * 4) as u32;
        let nib = ((v >> shift) & 0xf) as u8;
        proof {
            assert(((v >> shift) & 0xf) < 16) by (bit_vector);
        }
        r.append(digit_str(nib));
        i = i + 1;
    }
    proof {
        assert(r@ =~= spec_hex32(v));
    }
    r
}

/// The sixteen lowercase hex digits of a 64-bit value.
pub fn fmt_hex64(v: u64) -> (r: String)
    ensures
        r@ == spec_hex64(v),
{
    let mut r = String::new();
    let mut i: usize = 0;
    while i < 16
        invariant
            i <= 16,
            r@.len() == i,
            forall|j: int| 0 <= j < i ==> r@[j] == spec_hex_digit64(v, j),
        decreases 16 - i,
    {
        let shift: u32 = ((15 - i) * 4) as u32;
        let nib = ((v >> shift) & 0xf) as u8;
        proof {
            assert(((v >> shift) & 0xf) < 16) by (bit_vector);
        }
        r.append(digit_str(nib));
        i = i + 1;
    }
    proof {
        assert(r@ =~= spec_hex64(v));
    }
    r
}

/// A scaled value with one fractional digit: whole part, a dot, and tenths
/// of the given unit.
pub open spec fn spec_scaled_tenths(v: nat, unit: nat) -> Seq<char> {
    spec_dec_digits(v / unit) + "."@ + spec_dec_digits((v % unit) * 10 / unit)
}

/// The human-scaled rendering of a byte count: plain bytes below one KiB,
/// else the largest binary unit reached, with one fractional digit.
pub open spec fn spec_human_size(v: nat) -> Seq<char> {
    if v < KIB {
        spec_dec_digits(v) + " B"@
    } else if v < MIB {
        spec_scaled_tenths(v, KIB as nat) + " KiB"@
    } else if v < GIB {
        spec_scaled_tenths(v, MIB as nat) + " MiB"@
    } else if v < TIB {
        spec_scaled_tenths(v, GIB as nat) + " GiB"@
    } else if v < PIB {
        spec_scaled_tenths(v, TIB as nat) + " TiB"@
    } else if v < EIB {
        spec_scaled_tenths(v, PIB as nat) + " PiB"@
    } else {
        spec_scaled_tenths(v, EIB as nat) + " EiB"@
    }
}

/// The human-scaled rendering followed by the exact byte count in
/// parentheses; plain bytes stand alone.
pub open spec fn spec_human_size_extended(v: nat) -> Seq<char> {
    if v < KIB {
        spec_dec_digits(v) + " B"@
    } else {
        spec_human_size(v) + " ("@ + spec_dec_digits(v) + ")"@
    }
}

/// Append the scaled rendering of `v` in units of `unit` with one fractional
/// digit, then the unit's name.
fn append_scaled(out: &mut String, v: u64, unit: u64, name: &str)
    requires
        1 <= unit <= EIB,
    ensures
        final(out)@ == old(out)@ + spec_scaled_tenths(v as nat, unit as nat) + name@,
{
    let whole = fmt_u64(v / unit);
    out.append(whole.as_str());
    out.append(".");
    let tenths = fmt_u64((v % unit) * 10 / unit);
    out.append(tenths.as_str());
    out.append(name);
    proof {
        assert(out@ =~= old(out)@ + spec_scaled_tenths(v as nat, unit as nat) + name@);
    }
}

/// Render a byte count human-scaled: plain bytes below one KiB, else the
/// largest binary unit reached, with one fractional digit.
pub fn human_size(v: u64) -> (r: String)
    ensures
        r@ == spec_human_size(v as nat),
{
    let mut out = String::new();
    if v < KIB {
        let dec = fmt_u64(v);
        out.append(dec.as_str());
        out.append(" B");
    } else if v < MIB {
        append_scaled(&mut out, v, KIB, " KiB");
    } else if v < GIB {
        append_scaled(&mut out, v, MIB, " MiB");
    } else if v < TIB {
        append_scaled(&mut out, v, GIB, " GiB");
    } else if v < PIB {
        append_scaled(&mut out, v, TIB, " TiB");
    } else if v < EIB {
        append_scaled(&mut out, v, PIB, " PiB");
    } else {
        append_scaled(&mut out, v, EIB, " EiB");
    }
    proof {
        assert(out@ =~= spec_human_size(v as nat));
    }
    out
}

/// Render a byte count human-scaled with the exact count in parentheses;
/// plain bytes stand alone.
pub fn human_size_extended(v: u64) -> (r: String)
    ensures
        r@ == spec_human_size_extended(v as nat),
{
    let mut out = human_size(v);
    if v >= KIB {
        out.append(" (");
        let dec = fmt_u64(v);
        out.append(dec.as_str());
        out.append(")");
    }
    proof {
        assert(out@ =~= spec_human_size_extended(v as nat));
    }
    out
}

} // verus!
