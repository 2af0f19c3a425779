//! The image handle: header and end-marker checks over a QOI byte buffer.
use vstd::prelude::*;

use crate::color::Color;
use crate::decoder::{initial_cursor, measure, pixels_from, PixelsIter};

verus! {

/// Why a byte buffer is not accepted as a QOI image.
#[derive(Clone, Copy, Debug, PartialEq, Eq, Structural, PartialOrd, Ord, Hash)]
pub enum Error {
    /// The buffer does not start with the magic bytes `qoif`.
    InvalidMagic,
    /// The buffer is too short, or does not end with the end marker.
    TruncatedFile,
}

/// Length of the header: magic, width, height, channels, colorspace.
pub const HEADER_LENGTH: usize = 14;

/// Length of the end marker.
pub const END_LENGTH: usize = 8;

/// The magic bytes `q`, `o`, `i`, `f`.
pub open spec fn magic() -> Seq<u8> {
    seq![0x71u8, 0x6fu8, 0x69u8, 0x66u8]
}

/// The end marker: seven zero bytes and a one.
pub open spec fn end_marker() -> Seq<u8> {
    seq![0u8, 0u8, 0u8, 0u8, 0u8, 0u8, 0u8, 1u8]
}

/// The big-endian unsigned integer in bytes `i` to `i + 3` of `s`.
pub open spec fn be_u32(s: Seq<u8>, i: int) -> int {
    s[i] * 0x1000000 + s[i + 1] * 0x10000 + s[i + 2] * 0x100 + s[i + 3]
}

/// The error that opening `s` gives, checked in order: length, magic, end
/// marker; `None` when `s` is accepted.
pub open spec fn open_error(s: Seq<u8>) -> Option<Error> {
    if s.len() < HEADER_LENGTH + END_LENGTH {
        Some(Error::TruncatedFile)
    } else if s.subrange(0, 4) != magic() {
        Some(Error::InvalidMagic)
    } else if s.subrange(s.len() - END_LENGTH, s.len() as int) != end_marker() {
        Some(Error::TruncatedFile)
    } else {
        None
    }
}

/// What an image handle holds.
pub struct QoiView {
    pub width: u32,
    pub height: u32,
    /// The chunk bytes between header and end marker.
    pub body: Seq<u8>,
}

/// The handle that opening an accepted buffer `s` gives.
pub open spec fn opened(s: Seq<u8>) -> QoiView {
    QoiView {
        width: be_u32(s, 4) as u32,
        height: be_u32(s, 8) as u32,
        body: s.subrange(HEADER_LENGTH as int, s.len() - END_LENGTH),
    }
}

/// Opening rejects a buffer shorter than header and end marker together with
/// `TruncatedFile`; a longer one whose first four bytes are not the magic with
/// `InvalidMagic`, whatever else it holds; and one with the magic whose last
/// eight bytes are not the end marker with `TruncatedFile`.
pub proof fn lemma_open_rejects(s: Seq<u8>)
    ensures
        s.len() < HEADER_LENGTH + END_LENGTH ==> open_error(s) == Some(Error::TruncatedFile),
        s.len() >= HEADER_LENGTH + END_LENGTH && s.subrange(0, 4) != magic() ==> open_error(s)
            == Some(Error::InvalidMagic),
        s.len() >= HEADER_LENGTH + END_LENGTH && s.subrange(0, 4) == magic() && s.subrange(
            s.len() - END_LENGTH,
            s.len() as int,
        ) != end_marker() ==> open_error(s) == Some(Error::TruncatedFile),
{
}

/// Removing the last byte of an accepted buffer makes it rejected with
/// `TruncatedFile`.
pub proof fn lemma_drop_last_truncates(s: Seq<u8>)
    requires
        open_error(s) is None,
    ensures
        open_error(s.drop_last()) == Some(Error::TruncatedFile),
{
    let t = s.drop_last();
    assert(s.subrange(s.len() - END_LENGTH, s.len() as int)[6] == end_marker()[6]);
    if t.len() >= HEADER_LENGTH + END_LENGTH {
        assert(t.subrange(0, 4) =~= s.subrange(0, 4));
        assert(t.subrange(t.len() - END_LENGTH, t.len() as int)[7] == s[s.len() - 2]);
        assert(t.subrange(t.len() - END_LENGTH, t.len() as int)[7] != end_marker()[7]);
    }
}

/// A QOI image over a borrowed byte buffer.
#[derive(Clone, Copy, Debug, PartialEq, Eq, Hash)]
pub struct Qoi<'a> {
    data: &'a [u8],
    width: u32,
    height: u32,
}

impl<'a> View for Qoi<'a> {
    type V = QoiView;

    closed spec fn view(&self) -> QoiView {
        QoiView { width: self.width, height: self.height, body: self.data@ }
    }
}

/// Reads the big-endian unsigned integer in bytes `i` to `i + 3` of `s`.
fn read_be_u32(s: &[u8], i: usize) -> (v: u32)
    requires
        i + 4 <= s@.len(),
    ensures
        v as int == be_u32(s@, i as int),
{
    (s[i] as u32) * 0x1000000 + (s[i + 1] as u32) * 0x10000 + (s[i + 2] as u32) * 0x100 + (
    s[i + 3] as u32)
}

impl<'a> Qoi<'a> {
    /// Opens a QOI image: checks the length, the magic bytes and the end
    /// marker, in that order, and reads width and height. The channel count
    /// and colorspace bytes are not interpreted.
    pub fn new(data: &'a [u8]) -> (r: Result<Qoi<'a>, Error>)
        ensures
            match r {
                Ok(q) => open_error(data@) is None && q@ == opened(data@),
                Err(e) => open_error(data@) == Some(e),
            },
    {
        if data.len() < HEADER_LENGTH + END_LENGTH {
            return Err(Error::TruncatedFile);
        }
        let (header, rest) = data.split_at(HEADER_LENGTH);
        let (body, end) = rest.split_at(rest.len() - END_LENGTH);
        proof {
            assert(header@.subrange(0, 4) =~= data@.subrange(0, 4));
            assert(end@ =~= data@.subrange(data@.len() - END_LENGTH, data@.len() as int));
            assert(body@ =~= opened(data@).body);
        }
        if !(header[0] == 0x71 && header[1] == 0x6f && header[2] == 0x69 && header[3] == 0x66) {
            proof {
                assert(header@.subrange(0, 4) != magic()) by {
                    if header@.subrange(0, 4) == magic() {
                        assert(header@.subrange(0, 4)[0] == magic()[0]);
                        assert(header@.subrange(0, 4)[1] == magic()[1]);
                        assert(header@.subrange(0, 4)[2] == magic()[2]);
                        assert(header@.subrange(0, 4)[3] == magic()[3]);
                    }
                }
            }
            return Err(Error::InvalidMagic);
        }
        assert(header@.subrange(0, 4) =~= magic());
        if !(end[0] == 0 && end[1] == 0 && end[2] == 0 && end[3] == 0 && end[4] == 0 && end[5] == 0
            && end[6] == 0 && end[7] == 1) {
            proof {
                assert(end@ != end_marker()) by {
                    if end@ == end_marker() {
                        assert(forall|k: int| 0 <= k < 8 ==> end@[k] == end_marker()[k]);
                    }
                }
            }
            return Err(Error::TruncatedFile);
        }
        assert(end@ =~= end_marker());
        let width = read_be_u32(header, 4);
        let height = read_be_u32(header, 8);
        proof {
            assert(header@[4] == data@[4] && header@[5] == data@[5] && header@[6] == data@[6]
                && header@[7] == data@[7]);
            assert(header@[8] == data@[8] && header@[9] == data@[9] && header@[10] == data@[10]
                && header@[11] == data@[11]);
        }
        Ok(Qoi { data: body, width, height })
    }

    /// The width and height of the image, in pixels.
    pub fn size(&self) -> (r: (u32, u32))
        ensures
            r == (self@.width, self@.height),
    {
        (self.width, self.height)
    }

    /// A fresh cursor over the pixels of this image, at its first pixel.
    pub fn pixels(&self) -> (it: PixelsIter<'a>)
        ensures
            it@ == initial_cursor(self@.body),
    {
        PixelsIter::new(self.data)
    }

    /// Decodes every pixel of this image, in row-major order, until the chunk
    /// stream is exhausted or ends inside a chunk.
    pub fn pixel_vec(&self) -> (v: Vec<Color>)
        ensures
            v@ == pixels_from(initial_cursor(self@.body)),
    {
        let mut it = self.pixels();
        let mut v: Vec<Color> = Vec::new();
        loop
            invariant_except_break
                v@ + pixels_from(it@) == pixels_from(initial_cursor(self@.body)),
            ensures
                v@ == pixels_from(initial_cursor(self@.body)),
            decreases measure(it@),
        {
            let ghost before = it@;
            match it.next() {
                None => {
                    assert(v@ + pixels_from(before) =~= v@);
                    break;
                },
                Some(c) => {
                    proof {
                        crate::decoder::lemma_step_measure(before);
                        assert(v@.push(c) + pixels_from(it@) =~= v@ + pixels_from(before));
                    }
                    v.push(c);
                },
            }
        }
        v
    }
}

} // verus!
