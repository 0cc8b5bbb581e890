//! The wire format of a transfer: five header bytes, the number of files as a
//! varint, then one frame per file. A frame is a compression byte, the name
//! with its length before it, the checksum of the content as four bytes, and
//! the content with its length before it.

use crate::codec::{be32, be32_bytes, crc32_ieee};
use crate::error::ErrorKind;
use crate::plan::{texts, ExpectedFiles};
use crate::varint::{varint_at, varint_encode, VarintError};
use vstd::prelude::*;
use vstd::utf8::{decode_utf8, encode_utf8, valid_utf8};

verus! {

/// The longest name, in bytes, that a frame may declare.
pub const MAX_NAME_LEN: u64 = 512;

/// The largest content, in bytes, that a frame may declare: 100 MiB.
pub const MAX_CONTENT_LEN: u64 = 104_857_600;

/// The length of the header: four magic bytes and the version.
pub const HEADER_LEN: usize = 5;

/// The magic bytes followed by the version.
pub open spec fn header() -> Seq<u8> {
    seq![0xFEu8, 0xEDu8, 0xBEu8, 0xEFu8, 0x02u8]
}

/// A file as it is sent: its name and its content.
pub struct SourceFile {
    pub name: String,
    pub content: Vec<u8>,
}

/// A file as it was received and checked.
pub struct FileFrame {
    pub name: String,
    pub crc32: u32,
    pub content: Vec<u8>,
}

/// What a frame holds, as mathematical values.
pub ghost struct FrameView {
    pub name: Seq<char>,
    pub crc32: u32,
    pub content: Seq<u8>,
}

impl View for FileFrame {
    type V = FrameView;

    open spec fn view(&self) -> FrameView {
        FrameView { name: self.name@, crc32: self.crc32, content: self.content@ }
    }
}

/// What a sequence of frames holds.
pub open spec fn frame_views(frames: Seq<FileFrame>) -> Seq<FrameView> {
    frames.map_values(|f: FileFrame| f@)
}

/// The names of a sequence of frames, in order.
pub open spec fn frame_names(frames: Seq<FrameView>) -> Seq<Seq<char>> {
    frames.map_values(|f: FrameView| f.name)
}

/// The frame that a sent file becomes: the checksum is that of its content.
pub open spec fn frame_of(name: Seq<char>, content: Seq<u8>) -> FrameView {
    FrameView { name, crc32: crc32_ieee(content), content }
}

/// The bytes of one frame.
#[verifier::opaque]
pub open spec fn frame_bytes(f: FrameView) -> Seq<u8> {
    seq![0u8] + varint_encode(encode_utf8(f.name).len()) + encode_utf8(f.name) + be32_bytes(
        f.crc32,
    ) + varint_encode(f.content.len()) + f.content
}

/// The bytes of the frames one after the other.
pub open spec fn frames_bytes(frames: Seq<FrameView>) -> Seq<u8>
    decreases frames.len(),
{
    if frames.len() == 0 {
        Seq::<u8>::empty()
    } else {
        frame_bytes(frames[0]) + frames_bytes(frames.drop_first())
    }
}

/// The bytes before the first frame: the header and the number of files.
pub open spec fn preamble_bytes(count: nat) -> Seq<u8> {
    header() + varint_encode(count)
}

/// The bytes of a whole transfer.
pub open spec fn stream_bytes(frames: Seq<FrameView>) -> Seq<u8> {
    preamble_bytes(frames.len()) + frames_bytes(frames)
}

/// The length field at `pos`: its value and the position behind it. An input
/// that ends inside it is truncated; ten bytes that hold no 64-bit value
/// break the protocol.
pub open spec fn length_at(s: Seq<u8>, pos: int) -> Result<(nat, int), ErrorKind> {
    match varint_at(s, pos) {
        Ok(found) => Ok(found),
        Err(VarintError::Truncated) => Err(ErrorKind::TruncatedInput),
        Err(VarintError::Malformed) => Err(ErrorKind::ProtocolError),
    }
}

/// The content of the frame whose checksum field is at `crc_at`: the frame
/// and the position behind it.
#[verifier::opaque]
pub open spec fn content_at(s: Seq<u8>, name: Seq<char>, crc_at: int) -> Result<
    (FrameView, int),
    ErrorKind,
> {
    if crc_at + 4 > s.len() {
        Err(ErrorKind::TruncatedInput)
    } else {
        match length_at(s, crc_at + 4) {
            Err(e) => Err(e),
            Ok((len, start)) => if len > MAX_CONTENT_LEN {
                Err(ErrorKind::FileTooLarge)
            } else if start + len > s.len() {
                Err(ErrorKind::TruncatedInput)
            } else if crc32_ieee(s.subrange(start, start + len)) != be32(s.skip(crc_at)) {
                Err(ErrorKind::ChecksumMismatch)
            } else {
                Ok(
                    (
                        FrameView {
                            name,
                            crc32: be32(s.skip(crc_at)) as u32,
                            content: s.subrange(start, start + len),
                        },
                        start + len,
                    ),
                )
            },
        }
    }
}

/// The frame at `pos` and the position behind it, or the first failure that
/// reading it field by field meets.
#[verifier::opaque]
pub open spec fn frame_at(s: Seq<u8>, pos: int) -> Result<(FrameView, int), ErrorKind> {
    if pos >= s.len() {
        Err(ErrorKind::TruncatedInput)
    } else if s[pos] != 0 {
        Err(ErrorKind::UnsupportedFeature)
    } else {
        match length_at(s, pos + 1) {
            Err(e) => Err(e),
            Ok((name_len, start)) => if name_len > MAX_NAME_LEN {
                Err(ErrorKind::NameTooLong)
            } else if start + name_len > s.len() {
                Err(ErrorKind::TruncatedInput)
            } else if !valid_utf8(s.subrange(start, start + name_len)) {
                Err(ErrorKind::InvalidName)
            } else {
                content_at(
                    s,
                    decode_utf8(s.subrange(start, start + name_len)),
                    start + name_len,
                )
            },
        }
    }
}

/// `count` frames from `pos` on, after the frames `done`: all the frames and
/// the position behind the last, or the first failure.
pub open spec fn frames_at(s: Seq<u8>, pos: int, count: nat, done: Seq<FrameView>) -> Result<
    (Seq<FrameView>, int),
    ErrorKind,
>
    decreases count,
{
    if count == 0 {
        Ok((done, pos))
    } else {
        match frame_at(s, pos) {
            Err(e) => Err(e),
            Ok((f, next)) => frames_at(s, next, (count - 1) as nat, done.push(f)),
        }
    }
}

/// Whether a plan that expects `expected` takes a transfer of `count` files.
pub open spec fn count_expected(expected: Option<ExpectedFiles>, count: nat) -> bool {
    expected matches Some(ExpectedFiles::Amount(n)) ==> n == count
}

/// Whether a plan that expects `expected` takes files with these names: a
/// list is met by the same names, each as often as listed, in any order.
pub open spec fn names_expected(expected: Option<ExpectedFiles>, names: Seq<Seq<char>>) -> bool {
    expected matches Some(ExpectedFiles::List(list)) ==> names.to_multiset() == texts(
        list@,
    ).to_multiset()
}

/// What a whole transfer decodes to under a plan's expectation: the frames in
/// the order of arrival and the number of bytes that they and the preamble
/// take, or the first failure.
pub open spec fn stream_parse(s: Seq<u8>, expected: Option<ExpectedFiles>) -> Result<
    (Seq<FrameView>, int),
    ErrorKind,
> {
    if s.len() < HEADER_LEN {
        Err(ErrorKind::TruncatedInput)
    } else if s.take(HEADER_LEN as int) != header() {
        Err(ErrorKind::ProtocolError)
    } else {
        match length_at(s, HEADER_LEN as int) {
            Err(e) => Err(e),
            Ok((count, start)) => if !count_expected(expected, count) {
                Err(ErrorKind::CountMismatch)
            } else {
                match frames_at(s, start, count, Seq::empty()) {
                    Err(e) => Err(e),
                    Ok((frames, end)) => if !names_expected(expected, frame_names(frames)) {
                        Err(ErrorKind::FileListMismatch)
                    } else {
                        Ok((frames, end))
                    },
                }
            },
        }
    }
}

/// The frames that a list of files is sent as.
pub open spec fn source_frames(files: Seq<SourceFile>) -> Seq<FrameView> {
    files.map_values(|f: SourceFile| frame_of(f.name@, f.content@))
}

/// How many bytes the frame at `pos` lacks at least, where the input ends
/// inside it: what is missing of the field in which the input ends, and one
/// byte where that field is a length or the compression byte.
#[verifier::opaque]
pub open spec fn frame_missing(s: Seq<u8>, pos: int) -> nat {
    if pos >= s.len() {
        1
    } else {
        match length_at(s, pos + 1) {
            Err(e) => 1,
            Ok((name_len, start)) => if start + name_len > s.len() {
                (start + name_len - s.len()) as nat
            } else if start + name_len + 4 > s.len() {
                (start + name_len + 4 - s.len()) as nat
            } else {
                match length_at(s, start + name_len + 4) {
                    Err(e) => 1,
                    Ok((len, content_start)) => (content_start + len - s.len()) as nat,
                }
            },
        }
    }
}

/// How many bytes `count` frames from `pos` on lack at least, where the input
/// ends inside one of them.
pub open spec fn frames_missing(s: Seq<u8>, pos: int, count: nat) -> nat
    decreases count,
{
    if count == 0 {
        0
    } else {
        match frame_at(s, pos) {
            Ok((f, next)) => frames_missing(s, next, (count - 1) as nat),
            Err(e) => frame_missing(s, pos),
        }
    }
}

/// How many bytes a transfer lacks at least, where the input ends inside it.
pub open spec fn stream_missing(s: Seq<u8>) -> nat {
    if s.len() < HEADER_LEN {
        (HEADER_LEN - s.len()) as nat
    } else {
        match length_at(s, HEADER_LEN as int) {
            Err(e) => 1,
            Ok((count, start)) => frames_missing(s, start, count),
        }
    }
}

} // verus!
