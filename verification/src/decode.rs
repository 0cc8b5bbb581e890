//! The receiving side of the wire format.

use crate::codec::{checksum_ieee, read_be32, string_from_utf8};
use crate::error::ErrorKind;
use crate::plan::{texts, ExpectedFiles};
use crate::varint::{read_varint, VarintError};
use crate::wire::{
    content_at, count_expected, frame_at, frame_missing, frame_names, frame_views, frames_at,
    frames_missing, header, length_at, stream_missing, stream_parse, FileFrame, FrameView,
    HEADER_LEN, MAX_CONTENT_LEN, MAX_NAME_LEN,
};
use vstd::prelude::*;
use vstd::seq_lib::to_multiset_build;
use vstd::slice::{slice_subrange, slice_to_vec};

verus! {

/// What a transfer decoded to.
pub struct Decoded {
    /// The files, in the order in which their frames arrived.
    pub frames: Vec<FileFrame>,
    /// The number of bytes of the input that the transfer took.
    pub consumed: usize,
}

impl Decoded {
    /// The names of the files, in the order in which their frames arrived.
    pub fn names(&self) -> (names: Vec<String>)
        ensures
            texts(names@) == frame_names(frame_views(self.frames@)),
    {
        let mut names: Vec<String> = Vec::new();
        let mut i: usize = 0;
        while i < self.frames.len()
            invariant
                i <= self.frames.len(),
                texts(names@) == frame_names(frame_views(self.frames@)).take(i as int),
            decreases self.frames.len() - i,
        {
            let ghost before = texts(names@);
            let ghost all = frame_names(frame_views(self.frames@));
            names.push(self.frames[i].name.clone());
            assert(texts(names@) =~= before.push(all[i as int]));
            assert(all.take(i + 1) =~= all.take(i as int).push(all[i as int]));
            i += 1;
        }
        assert(frame_names(frame_views(self.frames@)).take(i as int) =~= frame_names(
            frame_views(self.frames@),
        ));
        names
    }
}

/// Reads the length field at `pos`: its value and the position behind it.
pub fn read_length(input: &[u8], pos: usize) -> (r: Result<(u64, usize), ErrorKind>)
    ensures
        match r {
            Ok((v, next)) => length_at(input@, pos as int) == Ok::<(nat, int), ErrorKind>(
                (v as nat, next as int),
            ) && pos < next <= input@.len(),
            Err(e) => length_at(input@, pos as int) == Err::<(nat, int), ErrorKind>(e),
        },
{
    match read_varint(input, pos) {
        Ok((v, next)) => Ok((v, next)),
        Err(VarintError::Truncated) => Err(ErrorKind::TruncatedInput),
        Err(VarintError::Malformed) => Err(ErrorKind::ProtocolError),
    }
}

/// Accepts a frame whose content was read: it stands if the checksum computed
/// over the content is the declared one.
pub fn check_frame(name: String, declared: u32, computed: u32, content: Vec<u8>) -> (r: Result<
    FileFrame,
    ErrorKind,
>)
    ensures
        match r {
            Ok(f) => declared == computed && f.name == name && f.crc32 == declared && f.content
                == content,
            Err(e) => declared != computed && e == ErrorKind::ChecksumMismatch,
        },
{
    if declared != computed {
        Err(ErrorKind::ChecksumMismatch)
    } else {
        Ok(FileFrame { name, crc32: declared, content })
    }
}

/// Why a frame could not be read, and how many bytes it lacks at least if the
/// input ended inside it.
pub(crate) struct Halt {
    pub(crate) kind: ErrorKind,
    pub(crate) missing: usize,
}

/// The failure `kind`, which is not that the input ended.
fn halt(kind: ErrorKind) -> (h: Halt)
    ensures
        h.kind == kind,
{
    Halt { kind, missing: 0 }
}

/// The input ended where `missing` more bytes were due.
fn short_of(missing: usize) -> (h: Halt)
    ensures
        h.kind == ErrorKind::TruncatedInput,
        h.missing == missing,
{
    Halt { kind: ErrorKind::TruncatedInput, missing }
}

/// Reads the length field at `pos`; an input that ends inside it lacks one
/// byte at least.
pub(crate) fn scan_length(input: &[u8], pos: usize) -> (r: Result<(u64, usize), Halt>)
    ensures
        match r {
            Ok((v, next)) => length_at(input@, pos as int) == Ok::<(nat, int), ErrorKind>(
                (v as nat, next as int),
            ) && pos < next <= input@.len(),
            Err(h) => length_at(input@, pos as int) == Err::<(nat, int), ErrorKind>(h.kind) && (
            h.kind == ErrorKind::TruncatedInput ==> h.missing == 1),
        },
{
    match read_length(input, pos) {
        Ok(found) => Ok(found),
        Err(ErrorKind::TruncatedInput) => Err(short_of(1)),
        Err(e) => Err(halt(e)),
    }
}

/// Reads the frame at `pos`, field by field.
pub(crate) fn scan_frame(input: &[u8], pos: usize) -> (r: Result<(FileFrame, usize), Halt>)
    ensures
        match r {
            Ok((f, next)) => frame_at(input@, pos as int) == Ok::<(FrameView, int), ErrorKind>(
                (f@, next as int),
            ) && pos < next <= input@.len(),
            Err(h) => frame_at(input@, pos as int) == Err::<(FrameView, int), ErrorKind>(h.kind)
                && (h.kind == ErrorKind::TruncatedInput ==> h.missing == frame_missing(
                input@,
                pos as int,
            ) && h.missing >= 1),
        },
{
    proof {
        reveal(frame_at);
        reveal(content_at);
        reveal(frame_missing);
    }
    if pos >= input.len() {
        return Err(short_of(1));
    }
    if input[pos] != 0 {
        return Err(halt(ErrorKind::UnsupportedFeature));
    }
    let (name_len, start) = match scan_length(input, pos + 1) {
        Ok(found) => found,
        Err(h) => {
            return Err(h);
        },
    };
    if name_len > MAX_NAME_LEN {
        return Err(halt(ErrorKind::NameTooLong));
    }
    let name_len = name_len as usize;
    if name_len > input.len() - start {
        return Err(short_of(name_len - (input.len() - start)));
    }
    let crc_at = start + name_len;
    let name_bytes = slice_to_vec(slice_subrange(input, start, crc_at));
    let name = match string_from_utf8(name_bytes) {
        Some(text) => text,
        None => {
            return Err(halt(ErrorKind::InvalidName));
        },
    };
    let declared = match read_be32(input, crc_at) {
        Some(declared) => declared,
        None => {
            return Err(short_of(4 - (input.len() - crc_at)));
        },
    };
    let (len, content_start) = match scan_length(input, crc_at + 4) {
        Ok(found) => found,
        Err(h) => {
            return Err(h);
        },
    };
    if len > MAX_CONTENT_LEN {
        return Err(halt(ErrorKind::FileTooLarge));
    }
    let len = len as usize;
    if len > input.len() - content_start {
        return Err(short_of(len - (input.len() - content_start)));
    }
    let end = content_start + len;
    let content = slice_subrange(input, content_start, end);
    let computed = checksum_ieee(content);
    match check_frame(name, declared, computed, slice_to_vec(content)) {
        Ok(f) => Ok((f, end)),
        Err(e) => Err(halt(e)),
    }
}

/// Reads the frame at `pos`: the file and the position behind its content.
pub fn read_frame(input: &[u8], pos: usize) -> (r: Result<(FileFrame, usize), ErrorKind>)
    ensures
        match r {
            Ok((f, next)) => frame_at(input@, pos as int) == Ok::<(FrameView, int), ErrorKind>(
                (f@, next as int),
            ) && pos < next <= input@.len(),
            Err(e) => frame_at(input@, pos as int) == Err::<(FrameView, int), ErrorKind>(e),
        },
{
    match scan_frame(input, pos) {
        Ok(found) => Ok(found),
        Err(h) => Err(h.kind),
    }
}

/// How often the text of `x` stands in `names`.
fn count_of(names: &Vec<String>, x: &String) -> (c: usize)
    ensures
        c == texts(names@).to_multiset().count(x@),
{
    let ghost all = texts(names@);
    let mut c: usize = 0;
    let mut i: usize = 0;
    proof {
        all.take(0).to_multiset_ensures();
        assert(!all.take(0).contains(x@));
    }
    while i < names.len()
        invariant
            i <= names.len(),
            c <= i,
            all == texts(names@),
            c == all.take(i as int).to_multiset().count(x@),
        decreases names.len() - i,
    {
        proof {
            assert(all.take(i + 1) =~= all.take(i as int).push(all[i as int]));
            to_multiset_build(all.take(i as int), all[i as int]);
        }
        if names[i] == *x {
            c += 1;
        }
        i += 1;
    }
    assert(all.take(i as int) =~= all);
    c
}

/// Whether each name of `over` stands as often in `a` as in `b`.
fn counts_agree(a: &Vec<String>, b: &Vec<String>, over: &Vec<String>) -> (r: bool)
    ensures
        r == (forall|k: int|
            0 <= k < over@.len() ==> texts(a@).to_multiset().count(#[trigger] over@[k]@) == texts(
                b@,
            ).to_multiset().count(over@[k]@)),
{
    let mut i: usize = 0;
    while i < over.len()
        invariant
            i <= over.len(),
            forall|k: int|
                0 <= k < i ==> texts(a@).to_multiset().count(#[trigger] over@[k]@) == texts(
                    b@,
                ).to_multiset().count(over@[k]@),
        decreases over.len() - i,
    {
        if count_of(a, &over[i]) != count_of(b, &over[i]) {
            return false;
        }
        i += 1;
    }
    true
}

/// Whether two lists hold the same names, each as often in one as in the
/// other, in any order.
pub fn same_names(a: &Vec<String>, b: &Vec<String>) -> (r: bool)
    ensures
        r == (texts(a@).to_multiset() == texts(b@).to_multiset()),
{
    let r = counts_agree(a, b, a) && counts_agree(a, b, b);
    proof {
        let ma = texts(a@).to_multiset();
        let mb = texts(b@).to_multiset();
        if r {
            assert forall|x: Seq<char>| ma.count(x) == mb.count(x) by {
                texts(a@).to_multiset_ensures();
                texts(b@).to_multiset_ensures();
                if ma.count(x) > 0 {
                    let k = choose|k: int| 0 <= k < texts(a@).len() && texts(a@)[k] == x;
                    assert(a@[k]@ == x);
                } else if mb.count(x) > 0 {
                    let k = choose|k: int| 0 <= k < texts(b@).len() && texts(b@)[k] == x;
                    assert(b@[k]@ == x);
                }
            }
            assert(ma =~= mb);
        }
    }
    r
}

/// How far the input brings a transfer.
pub enum Progress {
    /// The transfer is there and was accepted.
    Complete(Decoded),
    /// The transfer is refused, for a reason other than that the input ended.
    Failed(ErrorKind),
    /// The input ends inside the transfer, which lacks this many bytes at
    /// least.
    Incomplete(usize),
}

/// Decodes as much of a transfer as the front of `input` holds, under what
/// the plan expects. The header and the number of files are checked before
/// any frame is read, each frame field by field in the order of the format,
/// and a list of expected names once all frames are read. Where the input
/// ends early, the answer says how many bytes to wait for: with fewer the
/// transfer cannot be decided.
pub fn decode_progress(input: &[u8], expected: &Option<ExpectedFiles>) -> (r: Progress)
    ensures
        match r {
            Progress::Complete(d) => stream_parse(input@, *expected) == Ok::<
                (Seq<FrameView>, int),
                ErrorKind,
            >((frame_views(d.frames@), d.consumed as int)) && d.consumed <= input@.len(),
            Progress::Failed(e) => stream_parse(input@, *expected) == Err::<
                (Seq<FrameView>, int),
                ErrorKind,
            >(e) && e != ErrorKind::TruncatedInput,
            Progress::Incomplete(n) => stream_parse(input@, *expected) == Err::<
                (Seq<FrameView>, int),
                ErrorKind,
            >(ErrorKind::TruncatedInput) && n == stream_missing(input@) && n >= 1,
        },
{
    if input.len() < HEADER_LEN {
        return Progress::Incomplete(HEADER_LEN - input.len());
    }
    if input[0] != 0xFE || input[1] != 0xED || input[2] != 0xBE || input[3] != 0xEF || input[4]
        != 0x02 {
        assert(input@.take(HEADER_LEN as int) != header()) by {
            let h = input@.take(HEADER_LEN as int);
            assert(h[0] == input@[0] && h[1] == input@[1] && h[2] == input@[2] && h[3] == input@[3]
                && h[4] == input@[4]);
        }
        return Progress::Failed(ErrorKind::ProtocolError);
    }
    assert(input@.take(HEADER_LEN as int) =~= header());
    let (count, start) = match scan_length(input, HEADER_LEN) {
        Ok(found) => found,
        Err(h) => {
            return stopped(h);
        },
    };
    if let Some(ExpectedFiles::Amount(n)) = expected {
        if *n as u64 != count {
            return Progress::Failed(ErrorKind::CountMismatch);
        }
    }
    let mut frames: Vec<FileFrame> = Vec::new();
    let mut pos = start;
    let mut i: u64 = 0;
    assert(frame_views(frames@) =~= Seq::<FrameView>::empty());
    while i < count
        invariant
            i <= count,
            pos <= input@.len(),
            input@.len() >= HEADER_LEN,
            input@.take(HEADER_LEN as int) == header(),
            length_at(input@, HEADER_LEN as int) == Ok::<(nat, int), ErrorKind>(
                (count as nat, start as int),
            ),
            count_expected(*expected, count as nat),
            frames_at(input@, start as int, count as nat, Seq::empty()) == frames_at(
                input@,
                pos as int,
                (count - i) as nat,
                frame_views(frames@),
            ),
            frames_missing(input@, start as int, count as nat) == frames_missing(
                input@,
                pos as int,
                (count - i) as nat,
            ),
        decreases count - i,
    {
        match scan_frame(input, pos) {
            Err(h) => {
                return stopped(h);
            },
            Ok((f, next)) => {
                assert(frame_views(frames@.push(f)) =~= frame_views(frames@).push(f@));
                frames.push(f);
                pos = next;
                i += 1;
            },
        }
    }
    let decoded = Decoded { frames, consumed: pos };
    if let Some(ExpectedFiles::List(list)) = expected {
        let names = decoded.names();
        if !same_names(&names, list) {
            return Progress::Failed(ErrorKind::FileListMismatch);
        }
    }
    Progress::Complete(decoded)
}

/// The progress that a halt amounts to.
pub(crate) fn stopped(h: Halt) -> (r: Progress)
    ensures
        h.kind == ErrorKind::TruncatedInput ==> r == Progress::Incomplete(h.missing),
        h.kind != ErrorKind::TruncatedInput ==> r == Progress::Failed(h.kind),
{
    match h.kind {
        ErrorKind::TruncatedInput => Progress::Incomplete(h.missing),
        kind => Progress::Failed(kind),
    }
}

/// Decodes a whole transfer from the front of `input`, under what the plan
/// expects: the files in the order of their arrival and the number of bytes
/// taken, or the first failure.
pub fn decode_stream(input: &[u8], expected: &Option<ExpectedFiles>) -> (r: Result<
    Decoded,
    ErrorKind,
>)
    ensures
        match r {
            Ok(d) => stream_parse(input@, *expected) == Ok::<(Seq<FrameView>, int), ErrorKind>(
                (frame_views(d.frames@), d.consumed as int),
            ) && d.consumed <= input@.len(),
            Err(e) => stream_parse(input@, *expected) == Err::<(Seq<FrameView>, int), ErrorKind>(
                e,
            ),
        },
{
    match decode_progress(input, expected) {
        Progress::Complete(decoded) => Ok(decoded),
        Progress::Failed(e) => Err(e),
        Progress::Incomplete(_) => Err(ErrorKind::TruncatedInput),
    }
}

} // verus!
