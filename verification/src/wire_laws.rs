//! What holds of the wire format: what is sent is what is received, a wrong
//! header or a broken limit is refused before anything behind it is looked
//! at, and a transfer is decided by its own bytes alone.

use crate::codec::{be32, be32_bytes, crc32_ieee, lemma_be32_round_trip};
use crate::error::ErrorKind;
use crate::plan::ExpectedFiles;
use crate::varint::{
    lemma_varint_decode_bounds, lemma_varint_parse_extend, lemma_varint_parse_none,
    lemma_varint_parse_within, lemma_varint_round_trip, varint_decode, varint_encode,
};
use crate::wire::{
    content_at, count_expected, frame_at, frame_bytes, frame_missing, frame_names, frames_at,
    frames_bytes, frames_missing, header, length_at, names_expected, preamble_bytes,
    source_frames, stream_bytes, stream_missing, stream_parse, FrameView, SourceFile,
    HEADER_LEN, MAX_CONTENT_LEN, MAX_NAME_LEN,
};
use vstd::prelude::*;
use vstd::utf8::{
    decode_utf8, encode_utf8, encode_utf8_decode_utf8, encode_utf8_valid_utf8, valid_utf8,
};

verus! {

/// A frame that the receiver takes: its name and its content are within the
/// limits and its checksum is that of its content.
pub open spec fn frame_acceptable(f: FrameView) -> bool {
    &&& encode_utf8(f.name).len() <= MAX_NAME_LEN
    &&& f.content.len() <= MAX_CONTENT_LEN
    &&& f.crc32 == crc32_ieee(f.content)
}

/// A file that the receiver takes: its name and its content are within the
/// limits.
pub open spec fn file_acceptable(f: SourceFile) -> bool {
    &&& encode_utf8(f.name@).len() <= MAX_NAME_LEN
    &&& f.content@.len() <= MAX_CONTENT_LEN
}

/// A length that was written is read back, with the position behind it.
proof fn lemma_length_at_encoded(s: Seq<u8>, pos: int, n: nat, rest: Seq<u8>)
    requires
        0 <= pos <= s.len(),
        n <= u64::MAX,
        s.skip(pos) == varint_encode(n) + rest,
    ensures
        length_at(s, pos) == Ok::<(nat, int), ErrorKind>((n, pos + varint_encode(n).len())),
{
    lemma_varint_round_trip(n as u64, rest);
}

/// Where the fields of a frame lie in an input that holds its bytes behind
/// `before`: the compression byte, the length of the name, the name, the
/// checksum, the length of the content and the content, each right behind
/// the one before it.
proof fn lemma_frame_layout(before: Seq<u8>, f: FrameView, after: Seq<u8>)
    ensures
        ({
            let s = before + frame_bytes(f) + after;
            let name = encode_utf8(f.name);
            let name_at = (before.len() + 1 + varint_encode(name.len()).len()) as int;
            let crc_at = name_at + name.len();
            let content_at = crc_at + 4 + varint_encode(f.content.len()).len();
            &&& s[before.len() as int] == 0
            &&& s.skip(before.len() as int + 1) == varint_encode(name.len()) + s.skip(name_at)
            &&& s.subrange(name_at, crc_at) == name
            &&& s.skip(crc_at) == be32_bytes(f.crc32) + s.skip(crc_at + 4)
            &&& s.skip(crc_at + 4) == varint_encode(f.content.len()) + s.skip(content_at)
            &&& s.subrange(content_at, content_at + f.content.len()) == f.content
            &&& content_at + f.content.len() == before.len() + frame_bytes(f).len()
            &&& s.len() == before.len() + frame_bytes(f).len() + after.len()
        }),
{
    reveal(frame_bytes);
    let s = before + frame_bytes(f) + after;
    let name = encode_utf8(f.name);
    let name_len = varint_encode(name.len());
    let crc = be32_bytes(f.crc32);
    let content_len = varint_encode(f.content.len());
    let name_at = (before.len() + 1 + name_len.len()) as int;
    let crc_at = name_at + name.len();
    let content_at = crc_at + 4 + content_len.len();
    assert(crc.len() == 4);
    assert(frame_bytes(f).len() == 1 + name_len.len() + name.len() + 4 + content_len.len()
        + f.content.len());
    assert(s.skip(content_at) =~= f.content + after);
    assert(s.skip(crc_at + 4) =~= content_len + (f.content + after));
    assert(s.skip(crc_at) =~= crc + (content_len + (f.content + after)));
    assert(s.skip(name_at) =~= name + (crc + (content_len + (f.content + after))));
    assert(s.skip(before.len() as int + 1) =~= name_len + (name + (crc + (content_len + (f.content
        + after)))));
    assert(s.subrange(name_at, crc_at) =~= name);
    assert(s.subrange(content_at, content_at + f.content.len()) =~= f.content);
}

/// The bytes of an acceptable frame, wherever they stand, are read back as
/// that frame, and reading ends right behind them.
pub proof fn lemma_frame_round_trip(before: Seq<u8>, f: FrameView, after: Seq<u8>)
    requires
        frame_acceptable(f),
    ensures
        frame_at(before + frame_bytes(f) + after, before.len() as int) == Ok::<
            (FrameView, int),
            ErrorKind,
        >((f, (before.len() + frame_bytes(f).len()) as int)),
{
    reveal(frame_at);
    reveal(content_at);
    let s = before + frame_bytes(f) + after;
    let pos = before.len() as int;
    let name = encode_utf8(f.name);
    let name_at = pos + 1 + varint_encode(name.len()).len();
    let crc_at = name_at + name.len();
    let content_at = crc_at + 4 + varint_encode(f.content.len()).len();
    lemma_frame_layout(before, f, after);
    lemma_length_at_encoded(s, pos + 1, name.len(), s.skip(name_at));
    encode_utf8_valid_utf8(f.name);
    encode_utf8_decode_utf8(f.name);
    lemma_be32_round_trip(f.crc32, s.skip(crc_at + 4));
    lemma_length_at_encoded(s, crc_at + 4, f.content.len(), s.skip(content_at));
}

/// The bytes of acceptable frames, wherever they stand, are read back as
/// those frames in their order.
pub proof fn lemma_frames_round_trip(
    before: Seq<u8>,
    frames: Seq<FrameView>,
    after: Seq<u8>,
    done: Seq<FrameView>,
)
    requires
        forall|i: int| 0 <= i < frames.len() ==> frame_acceptable(#[trigger] frames[i]),
    ensures
        frames_at(
            before + frames_bytes(frames) + after,
            before.len() as int,
            frames.len(),
            done,
        ) == Ok::<(Seq<FrameView>, int), ErrorKind>(
            (done + frames, (before.len() + frames_bytes(frames).len()) as int),
        ),
    decreases frames.len(),
{
    let s = before + frames_bytes(frames) + after;
    if frames.len() == 0 {
        assert(done + frames =~= done);
    } else {
        let first = frames[0];
        let others = frames.drop_first();
        let first_bytes = frame_bytes(first);
        assert(s =~= before + first_bytes + (frames_bytes(others) + after));
        lemma_frame_round_trip(before, first, frames_bytes(others) + after);
        assert forall|i: int| 0 <= i < others.len() implies frame_acceptable(
            #[trigger] others[i],
        ) by {
            assert(others[i] == frames[i + 1]);
        }
        lemma_frames_round_trip(before + first_bytes, others, after, done.push(first));
        assert(s =~= (before + first_bytes) + frames_bytes(others) + after);
        assert(done.push(first) + others =~= done + frames);
    }
}

/// Decoding what was encoded gives back the same files in the same order,
/// each with its name, its content byte for byte and the checksum of that
/// content, and takes exactly the bytes that were encoded, whatever follows
/// them. This holds of files within the receiver's limits, since the sender
/// knows no limit.
pub proof fn lemma_stream_round_trip(files: Seq<SourceFile>, after: Seq<u8>)
    requires
        files.len() <= u64::MAX,
        forall|i: int| 0 <= i < files.len() ==> file_acceptable(#[trigger] files[i]),
    ensures
        stream_parse(stream_bytes(source_frames(files)) + after, None) == Ok::<
            (Seq<FrameView>, int),
            ErrorKind,
        >((source_frames(files), stream_bytes(source_frames(files)).len() as int)),
{
    let frames = source_frames(files);
    assert forall|i: int| 0 <= i < frames.len() implies frame_acceptable(#[trigger] frames[i]) by {
        assert(file_acceptable(files[i]));
    }
    lemma_frames_stream_round_trip(frames, after, None);
}

/// Decoding the bytes of acceptable frames under an expectation that they
/// meet gives back those frames.
pub proof fn lemma_frames_stream_round_trip(
    frames: Seq<FrameView>,
    after: Seq<u8>,
    expected: Option<ExpectedFiles>,
)
    requires
        frames.len() <= u64::MAX,
        forall|i: int| 0 <= i < frames.len() ==> frame_acceptable(#[trigger] frames[i]),
        count_expected(expected, frames.len()),
        names_expected(expected, frame_names(frames)),
    ensures
        stream_parse(stream_bytes(frames) + after, expected) == Ok::<
            (Seq<FrameView>, int),
            ErrorKind,
        >((frames, stream_bytes(frames).len() as int)),
{
    let s = stream_bytes(frames) + after;
    let count = varint_encode(frames.len());
    assert(s.take(HEADER_LEN as int) =~= header());
    let tail = frames_bytes(frames) + after;
    assert(s.skip(HEADER_LEN as int) =~= count + tail);
    lemma_length_at_encoded(s, HEADER_LEN as int, frames.len(), tail);
    let before = preamble_bytes(frames.len());
    assert(s =~= before + frames_bytes(frames) + after);
    lemma_frames_round_trip(before, frames, after, Seq::empty());
    assert(Seq::<FrameView>::empty() + frames =~= frames);
}

/// A stream that does not start with the magic bytes and the version is
/// refused, whatever follows them and whatever the plan expects: as a breach
/// of the protocol if it has five bytes, as truncated if it has fewer.
pub proof fn lemma_header_strict(s: Seq<u8>, expected: Option<ExpectedFiles>)
    requires
        s.len() < HEADER_LEN || s.take(HEADER_LEN as int) != header(),
    ensures
        stream_parse(s, expected) is Err,
        s.len() >= HEADER_LEN ==> stream_parse(s, expected) == Err::<
            (Seq<FrameView>, int),
            ErrorKind,
        >(ErrorKind::ProtocolError),
        s.len() < HEADER_LEN ==> stream_parse(s, expected) == Err::<
            (Seq<FrameView>, int),
            ErrorKind,
        >(ErrorKind::TruncatedInput),
{
}

/// A stream that announces another number of files than the plan's amount is
/// refused on that number alone, whatever follows it.
pub proof fn lemma_count_enforced(s: Seq<u8>, amount: usize, count: nat, start: int)
    requires
        s.len() >= HEADER_LEN,
        s.take(HEADER_LEN as int) == header(),
        length_at(s, HEADER_LEN as int) == Ok::<(nat, int), ErrorKind>((count, start)),
        count != amount,
    ensures
        stream_parse(s, Some(ExpectedFiles::Amount(amount))) == Err::<
            (Seq<FrameView>, int),
            ErrorKind,
        >(ErrorKind::CountMismatch),
{
}

/// A frame that declares a name longer than the limit is refused on that
/// length alone, whether or not the bytes of the name are there.
pub proof fn lemma_name_cap(s: Seq<u8>, pos: int, declared: nat, start: int)
    requires
        0 <= pos < s.len(),
        s[pos] == 0,
        length_at(s, pos + 1) == Ok::<(nat, int), ErrorKind>((declared, start)),
        declared > MAX_NAME_LEN,
    ensures
        frame_at(s, pos) == Err::<(FrameView, int), ErrorKind>(ErrorKind::NameTooLong),
{
    reveal(frame_at);
}

/// A frame that declares more content than the limit is refused on that
/// length alone, whether or not the content is there.
pub proof fn lemma_content_cap(
    s: Seq<u8>,
    name: Seq<char>,
    crc_at: int,
    declared: nat,
    start: int,
)
    requires
        0 <= crc_at,
        crc_at + 4 <= s.len(),
        length_at(s, crc_at + 4) == Ok::<(nat, int), ErrorKind>((declared, start)),
        declared > MAX_CONTENT_LEN,
    ensures
        content_at(s, name, crc_at) == Err::<(FrameView, int), ErrorKind>(
            ErrorKind::FileTooLarge,
        ),
{
    reveal(content_at);
}

/// Of a frame that declares `declared` bytes of content from `start` on: with
/// fewer bytes left the input is truncated; otherwise the content is exactly
/// those bytes, reading ends right behind them, and bytes that follow change
/// nothing.
pub proof fn lemma_content_exact(
    s: Seq<u8>,
    name: Seq<char>,
    crc_at: int,
    declared: nat,
    start: int,
    more: Seq<u8>,
)
    requires
        0 <= crc_at,
        crc_at + 4 <= s.len(),
        length_at(s, crc_at + 4) == Ok::<(nat, int), ErrorKind>((declared, start)),
        declared <= MAX_CONTENT_LEN,
    ensures
        start + declared > s.len() ==> content_at(s, name, crc_at) == Err::<
            (FrameView, int),
            ErrorKind,
        >(ErrorKind::TruncatedInput),
        content_at(s, name, crc_at) matches Ok((f, next)) ==> next == start + declared && f.content
            == s.subrange(start, start + declared),
        start + declared <= s.len() ==> content_at(s + more, name, crc_at) == content_at(
            s,
            name,
            crc_at,
        ),
{
    reveal(content_at);
    if start + declared <= s.len() {
        lemma_length_at_extend(s, more, crc_at + 4);
        lemma_be32_extend(s, more, crc_at);
        assert((s + more).subrange(start, start + declared) =~= s.subrange(
            start,
            start + declared,
        ));
    }
}

/// The four bytes at `pos` hold the same value whatever follows the input.
proof fn lemma_be32_extend(s: Seq<u8>, more: Seq<u8>, pos: int)
    requires
        0 <= pos,
        pos + 4 <= s.len(),
    ensures
        be32((s + more).skip(pos)) == be32(s.skip(pos)),
{
    let a = (s + more).skip(pos);
    let b = s.skip(pos);
    assert(a[0] == b[0] && a[1] == b[1] && a[2] == b[2] && a[3] == b[3]);
}

/// A length field that is not cut short reads the same whatever follows the
/// input, and it ends within the input.
pub proof fn lemma_length_at_extend(s: Seq<u8>, more: Seq<u8>, pos: int)
    requires
        0 <= pos <= s.len(),
        length_at(s, pos) != Err::<(nat, int), ErrorKind>(ErrorKind::TruncatedInput),
    ensures
        length_at(s + more, pos) == length_at(s, pos),
        length_at(s, pos) matches Ok((v, next)) ==> pos < next <= s.len(),
{
    let t = s.skip(pos);
    assert((s + more).skip(pos) =~= t + more);
    lemma_varint_decode_bounds(t);
    lemma_varint_parse_none(t, 0);
    lemma_varint_parse_none(t + more, 0);
    if varint_decode(t) is Some || t.len() >= 10 {
        lemma_varint_parse_extend(t, more, 0);
    }
}

/// A frame that is not cut short reads the same whatever follows the input,
/// and it ends within the input.
pub proof fn lemma_frame_at_extend(s: Seq<u8>, more: Seq<u8>, pos: int)
    requires
        0 <= pos <= s.len(),
        frame_at(s, pos) != Err::<(FrameView, int), ErrorKind>(ErrorKind::TruncatedInput),
    ensures
        frame_at(s + more, pos) == frame_at(s, pos),
        frame_at(s, pos) matches Ok((f, next)) ==> pos < next <= s.len(),
{
    reveal(frame_at);
    reveal(content_at);
    assert(pos < s.len());
    assert((s + more)[pos] == s[pos]);
    if s[pos] == 0 {
        lemma_length_at_extend(s, more, pos + 1);
        match length_at(s, pos + 1) {
            Ok((name_len, start)) => {
                if name_len <= MAX_NAME_LEN {
                    assert(start + name_len <= s.len());
                    assert((s + more).subrange(start, start + name_len) =~= s.subrange(
                        start,
                        start + name_len,
                    ));
                    if valid_utf8(s.subrange(start, start + name_len)) {
                        let crc_at = start + name_len;
                        let name = decode_utf8(s.subrange(start, start + name_len));
                        assert(crc_at + 4 <= s.len());
                        lemma_length_at_extend(s, more, crc_at + 4);
                        match length_at(s, crc_at + 4) {
                            Ok((len, content_start)) => {
                                if len <= MAX_CONTENT_LEN {
                                    lemma_content_exact(s, name, crc_at, len, content_start, more);
                                }
                            },
                            Err(e) => {},
                        }
                    }
                }
            },
            Err(e) => {},
        }
    }
}

/// Frames of which none is cut short read the same whatever follows the
/// input, and they end within the input.
pub proof fn lemma_frames_at_extend(
    s: Seq<u8>,
    more: Seq<u8>,
    pos: int,
    count: nat,
    done: Seq<FrameView>,
)
    requires
        0 <= pos <= s.len(),
        frames_at(s, pos, count, done) != Err::<(Seq<FrameView>, int), ErrorKind>(
            ErrorKind::TruncatedInput,
        ),
    ensures
        frames_at(s + more, pos, count, done) == frames_at(s, pos, count, done),
        frames_at(s, pos, count, done) matches Ok((fs, end)) ==> pos <= end <= s.len(),
    decreases count,
{
    if count > 0 {
        lemma_frame_at_extend(s, more, pos);
        match frame_at(s, pos) {
            Ok((f, next)) => {
                lemma_frames_at_extend(s, more, next, (count - 1) as nat, done.push(f));
            },
            Err(e) => {},
        }
    }
}

/// A transfer is decided by its own bytes: unless the input is cut short,
/// bytes that follow it change neither the files, nor the failure, nor the
/// number of bytes taken, and that number is within the input.
pub proof fn lemma_trailing_bytes_ignored(
    s: Seq<u8>,
    more: Seq<u8>,
    expected: Option<ExpectedFiles>,
)
    requires
        stream_parse(s, expected) != Err::<(Seq<FrameView>, int), ErrorKind>(
            ErrorKind::TruncatedInput,
        ),
    ensures
        stream_parse(s + more, expected) == stream_parse(s, expected),
        stream_parse(s, expected) matches Ok((fs, end)) ==> HEADER_LEN < end <= s.len(),
{
    assert(s.len() >= HEADER_LEN);
    assert((s + more).take(HEADER_LEN as int) =~= s.take(HEADER_LEN as int));
    if s.take(HEADER_LEN as int) == header() {
        lemma_length_at_extend(s, more, HEADER_LEN as int);
        match length_at(s, HEADER_LEN as int) {
            Ok((count, start)) => {
                if count_expected(expected, count) {
                    lemma_frames_at_extend(s, more, start, count, Seq::empty());
                }
            },
            Err(e) => {},
        }
    }
}

/// A frame inside which the input ends lacks one byte at least, and it stays
/// undecided as long as fewer bytes than it lacks have arrived.
pub proof fn lemma_frame_missing(s: Seq<u8>, more: Seq<u8>, pos: int)
    requires
        0 <= pos <= s.len(),
        frame_at(s, pos) == Err::<(FrameView, int), ErrorKind>(ErrorKind::TruncatedInput),
    ensures
        frame_missing(s, pos) >= 1,
        more.len() < frame_missing(s, pos) ==> frame_at(s + more, pos) == Err::<
            (FrameView, int),
            ErrorKind,
        >(ErrorKind::TruncatedInput),
{
    reveal(frame_at);
    reveal(content_at);
    reveal(frame_missing);
    if more.len() == 0 {
        assert(s + more =~= s);
    }
    if pos < s.len() {
        assert((s + more)[pos] == s[pos]);
        match length_at(s, pos + 1) {
            Ok((name_len, start)) => {
                lemma_length_at_extend(s, more, pos + 1);
                if start + name_len <= s.len() {
                    assert((s + more).subrange(start, start + name_len) =~= s.subrange(
                        start,
                        start + name_len,
                    ));
                    let crc_at = start + name_len;
                    if crc_at + 4 <= s.len() {
                        match length_at(s, crc_at + 4) {
                            Ok((len, content_start)) => {
                                lemma_length_at_extend(s, more, crc_at + 4);
                            },
                            Err(e) => {},
                        }
                    }
                }
            },
            Err(e) => {},
        }
    }
}

/// Frames inside which the input ends lack one byte at least, and they stay
/// undecided as long as fewer bytes than they lack have arrived.
pub proof fn lemma_frames_missing(
    s: Seq<u8>,
    more: Seq<u8>,
    pos: int,
    count: nat,
    done: Seq<FrameView>,
)
    requires
        0 <= pos <= s.len(),
        frames_at(s, pos, count, done) == Err::<(Seq<FrameView>, int), ErrorKind>(
            ErrorKind::TruncatedInput,
        ),
    ensures
        frames_missing(s, pos, count) >= 1,
        more.len() < frames_missing(s, pos, count) ==> frames_at(s + more, pos, count, done)
            == Err::<(Seq<FrameView>, int), ErrorKind>(ErrorKind::TruncatedInput),
    decreases count,
{
    if count > 0 {
        match frame_at(s, pos) {
            Ok((f, next)) => {
                lemma_frame_at_extend(s, more, pos);
                lemma_frames_missing(s, more, next, (count - 1) as nat, done.push(f));
            },
            Err(e) => {
                lemma_frame_missing(s, more, pos);
            },
        }
    }
}

/// A length field reads the same in an input that is cut behind it.
proof fn lemma_length_at_within(s: Seq<u8>, pos: int, k: int)
    requires
        0 <= pos <= s.len(),
        length_at(s, pos) matches Ok((v, next)) && next <= k <= s.len(),
    ensures
        length_at(s.take(k), pos) == length_at(s, pos),
{
    let t = s.skip(pos);
    lemma_varint_decode_bounds(t);
    assert(s.take(k).skip(pos) =~= t.take(k - pos));
    lemma_varint_parse_within(t, k - pos, 0);
}

/// A frame reads the same in an input that is cut behind it.
proof fn lemma_frame_at_within(s: Seq<u8>, pos: int, k: int)
    requires
        0 <= pos <= s.len(),
        frame_at(s, pos) matches Ok((f, next)) && next <= k <= s.len(),
    ensures
        frame_at(s.take(k), pos) == frame_at(s, pos),
{
    reveal(frame_at);
    reveal(content_at);
    let t = s.take(k);
    lemma_frame_at_extend(s, Seq::empty(), pos);
    assert(t[pos] == s[pos]);
    lemma_length_at_extend(s, Seq::empty(), pos + 1);
    let (name_len, start) = length_at(s, pos + 1)->Ok_0;
    let crc_at = start + name_len;
    lemma_length_at_extend(s, Seq::empty(), crc_at + 4);
    let (len, content_start) = length_at(s, crc_at + 4)->Ok_0;
    lemma_length_at_within(s, pos + 1, k);
    assert(t.subrange(start, crc_at) =~= s.subrange(start, crc_at));
    lemma_length_at_within(s, crc_at + 4, k);
    assert(t.subrange(content_start, content_start + len) =~= s.subrange(
        content_start,
        content_start + len,
    ));
    let a = t.skip(crc_at);
    let b = s.skip(crc_at);
    assert(a[0] == b[0] && a[1] == b[1] && a[2] == b[2] && a[3] == b[3]);
}

/// Frames read the same in an input that is cut behind them.
proof fn lemma_frames_at_within(s: Seq<u8>, pos: int, count: nat, done: Seq<FrameView>, k: int)
    requires
        0 <= pos <= s.len(),
        frames_at(s, pos, count, done) matches Ok((fs, end)) && end <= k <= s.len(),
    ensures
        frames_at(s.take(k), pos, count, done) == frames_at(s, pos, count, done),
    decreases count,
{
    if count > 0 {
        lemma_frame_at_extend(s, Seq::empty(), pos);
        let (f, next) = frame_at(s, pos)->Ok_0;
        lemma_frames_at_extend(s, Seq::empty(), next, (count - 1) as nat, done.push(f));
        lemma_frame_at_within(s, pos, k);
        lemma_frames_at_within(s, next, (count - 1) as nat, done.push(f), k);
    }
}

/// The bytes that a transfer takes decide it alone: the input cut behind
/// them, or anywhere further on, decodes to the same.
pub proof fn lemma_prefix_decides(s: Seq<u8>, k: int, expected: Option<ExpectedFiles>)
    requires
        stream_parse(s, expected) matches Ok((frames, end)) && end <= k <= s.len(),
    ensures
        stream_parse(s.take(k), expected) == stream_parse(s, expected),
{
    lemma_trailing_bytes_ignored(s, Seq::empty(), expected);
    lemma_length_at_extend(s, Seq::empty(), HEADER_LEN as int);
    let (count, start) = length_at(s, HEADER_LEN as int)->Ok_0;
    lemma_frames_at_extend(s, Seq::empty(), start, count, Seq::empty());
    assert(s.take(k).take(HEADER_LEN as int) =~= s.take(HEADER_LEN as int));
    lemma_length_at_within(s, HEADER_LEN as int, k);
    lemma_frames_at_within(s, start, count, Seq::empty(), k);
}

/// A transfer inside which the input ends lacks one byte at least, and it
/// stays undecided as long as fewer bytes than it lacks have arrived. So to
/// wait for that many bytes is never to read beyond the end of a transfer.
pub proof fn lemma_stream_missing(s: Seq<u8>, more: Seq<u8>, expected: Option<ExpectedFiles>)
    requires
        stream_parse(s, expected) == Err::<(Seq<FrameView>, int), ErrorKind>(
            ErrorKind::TruncatedInput,
        ),
    ensures
        stream_missing(s) >= 1,
        more.len() < stream_missing(s) ==> stream_parse(s + more, expected) == Err::<
            (Seq<FrameView>, int),
            ErrorKind,
        >(ErrorKind::TruncatedInput),
        stream_parse(s + more, expected) matches Ok((frames, end)) ==> s.len() + stream_missing(s)
            <= end,
{
    lemma_stream_undecided(s, more, expected);
    match stream_parse(s + more, expected) {
        Ok((frames, end)) => {
            lemma_transfer_ends_later(s, more, expected, end);
        },
        Err(e) => {},
    }
}

/// A transfer that a longer input completes ends no earlier than where the
/// bytes end that the shorter input lacks.
proof fn lemma_transfer_ends_later(
    s: Seq<u8>,
    more: Seq<u8>,
    expected: Option<ExpectedFiles>,
    end: int,
)
    requires
        stream_parse(s, expected) == Err::<(Seq<FrameView>, int), ErrorKind>(
            ErrorKind::TruncatedInput,
        ),
        stream_parse(s + more, expected) matches Ok((frames, e)) && e == end,
    ensures
        s.len() + stream_missing(s) <= end,
{
    let whole = s + more;
    let decided = stream_parse(whole, expected);
    lemma_trailing_bytes_ignored(whole, Seq::empty(), expected);
    lemma_prefix_decides(whole, end, expected);
    let front = whole.take(end);
    assert(stream_parse(front, expected) == decided);
    if end < s.len() {
        assert(front =~= s.take(end));
        assert(front + s.skip(end) =~= s);
        lemma_trailing_bytes_ignored(front, s.skip(end), expected);
        assert(false);
    } else if end < s.len() + stream_missing(s) {
        let part = more.take(end - s.len());
        assert(front =~= s + part);
        lemma_stream_undecided(s, part, expected);
        assert(false);
    }
}

/// A transfer inside which the input ends lacks one byte at least, and it
/// stays undecided as long as fewer bytes than it lacks have arrived.
proof fn lemma_stream_undecided(s: Seq<u8>, more: Seq<u8>, expected: Option<ExpectedFiles>)
    requires
        stream_parse(s, expected) == Err::<(Seq<FrameView>, int), ErrorKind>(
            ErrorKind::TruncatedInput,
        ),
    ensures
        stream_missing(s) >= 1,
        more.len() < stream_missing(s) ==> stream_parse(s + more, expected) == Err::<
            (Seq<FrameView>, int),
            ErrorKind,
        >(ErrorKind::TruncatedInput),
{
    if more.len() == 0 {
        assert(s + more =~= s);
    }
    if s.len() >= HEADER_LEN {
        assert((s + more).take(HEADER_LEN as int) =~= s.take(HEADER_LEN as int));
        match length_at(s, HEADER_LEN as int) {
            Ok((count, start)) => {
                lemma_length_at_extend(s, more, HEADER_LEN as int);
                lemma_frames_missing(s, more, start, count, Seq::empty());
            },
            Err(e) => {},
        }
    }
}

/// Frames that were read are the front of any greater number of frames read
/// from the same position: what follows them is read from where they end,
/// and lacks what the frames from there on lack.
pub proof fn lemma_frames_continue(
    s: Seq<u8>,
    pos: int,
    read: nat,
    more: nat,
    done: Seq<FrameView>,
)
    requires
        frames_at(s, pos, read, done) is Ok,
    ensures
        ({
            let (frames, end) = frames_at(s, pos, read, done)->Ok_0;
            &&& frames_at(s, pos, read + more, done) == frames_at(s, end, more, frames)
            &&& frames_missing(s, pos, read + more) == frames_missing(s, end, more)
        }),
    decreases read,
{
    if read > 0 {
        let (f, next) = frame_at(s, pos)->Ok_0;
        lemma_frames_continue(s, next, (read - 1) as nat, more, done.push(f));
    }
}

} // verus!
