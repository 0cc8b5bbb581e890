//! The sending side of the wire format.

use crate::codec::{checksum_ieee, write_be32};
use crate::varint::write_varint;
use crate::wire::{
    frame_bytes, frame_of, frames_bytes, header, preamble_bytes, source_frames, stream_bytes,
    FrameView, SourceFile,
};
use vstd::prelude::*;

verus! {

/// The header and the number of files, as bytes.
pub fn encode_preamble(count: u64) -> (out: Vec<u8>)
    ensures
        out@ == preamble_bytes(count as nat),
{
    let mut out: Vec<u8> = Vec::new();
    out.push(0xFE);
    out.push(0xED);
    out.push(0xBE);
    out.push(0xEF);
    out.push(0x02);
    assert(out@ == header());
    write_varint(&mut out, count);
    out
}

/// Appends the frame of a file whose content has the checksum `crc32`.
pub fn write_frame(out: &mut Vec<u8>, name: &str, crc32: u32, content: &[u8])
    ensures
        final(out)@ == old(out)@ + frame_bytes(
            FrameView { name: name@, crc32, content: content@ },
        ),
{
    proof {
        reveal(frame_bytes);
    }
    let name_bytes = name.as_bytes();
    out.push(0);
    write_varint(out, name_bytes.len() as u64);
    out.extend_from_slice(name_bytes);
    write_be32(out, crc32);
    write_varint(out, content.len() as u64);
    out.extend_from_slice(content);
}

/// The frame of a file, as bytes: its checksum is computed here.
pub fn encode_file(name: &str, content: &[u8]) -> (out: Vec<u8>)
    ensures
        out@ == frame_bytes(frame_of(name@, content@)),
{
    let mut out: Vec<u8> = Vec::new();
    write_frame(&mut out, name, checksum_ieee(content), content);
    out
}

/// A whole transfer of `files`, in their order, as bytes.
pub fn encode_stream(files: &Vec<SourceFile>) -> (out: Vec<u8>)
    ensures
        out@ == stream_bytes(source_frames(files@)),
{
    let mut out = encode_preamble(files.len() as u64);
    let ghost frames = source_frames(files@);
    assert(frames.skip(0) =~= frames);
    let mut i: usize = 0;
    while i < files.len()
        invariant
            i <= files.len(),
            frames == source_frames(files@),
            out@ + frames_bytes(frames.skip(i as int)) == stream_bytes(frames),
        decreases files.len() - i,
    {
        let f = &files[i];
        let ghost before = out@;
        let content = f.content.as_slice();
        write_frame(&mut out, f.name.as_str(), checksum_ieee(content), content);
        proof {
            let rest = frames.skip(i as int);
            assert(rest[0] == frame_of(f.name@, f.content@));
            assert(rest.drop_first() =~= frames.skip(i + 1));
            assert(out@ + frames_bytes(frames.skip(i + 1)) =~= before + frames_bytes(rest));
        }
        i += 1;
    }
    assert(frames_bytes(frames.skip(i as int)) =~= Seq::<u8>::empty());
    assert(out@ =~= out@ + Seq::<u8>::empty());
    out
}

} // verus!
