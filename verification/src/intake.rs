//! A transfer as it comes in, piece by piece. What was read of it stays read:
//! each piece is decoded from where the one before it ended.

use crate::decode::{same_names, scan_frame, scan_length, stopped, Decoded, Progress};
use crate::error::ErrorKind;
use crate::plan::ExpectedFiles;
use crate::wire::{
    count_expected, frame_views, frames_at, header, length_at, stream_missing, stream_parse,
    FileFrame, FrameView, HEADER_LEN,
};
use crate::wire_laws::{lemma_frames_at_extend, lemma_frames_continue, lemma_length_at_extend};
use vstd::prelude::*;

verus! {

/// The part of a transfer that has arrived, with what was decoded of it.
pub struct Intake {
    /// The bytes that have arrived.
    buffer: Vec<u8>,
    /// The number of files that the transfer announces and the position
    /// behind that number, once they were read.
    announced: Option<(u64, usize)>,
    /// The files whose frames are complete.
    frames: Vec<FileFrame>,
    /// The position behind the last complete frame.
    pos: usize,
}

impl View for Intake {
    type V = Seq<u8>;

    closed spec fn view(&self) -> Seq<u8> {
        self.buffer@
    }
}

impl Intake {
    /// What was decoded is what the bytes that have arrived hold: the number
    /// of files behind the header, and a complete frame for each file so far.
    #[verifier::type_invariant]
    spec fn consistent(&self) -> bool {
        match self.announced {
            None => true,
            Some((count, start)) => {
                &&& self.buffer@.len() >= HEADER_LEN
                &&& self.buffer@.take(HEADER_LEN as int) == header()
                &&& length_at(self.buffer@, HEADER_LEN as int) == Ok::<(nat, int), ErrorKind>(
                    (count as nat, start as int),
                )
                &&& self.frames@.len() <= count
                &&& self.pos <= self.buffer@.len()
                &&& frames_at(self.buffer@, start as int, self.frames@.len(), Seq::empty())
                    == Ok::<(Seq<FrameView>, int), ErrorKind>(
                    (frame_views(self.frames@), self.pos as int),
                )
            },
        }
    }

    /// An intake to which nothing has come.
    pub fn new() -> (intake: Self)
        ensures
            intake@ == Seq::<u8>::empty(),
    {
        Intake { buffer: Vec::new(), announced: None, frames: Vec::new(), pos: 0 }
    }

    /// Takes the next piece of the input and decodes as far as it reaches,
    /// under what the plan expects. The answer is that of decoding all that
    /// has come in one go. While the transfer is incomplete the intake goes
    /// on with the piece added; once it is decided the intake is empty again.
    pub fn feed(self, chunk: Vec<u8>, expected: &Option<ExpectedFiles>) -> (r: (Intake, Progress))
        ensures
            match r.1 {
                Progress::Complete(d) => stream_parse(self@ + chunk@, *expected) == Ok::<
                    (Seq<FrameView>, int),
                    ErrorKind,
                >((frame_views(d.frames@), d.consumed as int)) && d.consumed <= self@.len()
                    + chunk@.len() && r.0@ == Seq::<u8>::empty(),
                Progress::Failed(e) => stream_parse(self@ + chunk@, *expected) == Err::<
                    (Seq<FrameView>, int),
                    ErrorKind,
                >(e) && e != ErrorKind::TruncatedInput && r.0@ == Seq::<u8>::empty(),
                Progress::Incomplete(n) => stream_parse(self@ + chunk@, *expected) == Err::<
                    (Seq<FrameView>, int),
                    ErrorKind,
                >(ErrorKind::TruncatedInput) && n == stream_missing(self@ + chunk@) && n >= 1
                    && r.0@ == self@ + chunk@,
            },
    {
        proof {
            use_type_invariant(&self);
        }
        let ghost before = self.buffer@;
        let ghost added = chunk@;
        let Intake { buffer, announced, frames, pos } = self;
        let mut buffer = buffer;
        let mut piece = chunk;
        buffer.append(&mut piece);
        assert(buffer@ == before + added);
        let input = buffer.as_slice();
        let (count, start, mut frames, mut pos) = match announced {
            Some((count, start)) => {
                proof {
                    assert(buffer@.take(HEADER_LEN as int) =~= before.take(HEADER_LEN as int));
                    lemma_length_at_extend(before, added, HEADER_LEN as int);
                    lemma_frames_at_extend(
                        before,
                        added,
                        start as int,
                        frames@.len(),
                        Seq::empty(),
                    );
                }
                (count, start, frames, pos)
            },
            None => {
                if input.len() < HEADER_LEN {
                    let missing = HEADER_LEN - input.len();
                    return (
                        Intake { buffer, announced: None, frames: Vec::new(), pos: 0 },
                        Progress::Incomplete(missing),
                    );
                }
                if input[0] != 0xFE || input[1] != 0xED || input[2] != 0xBE || input[3] != 0xEF
                    || input[4] != 0x02 {
                    assert(input@.take(HEADER_LEN as int) != header()) by {
                        let h = input@.take(HEADER_LEN as int);
                        assert(h[0] == input@[0] && h[1] == input@[1] && h[2] == input@[2] && h[3]
                            == input@[3] && h[4] == input@[4]);
                    }
                    return (Intake::new(), Progress::Failed(ErrorKind::ProtocolError));
                }
                assert(input@.take(HEADER_LEN as int) =~= header());
                match scan_length(input, HEADER_LEN) {
                    Ok((count, start)) => {
                        let none: Vec<FileFrame> = Vec::new();
                        assert(frame_views(none@) =~= Seq::<FrameView>::empty());
                        (count, start, none, start)
                    },
                    Err(h) => {
                        let progress = stopped(h);
                        return match progress {
                            Progress::Incomplete(n) => (
                                Intake { buffer, announced: None, frames: Vec::new(), pos: 0 },
                                Progress::Incomplete(n),
                            ),
                            other => (Intake::new(), other),
                        };
                    },
                }
            },
        };
        if let Some(ExpectedFiles::Amount(n)) = expected {
            if *n as u64 != count {
                return (Intake::new(), Progress::Failed(ErrorKind::CountMismatch));
            }
        }
        while (frames.len() as u64) < count
            invariant
                input@ == buffer@,
                buffer@ == before + added,
                before == self@,
                added == chunk@,
                frames@.len() <= count,
                pos <= input@.len(),
                input@.len() >= HEADER_LEN,
                input@.take(HEADER_LEN as int) == header(),
                length_at(input@, HEADER_LEN as int) == Ok::<(nat, int), ErrorKind>(
                    (count as nat, start as int),
                ),
                count_expected(*expected, count as nat),
                frames_at(input@, start as int, frames@.len(), Seq::empty()) == Ok::<
                    (Seq<FrameView>, int),
                    ErrorKind,
                >((frame_views(frames@), pos as int)),
            decreases count - frames@.len(),
        {
            proof {
                lemma_frames_continue(
                    input@,
                    start as int,
                    frames@.len(),
                    (count - frames@.len()) as nat,
                    Seq::empty(),
                );
                lemma_frames_continue(input@, start as int, frames@.len(), 1, Seq::empty());
            }
            match scan_frame(input, pos) {
                Err(h) => {
                    let progress = stopped(h);
                    return match progress {
                        Progress::Incomplete(n) => (
                            Intake { buffer, announced: Some((count, start)), frames, pos },
                            Progress::Incomplete(n),
                        ),
                        other => (Intake::new(), other),
                    };
                },
                Ok((f, next)) => {
                    assert(frame_views(frames@.push(f)) =~= frame_views(frames@).push(f@));
                    assert(frames_at(input@, next as int, 0, frame_views(frames@).push(f@)) == Ok::<
                        (Seq<FrameView>, int),
                        ErrorKind,
                    >((frame_views(frames@).push(f@), next as int)));
                    frames.push(f);
                    pos = next;
                },
            }
        }
        let decoded = Decoded { frames, consumed: pos };
        if let Some(ExpectedFiles::List(list)) = expected {
            let names = decoded.names();
            if !same_names(&names, list) {
                return (Intake::new(), Progress::Failed(ErrorKind::FileListMismatch));
            }
        }
        (Intake::new(), Progress::Complete(decoded))
    }
}

} // verus!
