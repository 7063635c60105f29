//! Reassembly of the chunked byte stream into frames.
//!
//! Bytes arrive in chunks of any size. They are kept until the length field
//! at their head is covered, then the frame is cut off and decoded, and what
//! follows it moves to the front as the start of the next frame.

use vstd::prelude::*;
use vstd::slice::slice_subrange;
use crate::command::{Command, FamilyCommand};
use crate::error::{CommandError, ControlTaskError, EndpointFault};
use crate::wire::{declared_length, read_length, LENGTH_FIELD};

verus! {

/// Bytes that the reassembly buffer can hold, and so the longest frame.
pub const REASSEMBLY_CAPACITY: usize = 4098;

/// The shortest frame: length field, target id, bus and family tag.
pub const MIN_FRAME: usize = 5;

/// What the bytes received so far amount to.
pub enum Extraction {
    /// No whole frame yet: more bytes are needed.
    Waiting,
    /// The length field announces more than the buffer can ever hold.
    Oversize,
    /// A whole frame: its body, without the length field, and the bytes
    /// that follow the frame.
    Whole { body: Seq<u8>, rest: Seq<u8> },
}

/// The bytes that a frame with declared length `declared` takes from the
/// stream: the frame itself, and never less than its length field.
pub open spec fn frame_extent(declared: nat) -> nat {
    if declared < 2 {
        2
    } else {
        declared
    }
}

/// The first frame among the received bytes `s`, if it is whole. Nothing is
/// decided before five bytes are held. A length field over the capacity can
/// never be covered. Otherwise the frame is whole once the bytes cover its
/// declared length; one that declares less than the five bytes of the
/// shortest frame is cut off all the same, and its body is too short to
/// decode.
pub open spec fn extract(s: Seq<u8>) -> Extraction {
    if s.len() < 5 {
        Extraction::Waiting
    } else if declared_length(s) > 4098 {
        Extraction::Oversize
    } else if s.len() < declared_length(s) {
        Extraction::Waiting
    } else {
        Extraction::Whole {
            body: s.subrange(2, frame_extent(declared_length(s)) as int),
            rest: s.subrange(frame_extent(declared_length(s)) as int, s.len() as int),
        }
    }
}

/// How one read from the transport ended.
pub enum ReadEvent<'a> {
    /// These bytes arrived.
    Data(&'a [u8]),
    /// Nothing arrived within the timeout.
    TimedOut,
    /// The read failed.
    Failed(EndpointFault),
}

/// Where a queued command came from: the body of a whole frame, or a
/// length field that announced too much.
pub enum Unit {
    Body(Seq<u8>),
    Oversize,
}

/// The units that the received bytes `s` give, in order: one for each whole
/// frame, up to the first that announces too much.
pub open spec fn units(s: Seq<u8>) -> Seq<Unit>
    decreases s.len(),
{
    match extract(s) {
        Extraction::Waiting => Seq::<Unit>::empty(),
        Extraction::Oversize => seq![Unit::Oversize],
        Extraction::Whole { body, rest } => seq![Unit::Body(body)] + units(rest),
    }
}

/// The bytes of `s` that stay behind once every whole frame is cut off: the
/// start of a frame that is not whole yet, or nothing after a length field
/// that announced too much.
pub open spec fn remainder(s: Seq<u8>) -> Seq<u8>
    decreases s.len(),
{
    match extract(s) {
        Extraction::Waiting => s,
        Extraction::Oversize => Seq::<u8>::empty(),
        Extraction::Whole { body, rest } => remainder(rest),
    }
}

/// Whether the received bytes `s` run into a length field that announces
/// too much.
pub open spec fn abandons(s: Seq<u8>) -> bool
    decreases s.len(),
{
    match extract(s) {
        Extraction::Waiting => false,
        Extraction::Oversize => true,
        Extraction::Whole { body, rest } => abandons(rest),
    }
}

/// Whether `cmd` is what is queued for `unit`: a decoding of the frame
/// body, or the `BufferOverflow` that answers an oversize announcement.
pub open spec fn unit_queues<I: FamilyCommand, G: FamilyCommand, L: FamilyCommand>(
    unit: Unit,
    cmd: Command<I, G, L>,
) -> bool {
    match unit {
        Unit::Body(body) => Command::queues(body, cmd),
        Unit::Oversize => cmd == Command::<I, G, L>::spec_from_error(CommandError::BufferOverflow),
    }
}

/// Whether `cmds` are what is queued for `units`, one for one and in order.
pub open spec fn all_queued<I: FamilyCommand, G: FamilyCommand, L: FamilyCommand>(
    units: Seq<Unit>,
    cmds: Seq<Command<I, G, L>>,
) -> bool {
    units.len() == cmds.len() && forall|k: int|
        0 <= k < units.len() ==> unit_queues(#[trigger] units[k], cmds[k])
}

/// Bytes that arrive later change nothing about a frame that is already
/// whole, nor about an announcement that is already too large: they only
/// follow it.
pub proof fn lemma_extract_extends(a: Seq<u8>, b: Seq<u8>)
    ensures
        extract(a) is Oversize ==> extract(a + b) is Oversize,
        extract(a) matches Extraction::Whole { body, rest } ==> extract(a + b)
            == (Extraction::Whole { body, rest: rest + b }),
{
    if a.len() >= 5 {
        let s = a + b;
        assert(s[0] == a[0] && s[1] == a[1]);
        if declared_length(a) <= 4098 && a.len() >= declared_length(a) {
            let extent = frame_extent(declared_length(a)) as int;
            assert(s.subrange(2, extent) =~= a.subrange(2, extent));
            assert(s.subrange(extent, s.len() as int) =~= a.subrange(extent, a.len() as int) + b);
        }
    }
}

/// What stays behind holds no whole frame.
pub proof fn lemma_remainder_waits(s: Seq<u8>)
    ensures
        extract(remainder(s)) is Waiting,
        abandons(s) ==> remainder(s) == Seq::<u8>::empty(),
        units(remainder(s)) == Seq::<Unit>::empty(),
        remainder(remainder(s)) == remainder(s),
    decreases s.len(),
{
    match extract(s) {
        Extraction::Waiting => {},
        Extraction::Oversize => {},
        Extraction::Whole { body, rest } => {
            lemma_remainder_waits(rest);
        },
    }
}

/// Reassembly does not depend on where the stream is cut into reads: the
/// bytes `a` followed by the bytes `b` give the units of `a`, then the
/// units of what `a` left behind followed by `b`. Where `a` runs into an
/// announcement that is too large, everything after it is abandoned, `b`
/// included.
pub proof fn lemma_chunking(a: Seq<u8>, b: Seq<u8>)
    ensures
        abandons(a) ==> units(a + b) == units(a) && remainder(a + b) == Seq::<u8>::empty()
            && abandons(a + b),
        !abandons(a) ==> units(a + b) == units(a) + units(remainder(a) + b) && remainder(a + b)
            == remainder(remainder(a) + b) && abandons(a + b) == abandons(remainder(a) + b),
    decreases a.len(),
{
    lemma_extract_extends(a, b);
    match extract(a) {
        Extraction::Waiting => {
            assert(units(a) + units(a + b) =~= units(a + b));
        },
        Extraction::Oversize => {},
        Extraction::Whole { body, rest } => {
            lemma_chunking(rest, b);
            if !abandons(a) {
                assert(units(a + b) =~= units(a) + units(remainder(a) + b));
            }
        },
    }
}

/// The bytes received from the transport and not yet cut into a frame.
pub struct Reassembler {
    buf: Vec<u8>,
    filled: usize,
}

impl Reassembler {
    /// The buffer has its full capacity and the fill count lies within it.
    /// Every constructor gives such a reassembler and every method keeps
    /// it so.
    pub closed spec fn well_formed(self) -> bool {
        self.buf@.len() == 4098 && self.filled <= 4098
    }

    /// The bytes held, oldest first.
    pub closed spec fn pending(self) -> Seq<u8> {
        self.buf@.subrange(0, self.filled as int)
    }

    /// A reassembler that holds nothing.
    pub fn new() -> (r: Self)
        ensures
            r.well_formed(),
            r.pending() == Seq::<u8>::empty(),
    {
        let mut buf: Vec<u8> = Vec::new();
        let mut i: usize = 0;
        while i < REASSEMBLY_CAPACITY
            invariant
                i <= 4098,
                buf@.len() == i,
            decreases 4098 - i,
        {
            buf.push(0);
            i = i + 1;
        }
        let r = Reassembler { buf, filled: 0 };
        assert(r.pending() =~= Seq::<u8>::empty());
        r
    }

    /// How many bytes are held.
    pub fn filled(&self) -> (n: usize)
        requires
            self.well_formed(),
        ensures
            n == self.pending().len(),
            n <= 4098,
    {
        self.filled
    }

    /// Abandons the bytes held: after a read has timed out, the frame they
    /// began is given up and the next byte starts a new one.
    pub fn resynchronize(&mut self)
        requires
            old(self).well_formed(),
        ensures
            final(self).well_formed(),
            final(self).pending() == Seq::<u8>::empty(),
    {
        self.filled = 0;
        assert(self.pending() =~= Seq::<u8>::empty());
    }

    /// Takes bytes from the front of `chunk`, as many as there is room for,
    /// and says how many were taken.
    pub fn push(&mut self, chunk: &[u8]) -> (taken: usize)
        requires
            old(self).well_formed(),
        ensures
            final(self).well_formed(),
            taken == if chunk@.len() <= 4098 - old(self).pending().len() {
                chunk@.len() as int
            } else {
                4098 - old(self).pending().len()
            },
            final(self).pending() == old(self).pending() + chunk@.subrange(0, taken as int),
    {
        let room: usize = REASSEMBLY_CAPACITY - self.filled;
        let taken: usize = if chunk.len() <= room {
            chunk.len()
        } else {
            room
        };
        let start: usize = self.filled;
        let mut i: usize = 0;
        while i < taken
            invariant
                i <= taken,
                start + taken <= 4098,
                taken <= chunk@.len(),
                self.buf@.len() == 4098,
                self.filled == start,
                self.buf@.subrange(0, start as int) == old(self).buf@.subrange(0, start as int),
                self.buf@.subrange(start as int, start + i) == chunk@.subrange(0, i as int),
            decreases taken - i,
        {
            let byte = chunk[i];
            self.buf.set(start + i, byte);
            i = i + 1;
            proof {
                assert(self.buf@.subrange(0, start as int) =~= old(self).buf@.subrange(
                    0,
                    start as int,
                ));
                assert(self.buf@.subrange(start as int, start + i) =~= chunk@.subrange(
                    0,
                    i as int,
                ));
            }
        }
        self.filled = start + taken;
        proof {
            assert(self.pending() =~= old(self).pending() + chunk@.subrange(0, taken as int));
        }
        taken
    }

    /// Cuts the first frame off the bytes held, if it is whole, and decodes
    /// it. What follows the frame moves to the front. A frame that
    /// announces more than the buffer can hold is answered with
    /// `BufferOverflow`, and the bytes held are abandoned.
    pub fn next_command<I: FamilyCommand, G: FamilyCommand, L: FamilyCommand>(&mut self) -> (r:
        Option<Command<I, G, L>>)
        requires
            old(self).well_formed(),
        ensures
            final(self).well_formed(),
            match extract(old(self).pending()) {
                Extraction::Waiting => r.is_none() && final(self).pending() == old(
                    self,
                ).pending(),
                Extraction::Oversize => r == Some(
                    Command::<I, G, L>::spec_from_error(CommandError::BufferOverflow),
                ) && final(self).pending() == Seq::<u8>::empty(),
                Extraction::Whole { body, rest } => r.is_some() && Command::queues(
                    body,
                    r.unwrap(),
                ) && final(self).pending() == rest,
            },
    {
        if self.filled < MIN_FRAME {
            return None;
        }
        let declared: usize = read_length(self.buf.as_slice());
        proof {
            assert(self.pending()[0] == self.buf@[0]);
            assert(self.pending()[1] == self.buf@[1]);
        }
        if declared > REASSEMBLY_CAPACITY {
            self.filled = 0;
            assert(self.pending() =~= Seq::<u8>::empty());
            return Some(Command::from_error(CommandError::BufferOverflow));
        }
        if self.filled < declared {
            return None;
        }
        let extent: usize = if declared < LENGTH_FIELD {
            LENGTH_FIELD
        } else {
            declared
        };
        let cmd = Command::decode(slice_subrange(self.buf.as_slice(), LENGTH_FIELD, extent));
        proof {
            assert(self.buf@.subrange(2, extent as int) =~= self.pending().subrange(
                2,
                extent as int,
            ));
        }
        let left: usize = self.filled - extent;
        let mut i: usize = 0;
        while i < left
            invariant
                i <= left,
                extent + left == self.filled,
                self.filled <= 4098,
                self.buf@.len() == 4098,
                self.filled == old(self).filled,
                forall|k: int| i <= k < 4098 ==> self.buf@[k] == old(self).buf@[k],
                forall|k: int| 0 <= k < i ==> self.buf@[k] == old(self).buf@[extent + k],
            decreases left - i,
        {
            let byte = self.buf[extent + i];
            self.buf.set(i, byte);
            i = i + 1;
        }
        self.filled = left;
        proof {
            assert(self.pending() =~= old(self).pending().subrange(
                extent as int,
                old(self).pending().len() as int,
            ));
        }
        Some(cmd)
    }

    /// Whether the bytes held begin with a length field that announces more
    /// than the buffer can hold.
    pub fn oversize(&self) -> (b: bool)
        requires
            self.well_formed(),
        ensures
            b == (extract(self.pending()) is Oversize),
    {
        if self.filled < MIN_FRAME {
            return false;
        }
        let declared: usize = read_length(self.buf.as_slice());
        proof {
            assert(self.pending()[0] == self.buf@[0]);
            assert(self.pending()[1] == self.buf@[1]);
        }
        declared > REASSEMBLY_CAPACITY
    }

    /// Cuts off and decodes every whole frame among the bytes held, adding
    /// the commands to `cmds`, and says whether the bytes were abandoned.
    fn drain_into<I: FamilyCommand, G: FamilyCommand, L: FamilyCommand>(
        &mut self,
        cmds: &mut Vec<Command<I, G, L>>,
        Ghost(done): Ghost<Seq<Unit>>,
    ) -> (abandoned: bool)
        requires
            old(self).well_formed(),
            all_queued(done, old(cmds)@),
        ensures
            final(self).well_formed(),
            abandoned == abandons(old(self).pending()),
            final(self).pending() == remainder(old(self).pending()),
            all_queued(done + units(old(self).pending()), final(cmds)@),
    {
        let ghost mut seen: Seq<Unit> = done;
        loop
            invariant
                self.well_formed(),
                all_queued(seen, cmds@),
                done + units(old(self).pending()) == seen + units(self.pending()),
                remainder(old(self).pending()) == remainder(self.pending()),
                abandons(old(self).pending()) == abandons(self.pending()),
            decreases self.pending().len(),
        {
            let ghost held = self.pending();
            if self.oversize() {
                self.resynchronize();
                cmds.push(Command::from_error(CommandError::BufferOverflow));
                proof {
                    assert(all_queued(seen.push(Unit::Oversize), cmds@));
                    assert(seen + units(held) =~= seen.push(Unit::Oversize));
                }
                return true;
            }
            match self.next_command() {
                Some(cmd) => {
                    cmds.push(cmd);
                    proof {
                        let body = extract(held)->body;
                        assert(all_queued(seen.push(Unit::Body(body)), cmds@));
                        assert(seen + units(held) =~= seen.push(Unit::Body(body)) + units(
                            self.pending(),
                        ));
                        seen = seen.push(Unit::Body(body));
                    }
                },
                None => {
                    proof {
                        assert(seen + units(held) =~= seen);
                    }
                    return false;
                },
            }
        }
    }

    /// Takes in the bytes of one read and gives the commands of every frame
    /// that they complete, in order. Bytes that belong to a frame not yet
    /// whole are kept for the next read. After a frame that announces more
    /// than the buffer can hold, the rest is abandoned.
    pub fn feed<I: FamilyCommand, G: FamilyCommand, L: FamilyCommand>(
        &mut self,
        chunk: &[u8],
    ) -> (cmds: Vec<Command<I, G, L>>)
        requires
            old(self).well_formed(),
        ensures
            final(self).well_formed(),
            final(self).pending() == remainder(old(self).pending() + chunk@),
            all_queued(units(old(self).pending() + chunk@), cmds@),
    {
        let ghost total = old(self).pending() + chunk@;
        let mut cmds: Vec<Command<I, G, L>> = Vec::new();
        let mut offset: usize = 0;
        proof {
            lemma_chunking(self.pending(), chunk@);
            lemma_remainder_waits(self.pending());
            assert(chunk@.subrange(0, chunk@.len() as int) =~= chunk@);
        }
        let ghost mut seen: Seq<Unit> = units(self.pending());
        let mut abandoned = self.drain_into(&mut cmds, Ghost(Seq::<Unit>::empty()));
        proof {
            assert(Seq::<Unit>::empty() + seen =~= seen);
        }
        while !abandoned && offset < chunk.len()
            invariant
                self.well_formed(),
                offset <= chunk@.len(),
                all_queued(seen, cmds@),
                extract(self.pending()) is Waiting,
                abandoned ==> units(total) == seen && remainder(total) == self.pending(),
                !abandoned ==> units(total) == seen + units(
                    self.pending() + chunk@.subrange(offset as int, chunk@.len() as int),
                ) && remainder(total) == remainder(
                    self.pending() + chunk@.subrange(offset as int, chunk@.len() as int),
                ),
            decreases chunk@.len() - offset,
        {
            let ghost held = self.pending();
            let ghost ahead = chunk@.subrange(offset as int, chunk@.len() as int);
            let taken = self.push(slice_subrange(chunk, offset, chunk.len()));
            offset = offset + taken;
            proof {
                let after = chunk@.subrange(offset as int, chunk@.len() as int);
                assert(ahead.subrange(0, taken as int) + after =~= ahead);
                assert(self.pending() + after =~= held + ahead);
                lemma_chunking(self.pending(), after);
                lemma_remainder_waits(self.pending());
            }
            let ghost grown = self.pending();
            abandoned = self.drain_into(&mut cmds, Ghost(seen));
            proof {
                seen = seen + units(grown);
                let after = chunk@.subrange(offset as int, chunk@.len() as int);
                assert(units(total) =~= if abandoned {
                    seen
                } else {
                    seen + units(self.pending() + after)
                });
            }
        }
        proof {
            if !abandoned {
                assert(chunk@.subrange(offset as int, chunk@.len() as int) =~= Seq::<u8>::empty());
                assert(self.pending() + Seq::<u8>::empty() =~= self.pending());
                assert(seen + Seq::<Unit>::empty() =~= seen);
            }
        }
        cmds
    }

    /// Takes in the end of one read. Bytes are reassembled and the commands
    /// that they complete are given back. A timeout abandons the bytes
    /// held and gives no command and no reply. A failed read, whatever the
    /// fault, ends the session and leaves the reassembler as it was.
    pub fn handle<I: FamilyCommand, G: FamilyCommand, L: FamilyCommand>(
        &mut self,
        event: ReadEvent<'_>,
    ) -> (r: Result<Vec<Command<I, G, L>>, ControlTaskError>)
        requires
            old(self).well_formed(),
        ensures
            final(self).well_formed(),
            match event {
                ReadEvent::Data(chunk) => r.is_ok() && all_queued(
                    units(old(self).pending() + chunk@),
                    r.unwrap()@,
                ) && final(self).pending() == remainder(old(self).pending() + chunk@),
                ReadEvent::TimedOut => r.is_ok() && r.unwrap()@ == Seq::<Command<I, G, L>>::empty()
                    && final(self).pending() == Seq::<u8>::empty(),
                ReadEvent::Failed(_) => r == Err::<Vec<Command<I, G, L>>, ControlTaskError>(
                    ControlTaskError::Disconnected,
                ) && final(self).pending() == old(self).pending(),
            },
    {
        match event {
            ReadEvent::Data(chunk) => Ok(self.feed(chunk)),
            ReadEvent::TimedOut => {
                self.resynchronize();
                Ok(Vec::new())
            },
            ReadEvent::Failed(fault) => Err(ControlTaskError::from_fault(fault)),
        }
    }
}

} // verus!
