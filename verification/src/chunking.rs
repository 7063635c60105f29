//! What reassembly guarantees of a stream, however the transport cuts it
//! into reads.

use vstd::prelude::*;
use crate::command::{family_of_tag, header_of, payload_of, Command, CommandInner, FamilyCommand};
use crate::error::CommandError;
use crate::reassembly::{
    abandons, extract, lemma_chunking, lemma_remainder_waits, remainder, units,
    Extraction, Unit,
};
use crate::wire::byte_id;
use crate::wire::declared_length;

verus! {

/// A frame as the host sends it: at least a header long, within the
/// reassembly capacity, and as long as its length field says.
pub open spec fn valid_frame(frame: Seq<u8>) -> bool {
    5 <= frame.len() <= 4098 && declared_length(frame) == frame.len()
}

/// What the decoder is handed of a frame: all but the length field.
pub open spec fn frame_body(frame: Seq<u8>) -> Seq<u8> {
    frame.subrange(2, frame.len() as int)
}

/// The bytes of `parts`, one after the other.
pub open spec fn concat(parts: Seq<Seq<u8>>) -> Seq<u8>
    decreases parts.len(),
{
    if parts.len() == 0 {
        Seq::<u8>::empty()
    } else {
        parts[0] + concat(parts.drop_first())
    }
}

/// The units given by a reassembler that holds `held` and is fed `reads`
/// one after the other.
pub open spec fn units_of_reads(held: Seq<u8>, reads: Seq<Seq<u8>>) -> Seq<Unit>
    decreases reads.len(),
{
    if reads.len() == 0 {
        Seq::<Unit>::empty()
    } else {
        units(held + reads[0]) + units_of_reads(remainder(held + reads[0]), reads.drop_first())
    }
}

/// The bytes held by a reassembler that held `held` and was fed `reads` one
/// after the other.
pub open spec fn held_after_reads(held: Seq<u8>, reads: Seq<Seq<u8>>) -> Seq<u8>
    decreases reads.len(),
{
    if reads.len() == 0 {
        held
    } else {
        held_after_reads(remainder(held + reads[0]), reads.drop_first())
    }
}

/// The bodies of `frames`, each as a unit, in order.
pub open spec fn bodies(frames: Seq<Seq<u8>>) -> Seq<Unit> {
    Seq::new(frames.len(), |i: int| Unit::Body(frame_body(frames[i])))
}

/// A reassembler that holds no whole frame gives the same units, and keeps
/// the same bytes, whether a stream reaches it in one read or cut into any
/// number of reads, as long as no length field in it announces more than
/// the buffer can hold.
pub proof fn lemma_reads_agree(held: Seq<u8>, reads: Seq<Seq<u8>>)
    requires
        extract(held) is Waiting,
        !abandons(held + concat(reads)),
    ensures
        units_of_reads(held, reads) == units(held + concat(reads)),
        held_after_reads(held, reads) == remainder(held + concat(reads)),
    decreases reads.len(),
{
    if reads.len() == 0 {
        assert(held + concat(reads) =~= held);
    } else {
        let first = reads[0];
        let later = reads.drop_first();
        assert(held + concat(reads) =~= (held + first) + concat(later));
        lemma_chunking(held + first, concat(later));
        lemma_remainder_waits(held + first);
        lemma_reads_agree(remainder(held + first), later);
    }
}

/// A valid frame, alone in the stream, gives exactly one unit, its body,
/// and leaves nothing behind.
pub proof fn lemma_single_frame(frame: Seq<u8>)
    requires
        valid_frame(frame),
    ensures
        units(frame) == seq![Unit::Body(frame_body(frame))],
        remainder(frame) == Seq::<u8>::empty(),
        !abandons(frame),
{
    let rest = frame.subrange(frame.len() as int, frame.len() as int);
    assert(rest =~= Seq::<u8>::empty());
    assert(extract(frame) == (Extraction::Whole { body: frame_body(frame), rest }));
    assert(extract(rest) is Waiting);
    assert(units(rest) == Seq::<Unit>::empty());
    assert(remainder(rest) == rest);
    assert(!abandons(rest));
    assert(units(frame) =~= seq![Unit::Body(frame_body(frame))]);
}

/// Frames sent back to back give one unit each, in the order sent, each
/// with the body of its frame, and no byte is left over or lost.
pub proof fn lemma_burst(frames: Seq<Seq<u8>>)
    requires
        forall|i: int| 0 <= i < frames.len() ==> valid_frame(#[trigger] frames[i]),
    ensures
        units(concat(frames)) == bodies(frames),
        remainder(concat(frames)) == Seq::<u8>::empty(),
        !abandons(concat(frames)),
    decreases frames.len(),
{
    if frames.len() == 0 {
        assert(units(concat(frames)) =~= bodies(frames));
    } else {
        let first = frames[0];
        let later = frames.drop_first();
        assert forall|i: int| 0 <= i < later.len() implies valid_frame(#[trigger] later[i]) by {
            assert(later[i] == frames[i + 1]);
        }
        lemma_single_frame(first);
        lemma_burst(later);
        lemma_chunking(first, concat(later));
        assert(Seq::<u8>::empty() + concat(later) =~= concat(later));
        assert forall|i: int| 0 <= i < frames.len() implies (seq![Unit::Body(frame_body(first))]
            + bodies(later))[i] == bodies(frames)[i] by {
            if i > 0 {
                assert(later[i - 1] == frames[i]);
            }
        }
        assert(units(concat(frames)) =~= bodies(frames));
    }
}

/// Frames sent back to back reach the decoder one by one, in order and
/// with nothing lost, however the transport cuts the burst into reads: one
/// read, one byte per read, or anything between.
pub proof fn lemma_burst_in_any_reads(frames: Seq<Seq<u8>>, reads: Seq<Seq<u8>>)
    requires
        forall|i: int| 0 <= i < frames.len() ==> valid_frame(#[trigger] frames[i]),
        concat(reads) == concat(frames),
    ensures
        units_of_reads(Seq::<u8>::empty(), reads) == bodies(frames),
        held_after_reads(Seq::<u8>::empty(), reads) == Seq::<u8>::empty(),
{
    lemma_burst(frames);
    assert(Seq::<u8>::empty() + concat(reads) =~= concat(frames));
    lemma_reads_agree(Seq::<u8>::empty(), reads);
}

/// A valid frame that arrives in reads of any sizes gives exactly one
/// unit: its own body, from the target id to the last byte of the payload.
pub proof fn lemma_frame_in_any_reads(frame: Seq<u8>, reads: Seq<Seq<u8>>)
    requires
        valid_frame(frame),
        concat(reads) == frame,
    ensures
        units_of_reads(Seq::<u8>::empty(), reads) == seq![Unit::Body(frame_body(frame))],
        held_after_reads(Seq::<u8>::empty(), reads) == Seq::<u8>::empty(),
{
    lemma_single_frame(frame);
    assert(Seq::<u8>::empty() + concat(reads) =~= frame);
    lemma_reads_agree(Seq::<u8>::empty(), reads);
}

/// One read as the reassembler sees it end: with bytes, or with none
/// within the timeout.
pub enum Arrival {
    Bytes(Seq<u8>),
    TimedOut,
}

/// The reads `reads`, each ending with its bytes.
pub open spec fn arrivals_of(reads: Seq<Seq<u8>>) -> Seq<Arrival> {
    Seq::new(reads.len(), |i: int| Arrival::Bytes(reads[i]))
}

/// The bytes held by a reassembler that held `held` once a read has ended
/// as `arrival`: a timeout abandons all of them.
pub open spec fn held_after(held: Seq<u8>, arrival: Arrival) -> Seq<u8> {
    match arrival {
        Arrival::Bytes(bytes) => remainder(held + bytes),
        Arrival::TimedOut => Seq::<u8>::empty(),
    }
}

/// The units given by a reassembler that holds `held` and sees its reads
/// end as `arrivals`, one after the other. A timeout gives none.
pub open spec fn units_of_arrivals(held: Seq<u8>, arrivals: Seq<Arrival>) -> Seq<Unit>
    decreases arrivals.len(),
{
    if arrivals.len() == 0 {
        Seq::<Unit>::empty()
    } else {
        (match arrivals[0] {
            Arrival::Bytes(bytes) => units(held + bytes),
            Arrival::TimedOut => Seq::<Unit>::empty(),
        }) + units_of_arrivals(held_after(held, arrivals[0]), arrivals.drop_first())
    }
}

/// The bytes held by a reassembler that held `held` and saw its reads end
/// as `arrivals`, one after the other.
pub open spec fn held_after_arrivals(held: Seq<u8>, arrivals: Seq<Arrival>) -> Seq<u8>
    decreases arrivals.len(),
{
    if arrivals.len() == 0 {
        held
    } else {
        held_after_arrivals(held_after(held, arrivals[0]), arrivals.drop_first())
    }
}

/// Reads that all end with bytes give what the bytes give.
pub proof fn lemma_arrivals_of_reads(held: Seq<u8>, reads: Seq<Seq<u8>>)
    ensures
        units_of_arrivals(held, arrivals_of(reads)) == units_of_reads(held, reads),
        held_after_arrivals(held, arrivals_of(reads)) == held_after_reads(held, reads),
    decreases reads.len(),
{
    if reads.len() > 0 {
        assert(arrivals_of(reads).drop_first() =~= arrivals_of(reads.drop_first()));
        lemma_arrivals_of_reads(remainder(held + reads[0]), reads.drop_first());
    }
}

/// After a timeout nothing of the abandoned bytes is left to corrupt what
/// follows: whatever was held when the read stalled, the next valid frame,
/// in reads of any sizes, gives exactly its own body.
pub proof fn lemma_recovers_after_timeout(stale: Seq<u8>, frame: Seq<u8>, reads: Seq<Seq<u8>>)
    requires
        valid_frame(frame),
        concat(reads) == frame,
    ensures
        units_of_arrivals(stale, seq![Arrival::TimedOut] + arrivals_of(reads)) == seq![
            Unit::Body(frame_body(frame)),
        ],
        held_after_arrivals(stale, seq![Arrival::TimedOut] + arrivals_of(reads)) == Seq::<
            u8,
        >::empty(),
{
    let arrivals = seq![Arrival::TimedOut] + arrivals_of(reads);
    assert(arrivals[0] == Arrival::TimedOut);
    assert(arrivals.drop_first() =~= arrivals_of(reads));
    lemma_arrivals_of_reads(Seq::<u8>::empty(), reads);
    lemma_frame_in_any_reads(frame, reads);
    assert(Seq::<Unit>::empty() + units_of_arrivals(Seq::<u8>::empty(), arrivals_of(reads))
        =~= units_of_arrivals(Seq::<u8>::empty(), arrivals_of(reads)));
}

/// The command queued for a valid frame carries what the frame encodes:
/// the target id of byte 2 and the bus of byte 3, with a body that the
/// family named by byte 4 decoded from exactly the bytes after it. Where
/// the tag names no family the command is the `Invalid` failure, and where
/// the family refuses the payload, the failure that the family reports.
pub proof fn lemma_frame_command<I: FamilyCommand, G: FamilyCommand, L: FamilyCommand>(
    frame: Seq<u8>,
    cmd: Command<I, G, L>,
)
    requires
        valid_frame(frame),
        Command::queues(frame_body(frame), cmd),
    ensures
        payload_of(frame_body(frame)) == frame.subrange(5, frame.len() as int),
        match family_of_tag(frame[4]) {
            None => cmd == Command::<I, G, L>::spec_from_error(CommandError::Invalid),
            Some(family) => exists|body: Result<CommandInner<I, G, L>, CommandError>|
                #[trigger] Command::<I, G, L>::family_decodes(
                    family,
                    frame.subrange(5, frame.len() as int),
                    body,
                ) && cmd == match body {
                    Ok(inner) => Command { id: byte_id(frame[2]), bus: frame[3], inner },
                    Err(err) => Command::<I, G, L>::spec_from_error(err),
                },
        },
{
    let buf = frame_body(frame);
    assert(payload_of(buf) =~= frame.subrange(5, frame.len() as int));
    assert(buf[0] == frame[2] && buf[1] == frame[3] && buf[2] == frame[4]);
    let r = choose|r: Result<Command<I, G, L>, CommandError>| #[trigger]
        Command::decodes(buf, r) && cmd == Command::spec_settle(r);
    match header_of(buf) {
        Err(_) => {},
        Ok(header) => {
            let body = choose|body: Result<CommandInner<I, G, L>, CommandError>| #[trigger]
                Command::<I, G, L>::family_decodes(header.family, payload_of(buf), body) && r
                    == Command::spec_assemble(header, body);
            assert(Command::<I, G, L>::family_decodes(
                header.family,
                frame.subrange(5, frame.len() as int),
                body,
            ));
        },
    }
}

} // verus!
