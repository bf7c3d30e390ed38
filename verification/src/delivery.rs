//! What the receive buffer holds after the reads a loop asks for.
//!
//! A loop asks for each read at the offset up to which it has accumulated
//! bytes, and a driver hands the read the span that `remaining_span` gives
//! for that offset. The functions here follow a buffer through such reads.

use crate::buffer::span_start;
use crate::client::ClientModel;
use crate::protocol::{Action, Exchange, Input, Phase, Step};
use crate::server::ServerModel;
use vstd::prelude::*;

verus! {

/// What a receive buffer holds once a read has stored `chunk` at the start
/// of the span that follows its first `offset` bytes.
pub open spec fn stored(buffer: Seq<u8>, offset: usize, chunk: Seq<u8>) -> Seq<u8> {
    let start = span_start(buffer.len(), offset);
    buffer.take(start) + chunk + buffer.skip(start + chunk.len())
}

/// The chunks one behind the other.
pub open spec fn joined(chunks: Seq<Seq<u8>>) -> Seq<u8>
    decreases chunks.len(),
{
    if chunks.len() == 0 {
        Seq::empty()
    } else {
        chunks[0] + joined(chunks.skip(1))
    }
}

/// Whether each of the chunks holds at least one byte.
pub open spec fn all_filled(chunks: Seq<Seq<u8>>) -> bool {
    forall|i: int| 0 <= i < chunks.len() ==> (#[trigger] chunks[i]).len() > 0
}

/// Where the client stands, and what its receive buffer holds, after one
/// read after another has brought the chunks of `chunks`.
pub open spec fn client_reads(model: ClientModel, buffer: Seq<u8>, chunks: Seq<Seq<u8>>) -> (
    Step<ClientModel>,
    Seq<u8>,
)
    decreases chunks.len(),
{
    if chunks.len() == 0 {
        (Step::Continue(model), buffer)
    } else {
        let after = stored(buffer, model.bytes_read, chunks[0]);
        match model.step(Input::Read(Ok(chunks[0].len() as usize))) {
            Step::Continue(next) => client_reads(next, after, chunks.skip(1)),
            Step::Done(result) => (Step::Done(result), after),
        }
    }
}

/// Where the server stands, and what its receive buffer holds, after one
/// read after another from the connection under `token` has brought the
/// chunks of `chunks`.
pub open spec fn server_reads(
    model: ServerModel,
    token: usize,
    buffer: Seq<u8>,
    chunks: Seq<Seq<u8>>,
) -> (Step<ServerModel>, Seq<u8>)
    decreases chunks.len(),
{
    if chunks.len() == 0 {
        (Step::Continue(model), buffer)
    } else {
        let after = stored(buffer, model.exchanges[token].bytes_read, chunks[0]);
        match model.step(Input::Read(Ok(chunks[0].len() as usize))) {
            Step::Continue(next) => server_reads(next, token, after, chunks.skip(1)),
            Step::Done(result) => (Step::Done(result), after),
        }
    }
}

/// What is written through the span that `remaining_span` gives lands in
/// the buffer as `stored` says: where the span ends up holding `chunk` in
/// front of what it held behind as many bytes, the buffer holds its bytes
/// up to the span, then `chunk`, then what it held behind.
pub proof fn lemma_span_holds_what_was_stored(buffer: Seq<u8>, offset: usize, chunk: Seq<u8>)
    requires
        span_start(buffer.len(), offset) + chunk.len() <= buffer.len(),
    ensures
        stored(buffer, offset, chunk) == buffer.take(span_start(buffer.len(), offset)) + (chunk
            + buffer.skip(span_start(buffer.len(), offset)).skip(chunk.len() as int)),
        stored(buffer, offset, chunk).len() == buffer.len(),
        stored(buffer, offset, chunk).take(span_start(buffer.len(), offset)) == buffer.take(
            span_start(buffer.len(), offset),
        ),
        stored(buffer, offset, chunk).take(span_start(buffer.len(), offset) + chunk.len())
            == buffer.take(span_start(buffer.len(), offset)) + chunk,
{
    let start = span_start(buffer.len(), offset);
    assert(buffer.skip(start).skip(chunk.len() as int) =~= buffer.skip(start + chunk.len()));
    assert(stored(buffer, offset, chunk) =~= buffer.take(start) + (chunk + buffer.skip(
        start,
    ).skip(chunk.len() as int)));
    assert(stored(buffer, offset, chunk).take(start) =~= buffer.take(start));
    assert(stored(buffer, offset, chunk).take(start + chunk.len()) =~= buffer.take(start)
        + chunk);
}

/// Chunks that each hold a byte hold at least as many bytes together as
/// there are chunks.
pub proof fn lemma_joined_len(chunks: Seq<Seq<u8>>)
    requires
        all_filled(chunks),
    ensures
        joined(chunks).len() >= chunks.len(),
        chunks.len() > 0 ==> joined(chunks).len() == chunks[0].len() + joined(
            chunks.skip(1),
        ).len(),
    decreases chunks.len(),
{
    if chunks.len() > 0 {
        let rest = chunks.skip(1);
        assert forall|i: int| 0 <= i < rest.len() implies (#[trigger] rest[i]).len() > 0 by {
            assert(rest[i] == chunks[i + 1]);
        }
        lemma_joined_len(rest);
    }
}

/// Reads that bring, piece by piece, exactly the bytes the client still
/// expects end the loop with success and leave those bytes, in the order in
/// which they came, right behind the bytes that were there before.
pub proof fn lemma_client_receives_in_order(
    model: ClientModel,
    buffer: Seq<u8>,
    chunks: Seq<Seq<u8>>,
)
    requires
        model.wf(),
        model.pending is Read,
        buffer.len() == model.capacity,
        chunks.len() > 0,
        all_filled(chunks),
        model.bytes_read + joined(chunks).len() == model.expected,
        model.expected <= model.capacity,
    ensures
        client_reads(model, buffer, chunks).0 == Step::<ClientModel>::Done(Ok(())),
        client_reads(model, buffer, chunks).1.len() == buffer.len(),
        client_reads(model, buffer, chunks).1.take(model.expected as int) == buffer.take(
            model.bytes_read as int,
        ) + joined(chunks),
    decreases chunks.len(),
{
    let chunk = chunks[0];
    let rest = chunks.skip(1);
    let after = stored(buffer, model.bytes_read, chunk);
    lemma_joined_len(chunks);
    lemma_span_holds_what_was_stored(buffer, model.bytes_read, chunk);
    assert forall|i: int| 0 <= i < rest.len() implies (#[trigger] rest[i]).len() > 0 by {
        assert(rest[i] == chunks[i + 1]);
    }
    lemma_joined_len(rest);
    if rest.len() == 0 {
        assert(joined(rest) =~= Seq::<u8>::empty());
        assert(joined(chunks) =~= chunk);
    } else {
        let next = model.step(Input::Read(Ok(chunk.len() as usize)))->Continue_0;
        crate::client::lemma_step_keeps_well_formed(model, Input::Read(Ok(chunk.len() as usize)));
        lemma_client_receives_in_order(next, after, rest);
        assert(after.take(next.bytes_read as int) + joined(rest) =~= buffer.take(
            model.bytes_read as int,
        ) + joined(chunks));
    }
}

/// Reads from one connection that bring, piece by piece, exactly the bytes
/// the server still expects of it complete the connection's reading and
/// leave those bytes, in the order in which they came, right behind the
/// bytes that were there before.
pub proof fn lemma_server_receives_in_order(
    model: ServerModel,
    token: usize,
    buffer: Seq<u8>,
    chunks: Seq<Seq<u8>>,
)
    requires
        model.wf(),
        model.pending == (Action::Read { token, offset: model.exchanges[token].bytes_read }),
        buffer.len() == model.capacity,
        chunks.len() > 0,
        all_filled(chunks),
        model.exchanges[token].bytes_read + joined(chunks).len() == model.expected,
        model.expected <= model.capacity,
    ensures
        server_reads(model, token, buffer, chunks).0 matches Step::Continue(last)
            && last.exchanges.contains_key(token) && last.exchanges[token] == (Exchange {
            phase: Phase::ReadComplete,
            bytes_read: model.expected,
        }),
        server_reads(model, token, buffer, chunks).1.len() == buffer.len(),
        server_reads(model, token, buffer, chunks).1.take(model.expected as int) == buffer.take(
            model.exchanges[token].bytes_read as int,
        ) + joined(chunks),
    decreases chunks.len(),
{
    let chunk = chunks[0];
    let rest = chunks.skip(1);
    let offset = model.exchanges[token].bytes_read;
    let after = stored(buffer, offset, chunk);
    let input = Input::Read(Ok(chunk.len() as usize));
    lemma_joined_len(chunks);
    lemma_span_holds_what_was_stored(buffer, offset, chunk);
    assert forall|i: int| 0 <= i < rest.len() implies (#[trigger] rest[i]).len() > 0 by {
        assert(rest[i] == chunks[i + 1]);
    }
    lemma_joined_len(rest);
    crate::server::lemma_step_keeps_well_formed(model, input);
    assert(model.step(input) == model.on_read(token, Ok(chunk.len() as usize)));
    if rest.len() == 0 {
        assert(joined(rest) =~= Seq::<u8>::empty());
        assert(joined(chunks) =~= chunk);
        let complete = Exchange { phase: Phase::ReadComplete, bytes_read: model.expected };
        let completed = ServerModel { exchanges: model.exchanges.insert(token, complete), ..model };
        crate::server::lemma_dispatch_keeps_well_formed(completed, model.cursor);
        let last = completed.dispatch(model.cursor);
        assert(model.step(input) == Step::Continue(last));
        assert(server_reads(last, token, after, rest) == (Step::Continue(last), after));
    } else {
        let total = (offset + chunk.len()) as usize;
        let partial = Exchange { phase: Phase::Reading, bytes_read: total };
        let next = ServerModel {
            exchanges: model.exchanges.insert(token, partial),
            pending: Action::Read { token, offset: total },
            ..model
        };
        assert(model.step(input) == Step::Continue(next));
        lemma_server_receives_in_order(next, token, after, rest);
        assert(after.take(total as int) + joined(rest) =~= buffer.take(offset as int) + joined(
            chunks,
        ));
    }
}

} // verus!
