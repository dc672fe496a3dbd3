//! Laws of the proxy: what it promises of every packet and of packets that
//! follow each other.
use vstd::prelude::*;

use crate::cache::{
    law_stored_is_held, law_stored_keeps_younger, law_stored_leaves_others, lookup, stored,
    younger, DiffEntry, Entries,
};
use crate::handler::{
    entries_after, may_end_in, read_outcome, read_reply, request_of, server_step, DecisionView,
    OutcomeView, RequestView, StepView,
};
use crate::relay::{routed, ActionView, Side};
use crate::state::{Config, KafkaMode};
use crate::utils::format::{
    has_flag, key_of, new_message, new_packet, read_packet, write_reply, BodyView, FailureView,
    KeyView, MessageView, PacketView,
};
use crate::utils::laws::{law_message_accounts_for_every_byte, law_new_message, law_new_packet};
use crate::utils::parser::Fatal;
use crate::utils::{accepted_packet, flags_supported};

verus! {

/// Bytes that are passed on are passed on unchanged.
pub proof fn law_forwarded_unchanged(
    config: Config,
    entries: Entries,
    s: Seq<u8>,
    outcome: Result<OutcomeView, Fatal>,
)
    requires
        may_end_in(entries, s, request_of(config, s), outcome),
        outcome is Ok,
        outcome->Ok_0.decision is Forward,
    ensures
        outcome->Ok_0.decision == DecisionView::Forward(s),
{
}

/// A plain proxy relays: whatever comes in is passed on unchanged in both
/// directions, and nothing is cached.
pub proof fn law_plain_proxy(
    config: Config,
    capacity: nat,
    entries: Entries,
    s: Seq<u8>,
    outcome: Result<OutcomeView, Fatal>,
)
    requires
        config.relays_only(),
        may_end_in(entries, s, request_of(config, s), outcome),
    ensures
        outcome == Ok::<OutcomeView, Fatal>(
            OutcomeView { decision: DecisionView::Forward(s), announce: None },
        ),
        server_step(config, s) == Ok::<StepView, Fatal>(StepView::Done(DecisionView::Forward(s))),
        entries_after(config, entries, capacity, request_of(config, s)) == entries,
{
}

/// Whether a chunk from `origin` may come to `action` without a key being
/// fetched, when the cache holds `entries`.
pub open spec fn may_come_to(
    config: Config,
    origin: Side,
    entries: Entries,
    chunk: Seq<u8>,
    action: ActionView,
) -> bool {
    match origin {
        Side::Client => exists|o: OutcomeView|
            #[trigger] may_end_in(entries, chunk, request_of(config, chunk), Ok(o)) && action
                == routed(Side::Client, o.decision),
        Side::Server => exists|d: DecisionView|
            server_step(config, chunk) == Ok::<StepView, Fatal>(StepView::Done(d)) && action
                == #[trigger] routed(Side::Server, d),
    }
}

/// What is sent to one end by a list of actions.
pub open spec fn delivered(actions: Seq<ActionView>, end: Side) -> Seq<u8>
    decreases actions.len(),
{
    if actions.len() == 0 {
        Seq::empty()
    } else {
        let front = delivered(actions.drop_last(), end);
        match actions.last() {
            ActionView::Send { to, bytes } if to == end => front + bytes,
            _ => front,
        }
    }
}

/// The chunks one after the other.
pub open spec fn chunks_joined(chunks: Seq<Seq<u8>>) -> Seq<u8>
    decreases chunks.len(),
{
    if chunks.len() == 0 {
        Seq::empty()
    } else {
        chunks_joined(chunks.drop_last()) + chunks.last()
    }
}

/// Through a plain proxy each end gets exactly what the other sends, however
/// it is cut into chunks, and nothing comes back to the sender.
pub proof fn law_plain_connection(
    config: Config,
    origin: Side,
    entries: Seq<Entries>,
    chunks: Seq<Seq<u8>>,
    actions: Seq<ActionView>,
)
    requires
        config.relays_only(),
        entries.len() == chunks.len(),
        actions.len() == chunks.len(),
        forall|i: int|
            0 <= i < chunks.len() ==> may_come_to(
                config,
                origin,
                #[trigger] entries[i],
                #[trigger] chunks[i],
                #[trigger] actions[i],
            ),
    ensures
        delivered(actions, origin.peer()) == chunks_joined(chunks),
        delivered(actions, origin) == Seq::<u8>::empty(),
    decreases chunks.len(),
{
    if chunks.len() > 0 {
        let n: int = chunks.len() - 1;
        let (e, c, a) = (entries.drop_last(), chunks.drop_last(), actions.drop_last());
        assert forall|i: int| 0 <= i < c.len() implies may_come_to(
            config,
            origin,
            #[trigger] e[i],
            #[trigger] c[i],
            #[trigger] a[i],
        ) by {
            assert(e[i] == entries[i] && c[i] == chunks[i] && a[i] == actions[i]);
        }
        law_plain_connection(config, origin, e, c, a);
        assert(may_come_to(config, origin, entries[n], chunks[n], actions[n]));
    }
}

/// Info packets are passed on, whatever the configuration.
pub proof fn law_info_is_relayed(
    config: Config,
    capacity: nat,
    entries: Entries,
    s: Seq<u8>,
    outcome: Result<OutcomeView, Fatal>,
)
    requires
        read_packet(s) is Ok,
        read_packet(s)->Ok_0.body is Info,
        may_end_in(entries, s, request_of(config, s), outcome),
    ensures
        outcome == Ok::<OutcomeView, Fatal>(
            OutcomeView { decision: DecisionView::Forward(s), announce: None },
        ),
        server_step(config, s) == Ok::<StepView, Fatal>(StepView::Done(DecisionView::Forward(s))),
        entries_after(config, entries, capacity, request_of(config, s)) == entries,
{
}

/// A proxy that intercepts or publishes drops bytes that cannot be read as a
/// packet, in both directions, and caches nothing.
pub proof fn law_unreadable_is_dropped(
    config: Config,
    capacity: nat,
    entries: Entries,
    s: Seq<u8>,
    outcome: Result<OutcomeView, Fatal>,
)
    requires
        !config.relays_only(),
        read_packet(s) matches Err(FailureView::Rejected(_)),
        may_end_in(entries, s, request_of(config, s), outcome),
    ensures
        outcome == Ok::<OutcomeView, Fatal>(
            OutcomeView { decision: DecisionView::Drop, announce: None },
        ),
        server_step(config, s) == Ok::<StepView, Fatal>(StepView::Done(DecisionView::Drop)),
        entries_after(config, entries, capacity, request_of(config, s)) == entries,
{
}

/// While interception is active, a message with a flag that is not supported
/// is not served: it ends in a fault in both directions, and nothing is cached.
pub proof fn law_unsupported_is_fatal(
    config: Config,
    capacity: nat,
    entries: Entries,
    s: Seq<u8>,
    outcome: Result<OutcomeView, Fatal>,
)
    requires
        config.intercepts(),
        read_packet(s) is Ok,
        read_packet(s)->Ok_0.body matches BodyView::Message(m) && !flags_supported(m),
        may_end_in(entries, s, request_of(config, s), outcome),
    ensures
        outcome == Err::<OutcomeView, Fatal>(Fatal::UnsupportedFeature),
        server_step(config, s) == Err::<StepView, Fatal>(Fatal::UnsupportedFeature),
        entries_after(config, entries, capacity, request_of(config, s)) == entries,
{
}

/// The flags that interception supports: READ and GET_ALL in the first byte;
/// WRITE, DELETE and CREATE_ONLY in the second; none in the others.
pub proof fn law_supported_flags(m: MessageView)
    ensures
        flags_supported(m) <==> {
            &&& m.info1 < 4
            &&& m.info2 < 4 || 32 <= m.info2 < 36
            &&& m.info3 == 0
            &&& m.info4 == 0
        },
{
    let (a, b, c, d) = (m.info1, m.info2, m.info3, m.info4);
    assert(a & !((1u8 << 0) | (1u8 << 1)) == 0 <==> a < 4) by (bit_vector);
    assert(b & !((1u8 << 0) | (1u8 << 1) | (1u8 << 5)) == 0 <==> b < 4 || 32 <= b < 36)
        by (bit_vector);
    assert(c & !0u8 == 0 <==> c == 0) by (bit_vector);
    assert(d & !0u8 == 0 <==> d == 0) by (bit_vector);
}

/// An intercepted write is not forwarded: it is acknowledged with the times to
/// live that it asks for, and its operations are filed under its key.
pub proof fn law_write_is_intercepted(
    config: Config,
    capacity: nat,
    entries: Entries,
    s: Seq<u8>,
    outcome: Result<OutcomeView, Fatal>,
)
    requires
        config.intercepts(),
        accepted_packet(config, s) is Ok,
        accepted_packet(config, s)->Ok_0.body matches BodyView::Message(m) && has_flag(m.info2, 0),
        may_end_in(entries, s, request_of(config, s), outcome),
    ensures
        ({
            let m = accepted_packet(config, s)->Ok_0.body->Message_0;
            let after = entries_after(config, entries, capacity, request_of(config, s));
            &&& outcome == Ok::<OutcomeView, Fatal>(
                OutcomeView {
                    decision: DecisionView::Respond(write_reply(m.record_ttl, m.transaction_ttl)),
                    announce: None,
                },
            )
            &&& match key_of(m.fields) {
                Some(key) => after == stored(
                    entries,
                    capacity,
                    DiffEntry { key, operations: m.operations, ttl: config.diff_ttl },
                ),
                None => after == entries,
            }
        }),
{
}

/// A read of a key after operations were stored for it, by a write or by a
/// replayed record, is answered with these operations, or passed on if they
/// are not found any more; the cache stays as it is.
pub proof fn law_read_after_store(
    config: Config,
    capacity: nat,
    before: Entries,
    entry: DiffEntry,
    read: Seq<u8>,
    outcome: Result<OutcomeView, Fatal>,
)
    requires
        capacity > 0,
        request_of(config, read) matches Ok(RequestView::Read { key, .. }) && key == entry.key,
        may_end_in(stored(before, capacity, entry), read, request_of(config, read), outcome),
    ensures
        ({
            let after = stored(before, capacity, entry);
            let publish = request_of(config, read)->Ok_0->publish;
            &&& lookup(after, entry.key) == Some(entry.operations)
            &&& entries_after(config, after, capacity, request_of(config, read)) == after
            &&& {
                ||| outcome == Ok::<OutcomeView, Fatal>(
                    OutcomeView {
                        decision: DecisionView::Respond(read_reply(entry.operations)),
                        announce: None,
                    },
                )
                ||| outcome == Ok::<OutcomeView, Fatal>(
                    read_outcome(read, entry.key, publish, None),
                )
            }
        }),
{
    law_stored_is_held(before, capacity, entry);
}

/// A read after a write of the same key is answered with what was written, or
/// passed on if that is not found any more; the cache stays as it is.
pub proof fn law_read_after_write(
    config: Config,
    capacity: nat,
    before: Entries,
    write: Seq<u8>,
    read: Seq<u8>,
    outcome: Result<OutcomeView, Fatal>,
)
    requires
        capacity > 0,
        request_of(config, write) matches Ok(RequestView::Write { target: Some(_), .. }),
        request_of(config, read) matches Ok(RequestView::Read { key, .. }) && Some(key)
            == request_of(config, write)->Ok_0->target,
        may_end_in(
            entries_after(config, before, capacity, request_of(config, write)),
            read,
            request_of(config, read),
            outcome,
        ),
    ensures
        ({
            let after = entries_after(config, before, capacity, request_of(config, write));
            let written = request_of(config, write)->Ok_0->operations;
            let key = request_of(config, read)->Ok_0->key;
            let publish = request_of(config, read)->Ok_0->publish;
            &&& lookup(after, key) == Some(written)
            &&& entries_after(config, after, capacity, request_of(config, read)) == after
            &&& {
                ||| outcome == Ok::<OutcomeView, Fatal>(
                    OutcomeView {
                        decision: DecisionView::Respond(read_reply(written)),
                        announce: None,
                    },
                )
                ||| outcome == Ok::<OutcomeView, Fatal>(read_outcome(read, key, publish, None))
            }
        }),
{
    if let Ok(RequestView::Write { target: Some(key), operations, .. }) = request_of(config, write)
    {
        law_read_after_store(
            config,
            capacity,
            before,
            DiffEntry { key, operations, ttl: config.diff_ttl },
            read,
            outcome,
        );
    }
}

/// What the cache holds after all of a list of chunks from clients.
pub open spec fn entries_after_all(
    config: Config,
    before: Entries,
    capacity: nat,
    chunks: Seq<Seq<u8>>,
) -> Entries
    decreases chunks.len(),
{
    if chunks.len() == 0 {
        before
    } else {
        entries_after(
            config,
            entries_after_all(config, before, capacity, chunks.drop_last()),
            capacity,
            request_of(config, chunks.last()),
        )
    }
}

/// Whether none of the chunks is a write of the key.
pub open spec fn none_writes(config: Config, chunks: Seq<Seq<u8>>, key: KeyView) -> bool {
    forall|i: int|
        0 <= i < chunks.len() ==> !(request_of(config, #[trigger] chunks[i]) matches Ok(
            RequestView::Write { target, .. },
        ) && target == Some(key))
}

/// How many of the chunks are writes that name a key.
pub open spec fn keyed_writes(config: Config, chunks: Seq<Seq<u8>>) -> nat
    decreases chunks.len(),
{
    if chunks.len() == 0 {
        0
    } else {
        keyed_writes(config, chunks.drop_last()) + if request_of(config, chunks.last()) matches Ok(
            RequestView::Write { target: Some(_), .. },
        ) {
            1nat
        } else {
            0nat
        }
    }
}

/// What is held for a key is kept over requests that do not write it, or
/// dropped; it is kept while there are fewer writes than would push it out.
pub proof fn law_held_over_requests(
    config: Config,
    capacity: nat,
    before: Entries,
    chunks: Seq<Seq<u8>>,
    key: KeyView,
)
    requires
        none_writes(config, chunks, key),
    ensures
        ({
            let after = entries_after_all(config, before, capacity, chunks);
            &&& lookup(after, key) is None || lookup(after, key) == lookup(before, key)
            &&& younger(before, key) + keyed_writes(config, chunks) < capacity ==> {
                &&& lookup(after, key) == lookup(before, key)
                &&& lookup(before, key) is Some ==> younger(after, key) <= younger(before, key)
                    + keyed_writes(config, chunks)
            }
        }),
    decreases chunks.len(),
{
    if chunks.len() > 0 {
        let front = chunks.drop_last();
        let held = entries_after_all(config, before, capacity, front);
        assert forall|i: int| 0 <= i < front.len() implies !(request_of(
            config,
            #[trigger] front[i],
        ) matches Ok(RequestView::Write { target, .. }) && target == Some(key)) by {
            assert(front[i] == chunks[i]);
        }
        law_held_over_requests(config, capacity, before, front, key);
        assert(chunks.last() == chunks[chunks.len() - 1]);
        if let Ok(RequestView::Write { target: Some(target), operations, .. }) = request_of(
            config,
            chunks.last(),
        ) {
            let entry = DiffEntry { key: target, operations, ttl: config.diff_ttl };
            law_stored_leaves_others(held, capacity, entry, key);
            if lookup(held, key) is Some && younger(held, key) + 1 < capacity {
                law_stored_keeps_younger(held, capacity, entry, key);
            }
        }
    }
}

/// A read after a write of the same key, with any requests between them that
/// do not write the key, is answered with what was written, or passed on. It
/// is passed on only if what was written is not found any more: its time is
/// over, or it was pushed out, and that takes as many writes between as the
/// cache has room for.
pub proof fn law_read_after_write_and_more(
    config: Config,
    capacity: nat,
    before: Entries,
    write: Seq<u8>,
    between: Seq<Seq<u8>>,
    read: Seq<u8>,
    outcome: Result<OutcomeView, Fatal>,
)
    requires
        capacity > 0,
        request_of(config, write) matches Ok(RequestView::Write { target: Some(_), .. }),
        request_of(config, read) matches Ok(RequestView::Read { key, .. }) && Some(key)
            == request_of(config, write)->Ok_0->target && none_writes(config, between, key),
        may_end_in(
            entries_after_all(
                config,
                entries_after(config, before, capacity, request_of(config, write)),
                capacity,
                between,
            ),
            read,
            request_of(config, read),
            outcome,
        ),
    ensures
        ({
            let filed = entries_after(config, before, capacity, request_of(config, write));
            let after = entries_after_all(config, filed, capacity, between);
            let written = request_of(config, write)->Ok_0->operations;
            let key = request_of(config, read)->Ok_0->key;
            let publish = request_of(config, read)->Ok_0->publish;
            &&& lookup(after, key) is None || lookup(after, key) == Some(written)
            &&& keyed_writes(config, between) < capacity ==> lookup(after, key) == Some(written)
            &&& {
                ||| outcome == Ok::<OutcomeView, Fatal>(
                    OutcomeView {
                        decision: DecisionView::Respond(read_reply(written)),
                        announce: None,
                    },
                )
                ||| outcome == Ok::<OutcomeView, Fatal>(read_outcome(read, key, publish, None))
            }
        }),
{
    if let Ok(RequestView::Write { target: Some(key), operations, .. }) = request_of(config, write)
    {
        let entry = DiffEntry { key, operations, ttl: config.diff_ttl };
        law_stored_is_held(before, capacity, entry);
        law_held_over_requests(config, capacity, stored(before, capacity, entry), between, key);
    }
}

/// A read of a key for which nothing is held is passed on, also after a write
/// of another key: only reads of the same key are answered with what was
/// written.
pub proof fn law_read_of_other_key(
    config: Config,
    capacity: nat,
    before: Entries,
    write: Seq<u8>,
    read: Seq<u8>,
    outcome: Result<OutcomeView, Fatal>,
)
    requires
        request_of(config, write) matches Ok(RequestView::Write { .. }),
        request_of(config, read) matches Ok(RequestView::Read { key, .. }) && Some(key)
            != request_of(config, write)->Ok_0->target && lookup(before, key) is None,
        may_end_in(
            entries_after(config, before, capacity, request_of(config, write)),
            read,
            request_of(config, read),
            outcome,
        ),
    ensures
        outcome matches Ok(o) && o.decision == DecisionView::Forward(read),
{
    if let Ok(RequestView::Write { target: Some(target), operations, .. }) = request_of(
        config,
        write,
    ) {
        law_stored_leaves_others(
            before,
            capacity,
            DiffEntry { key: target, operations, ttl: config.diff_ttl },
            request_of(config, read)->Ok_0->key,
        );
    }
}

/// Only an intercepted write that names a key changes the cache.
pub proof fn law_only_writes_are_cached(config: Config, capacity: nat, entries: Entries, s: Seq<u8>)
    requires
        !(request_of(config, s) matches Ok(RequestView::Write { target: Some(_), .. })),
    ensures
        entries_after(config, entries, capacity, request_of(config, s)) == entries,
{
}

/// A key is announced only in produce mode, only with a message that is
/// passed on, and it is the key that the message names.
pub proof fn law_announced_key(
    config: Config,
    entries: Entries,
    s: Seq<u8>,
    outcome: Result<OutcomeView, Fatal>,
)
    requires
        may_end_in(entries, s, request_of(config, s), outcome),
        outcome matches Ok(o) && o.announce is Some,
    ensures
        config.kafka_mode(KafkaMode::Produce),
        outcome->Ok_0.decision == DecisionView::Forward(s),
        accepted_packet(config, s) matches Ok(p) && p.body matches BodyView::Message(m)
            && outcome->Ok_0.announce == key_of(m.fields),
{
}

/// In produce mode every message that is passed on and names a key announces
/// it.
pub proof fn law_passed_key_is_announced(
    config: Config,
    entries: Entries,
    s: Seq<u8>,
    outcome: Result<OutcomeView, Fatal>,
)
    requires
        config.kafka_mode(KafkaMode::Produce),
        may_end_in(entries, s, request_of(config, s), outcome),
        outcome matches Ok(o) && o.decision is Forward,
        accepted_packet(config, s) matches Ok(p) && p.body is Message,
    ensures
        outcome->Ok_0.announce == key_of(accepted_packet(config, s)->Ok_0.body->Message_0.fields),
{
}

/// What the server sends is never answered by the proxy and never altered: it
/// goes to the client unchanged, at once or after a key was fetched, or it is
/// dropped.
pub proof fn law_server_bytes_unchanged(config: Config, s: Seq<u8>)
    requires
        server_step(config, s) is Ok,
    ensures
        match server_step(config, s)->Ok_0 {
            StepView::Done(d) => d == DecisionView::Forward(s) || d == DecisionView::Drop,
            StepView::AwaitKey { bytes, .. } => bytes == s,
        },
{
}

/// The operations of a message from the server that is accepted are to be
/// published exactly in produce mode; else the message goes on at once.
pub proof fn law_answers_are_published(config: Config, s: Seq<u8>)
    requires
        accepted_packet(config, s) matches Ok(p) && p.body is Message,
    ensures
        server_step(config, s) == Ok::<StepView, Fatal>(
            if config.kafka_mode(KafkaMode::Produce) {
                StepView::AwaitKey {
                    bytes: s,
                    operations: accepted_packet(config, s)->Ok_0.body->Message_0.operations,
                }
            } else {
                StepView::Done(DecisionView::Forward(s))
            },
        ),
{
}

/// A read is answered only with what is held for its key.
pub proof fn law_read_answer(
    config: Config,
    entries: Entries,
    s: Seq<u8>,
    outcome: Result<OutcomeView, Fatal>,
)
    requires
        request_of(config, s) matches Ok(RequestView::Read { .. }),
        may_end_in(entries, s, request_of(config, s), outcome),
        outcome matches Ok(o) && o.decision is Respond,
    ensures
        lookup(entries, request_of(config, s)->Ok_0->key) is Some,
        outcome->Ok_0.decision == DecisionView::Respond(
            read_reply(lookup(entries, request_of(config, s)->Ok_0->key)->0),
        ),
{
}

/// The reply to a read carries the operations of the write it repeats: a
/// client that reads the reply gets them back one by one.
pub proof fn law_reply_carries_operations(config: Config, write: Seq<u8>)
    requires
        write.len() < 0x1_0000_0000_0000,
        request_of(config, write) matches Ok(RequestView::Write { .. }),
    ensures
        ({
            let written = request_of(config, write)->Ok_0->operations;
            let m = new_message((0, 0, 0, 0), 0, 0, 0, 0, Seq::empty(), written);
            read_packet(read_reply(written)) == Ok::<PacketView, FailureView>(new_packet(m))
        }),
{
    let written = request_of(config, write)->Ok_0->operations;
    law_message_accounts_for_every_byte(write.skip(8));
    law_new_message((0, 0, 0, 0), 0, 0, 0, 0, written);
    law_new_packet(new_message((0, 0, 0, 0), 0, 0, 0, 0, Seq::empty(), written));
}

} // verus!
