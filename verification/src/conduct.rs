//! Laws of conduct: what becomes of each kind of packet, told from the settings
//! and from the flags and fields of the packet itself.
use vstd::prelude::*;

use crate::cache::{law_stored_is_held, law_stored_leaves_others, lookup, DiffEntry, Entries};
use crate::handler::{
    entries_after, entries_after_replay, found_view, may_end_in, outcome_view, read_outcome,
    read_reply, replay_entry, request_of, server_step, ClientOutcome, ClientRequest, DecisionView,
    OutcomeView, ReplayRecord, RequestView, ServerStep, StepView, TransformDecision,
};
use crate::laws::{delivered, law_supported_flags};
use crate::relay::{client_step_matches, routed, Action, ActionView, ClientStep, Side};
use crate::state::{reply_fits, Config, KafkaMode};
use crate::utils::accepted_packet;
use crate::utils::bytes::{be16_bytes, be32_bytes, be48_bytes};
use crate::utils::format::{
    key_of, new_message, operations_bytes, operations_size, read_packet,
    write_reply, BodyView, FailureView, KeyView, MessageView, OperationView, PacketView,
};
use crate::utils::laws::{all_consistent, law_new_message, law_new_packet};
use crate::utils::layout::law_flags;
use crate::utils::parser::{operation_views, AerospikeOperation, Fatal};

verus! {

/// What the settings mean. Interception is active if writes are intercepted or
/// Kafka is consumed; a proxy that neither intercepts nor publishes only relays.
pub proof fn law_settings(config: Config, mode: KafkaMode)
    ensures
        config.intercepts_writes() <==> config.intercept_writes == Some(true),
        config.kafka_mode(mode) <==> config.kafka_config is Some && config.kafka_config->0.mode
            == mode,
        config.intercepts() <==> config.intercept_writes == Some(true) || (config.kafka_config
            is Some && config.kafka_config->0.mode == KafkaMode::Consume),
        config.relays_only() <==> config.intercept_writes != Some(true) && config.kafka_config
            is None,
        config.prefers_local() <==> config.kafka_config is Some
            && config.kafka_config->0.prioritize_local_cache == Some(true),
{
}

/// Which packets are accepted: all that can be read, but for messages with a
/// flag that is not supported while interception is active.
pub proof fn law_acceptance(config: Config, s: Seq<u8>)
    ensures
        match read_packet(s) {
            Err(e) => accepted_packet(config, s) == Err::<PacketView, FailureView>(e),
            Ok(p) => match p.body {
                BodyView::Info(_) => accepted_packet(config, s) == Ok::<PacketView, FailureView>(p),
                BodyView::Message(m) => {
                    let supported = m.info1 < 4 && (m.info2 < 4 || 32 <= m.info2 < 36) && m.info3
                        == 0 && m.info4 == 0;
                    accepted_packet(config, s) == if config.intercepts() && !supported {
                        Err(FailureView::Fatal(Fatal::UnsupportedFeature))
                    } else {
                        Ok(p)
                    }
                },
            },
        },
{
    if let Ok(p) = read_packet(s) {
        if let BodyView::Message(m) = p.body {
            law_supported_flags(m);
        }
    }
}

/// The packet that answers a read: its header, the header of a message
/// without fields, and the operations one after the other.
pub proof fn law_reply_layout(operations: Seq<OperationView>)
    requires
        22 + operations_size(operations) <= u64::MAX,
    ensures
        read_reply(operations) == seq![2u8, 3u8] + be48_bytes(
            (22 + operations_size(operations)) as u64,
        ) + (seq![22u8, 0, 0, 0, 0, 0] + be32_bytes(0) + be32_bytes(0) + be32_bytes(0) + be16_bytes(
            0,
        ) + be16_bytes((operations.len() % 0x1_0000) as u16) + operations_bytes(operations)),
{
}

/// A client that reads the answer to a read gets all operations, in order, in
/// a message that reports success and nothing else.
pub proof fn law_reply_reads_back(operations: Seq<OperationView>)
    requires
        all_consistent(operations),
        operations.len() < 0x1_0000,
        22 + operations_size(operations) < 0x1_0000_0000_0000,
    ensures
        ({
            &&& read_packet(read_reply(operations)) matches Ok(p)
            &&& p.version == 2 && p.message_type == 3
            &&& p.size == 22 + operations_size(operations)
            &&& p.body matches BodyView::Message(m)
            &&& m.operations == operations && m.fields.len() == 0 && m.result_code == 0
            &&& m.info1 == 0 && m.info2 == 0 && m.info3 == 0 && m.info4 == 0
            &&& m.generation == 0 && m.record_ttl == 0 && m.transaction_ttl == 0
        }),
{
    let m = new_message((0, 0, 0, 0), 0, 0, 0, 0, Seq::empty(), operations);
    law_new_message((0, 0, 0, 0), 0, 0, 0, 0, operations);
    law_new_packet(m);
}

/// A message with the write flag is, while interception is active, answered
/// with an empty message that reports success and repeats its times to live.
/// If it names a key, then what is held for the key is its operations, all of
/// them and in order, for the configured time; for no other key is anything
/// new held. If it names none, the cache stays as it is.
pub proof fn law_conduct_of_writes(
    config: Config,
    capacity: nat,
    entries: Entries,
    s: Seq<u8>,
    m: MessageView,
    outcome: Result<OutcomeView, Fatal>,
)
    requires
        capacity > 0,
        config.intercepts(),
        read_packet(s) matches Ok(p) && p.body == BodyView::Message(m),
        m.info1 < 4,
        m.info2 < 4 || 32 <= m.info2 < 36,
        m.info3 == 0,
        m.info4 == 0,
        m.info2 % 2 == 1,
        may_end_in(entries, s, request_of(config, s), outcome),
    ensures
        outcome matches Ok(o) && o.announce is None && o.decision == DecisionView::Respond(
            seq![2u8, 3, 0, 0, 0, 0, 0, 22] + seq![22u8, 0, 0, 0, 0, 0] + be32_bytes(0)
                + be32_bytes(m.record_ttl) + be32_bytes(m.transaction_ttl) + seq![0u8, 0, 0, 0],
        ),
        ({
            let after = entries_after(config, entries, capacity, request_of(config, s));
            match key_of(m.fields) {
                Some(key) => {
                    &&& lookup(after, key) == Some(m.operations)
                    &&& after.last() == DiffEntry {
                        key,
                        operations: m.operations,
                        ttl: config.diff_ttl,
                    }
                    &&& forall|other: KeyView|
                        other != key ==> #[trigger] lookup(after, other) is None || lookup(
                            after,
                            other,
                        ) == lookup(entries, other)
                },
                None => after == entries,
            }
        }),
{
    law_supported_flags(m);
    law_flags(m.info2);
    assert(seq![2u8, 3, 0, 0, 0, 0, 0, 22] + seq![22u8, 0, 0, 0, 0, 0] + be32_bytes(0) + be32_bytes(
        m.record_ttl,
    ) + be32_bytes(m.transaction_ttl) + seq![0u8, 0, 0, 0] =~= write_reply(
        m.record_ttl,
        m.transaction_ttl,
    ));
    if let Some(key) = key_of(m.fields) {
        let entry = DiffEntry { key, operations: m.operations, ttl: config.diff_ttl };
        law_stored_is_held(entries, capacity, entry);
        let after = entries_after(config, entries, capacity, request_of(config, s));
        assert forall|other: KeyView| other != key implies #[trigger] lookup(after, other) is None
            || lookup(after, other) == lookup(entries, other) by {
            law_stored_leaves_others(entries, capacity, entry, other);
        }
    }
}

/// A message with the read flag and without the write flag that names a key
/// is, while interception is active, a read of that key, whatever its other
/// flags. If operations are held for the key and found, it is answered with
/// them; else it is passed on unchanged, and in produce mode its key is
/// announced. The cache stays as it is.
pub proof fn law_conduct_of_reads(
    config: Config,
    capacity: nat,
    entries: Entries,
    s: Seq<u8>,
    m: MessageView,
    key: KeyView,
    outcome: Result<OutcomeView, Fatal>,
)
    requires
        config.intercepts(),
        read_packet(s) matches Ok(p) && p.body == BodyView::Message(m),
        m.info1 < 4,
        m.info2 < 4 || 32 <= m.info2 < 36,
        m.info3 == 0,
        m.info4 == 0,
        m.info2 % 2 == 0,
        m.info1 % 2 == 1,
        key_of(m.fields) == Some(key),
        may_end_in(entries, s, request_of(config, s), outcome),
    ensures
        ({
            let produce = config.kafka_config is Some && config.kafka_config->0.mode
                == KafkaMode::Produce;
            let passed = OutcomeView {
                decision: DecisionView::Forward(s),
                announce: if produce {
                    Some(key)
                } else {
                    None
                },
            };
            let found = lookup(entries, key);
            let answered = OutcomeView {
                decision: DecisionView::Respond(read_reply(found->0)),
                announce: None,
            };
            &&& request_of(config, s) == Ok::<RequestView, FailureView>(
                RequestView::Read { key, publish: produce },
            )
            &&& read_outcome(s, key, produce, None) == passed
            &&& found is Some ==> read_outcome(s, key, produce, found) == answered && may_end_in(
                entries,
                s,
                request_of(config, s),
                Ok(answered),
            )
            &&& outcome == Ok::<OutcomeView, Fatal>(passed) || found is Some && outcome == Ok::<
                OutcomeView,
                Fatal,
            >(answered)
            &&& entries_after(config, entries, capacity, request_of(config, s)) == entries
        }),
{
    law_supported_flags(m);
    law_flags(m.info1);
    law_flags(m.info2);
}

/// What is written is what is read: a message with the read flag that names
/// the key of an earlier write is answered with the operations of the write,
/// all of them and in order, or passed on if they are not found any more.
pub proof fn law_write_then_read(
    config: Config,
    capacity: nat,
    entries: Entries,
    write: Seq<u8>,
    written: MessageView,
    read: Seq<u8>,
    m: MessageView,
    outcome: Result<OutcomeView, Fatal>,
)
    requires
        capacity > 0,
        config.intercepts(),
        read_packet(write) matches Ok(p) && p.body == BodyView::Message(written),
        accepted_packet(config, write) is Ok,
        written.info2 % 2 == 1,
        read_packet(read) matches Ok(p) && p.body == BodyView::Message(m),
        accepted_packet(config, read) is Ok,
        m.info2 % 2 == 0,
        m.info1 % 2 == 1,
        key_of(m.fields) is Some,
        key_of(m.fields) == key_of(written.fields),
        may_end_in(
            entries_after(config, entries, capacity, request_of(config, write)),
            read,
            request_of(config, read),
            outcome,
        ),
    ensures
        outcome matches Ok(o) && (o.decision == DecisionView::Forward(read) || o.decision
            == DecisionView::Respond(read_reply(written.operations))),
        lookup(
            entries_after(config, entries, capacity, request_of(config, write)),
            key_of(m.fields)->0,
        ) == Some(written.operations),
{
    law_acceptance(config, write);
    law_acceptance(config, read);
    let after = entries_after(config, entries, capacity, request_of(config, write));
    let acknowledged = Ok(
        OutcomeView {
            decision: DecisionView::Respond(
                write_reply(written.record_ttl, written.transaction_ttl),
            ),
            announce: None,
        },
    );
    assert(may_end_in(entries, write, request_of(config, write), acknowledged)) by {
        law_supported_flags(written);
        law_flags(written.info2);
    }
    law_conduct_of_writes(config, capacity, entries, write, written, acknowledged);
    law_conduct_of_reads(config, capacity, after, read, m, key_of(m.fields)->0, outcome);
}

/// A message that neither writes nor reads a key is passed on unchanged while
/// interception is active; the cache stays as it is, and in produce mode the
/// key, if there is one, is announced.
pub proof fn law_conduct_of_other_messages(
    config: Config,
    capacity: nat,
    entries: Entries,
    s: Seq<u8>,
    m: MessageView,
    outcome: Result<OutcomeView, Fatal>,
)
    requires
        config.intercepts(),
        read_packet(s) matches Ok(p) && p.body == BodyView::Message(m),
        m.info1 < 4,
        m.info2 < 4 || 32 <= m.info2 < 36,
        m.info3 == 0,
        m.info4 == 0,
        m.info2 % 2 == 0,
        m.info1 % 2 == 0 || key_of(m.fields) is None,
        may_end_in(entries, s, request_of(config, s), outcome),
    ensures
        outcome matches Ok(o) && o.decision == DecisionView::Forward(s) && o.announce == if (
        config.kafka_config is Some && config.kafka_config->0.mode == KafkaMode::Produce) {
            key_of(m.fields)
        } else {
            None
        },
        entries_after(config, entries, capacity, request_of(config, s)) == entries,
{
    law_supported_flags(m);
    law_flags(m.info1);
    law_flags(m.info2);
}

/// While interception is not active every message is passed on unchanged,
/// whatever its flags, writes too, and the cache stays as it is; in produce
/// mode the key, if there is one, is announced.
pub proof fn law_conduct_without_interception(
    config: Config,
    capacity: nat,
    entries: Entries,
    s: Seq<u8>,
    m: MessageView,
    outcome: Result<OutcomeView, Fatal>,
)
    requires
        config.intercept_writes != Some(true),
        config.kafka_config is Some ==> config.kafka_config->0.mode == KafkaMode::Produce,
        read_packet(s) matches Ok(p) && p.body == BodyView::Message(m),
        may_end_in(entries, s, request_of(config, s), outcome),
    ensures
        outcome matches Ok(o) && o.decision == DecisionView::Forward(s) && o.announce == if (
        config.kafka_config is Some) {
            key_of(m.fields)
        } else {
            None
        },
        entries_after(config, entries, capacity, request_of(config, s)) == entries,
{
}

/// Whatever a client sends, it is answered by the proxy, or changes the cache,
/// only while interception is active.
pub proof fn law_only_interception_acts(
    config: Config,
    capacity: nat,
    entries: Entries,
    s: Seq<u8>,
    outcome: Result<OutcomeView, Fatal>,
)
    requires
        may_end_in(entries, s, request_of(config, s), outcome),
        outcome matches Ok(o) && o.decision is Respond || entries_after(
            config,
            entries,
            capacity,
            request_of(config, s),
        ) != entries,
    ensures
        config.intercept_writes == Some(true) || (config.kafka_config is Some
            && config.kafka_config->0.mode == KafkaMode::Consume),
{
}

/// Bytes that breach the protocol end in the fault of the breach in both
/// directions, unless the proxy only relays, and nothing is cached.
pub proof fn law_conduct_of_breaches(
    config: Config,
    capacity: nat,
    entries: Entries,
    s: Seq<u8>,
    fault: Fatal,
    outcome: Result<OutcomeView, Fatal>,
)
    requires
        config.intercept_writes == Some(true) || config.kafka_config is Some,
        read_packet(s) == Err::<PacketView, FailureView>(FailureView::Fatal(fault)),
        may_end_in(entries, s, request_of(config, s), outcome),
    ensures
        outcome == Err::<OutcomeView, Fatal>(fault),
        server_step(config, s) == Err::<StepView, Fatal>(fault),
        entries_after(config, entries, capacity, request_of(config, s)) == entries,
{
}

/// What becomes of what the server sends. A plain proxy passes everything on.
/// Else what cannot be read is dropped, and a breach or, while interception is
/// active, an unsupported flag is a fault. Of a message that is accepted, all
/// operations wait for a key in produce mode; all else goes on unchanged.
pub proof fn law_conduct_towards_client(config: Config, s: Seq<u8>)
    ensures
        ({
            let plain = config.intercept_writes != Some(true) && config.kafka_config is None;
            let produce = config.kafka_config is Some && config.kafka_config->0.mode
                == KafkaMode::Produce;
            let forward = Ok::<StepView, Fatal>(StepView::Done(DecisionView::Forward(s)));
            let step = server_step(config, s);
            &&& plain ==> step == forward
            &&& !plain ==> match read_packet(s) {
                Err(FailureView::Rejected(_)) => step == Ok::<StepView, Fatal>(
                    StepView::Done(DecisionView::Drop),
                ),
                Err(FailureView::Fatal(fault)) => step == Err::<StepView, Fatal>(fault),
                Ok(p) => match p.body {
                    BodyView::Info(_) => step == forward,
                    BodyView::Message(m) => {
                        let supported = m.info1 < 4 && (m.info2 < 4 || 32 <= m.info2 < 36)
                            && m.info3 == 0 && m.info4 == 0;
                        if config.intercepts() && !supported {
                            step == Err::<StepView, Fatal>(Fatal::UnsupportedFeature)
                        } else if produce {
                            step == Ok::<StepView, Fatal>(
                                StepView::AwaitKey { bytes: s, operations: m.operations },
                            )
                        } else {
                            step == forward
                        }
                    },
                },
            }
        }),
{
    law_acceptance(config, s);
}

/// A replayed record that is not set aside for a local diff is held whole:
/// what is held for its key is all its operations, in order, for the
/// configured time, and for no other key is anything new held. One that is set
/// aside leaves the cache as it is; that takes the setting and a diff that was
/// found.
pub proof fn law_conduct_of_replays(
    config: Config,
    before: Entries,
    capacity: nat,
    record: ReplayRecord,
    cached: bool,
)
    requires
        capacity > 0,
    ensures
        ({
            let local = config.kafka_config is Some
                && config.kafka_config->0.prioritize_local_cache == Some(true);
            let after = entries_after_replay(config, before, capacity, record, cached);
            &&& local && cached ==> after == before
            &&& !(local && cached) ==> {
                &&& lookup(after, record.key@) matches Some(held)
                &&& held.len() == record.operations@.len()
                &&& forall|i: int|
                    0 <= i < held.len() ==> #[trigger] held[i] == record.operations@[i]@
                &&& after.last().key == record.key@
                &&& after.last().operations == held
                &&& after.last().ttl == config.diff_ttl
                &&& forall|other: KeyView|
                    other != record.key@ ==> #[trigger] lookup(after, other) is None || lookup(
                        after,
                        other,
                    ) == lookup(before, other)
            }
        }),
{
    let entry = replay_entry(config, record);
    law_stored_is_held(before, capacity, entry);
    let after = entries_after_replay(config, before, capacity, record, cached);
    if !(config.prefers_local() && cached) {
        assert forall|other: KeyView| other != record.key@ implies #[trigger] lookup(
            after,
            other,
        ) is None || lookup(after, other) == lookup(before, other) by {
            law_stored_leaves_others(before, capacity, entry, other);
        }
    }
}

/// A read of the key of a replayed record that was not set aside is answered
/// with all operations of the record, or passed on if they are not found any
/// more.
pub proof fn law_replay_then_read(
    config: Config,
    capacity: nat,
    before: Entries,
    record: ReplayRecord,
    cached: bool,
    read: Seq<u8>,
    m: MessageView,
    outcome: Result<OutcomeView, Fatal>,
)
    requires
        capacity > 0,
        config.intercepts(),
        !(config.prefers_local() && cached),
        read_packet(read) matches Ok(p) && p.body == BodyView::Message(m),
        accepted_packet(config, read) is Ok,
        m.info2 % 2 == 0,
        m.info1 % 2 == 1,
        key_of(m.fields) == Some(record.key@),
        may_end_in(
            entries_after_replay(config, before, capacity, record, cached),
            read,
            request_of(config, read),
            outcome,
        ),
    ensures
        outcome matches Ok(o) && (o.decision == DecisionView::Forward(read) || o.decision
            == DecisionView::Respond(
            read_reply(Seq::new(record.operations@.len(), |i: int| record.operations@[i]@)),
        )),
{
    let after = entries_after_replay(config, before, capacity, record, cached);
    law_acceptance(config, read);
    law_conduct_of_replays(config, before, capacity, record, cached);
    law_conduct_of_reads(config, capacity, after, read, m, record.key@, outcome);
    assert(lookup(after, record.key@)->0 =~= Seq::new(
        record.operations@.len(),
        |i: int| record.operations@[i]@,
    ));
}

/// Where a decision on bytes from one end leads: forwarded bytes go to the
/// other end, a response goes back to the same end, whole and whatever its
/// length, and nothing goes anywhere else.
pub proof fn law_routing(origin: Side, bytes: Seq<u8>)
    ensures
        ({
            let other = if origin == Side::Client {
                Side::Server
            } else {
                Side::Client
            };
            let respond = routed(origin, DecisionView::Respond(bytes));
            let forward = routed(origin, DecisionView::Forward(bytes));
            let dropped = routed(origin, DecisionView::Drop);
            &&& respond == ActionView::Send { to: origin, bytes }
            &&& forward == ActionView::Send { to: other, bytes }
            &&& dropped == ActionView::Skip
            &&& delivered(seq![respond], origin) == bytes
            &&& delivered(seq![respond], other) == Seq::<u8>::empty()
            &&& delivered(seq![forward], other) == bytes
            &&& delivered(seq![forward], origin) == Seq::<u8>::empty()
            &&& delivered(seq![dropped], origin) == Seq::<u8>::empty()
            &&& delivered(seq![dropped], other) == Seq::<u8>::empty()
        }),
{
    reveal_with_fuel(delivered, 2);
    let a = routed(origin, DecisionView::Respond(bytes));
    let b = routed(origin, DecisionView::Forward(bytes));
    let c = routed(origin, DecisionView::Drop);
    assert(seq![a].drop_last() =~= Seq::<ActionView>::empty());
    assert(seq![b].drop_last() =~= Seq::<ActionView>::empty());
    assert(seq![c].drop_last() =~= Seq::<ActionView>::empty());
    assert(Seq::<u8>::empty() + bytes =~= bytes);
}

/// What a connection does with an outcome for the client: a response is sent
/// back to the client, forwarded bytes are sent to the server, both whole;
/// dropped bytes are sent nowhere; a fault stays that fault; and the key that
/// is announced is handed on.
pub proof fn law_connection(outcome: Result<OutcomeView, Fatal>, r: Result<ClientStep, Fatal>)
    requires
        client_step_matches(outcome, r),
    ensures
        match outcome {
            Err(fault) => r is Err && r->Err_0 == fault,
            Ok(o) => {
                &&& r matches Ok(step)
                &&& match o.decision {
                    DecisionView::Respond(b) => step.action matches Action::Send { to, bytes }
                        && to == Side::Client && bytes@ == b,
                    DecisionView::Forward(b) => step.action matches Action::Send { to, bytes }
                        && to == Side::Server && bytes@ == b,
                    DecisionView::Drop => step.action is Skip,
                }
                &&& match o.announce {
                    Some(key) => step.announce matches Some(k) && k@ == key,
                    None => step.announce is None,
                }
            },
        },
{
}

/// On a connection, a read that is answered from the cache brings the reply to
/// the client and nothing to the server; one that is not brings the read to
/// the server and nothing to the client.
pub proof fn law_connection_of_reads(
    config: Config,
    capacity: nat,
    entries: Entries,
    s: Seq<u8>,
    m: MessageView,
    outcome: Result<OutcomeView, Fatal>,
    r: Result<ClientStep, Fatal>,
)
    requires
        config.intercepts(),
        read_packet(s) matches Ok(p) && p.body == BodyView::Message(m),
        accepted_packet(config, s) is Ok,
        m.info2 % 2 == 0,
        m.info1 % 2 == 1,
        key_of(m.fields) is Some,
        may_end_in(entries, s, request_of(config, s), outcome),
        client_step_matches(outcome, r),
    ensures
        r matches Ok(step) && ({
            let to_client = delivered(seq![step.action@], Side::Client);
            let to_server = delivered(seq![step.action@], Side::Server);
            let held = lookup(entries, key_of(m.fields)->0);
            ||| to_client == Seq::<u8>::empty() && to_server == s
            ||| held is Some && to_client == read_reply(held->0) && to_server == Seq::<u8>::empty()
        }),
{
    law_acceptance(config, s);
    law_conduct_of_reads(config, capacity, entries, s, m, key_of(m.fields)->0, outcome);
    law_connection(outcome, r);
    law_routing(Side::Client, s);
    if let Some(held) = lookup(entries, key_of(m.fields)->0) {
        law_routing(Side::Client, read_reply(held));
    }
}

/// Decisions, outcomes and actions show every part that they have.
pub proof fn law_decisions_are_shown(
    decision: TransformDecision,
    outcome: ClientOutcome,
    action: Action,
    fault: Fatal,
)
    ensures
        match decision {
            TransformDecision::Forward(b) => decision@ == DecisionView::Forward(b@),
            TransformDecision::Respond(b) => decision@ == DecisionView::Respond(b@),
            TransformDecision::Drop => decision@ == DecisionView::Drop,
        },
        outcome_view(Ok(outcome)) == Ok::<OutcomeView, Fatal>(
            OutcomeView {
                decision: outcome.decision@,
                announce: match outcome.announce {
                    Some(k) => Some(k@),
                    None => None,
                },
            },
        ),
        outcome_view(Err(fault)) == Err::<OutcomeView, Fatal>(fault),
        match action {
            Action::Send { to, bytes } => action@ == (ActionView::Send { to, bytes: bytes@ }),
            Action::Skip => action@ == ActionView::Skip,
            Action::Shutdown { end } => action@ == (ActionView::Shutdown { end }),
        },
{
}

/// Requests, steps and what the cache gave show every part that they have.
pub proof fn law_requests_are_shown(
    request: ClientRequest,
    step: ServerStep,
    found: Option<&Vec<AerospikeOperation>>,
)
    ensures
        match request {
            ClientRequest::Pass { announce: Some(k) } => request@ == (RequestView::Pass {
                announce: Some(k@),
            }),
            ClientRequest::Pass { announce: None } => request@ == (RequestView::Pass {
                announce: None,
            }),
            ClientRequest::Write { target, operations, record_ttl, transaction_ttl } => request@
                == (RequestView::Write {
                target: match target {
                    Some(k) => Some(k@),
                    None => None,
                },
                operations: operation_views(operations@),
                record_ttl,
                transaction_ttl,
            }),
            ClientRequest::Read { key, publish } => request@ == (RequestView::Read {
                key: key@,
                publish,
            }),
        },
        match step {
            ServerStep::Done(d) => step@ == StepView::Done(d@),
            ServerStep::AwaitKey { bytes, operations } => step@ == (StepView::AwaitKey {
                bytes: bytes@,
                operations: operation_views(operations@),
            }),
        },
        match found {
            Some(operations) => found_view(found) == Some(operation_views(operations@)),
            None => found_view(found) is None,
        },
{
}

/// A list of operations can be sent in a reply exactly if the size of the
/// reply can be counted.
pub proof fn law_reply_fits(operations: Seq<OperationView>)
    ensures
        reply_fits(operations) <==> 22 + operations_size(operations) <= usize::MAX,
{
}

} // verus!
