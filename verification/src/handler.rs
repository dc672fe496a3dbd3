//! What the proxy does with the packets that pass through it.
use vstd::prelude::*;

use crate::cache::{law_stored_in_order, lookup, stored, DiffEntry, Entries};
use crate::state::{
    lemma_lookup_fits, lemma_stored_fit, reply_fits, AppState, Config, KafkaMode,
};
use crate::utils::format::{
    has_flag, key_of, new_message, new_packet, operations_size, packet_bytes, write_reply,
    BodyView, FailureView, FieldView, KeyView, MessageView, OperationView, MESSAGE_HEADER_LEN,
};
use crate::utils::laws::law_message_accounts_for_every_byte;
use crate::utils::parser::{
    field_views, operation_views, AerospikeKey, AerospikeMessage, AerospikeOperation,
    AerospikePacket, AerospikePacketBody, Failure, Fatal,
};
use crate::utils::{accepted_packet, parse_to_as_packet};

verus! {

#[derive(Debug)]
pub enum TransformDecision {
    /// Forward (optionally modified) bytes to the other party
    Forward(Vec<u8>),
    /// Do not send any data to the other party
    Drop,
    /// Do not send to the other party; send these bytes back to the origin instead
    Respond(Vec<u8>),
}

/// A decision over byte sequences.
pub enum DecisionView {
    Forward(Seq<u8>),
    Drop,
    Respond(Seq<u8>),
}

impl View for TransformDecision {
    type V = DecisionView;

    open spec fn view(&self) -> DecisionView {
        match *self {
            TransformDecision::Forward(b) => DecisionView::Forward(b@),
            TransformDecision::Drop => DecisionView::Drop,
            TransformDecision::Respond(b) => DecisionView::Respond(b@),
        }
    }
}

/// What is published to Kafka, and replayed from it.
#[derive(Debug)]
pub struct ReplayRecord {
    pub key: AerospikeKey,
    pub operations: Vec<AerospikeOperation>,
}

impl ReplayRecord {
    /// Whether the operations can be sent in a reply: their sizes can be
    /// counted.
    pub fn fits(&self) -> (r: bool)
        ensures
            r == reply_fits(operation_views(self.operations@)),
    {
        let ghost views = operation_views(self.operations@);
        let mut size: usize = MESSAGE_HEADER_LEN;
        assert(views.skip(0) =~= views);
        let mut i: usize = 0;
        while i < self.operations.len()
            invariant
                i <= self.operations@.len(),
                views == operation_views(self.operations@),
                size + operations_size(views.skip(i as int)) == MESSAGE_HEADER_LEN
                    + operations_size(views),
            decreases self.operations@.len() - i,
        {
            assert(views.skip(i as int).drop_first() =~= views.skip(i as int + 1));
            let op_sz: usize = self.operations[i].op_sz as usize;
            if op_sz > usize::MAX - 4 || size > usize::MAX - 4 - op_sz {
                return false;
            }
            size = size + 4 + op_sz;
            i = i + 1;
        }
        assert(views.skip(i as int) =~= Seq::<OperationView>::empty());
        true
    }
}

/// What a client asks of the proxy.
#[derive(Debug)]
pub enum ClientRequest {
    /// Pass the packet on; if there is a key, the answer is to be published
    /// under it.
    Pass { announce: Option<AerospikeKey> },
    /// Acknowledge a write and file its operations, if it names a key.
    Write {
        target: Option<AerospikeKey>,
        operations: Vec<AerospikeOperation>,
        record_ttl: u32,
        transaction_ttl: u32,
    },
    /// Answer a read from the cache. If nothing is cached the packet is passed
    /// on, and `publish` says whether the answer is to be published.
    Read { key: AerospikeKey, publish: bool },
}

/// A request over mathematical values.
pub enum RequestView {
    Pass { announce: Option<KeyView> },
    Write {
        target: Option<KeyView>,
        operations: Seq<OperationView>,
        record_ttl: u32,
        transaction_ttl: u32,
    },
    Read { key: KeyView, publish: bool },
}

impl View for ClientRequest {
    type V = RequestView;

    open spec fn view(&self) -> RequestView {
        match *self {
            ClientRequest::Pass { announce } => RequestView::Pass {
                announce: AerospikeKey::opt_view(announce),
            },
            ClientRequest::Write { target, operations, record_ttl, transaction_ttl } =>
                RequestView::Write {
                target: AerospikeKey::opt_view(target),
                operations: operation_views(operations@),
                record_ttl,
                transaction_ttl,
            },
            ClientRequest::Read { key, publish } => RequestView::Read { key: key@, publish },
        }
    }
}

/// What a message from a client asks of the proxy.
pub open spec fn message_request(config: Config, m: MessageView) -> RequestView {
    let key = key_of(m.fields);
    let produce = config.kafka_mode(KafkaMode::Produce);
    if config.intercepts() && has_flag(m.info2, 0) {
        RequestView::Write {
            target: key,
            operations: m.operations,
            record_ttl: m.record_ttl,
            transaction_ttl: m.transaction_ttl,
        }
    } else if config.intercepts() && has_flag(m.info1, 0) && key is Some {
        RequestView::Read { key: key->0, publish: produce }
    } else {
        RequestView::Pass {
            announce: if produce {
                key
            } else {
                None
            },
        }
    }
}

/// What the bytes from a client ask of the proxy. A plain proxy passes on
/// whatever they are; else they must be a packet that may be served.
pub open spec fn request_of(config: Config, s: Seq<u8>) -> Result<RequestView, FailureView> {
    if config.relays_only() {
        Ok(RequestView::Pass { announce: None })
    } else {
        match accepted_packet(config, s) {
            Err(e) => Err(e),
            Ok(p) => match p.body {
                BodyView::Info(_) => Ok(RequestView::Pass { announce: None }),
                BodyView::Message(m) => Ok(message_request(config, m)),
            },
        }
    }
}

/// What is done with bytes from a client: where they go, and the key under
/// which the answer of the server is to be published, if it is.
#[derive(Debug)]
pub struct ClientOutcome {
    pub decision: TransformDecision,
    pub announce: Option<AerospikeKey>,
}

/// An outcome over mathematical values.
pub struct OutcomeView {
    pub decision: DecisionView,
    pub announce: Option<KeyView>,
}

impl View for ClientOutcome {
    type V = OutcomeView;

    open spec fn view(&self) -> OutcomeView {
        OutcomeView { decision: self.decision@, announce: AerospikeKey::opt_view(self.announce) }
    }
}

/// The bytes that answer a read with cached operations.
pub open spec fn read_reply(operations: Seq<OperationView>) -> Seq<u8> {
    packet_bytes(new_packet(new_message((0, 0, 0, 0), 0, 0, 0, 0, Seq::empty(), operations)))
}

/// What is done with a read, given what the cache gave for its key.
pub open spec fn read_outcome(
    s: Seq<u8>,
    key: KeyView,
    publish: bool,
    found: Option<Seq<OperationView>>,
) -> OutcomeView {
    match found {
        Some(operations) => OutcomeView {
            decision: DecisionView::Respond(read_reply(operations)),
            announce: None,
        },
        None => OutcomeView {
            decision: DecisionView::Forward(s),
            announce: if publish {
                Some(key)
            } else {
                None
            },
        },
    }
}

/// What the cache holds after a request.
pub open spec fn entries_after(
    config: Config,
    before: Entries,
    capacity: nat,
    request: Result<RequestView, FailureView>,
) -> Entries {
    match request {
        Ok(RequestView::Write { target: Some(key), operations, .. }) => stored(
            before,
            capacity,
            DiffEntry { key, operations, ttl: config.diff_ttl },
        ),
        _ => before,
    }
}

/// Whether a request may end in `outcome` when the cache holds `entries`. For
/// all requests but a read of a cached key there is one such outcome; a cached
/// diff whose time is over is not found.
pub open spec fn may_end_in(
    entries: Entries,
    s: Seq<u8>,
    request: Result<RequestView, FailureView>,
    outcome: Result<OutcomeView, Fatal>,
) -> bool {
    match request {
        Err(FailureView::Fatal(f)) => outcome == Err::<OutcomeView, Fatal>(f),
        Err(FailureView::Rejected(_)) => outcome == Ok::<OutcomeView, Fatal>(
            OutcomeView { decision: DecisionView::Drop, announce: None },
        ),
        Ok(RequestView::Pass { announce }) => outcome == Ok::<OutcomeView, Fatal>(
            OutcomeView { decision: DecisionView::Forward(s), announce },
        ),
        Ok(RequestView::Write { record_ttl, transaction_ttl, .. }) => outcome == Ok::<
            OutcomeView,
            Fatal,
        >(
            OutcomeView {
                decision: DecisionView::Respond(write_reply(record_ttl, transaction_ttl)),
                announce: None,
            },
        ),
        Ok(RequestView::Read { key, publish }) => {
            ||| outcome == Ok::<OutcomeView, Fatal>(read_outcome(s, key, publish, None))
            ||| lookup(entries, key) is Some && outcome == Ok::<OutcomeView, Fatal>(
                read_outcome(s, key, publish, lookup(entries, key)),
            )
        },
    }
}

/// The view of a result of treating bytes from a client.
pub open spec fn outcome_view(r: Result<ClientOutcome, Fatal>) -> Result<OutcomeView, Fatal> {
    match r {
        Ok(o) => Ok(o@),
        Err(f) => Err(f),
    }
}

/// Finds out what bytes from a client ask of the proxy.
pub fn client_request(bytes: &[u8], state: &AppState) -> (r: Result<ClientRequest, Failure>)
    ensures
        match request_of(state.config, bytes@) {
            Ok(q) => r is Ok && r->Ok_0@ == q,
            Err(e) => r is Err && r->Err_0@ == e,
        },
{
    if state.is_plain_proxy() {
        return Ok(ClientRequest::Pass { announce: None });
    }
    let packet = parse_to_as_packet(bytes, state)?;
    match packet.body {
        AerospikePacketBody::Info(_) => Ok(ClientRequest::Pass { announce: None }),
        AerospikePacketBody::Message(message) => {
            let intercept = state.intercept_messages();
            let produce = state.is_kafka_producer_enabled();
            let write = message.is_write_op();
            let read = message.is_read_op();
            let key = AerospikeKey::parse(message.fields);
            if intercept && write {
                return Ok(
                    ClientRequest::Write {
                        target: key,
                        operations: message.operations,
                        record_ttl: message.record_ttl,
                        transaction_ttl: message.transaction_ttl,
                    },
                );
            }
            match key {
                Some(key) => {
                    if intercept && read {
                        Ok(ClientRequest::Read { key, publish: produce })
                    } else if produce {
                        Ok(ClientRequest::Pass { announce: Some(key) })
                    } else {
                        Ok(ClientRequest::Pass { announce: None })
                    }
                },
                None => Ok(ClientRequest::Pass { announce: None }),
            }
        },
    }
}

/// The view of what the cache gave.
pub open spec fn found_view(found: Option<&Vec<AerospikeOperation>>) -> Option<
    Seq<OperationView>,
> {
    match found {
        Some(operations) => Some(operation_views(operations@)),
        None => None,
    }
}

/// Answers a read with what the cache gave for its key, or passes it on.
pub fn answer_read(
    bytes: Vec<u8>,
    key: AerospikeKey,
    publish: bool,
    found: Option<&Vec<AerospikeOperation>>,
) -> (r: ClientOutcome)
    requires
        found matches Some(operations) ==> reply_fits(operation_views(operations@)),
    ensures
        r@ == read_outcome(bytes@, key@, publish, found_view(found)),
{
    match found {
        Some(operations) => {
            let copy = operations.clone();
            assert(operation_views(copy@) =~= operation_views(operations@));
            let message = AerospikeMessage::new(0, 0, 0, 0, 0, 0, 0, 0, Vec::new(), copy);
            assert(field_views(message.fields@) =~= Seq::<FieldView>::empty());
            let response_packet = AerospikePacket::new(AerospikePacketBody::Message(message));
            ClientOutcome {
                decision: TransformDecision::Respond(response_packet.to_bytes()),
                announce: None,
            }
        },
        None => ClientOutcome {
            decision: TransformDecision::Forward(bytes),
            announce: if publish {
                Some(key)
            } else {
                None
            },
        },
    }
}

/// A write that was read from bytes can be cached: its operations can be sent
/// in a reply.
proof fn lemma_write_fits(config: Config, s: Seq<u8>)
    requires
        s.len() <= usize::MAX,
    ensures
        request_of(config, s) matches Ok(RequestView::Write { operations, .. }) ==> reply_fits(
            operations,
        ),
{
    if let Ok(RequestView::Write { operations, .. }) = request_of(config, s) {
        law_message_accounts_for_every_byte(s.skip(8));
    }
}

/// Treats bytes that a client sends to the server. The cache may change, the
/// configuration does not. Only whether a cached diff is still found is open;
/// it is not once its time is over.
pub fn transform_client_to_server(bytes: Vec<u8>, state: &mut AppState) -> (r: Result<
    ClientOutcome,
    Fatal,
>)
    requires
        old(state).wf(),
    ensures
        final(state).wf(),
        final(state).config == old(state).config,
        final(state).diff_map.capacity() == old(state).diff_map.capacity(),
        final(state).diff_map@ == entries_after(
            old(state).config,
            old(state).diff_map@,
            old(state).diff_map.capacity(),
            request_of(old(state).config, bytes@),
        ),
        may_end_in(
            old(state).diff_map@,
            bytes@,
            request_of(old(state).config, bytes@),
            outcome_view(r),
        ),
{
    proof {
        assert(bytes.len() <= usize::MAX);
        lemma_write_fits(state.config, bytes@);
    }
    match client_request(bytes.as_slice(), state) {
        Err(Failure::Fatal(f)) => Err(f),
        Err(Failure::Rejected(_)) => Ok(
            ClientOutcome { decision: TransformDecision::Drop, announce: None },
        ),
        Ok(ClientRequest::Pass { announce }) => Ok(
            ClientOutcome { decision: TransformDecision::Forward(bytes), announce },
        ),
        Ok(ClientRequest::Write { target, operations, record_ttl, transaction_ttl }) => {
            match target {
                Some(key) => {
                    proof {
                        let entry = DiffEntry {
                            key: key@,
                            operations: operation_views(operations@),
                            ttl: state.config.diff_ttl,
                        };
                        law_stored_in_order(state.diff_map@, state.diff_map.capacity(), entry);
                        lemma_stored_fit(state.diff_map@, state.diff_map.capacity(), entry);
                    }
                    let ttl: u64 = state.config.diff_ttl;
                    state.diff_map.insert(key, operations, ttl);
                },
                None => {},
            }
            Ok(
                ClientOutcome {
                    decision: TransformDecision::Respond(
                        AerospikeMessage::get_successful_write_packet(record_ttl, transaction_ttl),
                    ),
                    announce: None,
                },
            )
        },
        Ok(ClientRequest::Read { key, publish }) => {
            let found = state.diff_map.get(&key);
            proof {
                lemma_lookup_fits(state.diff_map@, key@);
            }
            Ok(answer_read(bytes, key, publish, found))
        },
    }
}

/// What bytes from the server need before they go on to the client.
#[derive(Debug)]
pub enum ServerStep {
    /// Nothing: this is done with them.
    Done(TransformDecision),
    /// The key of the request that they answer, to publish the operations
    /// under it.
    AwaitKey { bytes: Vec<u8>, operations: Vec<AerospikeOperation> },
}

/// A step over mathematical values.
pub enum StepView {
    Done(DecisionView),
    AwaitKey { bytes: Seq<u8>, operations: Seq<OperationView> },
}

impl View for ServerStep {
    type V = StepView;

    open spec fn view(&self) -> StepView {
        match *self {
            ServerStep::Done(d) => StepView::Done(d@),
            ServerStep::AwaitKey { bytes, operations } => StepView::AwaitKey {
                bytes: bytes@,
                operations: operation_views(operations@),
            },
        }
    }
}

/// What bytes from the server need. A plain proxy passes on whatever they are;
/// else they must be a packet that may be served. In produce mode the
/// operations of a message are to be published under the key of the request.
pub open spec fn server_step(config: Config, s: Seq<u8>) -> Result<StepView, Fatal> {
    if config.relays_only() {
        Ok(StepView::Done(DecisionView::Forward(s)))
    } else {
        match accepted_packet(config, s) {
            Err(FailureView::Fatal(f)) => Err(f),
            Err(FailureView::Rejected(_)) => Ok(StepView::Done(DecisionView::Drop)),
            Ok(p) => match p.body {
                BodyView::Message(m) if config.kafka_mode(KafkaMode::Produce) => Ok(
                    StepView::AwaitKey { bytes: s, operations: m.operations },
                ),
                _ => Ok(StepView::Done(DecisionView::Forward(s))),
            },
        }
    }
}

/// Treats bytes that the server sends to a client, up to the point where the
/// key of the request is needed.
pub fn transform_server_to_client(bytes: Vec<u8>, state: &AppState) -> (r: Result<
    ServerStep,
    Fatal,
>)
    ensures
        match server_step(state.config, bytes@) {
            Ok(step) => r is Ok && r->Ok_0@ == step,
            Err(f) => r == Err::<ServerStep, Fatal>(f),
        },
{
    if state.is_plain_proxy() {
        return Ok(ServerStep::Done(TransformDecision::Forward(bytes)));
    }
    match parse_to_as_packet(bytes.as_slice(), state) {
        Err(Failure::Fatal(f)) => Err(f),
        Err(Failure::Rejected(_)) => Ok(ServerStep::Done(TransformDecision::Drop)),
        Ok(packet) => match packet.body {
            AerospikePacketBody::Message(message) => {
                if state.is_kafka_producer_enabled() {
                    Ok(ServerStep::AwaitKey { bytes, operations: message.operations })
                } else {
                    Ok(ServerStep::Done(TransformDecision::Forward(bytes)))
                }
            },
            AerospikePacketBody::Info(_) => Ok(
                ServerStep::Done(TransformDecision::Forward(bytes)),
            ),
        },
    }
}

/// Goes on with bytes from the server once it is known whether there is a key:
/// they are passed on, and with a key there is a record to publish.
pub fn resume_server_to_client(
    bytes: Vec<u8>,
    operations: Vec<AerospikeOperation>,
    key: Option<AerospikeKey>,
) -> (r: (TransformDecision, Option<ReplayRecord>))
    ensures
        r.0@ == DecisionView::Forward(bytes@),
        match key {
            Some(k) => r.1 == Some(ReplayRecord { key: k, operations }),
            None => r.1 is None,
        },
{
    let record = match key {
        Some(key) => Some(ReplayRecord { key, operations }),
        None => None,
    };
    (TransformDecision::Forward(bytes), record)
}

/// Whether a replayed record is filed, given whether its key is cached.
pub fn replay_overrides(prioritize_local_cache: Option<bool>, cached: bool) -> (r: bool)
    ensures
        r == !(prioritize_local_cache == Some(true) && cached),
{
    match prioritize_local_cache {
        Some(b) => !(b && cached),
        None => true,
    }
}

/// The entry under which a replayed record is filed.
pub open spec fn replay_entry(config: Config, record: ReplayRecord) -> DiffEntry {
    DiffEntry {
        key: record.key@,
        operations: operation_views(record.operations@),
        ttl: config.diff_ttl,
    }
}

/// What the cache holds after a replayed record came in, given whether its key
/// was found in it.
pub open spec fn entries_after_replay(
    config: Config,
    before: Entries,
    capacity: nat,
    record: ReplayRecord,
    cached: bool,
) -> Entries {
    if config.prefers_local() && cached {
        before
    } else {
        stored(before, capacity, replay_entry(config, record))
    }
}

/// Files a replayed record in the cache, given whether its key was found in
/// it: a diff that was found can take precedence.
pub fn file_replay_record(record: ReplayRecord, cached: bool, state: &mut AppState)
    requires
        old(state).wf(),
        reply_fits(operation_views(record.operations@)),
    ensures
        final(state).wf(),
        final(state).config == old(state).config,
        final(state).diff_map.capacity() == old(state).diff_map.capacity(),
        final(state).diff_map@ == entries_after_replay(
            old(state).config,
            old(state).diff_map@,
            old(state).diff_map.capacity(),
            record,
            cached,
        ),
{
    let prioritize_local_cache: Option<bool> = match &state.config.kafka_config {
        Some(kc) => kc.prioritize_local_cache,
        None => None,
    };
    if replay_overrides(prioritize_local_cache, cached) {
        proof {
            let entry = replay_entry(state.config, record);
            law_stored_in_order(state.diff_map@, state.diff_map.capacity(), entry);
            lemma_stored_fit(state.diff_map@, state.diff_map.capacity(), entry);
        }
        let ttl: u64 = state.config.diff_ttl;
        state.diff_map.insert(record.key, record.operations, ttl);
    }
}

/// Looks the key of a replayed record up and files the record. A key that is
/// not held is not found; whether one that is held is found depends on the
/// clock, as a diff whose time is over is not.
pub fn store_replay_record(record: ReplayRecord, state: &mut AppState)
    requires
        old(state).wf(),
        reply_fits(operation_views(record.operations@)),
    ensures
        final(state).wf(),
        final(state).config == old(state).config,
        final(state).diff_map.capacity() == old(state).diff_map.capacity(),
        exists|cached: bool|
            {
                &&& cached ==> lookup(old(state).diff_map@, record.key@) is Some
                &&& final(state).diff_map@ == #[trigger] entries_after_replay(
                    old(state).config,
                    old(state).diff_map@,
                    old(state).diff_map.capacity(),
                    record,
                    cached,
                )
            },
{
    let cached = state.diff_map.contains_key(&record.key);
    file_replay_record(record, cached, state);
}

} // verus!
