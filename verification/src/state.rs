//! Configuration and shared state of the proxy.
use vstd::prelude::*;
use vstd::utf8::{decode_utf8, encode_utf8};

use crate::cache::{
    in_order, lookup, stored, without_key, DiffCache, DiffEntry, Entries, MAX_DIFF_TTL,
};
use crate::utils::format::{operations_size, KeyView, OperationView, MESSAGE_HEADER_LEN};
use crate::utils::text::{pieces, split};

verus! {

/// The number of keys for which diffs are cached.
pub const DIFF_CAPACITY: usize = 20;

/// What the proxy does with Kafka.
#[derive(Debug, Clone, Copy, PartialEq, Eq, Structural)]
pub enum KafkaMode {
    /// Publish what the server answers.
    Produce,
    /// Fill the diff cache from what was published.
    Consume,
}

#[derive(Debug, Clone)]
pub struct KafkaConfig {
    /// The brokers, separated by commas.
    pub hosts: String,
    pub topic: String,
    pub mode: KafkaMode,
    /// Whether a diff that is cached already stands against a replayed one.
    pub prioritize_local_cache: Option<bool>,
}

impl KafkaConfig {
    /// The brokers one by one.
    pub fn brokers(&self) -> (r: Vec<String>)
        ensures
            r@.len() == pieces(encode_utf8(self.hosts@), 0x2c).len(),
            forall|i: int|
                0 <= i < r@.len() ==> #[trigger] r@[i]@ == decode_utf8(
                    pieces(encode_utf8(self.hosts@), 0x2c)[i],
                ),
    {
        proof {
            vstd::utf8::encode_utf8_valid_utf8(self.hosts@);
        }
        split(self.hosts.as_str().as_bytes(), 0x2c)
    }
}

/// The settings that decide how packets are treated.
#[derive(Debug, Clone)]
pub struct Config {
    /// Whether writes are answered by the proxy; not unless set.
    pub intercept_writes: Option<bool>,
    /// How long a diff is cached, in seconds.
    pub diff_ttl: u64,
    pub kafka_config: Option<KafkaConfig>,
}

impl Config {
    /// Whether writes are answered by the proxy.
    pub open spec fn intercepts_writes(&self) -> bool {
        self.intercept_writes == Some(true)
    }

    /// Whether Kafka is configured in the given mode.
    pub open spec fn kafka_mode(&self, mode: KafkaMode) -> bool {
        self.kafka_config matches Some(kc) && kc.mode == mode
    }

    /// Whether interception is active: messages are treated, and not only
    /// passed on.
    pub open spec fn intercepts(&self) -> bool {
        self.intercepts_writes() || self.kafka_mode(KafkaMode::Consume)
    }

    /// Whether the proxy does nothing but relay: nothing is intercepted and
    /// nothing is published.
    pub open spec fn relays_only(&self) -> bool {
        !self.intercepts() && !self.kafka_mode(KafkaMode::Produce)
    }

    /// Whether a cached diff stands against a replayed one.
    pub open spec fn prefers_local(&self) -> bool {
        self.kafka_config matches Some(kc) && kc.prioritize_local_cache == Some(true)
    }
}

/// Whether a reply with these operations has a size that can be counted.
pub open spec fn reply_fits(operations: Seq<OperationView>) -> bool {
    MESSAGE_HEADER_LEN + operations_size(operations) <= usize::MAX
}

/// Whether every cached list of operations can be sent in a reply.
pub open spec fn replies_fit(entries: Entries) -> bool {
    forall|i: int| 0 <= i < entries.len() ==> reply_fits(#[trigger] entries[i].operations)
}

/// Leaving out a key keeps what is left sendable.
proof fn lemma_without_key_fit(entries: Entries, key: KeyView)
    requires
        replies_fit(entries),
    ensures
        replies_fit(without_key(entries, key)),
    decreases entries.len(),
{
    if entries.len() > 0 {
        assert(replies_fit(entries.drop_last())) by {
            assert forall|i: int| 0 <= i < entries.drop_last().len() implies reply_fits(
                #[trigger] entries.drop_last()[i].operations,
            ) by {
                assert(entries.drop_last()[i] == entries[i]);
            }
        }
        lemma_without_key_fit(entries.drop_last(), key);
    }
}

/// Storing operations that can be sent keeps everything sendable.
pub proof fn lemma_stored_fit(entries: Entries, capacity: nat, entry: DiffEntry)
    requires
        replies_fit(entries),
        reply_fits(entry.operations),
    ensures
        replies_fit(stored(entries, capacity, entry)),
{
    lemma_without_key_fit(entries, entry.key);
    let all = without_key(entries, entry.key).push(entry);
    assert(replies_fit(all));
    assert forall|i: int| 0 <= i < all.drop_first().len() implies reply_fits(
        #[trigger] all.drop_first()[i].operations,
    ) by {
        assert(all.drop_first()[i] == all[i + 1]);
    }
}

/// What is found can be sent.
pub proof fn lemma_lookup_fits(entries: Entries, key: KeyView)
    requires
        replies_fit(entries),
    ensures
        lookup(entries, key) matches Some(operations) ==> reply_fits(operations),
    decreases entries.len(),
{
    if entries.len() > 0 {
        assert(reply_fits(entries[entries.len() - 1].operations));
        assert forall|i: int| 0 <= i < entries.drop_last().len() implies reply_fits(
            #[trigger] entries.drop_last()[i].operations,
        ) by {
            assert(entries.drop_last()[i] == entries[i]);
        }
        lemma_lookup_fits(entries.drop_last(), key);
    }
}

/// What all connections share.
pub struct AppState {
    pub config: Config,
    pub diff_map: DiffCache,
}

impl AppState {
    /// The time to live can be kept, the cache is in order, and what is cached
    /// can be sent.
    pub open spec fn wf(&self) -> bool {
        &&& self.config.diff_ttl <= MAX_DIFF_TTL
        &&& in_order(self.diff_map@, self.diff_map.capacity())
        &&& replies_fit(self.diff_map@)
    }

    /// The state at startup: nothing is cached.
    pub fn new(config: Config) -> (r: AppState)
        requires
            config.diff_ttl <= MAX_DIFF_TTL,
        ensures
            r.wf(),
            r.config == config,
            r.diff_map@ == Entries::empty(),
            r.diff_map.capacity() == DIFF_CAPACITY,
    {
        AppState { config, diff_map: DiffCache::new(DIFF_CAPACITY) }
    }

    /// Whether writes are answered by the proxy.
    pub fn is_write_intercept_enabled(&self) -> (r: bool)
        ensures
            r == self.config.intercepts_writes(),
    {
        match self.config.intercept_writes {
            Some(b) => b,
            None => false,
        }
    }

    /// Whether the diff cache is filled from Kafka.
    pub fn is_kafka_consumer_enabled(&self) -> (r: bool)
        ensures
            r == self.config.kafka_mode(KafkaMode::Consume),
    {
        match &self.config.kafka_config {
            Some(kc) => kc.mode == KafkaMode::Consume,
            None => false,
        }
    }

    /// Whether what the server answers is published to Kafka.
    pub fn is_kafka_producer_enabled(&self) -> (r: bool)
        ensures
            r == self.config.kafka_mode(KafkaMode::Produce),
    {
        match &self.config.kafka_config {
            Some(kc) => kc.mode == KafkaMode::Produce,
            None => false,
        }
    }

    /// Whether the proxy does nothing but relay.
    pub fn is_plain_proxy(&self) -> (r: bool)
        ensures
            r == self.config.relays_only(),
    {
        !self.intercept_messages() && !self.is_kafka_producer_enabled()
    }

    /// Whether interception is active: messages are treated, and not only
    /// passed on.
    pub fn intercept_messages(&self) -> (r: bool)
        ensures
            r == self.config.intercepts(),
    {
        self.is_write_intercept_enabled() || self.is_kafka_consumer_enabled()
    }
}

} // verus!
