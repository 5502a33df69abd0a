//! The generic correlated request/response layer over a persistent
//! publish/subscribe connection.
//!
//! A session owns a table of outstanding requests, each keyed by a topic
//! filter. An inbound message answers the first outstanding request whose
//! filter is a substring of its topic (the filter `"*"` matches any topic).
//! A request that times out removes its own entry, so the table never leaks.
//! The transport itself — sockets, TLS, the broker handshake — lives outside
//! this library; it hands topics and payloads in and out as plain values.

use vstd::prelude::*;
use vstd::string::{StringExecFns, StringSliceAdditionalSpecFns};
use crate::text::{str_eq, find_substring, contains_bytes};

verus! {

/// Configuration of one broker connection.
#[derive(Clone, Debug)]
pub struct MqttConfig {
    pub broker_host: String,
    pub broker_port: u16,
    pub client_id: String,
    pub username: Option<String>,
    pub password: Option<String>,
    pub use_tls: bool,
    pub use_websocket: bool,
    pub keep_alive_secs: u64,
}

/// Relies on `uuid::Uuid::new_v4` and its `Display` form: a random
/// identifier written as 36 hyphenated lowercase hexadecimal characters.
/// Nothing is assumed about which identifier comes back.
#[verifier::external_body]
fn fresh_client_suffix() -> (r: String)
    ensures
        r@.len() == 36,
{
    uuid::Uuid::new_v4().to_string()
}

impl Default for MqttConfig {
    /// A plain local connection; the client id carries a fresh random
    /// suffix so concurrent clients do not collide.
    fn default() -> (r: MqttConfig)
        ensures
            r.broker_host@ == "localhost"@,
            r.broker_port == 1883,
            r.client_id@.len() == "pvpc-cheap-"@.len() + 36,
            r.client_id@.subrange(0, "pvpc-cheap-"@.len() as int) == "pvpc-cheap-"@,
            r.username.is_none(),
            r.password.is_none(),
            !r.use_tls,
            !r.use_websocket,
            r.keep_alive_secs == 30,
    {
        let mut client_id = String::from_str("pvpc-cheap-");
        let suffix = fresh_client_suffix();
        client_id.append(suffix.as_str());
        proof {
            assert(client_id@.subrange(0, "pvpc-cheap-"@.len() as int) =~= "pvpc-cheap-"@);
        }
        MqttConfig {
            broker_host: String::from_str("localhost"),
            broker_port: 1883,
            client_id,
            username: None,
            password: None,
            use_tls: false,
            use_websocket: false,
            keep_alive_secs: 30,
        }
    }
}

/// Errors of the publish/subscribe layer.
#[derive(Clone, Debug)]
pub enum MqttError {
    ConnectionFailed(String),
    SubscribeFailed(String),
    PublishFailed(String),
    Timeout,
    Disconnected,
    InvalidResponse(String),
}

impl MqttError {
    /// A readable description, as operators see it in logs.
    pub fn message(&self) -> (r: String)
        ensures
            r@ == match *self {
                MqttError::ConnectionFailed(m) => "MQTT connection failed: "@ + m@,
                MqttError::SubscribeFailed(m) => "MQTT subscribe failed: "@ + m@,
                MqttError::PublishFailed(m) => "MQTT publish failed: "@ + m@,
                MqttError::Timeout => "MQTT operation timed out"@,
                MqttError::Disconnected => "MQTT client disconnected"@,
                MqttError::InvalidResponse(m) => "Invalid MQTT response: "@ + m@,
            },
    {
        match self {
            MqttError::ConnectionFailed(m) => {
                let mut s = String::from_str("MQTT connection failed: ");
                s.append(m.as_str());
                s
            },
            MqttError::SubscribeFailed(m) => {
                let mut s = String::from_str("MQTT subscribe failed: ");
                s.append(m.as_str());
                s
            },
            MqttError::PublishFailed(m) => {
                let mut s = String::from_str("MQTT publish failed: ");
                s.append(m.as_str());
                s
            },
            MqttError::Timeout => String::from_str("MQTT operation timed out"),
            MqttError::Disconnected => String::from_str("MQTT client disconnected"),
            MqttError::InvalidResponse(m) => {
                let mut s = String::from_str("Invalid MQTT response: ");
                s.append(m.as_str());
                s
            },
        }
    }
}

/// A message received from the broker.
#[derive(Clone, Debug)]
pub struct MqttMessage {
    pub topic: String,
    pub payload: Vec<u8>,
}

/// Relies on `String::from_utf8`: it succeeds exactly on valid UTF-8 and
/// then decodes the bytes to the character sequence that the UTF-8
/// specification assigns them.
#[verifier::external_body]
pub(crate) fn utf8_string(b: Vec<u8>) -> (r: Option<String>)
    ensures
        match r {
            Some(s) => vstd::utf8::valid_utf8(b@) && s@ == vstd::utf8::decode_utf8(b@),
            None => !vstd::utf8::valid_utf8(b@),
        },
{
    String::from_utf8(b).ok()
}

impl MqttMessage {
    /// The payload as text, when it is valid UTF-8.
    pub fn payload_str(&self) -> (r: Option<String>)
        ensures
            match r {
                Some(s) => vstd::utf8::valid_utf8(self.payload@) && s@ == vstd::utf8::decode_utf8(
                    self.payload@,
                ),
                None => !vstd::utf8::valid_utf8(self.payload@),
            },
    {
        let mut copy: Vec<u8> = Vec::new();
        let mut i: usize = 0;
        while i < self.payload.len()
            invariant
                0 <= i <= self.payload@.len(),
                copy@ =~= self.payload@.subrange(0, i as int),
            decreases self.payload@.len() - i,
        {
            copy.push(self.payload[i]);
            i += 1;
        }
        proof {
            assert(copy@ =~= self.payload@);
        }
        utf8_string(copy)
    }
}

/// Whether an outstanding request with this filter is answered by a message
/// on this topic: the filter is a substring of the topic, or is `"*"`.
pub open spec fn filter_matches(topic: Seq<u8>, filter: Seq<char>) -> bool {
    contains_bytes(topic, vstd::utf8::encode_utf8(filter)) || filter == "*"@
}

/// One session of the correlated request/response protocol: its identity,
/// where it connects, its outstanding request filters, and whether the
/// broker has acknowledged the connection. Owned by exactly one client and
/// torn down when the operation ends.
pub struct ProtocolSession {
    pub account_id: String,
    pub shared_key: String,
    pub broker_host: String,
    pub broker_port: u16,
    /// Managed by the registration and removal operations below.
    pub pending: Vec<String>,
    pub connected: bool,
}

impl View for ProtocolSession {
    type V = Seq<Seq<char>>;

    open spec fn view(&self) -> Seq<Seq<char>> {
        self.pending@.map_values(|s: String| s@)
    }
}

impl ProtocolSession {
    /// The outstanding request filters, oldest first.
    pub open spec fn spec_pending(&self) -> Seq<Seq<char>> {
        self@
    }

    pub fn new(account_id: String, shared_key: String, broker_host: String, broker_port: u16) -> (r:
        ProtocolSession)
        ensures
            r.spec_pending() =~= Seq::<Seq<char>>::empty(),
            !r.connected,
            r.account_id == account_id,
            r.shared_key == shared_key,
            r.broker_host == broker_host,
            r.broker_port == broker_port,
    {
        ProtocolSession {
            account_id,
            shared_key,
            broker_host,
            broker_port,
            pending: Vec::new(),
            connected: false,
        }
    }

    /// Records the broker's connection acknowledgment. Until it arrives no
    /// request can be issued.
    pub fn set_connected(&mut self, up: bool)
        ensures
            final(self).connected == up,
            final(self).spec_pending() == old(self).spec_pending(),
            final(self).account_id == old(self).account_id,
            final(self).shared_key == old(self).shared_key,
    {
        self.connected = up;
    }

    pub fn pending_count(&self) -> (r: usize)
        ensures
            r == self.spec_pending().len(),
    {
        self.pending.len()
    }

    /// Registers an outstanding request under its response filter.
    pub fn register_request(&mut self, filter: String)
        ensures
            final(self).spec_pending() =~= old(self).spec_pending().push(filter@),
            final(self).connected == old(self).connected,
            final(self).account_id == old(self).account_id,
            final(self).shared_key == old(self).shared_key,
    {
        self.pending.push(filter);
    }

    /// The first outstanding request a message on `topic` answers.
    pub fn match_incoming(&self, topic: &str) -> (r: Option<usize>)
        ensures
            match r {
                Some(i) => i < self.spec_pending().len() && filter_matches(
                    topic.spec_bytes(),
                    self.spec_pending()[i as int],
                ) && (forall|j: int|
                    0 <= j < i ==> !filter_matches(
                        topic.spec_bytes(),
                        #[trigger] self.spec_pending()[j],
                    )),
                None => forall|j: int|
                    0 <= j < self.spec_pending().len() ==> !filter_matches(
                        topic.spec_bytes(),
                        #[trigger] self.spec_pending()[j],
                    ),
            },
    {
        let topic_bytes = topic.as_bytes();
        let mut i: usize = 0;
        while i < self.pending.len()
            invariant
                0 <= i <= self.spec_pending().len(),
                topic_bytes@ == topic.spec_bytes(),
                forall|j: int|
                    0 <= j < i ==> !filter_matches(
                        topic.spec_bytes(),
                        #[trigger] self.spec_pending()[j],
                    ),
            decreases self.spec_pending().len() - i,
        {
            let f = &self.pending[i];
            if find_substring(topic_bytes, f.as_str().as_bytes()) || str_eq(f.as_str(), "*") {
                return Some(i);
            }
            i += 1;
        }
        None
    }

    /// Takes the outstanding request at `i` out of the table: the message
    /// that matched it is delivered to exactly one waiter.
    pub fn take_pending(&mut self, i: usize)
        requires
            i < old(self).spec_pending().len(),
        ensures
            final(self).spec_pending() =~= old(self).spec_pending().remove(i as int),
            final(self).connected == old(self).connected,
    {
        let _ = self.pending.remove(i);
    }

    /// Clears every outstanding request: what a connection loss does.
    pub fn clear_pending(&mut self)
        ensures
            final(self).spec_pending() =~= Seq::<Seq<char>>::empty(),
            final(self).connected == old(self).connected,
    {
        self.pending.clear();
    }

    /// Drops every entry registered under `filter`: what a timed-out request
    /// does to its own registration. No entry with that filter survives, and
    /// the other entries keep their order.
    pub fn remove_filter(&mut self, filter: &str)
        ensures
            final(self).spec_pending() =~= old(self).spec_pending().filter(
                |f: Seq<char>| f != filter@,
            ),
            forall|j: int|
                0 <= j < final(self).spec_pending().len()
                    ==> #[trigger] final(self).spec_pending()[j] != filter@,
            final(self).connected == old(self).connected,
            final(self).account_id == old(self).account_id,
            final(self).shared_key == old(self).shared_key,
    {
        let ghost pred = |f: Seq<char>| f != filter@;
        let ghost pre = self.spec_pending();
        let mut kept: Vec<String> = Vec::new();
        let mut i: usize = 0;
        proof {
            reveal(Seq::filter);
            assert(pre.subrange(0, 0).filter(pred) =~= Seq::<Seq<char>>::empty());
            assert(kept@.map_values(|s: String| s@) =~= pre.subrange(0, 0).filter(pred));
        }
        while i < self.pending.len()
            invariant
                0 <= i <= self.pending@.len(),
                pre == self.pending@.map_values(|s: String| s@),
                pred == (|f: Seq<char>| f != filter@),
                kept@.map_values(|s: String| s@) == pre.subrange(0, i as int).filter(pred),
            decreases self.pending@.len() - i,
        {
            let f = self.pending[i].clone();
            proof {
                crate::seq_facts::lemma_filter_step(pre, pred, i as int);
                assert(pre[i as int] == self.pending@[i as int]@);
            }
            let keep = !str_eq(f.as_str(), filter);
            proof {
                assert(f@ == self.pending@[i as int]@);
                assert(keep == pred(pre[i as int]));
            }
            if keep {
                let ghost old_kept = kept@;
                kept.push(f);
                proof {
                    assert(kept@.map_values(|s: String| s@) =~= old_kept.map_values(
                        |s: String| s@,
                    ).push(f@));
                }
            }
            i += 1;
        }
        proof {
            assert(pre.subrange(0, pre.len() as int) =~= pre);
        }
        self.pending = kept;
        proof {
            crate::seq_facts::lemma_filter_subset(pre, pred);
        }
    }
}

} // verus!
