//! The concrete signed device protocol of the vendor cloud, bit-exact where
//! interoperability matters: message signatures, connection credentials,
//! topics, envelopes, and the request bodies of the vendor's HTTP API.
//!
//! Every signature is a keyed MD5 digest chosen only for wire compatibility
//! with the vendor's format; it is not a security boundary.

use vstd::prelude::*;
use vstd::string::{StringExecFns, StringSliceAdditionalSpecFns};
use vstd::utf8::encode_utf8;
use crate::text::{
    ascii_view, all_ascii, ascii_string, spec_dec_digits, dec_bytes, lemma_dec_digits_ascii,
    spec_hex_bytes, hex_bytes, lemma_hex_bytes_ascii, spec_be_bytes_128, be_bytes_128,
    spec_be_bytes_64, be_bytes_64, spec_base64, base64_encode, prefix_end, all_digits, dec_value,
    is_digit,
};
use crate::provider::ProviderError;

verus! {

/// What `md5::compute` returns for the given bytes. The digest is a pure
/// function of its input; its value is not restated here.
pub uninterp spec fn md5_digest_of(data: Seq<u8>) -> Seq<u8>;

/// Relies on `md5::compute`: the sixteen-byte MD5 digest of the input,
/// depending on the input bytes alone.
#[verifier::external_body]
fn md5_digest(data: &[u8]) -> (r: Vec<u8>)
    ensures
        r@ == md5_digest_of(data@),
        r@.len() == 16,
{
    md5::compute(data).0.to_vec()
}

/// Appends the UTF-8 bytes of `s`.
fn append_str_bytes(out: &mut Vec<u8>, s: &str)
    ensures
        final(out)@ == old(out)@ + s.spec_bytes(),
{
    let b = s.as_bytes();
    let ghost pre = out@;
    let mut i: usize = 0;
    while i < b.len()
        invariant
            0 <= i <= b@.len(),
            out@ =~= pre + b@.subrange(0, i as int),
            b@ == s.spec_bytes(),
        decreases b@.len() - i,
    {
        out.push(b[i]);
        i += 1;
    }
    proof {
        assert(b@.subrange(0, b@.len() as int) =~= b@);
    }
}

fn append_bytes(out: &mut Vec<u8>, b: &Vec<u8>)
    ensures
        final(out)@ == old(out)@ + b@,
{
    let ghost pre = out@;
    let mut i: usize = 0;
    while i < b.len()
        invariant
            0 <= i <= b@.len(),
            out@ =~= pre + b@.subrange(0, i as int),
        decreases b@.len() - i,
    {
        out.push(b[i]);
        i += 1;
    }
    proof {
        assert(b@.subrange(0, b@.len() as int) =~= b@);
    }
}

/// The lowercase hexadecimal MD5 of a byte string.
pub open spec fn spec_md5_hex(data: Seq<u8>) -> Seq<char> {
    ascii_view(spec_hex_bytes(md5_digest_of(data)))
}

fn md5_hex(data: &Vec<u8>) -> (r: String)
    ensures
        r@ == spec_md5_hex(data@),
        r@.len() == 32,
{
    let digest = md5_digest(data.as_slice());
    let hex = hex_bytes(digest.as_slice());
    proof {
        lemma_hex_bytes_ascii(digest@);
    }
    ascii_string(hex)
}

/// The message signature of the device protocol: the hexadecimal MD5 of the
/// message id, the shared key and the decimal timestamp, concatenated.
pub open spec fn spec_message_sign(message_id: Seq<char>, key: Seq<char>, timestamp: u64) -> Seq<
    char,
> {
    spec_md5_hex(
        encode_utf8(message_id) + encode_utf8(key) + spec_dec_digits(timestamp as nat),
    )
}

/// Computes the signature carried by every protocol message.
pub fn calculate_sign(message_id: &str, key: &str, timestamp: u64) -> (r: String)
    ensures
        r@ == spec_message_sign(message_id@, key@, timestamp),
        r@.len() == 32,
{
    let mut data: Vec<u8> = Vec::new();
    append_str_bytes(&mut data, message_id);
    append_str_bytes(&mut data, key);
    let ts = dec_bytes(timestamp);
    append_bytes(&mut data, &ts);
    md5_hex(&data)
}

/// The same tuple always signs to the same signature: the signature is a
/// function of the message id, the shared key and the timestamp alone.
pub proof fn lemma_sign_deterministic(
    m1: Seq<char>,
    k1: Seq<char>,
    t1: u64,
    m2: Seq<char>,
    k2: Seq<char>,
    t2: u64,
)
    requires
        m1 == m2,
        k1 == k2,
        t1 == t2,
    ensures
        spec_message_sign(m1, k1, t1) == spec_message_sign(m2, k2, t2),
{
}

/// The password of the broker connection: the hexadecimal MD5 of the account
/// id and the shared key, concatenated.
pub open spec fn spec_connection_password(user_id: Seq<char>, key: Seq<char>) -> Seq<char> {
    spec_md5_hex(encode_utf8(user_id) + encode_utf8(key))
}

pub fn generate_mqtt_password(user_id: &str, key: &str) -> (r: String)
    ensures
        r@ == spec_connection_password(user_id@, key@),
        r@.len() == 32,
{
    let mut data: Vec<u8> = Vec::new();
    append_str_bytes(&mut data, user_id);
    append_str_bytes(&mut data, key);
    md5_hex(&data)
}

/// The signature of a vendor HTTP API request: the hexadecimal MD5 of the
/// fixed application secret, the millisecond timestamp, the nonce and the
/// base64 request parameters, concatenated.
pub open spec fn spec_api_sign(secret: Seq<char>, timestamp_ms: u64, nonce: Seq<char>, params_b64: Seq<char>) -> Seq<char> {
    spec_md5_hex(
        encode_utf8(secret) + spec_dec_digits(timestamp_ms as nat) + encode_utf8(nonce)
            + encode_utf8(params_b64),
    )
}

/// The application secret the vendor's published clients embed; part of the
/// wire format, not a private credential.
pub const MEROSS_SECRET: &'static str = "23x17ahWarFH6w29";

pub fn calculate_api_sign(timestamp_ms: u64, nonce: &str, params_b64: &str) -> (r: String)
    ensures
        r@ == spec_api_sign("23x17ahWarFH6w29"@, timestamp_ms, nonce@, params_b64@),
        r@.len() == 32,
{
    let mut data: Vec<u8> = Vec::new();
    append_str_bytes(&mut data, MEROSS_SECRET);
    let ts = dec_bytes(timestamp_ms);
    append_bytes(&mut data, &ts);
    append_str_bytes(&mut data, nonce);
    append_str_bytes(&mut data, params_b64);
    md5_hex(&data)
}

/// Command topic of a device.
pub fn build_device_topic(device_uuid: &str) -> (r: String)
    ensures
        r@ == "/appliance/"@ + device_uuid@ + "/subscribe"@,
{
    let mut s = String::from_str("/appliance/");
    s.append(device_uuid);
    s.append("/subscribe");
    s
}

/// Relies on `rand::random`: a uniformly drawn value; nothing is assumed
/// about which one comes back.
#[verifier::external_body]
fn random_u128() -> u128 {
    rand::random()
}

/// Relies on `rand::random`: a uniformly drawn value; nothing is assumed
/// about which one comes back.
#[verifier::external_body]
fn random_u64() -> u64 {
    rand::random()
}

/// Relies on `std::time::SystemTime::now`: the clock's seconds since the
/// epoch; which instant comes back depends on the machine's clock, so
/// nothing more is assumed.
#[verifier::external_body]
pub(crate) fn now_epoch_secs() -> u64 {
    std::time::SystemTime::now().duration_since(std::time::UNIX_EPOCH).map(
        |d| d.as_secs(),
    ).unwrap_or(0)
}

/// Relies on `std::time::SystemTime::now`, as `now_epoch_secs`, in
/// milliseconds.
#[verifier::external_body]
pub(crate) fn now_epoch_millis() -> u64 {
    std::time::SystemTime::now().duration_since(std::time::UNIX_EPOCH).map(
        |d| d.as_millis() as u64,
    ).unwrap_or(0)
}

/// Writes a value as 32 lowercase hexadecimal characters.
fn hex_32(n: u128) -> (r: String)
    ensures
        r@ == ascii_view(spec_hex_bytes(spec_be_bytes_128(n))),
        r@.len() == 32,
{
    let bytes = be_bytes_128(n);
    let hex = hex_bytes(bytes.as_slice());
    proof {
        lemma_hex_bytes_ascii(bytes@);
    }
    ascii_string(hex)
}

/// Writes a value as 16 lowercase hexadecimal characters.
fn hex_16(n: u64) -> (r: String)
    ensures
        r@ == ascii_view(spec_hex_bytes(spec_be_bytes_64(n))),
        r@.len() == 16,
{
    let bytes = be_bytes_64(n);
    let hex = hex_bytes(bytes.as_slice());
    proof {
        lemma_hex_bytes_ascii(bytes@);
    }
    ascii_string(hex)
}

/// A fresh correlation id: 32 hexadecimal characters from a random value.
pub fn generate_message_id() -> (r: String)
    ensures
        r@.len() == 32,
        exists|n: u128| r@ == ascii_view(spec_hex_bytes(#[trigger] spec_be_bytes_128(n))),
{
    let n = random_u128();
    hex_32(n)
}

/// A fresh application instance id: 16 hexadecimal characters from a random
/// value. Generated once per client and reused, so the subscription topic
/// and the `from` field of every message agree.
pub fn generate_app_id() -> (r: String)
    ensures
        r@.len() == 16,
        exists|n: u64| r@ == ascii_view(spec_hex_bytes(#[trigger] spec_be_bytes_64(n))),
{
    let n = random_u64();
    hex_16(n)
}

/// The digit alphabet of API nonces: `0-9` then `A-Z`.
pub open spec fn nonce_char(v: u64) -> u8 {
    if v < 10 {
        (0x30 + v) as u8
    } else {
        (0x41 + v - 10) as u8
    }
}

/// The nonce bytes drawn from one seed: each step takes the next base-36
/// digit; a exhausted value is refilled from the seed.
pub open spec fn spec_nonce_bytes(value: u64, seed: u64, count: nat) -> Seq<u8>
    decreases count,
{
    if count == 0 {
        Seq::empty()
    } else {
        let c = nonce_char(value % 36);
        let next = if value / 36 == 0 {
            (((seed as int) * 31) % 0x1_0000_0000_0000_0000) as u64
        } else {
            value / 36
        };
        seq![c] + spec_nonce_bytes(next, seed, (count - 1) as nat)
    }
}

pub proof fn lemma_nonce_bytes_alnum(value: u64, seed: u64, count: nat)
    ensures
        spec_nonce_bytes(value, seed, count).len() == count,
        all_ascii(spec_nonce_bytes(value, seed, count)),
        forall|i: int|
            0 <= i < count ==> {
                let c = #[trigger] spec_nonce_bytes(value, seed, count)[i];
                (0x30 <= c <= 0x39) || (0x41 <= c <= 0x5a)
            },
    decreases count,
{
    if count > 0 {
        let next = if value / 36 == 0 {
            (((seed as int) * 31) % 0x1_0000_0000_0000_0000) as u64
        } else {
            value / 36
        };
        lemma_nonce_bytes_alnum(next, seed, (count - 1) as nat);
    }
}

/// The sixteen-character alphanumeric nonce a seed expands to.
pub fn nonce_from_seed(seed: u64) -> (r: String)
    ensures
        r@ == ascii_view(spec_nonce_bytes(seed, seed, 16)),
        r@.len() == 16,
{
    let mut out: Vec<u8> = Vec::new();
    let mut value: u64 = seed;
    let mut i: usize = 0;
    while i < 16
        invariant
            0 <= i <= 16,
            spec_nonce_bytes(seed, seed, 16) =~= out@ + spec_nonce_bytes(
                value,
                seed,
                (16 - i) as nat,
            ),
            out@.len() == i,
        decreases 16 - i,
    {
        let d = value % 36;
        let c: u8 = if d < 10 {
            0x30 + (d as u8)
        } else {
            0x41 + (d as u8) - 10
        };
        let ghost old_out = out@;
        out.push(c);
        value = value / 36;
        if value == 0 {
            value = seed.wrapping_mul(31);
        }
        proof {
            assert(spec_nonce_bytes(seed, seed, 16) =~= out@ + spec_nonce_bytes(
                value,
                seed,
                (16 - (i + 1)) as nat,
            ));
        }
        i += 1;
    }
    proof {
        assert(spec_nonce_bytes(value, seed, 0) =~= Seq::<u8>::empty());
        assert(out@ =~= spec_nonce_bytes(seed, seed, 16));
        lemma_nonce_bytes_alnum(seed, seed, 16);
    }
    ascii_string(out)
}

/// A fresh sixteen-character alphanumeric nonce for one API request.
pub fn generate_nonce() -> (r: String)
    ensures
        r@.len() == 16,
        exists|seed: u64| r@ == ascii_view(#[trigger] spec_nonce_bytes(seed, seed, 16)),
        forall|i: int|
            0 <= i < r@.len() ==> ('0' <= #[trigger] r@[i] <= '9') || ('A' <= r@[i] <= 'Z'),
{
    let seed = random_u64();
    let r = nonce_from_seed(seed);
    proof {
        lemma_nonce_bytes_alnum(seed, seed, 16);
    }
    r
}


/// A byte that may stand unescaped inside a JSON string: not a quote, not a
/// backslash, not a control character.
pub open spec fn json_plain(b: Seq<u8>) -> bool {
    forall|i: int| 0 <= i < b.len() ==> (#[trigger] b[i]) != 0x22 && b[i] != 0x5c && b[i] >= 0x20
}

/// Whether every byte of `s` may stand unescaped inside a JSON string.
pub fn is_json_plain(s: &str) -> (r: bool)
    ensures
        r == json_plain(s.spec_bytes()),
{
    let b = s.as_bytes();
    let mut i: usize = 0;
    while i < b.len()
        invariant
            0 <= i <= b@.len(),
            b@ == s.spec_bytes(),
            forall|j: int|
                0 <= j < i ==> (#[trigger] b@[j]) != 0x22 && b@[j] != 0x5c && b@[j] >= 0x20,
        decreases b@.len() - i,
    {
        let c = b[i];
        if c == 0x22 || c == 0x5c || c < 0x20 {
            return false;
        }
        i += 1;
    }
    true
}

/// The envelope every protocol message is wrapped in.
#[derive(Clone, Debug)]
pub struct MerossHeader {
    pub message_id: String,
    pub method: String,
    pub from: String,
    pub namespace: String,
    pub timestamp: u64,
    pub timestamp_ms: u64,
    pub sign: String,
    pub payload_version: u32,
}

impl MerossHeader {
    /// Every string field fit to embed in the JSON wire form.
    pub open spec fn plain(&self) -> bool {
        &&& json_plain(encode_utf8(self.message_id@))
        &&& json_plain(encode_utf8(self.method@))
        &&& json_plain(encode_utf8(self.from@))
        &&& json_plain(encode_utf8(self.namespace@))
        &&& json_plain(encode_utf8(self.sign@))
    }
}

/// The exact bytes of the wire envelope: a JSON object holding the header
/// fields in their fixed order and names, then the payload object verbatim.
pub open spec fn spec_envelope(h: MerossHeader, payload: Seq<u8>) -> Seq<u8> {
    encode_utf8("{\"header\":{\"messageId\":\""@) + encode_utf8(h.message_id@) + encode_utf8(
        "\",\"method\":\""@,
    ) + encode_utf8(h.method@) + encode_utf8("\",\"from\":\""@) + encode_utf8(h.from@)
        + encode_utf8("\",\"namespace\":\""@) + encode_utf8(h.namespace@) + encode_utf8(
        "\",\"timestamp\":"@,
    ) + spec_dec_digits(h.timestamp as nat) + encode_utf8(",\"timestampMs\":"@)
        + spec_dec_digits(h.timestamp_ms as nat) + encode_utf8(",\"sign\":\""@)
        + encode_utf8(h.sign@) + encode_utf8("\",\"payloadVersion\":"@) + spec_dec_digits(
        h.payload_version as nat,
    ) + encode_utf8("},\"payload\":"@) + payload + encode_utf8("}"@)
}

/// Writes the wire form of a message whose header fields are JSON-plain and
/// whose payload is already a JSON document.
pub fn encode_envelope(h: &MerossHeader, payload_json: &str) -> (r: Vec<u8>)
    requires
        h.plain(),
    ensures
        r@ == spec_envelope(*h, payload_json.spec_bytes()),
{
    let mut out: Vec<u8> = Vec::new();
    append_str_bytes(&mut out, "{\"header\":{\"messageId\":\"");
    append_str_bytes(&mut out, h.message_id.as_str());
    append_str_bytes(&mut out, "\",\"method\":\"");
    append_str_bytes(&mut out, h.method.as_str());
    append_str_bytes(&mut out, "\",\"from\":\"");
    append_str_bytes(&mut out, h.from.as_str());
    append_str_bytes(&mut out, "\",\"namespace\":\"");
    append_str_bytes(&mut out, h.namespace.as_str());
    append_str_bytes(&mut out, "\",\"timestamp\":");
    let ts = dec_bytes(h.timestamp);
    append_bytes(&mut out, &ts);
    append_str_bytes(&mut out, ",\"timestampMs\":");
    let tsm = dec_bytes(h.timestamp_ms);
    append_bytes(&mut out, &tsm);
    append_str_bytes(&mut out, ",\"sign\":\"");
    append_str_bytes(&mut out, h.sign.as_str());
    append_str_bytes(&mut out, "\",\"payloadVersion\":");
    let pv = dec_bytes(h.payload_version as u64);
    append_bytes(&mut out, &pv);
    append_str_bytes(&mut out, "},\"payload\":");
    append_str_bytes(&mut out, payload_json);
    append_str_bytes(&mut out, "}");
    proof {
        assert(out@ =~= spec_envelope(*h, payload_json.spec_bytes()));
    }
    out
}

/// Writes the wire form after checking the header fields are JSON-plain;
/// a header carrying a quote, backslash or control character is refused.
pub fn encode_envelope_checked(h: &MerossHeader, payload_json: &str) -> (r: Option<Vec<u8>>)
    ensures
        match r {
            Some(bytes) => h.plain() && bytes@ == spec_envelope(*h, payload_json.spec_bytes()),
            None => !h.plain(),
        },
{
    if is_json_plain(h.message_id.as_str()) && is_json_plain(h.method.as_str()) && is_json_plain(
        h.from.as_str(),
    ) && is_json_plain(h.namespace.as_str()) && is_json_plain(h.sign.as_str()) {
        Some(encode_envelope(h, payload_json))
    } else {
        None
    }
}

/// The payload of a channel-indexed toggle command.
pub fn toggle_payload(channel: u32, on: bool) -> (r: String)
    ensures
        r@ == "{\"togglex\":{\"channel\":"@ + ascii_view(spec_dec_digits(channel as nat))
            + ",\"onoff\":"@ + (if on {
            "1"@
        } else {
            "0"@
        }) + "}}"@,
{
    let mut s = String::from_str("{\"togglex\":{\"channel\":");
    let digits = dec_bytes(channel as u64);
    proof {
        lemma_dec_digits_ascii(channel as nat);
    }
    let digits_s = ascii_string(digits);
    s.append(digits_s.as_str());
    s.append(",\"onoff\":");
    s.append(if on { "1" } else { "0" });
    s.append("}}");
    s
}

/// The payload of a full status query.
pub fn status_payload() -> (r: String)
    ensures
        r@ == "{}"@,
{
    String::from_str("{}")
}

/// One client of the vendor device cloud: its account identity, shared key,
/// broker, and the application instance id that ties its subscription topic
/// to the `from` field of its messages.
#[derive(Clone, Debug)]
pub struct MerossMqttClient {
    pub user_id: String,
    pub key: String,
    pub mqtt_domain: String,
    pub app_id: String,
}

impl MerossMqttClient {
    /// A client with a fresh application instance id.
    pub fn new(user_id: String, key: String, mqtt_domain: String) -> (r: MerossMqttClient)
        ensures
            r.user_id == user_id,
            r.key == key,
            r.mqtt_domain == mqtt_domain,
            r.app_id@.len() == 16,
    {
        let app_id = generate_app_id();
        MerossMqttClient { user_id, key, mqtt_domain, app_id }
    }

    /// Builds a client from decoded credential fields. A missing account id
    /// or shared key is an authentication failure; a missing broker domain
    /// falls back to the vendor's default.
    pub fn from_parts(
        user_id: Option<&str>,
        key: Option<&str>,
        mqtt_domain: Option<&str>,
    ) -> (r: Result<MerossMqttClient, ProviderError>)
        ensures
            match r {
                Ok(c) => user_id.is_some() && key.is_some() && c.user_id@ == user_id.unwrap()@
                    && c.key@ == key.unwrap()@ && c.mqtt_domain@ == match mqtt_domain {
                    Some(d) => d@,
                    None => "mqtt-eu-5.meross.com"@,
                } && c.app_id@.len() == 16,
                Err(e) => match e {
                    ProviderError::AuthenticationFailed(m) => user_id.is_none() && m@
                        == "Missing user_id in credentials"@ || user_id.is_some() && key.is_none()
                        && m@ == "Missing key in credentials"@,
                    _ => false,
                },
            },
    {
        let uid = match user_id {
            Some(u) => u,
            None => {
                return Err(
                    ProviderError::AuthenticationFailed(
                        String::from_str("Missing user_id in credentials"),
                    ),
                );
            },
        };
        let k = match key {
            Some(k) => k,
            None => {
                return Err(
                    ProviderError::AuthenticationFailed(
                        String::from_str("Missing key in credentials"),
                    ),
                );
            },
        };
        let domain = match mqtt_domain {
            Some(d) => String::from_str(d),
            None => String::from_str("mqtt-eu-5.meross.com"),
        };
        Ok(MerossMqttClient::new(String::from_str(uid), String::from_str(k), domain))
    }

    /// The client id the broker sees.
    pub fn build_client_id(&self) -> (r: String)
        ensures
            r@ == "app:"@ + self.app_id@,
    {
        let mut s = String::from_str("app:");
        s.append(self.app_id.as_str());
        s
    }

    /// The topic this client subscribes to and stamps as `from`.
    pub fn build_client_topic(&self) -> (r: String)
        ensures
            r@ == "/app/"@ + self.user_id@ + "-"@ + self.app_id@ + "/subscribe"@,
    {
        let mut s = String::from_str("/app/");
        s.append(self.user_id.as_str());
        s.append("-");
        s.append(self.app_id.as_str());
        s.append("/subscribe");
        s
    }

    /// Assembles a signed header for one command. The signature binds the
    /// message id, this client's shared key and the timestamp.
    pub fn build_header(&self, namespace: &str, method: &str, message_id: String, timestamp: u64) -> (r: MerossHeader)
        requires
            timestamp <= 0xFFFF_FFFF_FFFF,
        ensures
            r.message_id == message_id,
            r.method@ == method@,
            r.namespace@ == namespace@,
            r.from@ == "/app/"@ + self.user_id@ + "-"@ + self.app_id@ + "/subscribe"@,
            r.timestamp == timestamp,
            r.timestamp_ms == timestamp * 1000,
            r.sign@ == spec_message_sign(message_id@, self.key@, timestamp),
            r.payload_version == 1,
    {
        let sign = calculate_sign(message_id.as_str(), self.key.as_str(), timestamp);
        MerossHeader {
            message_id,
            method: String::from_str(method),
            from: self.build_client_topic(),
            namespace: String::from_str(namespace),
            timestamp,
            timestamp_ms: timestamp * 1000,
            sign,
            payload_version: 1,
        }
    }
}

/// The decoded shapes of a status response: a single toggle or a list of
/// per-channel toggles.
#[derive(Clone, Copy, PartialEq, Eq, Structural, Debug)]
pub struct ToggleXState {
    pub channel: i32,
    pub onoff: i32,
}

#[derive(Clone, Copy, PartialEq, Eq, Structural, Debug)]
pub struct ToggleState {
    pub onoff: i32,
}

#[derive(Clone, Debug)]
pub struct Digest {
    pub togglex: Option<Vec<ToggleXState>>,
    pub toggle: Option<ToggleState>,
}

#[derive(Clone, Debug)]
pub struct SystemAll {
    pub digest: Option<Digest>,
}

#[derive(Clone, Debug)]
pub struct SystemAllResponse {
    pub all: Option<SystemAll>,
}

/// The toggle sub-fields of a command payload.
#[derive(Clone, Copy, PartialEq, Eq, Structural, Debug)]
pub struct ToggleX {
    pub channel: i32,
    pub onoff: i32,
}

#[derive(Clone, Copy, PartialEq, Eq, Structural, Debug)]
pub struct Toggle {
    pub onoff: i32,
}

#[derive(Clone, Copy, PartialEq, Eq, Structural, Debug)]
pub struct TogglePayload {
    pub togglex: Option<ToggleX>,
    pub toggle: Option<Toggle>,
}

/// Reads whether the device is on from a status snapshot: the first channel
/// of a multi-channel response, else the single toggle, else off.
pub fn extract_is_on(resp: &SystemAllResponse) -> (r: bool)
    ensures
        r == match resp.all {
            Some(all) => match all.digest {
                Some(d) => match d.togglex {
                    Some(v) => v@.len() > 0 && v@[0].onoff == 1,
                    None => match d.toggle {
                        Some(t) => t.onoff == 1,
                        None => false,
                    },
                },
                None => false,
            },
            None => false,
        },
{
    match &resp.all {
        Some(all) => match &all.digest {
            Some(d) => match &d.togglex {
                Some(v) => v.len() > 0 && v[0].onoff == 1,
                None => match &d.toggle {
                    Some(t) => t.onoff == 1,
                    None => false,
                },
            },
            None => false,
        },
        None => false,
    }
}


/// One signed body of the vendor's HTTP API: base64 parameters, signature,
/// millisecond timestamp and nonce.
#[derive(Clone, Debug)]
pub struct MerossRequest {
    pub params: String,
    pub sign: String,
    pub timestamp: u64,
    pub nonce: String,
}

/// Builds the signed request that carries `params_json`: the parameters are
/// base64-encoded and signed together with the timestamp and nonce.
pub fn build_signed_request(params_json: &str, timestamp_ms: u64, nonce: String) -> (r:
    MerossRequest)
    ensures
        r.params@ == ascii_view(spec_base64(params_json.spec_bytes())),
        r.sign@ == spec_api_sign("23x17ahWarFH6w29"@, timestamp_ms, nonce@, r.params@),
        r.timestamp == timestamp_ms,
        r.nonce == nonce,
{
    let params = base64_encode(params_json);
    let sign = calculate_api_sign(timestamp_ms, nonce.as_str(), params.as_str());
    MerossRequest { params, sign, timestamp: timestamp_ms, nonce }
}

/// A fresh signed request for `params_json`, stamped with the clock and a
/// random nonce.
pub fn build_request(params_json: &str) -> (r: MerossRequest)
    ensures
        r.params@ == ascii_view(spec_base64(params_json.spec_bytes())),
        r.sign@ == spec_api_sign("23x17ahWarFH6w29"@, r.timestamp, r.nonce@, r.params@),
        r.nonce@.len() == 16,
{
    let timestamp_ms = now_epoch_millis();
    let nonce = generate_nonce();
    build_signed_request(params_json, timestamp_ms, nonce)
}

/// Whether `b` starts with the three given bytes.
pub open spec fn starts_with3(b: Seq<u8>, c0: u8, c1: u8, c2: u8) -> bool {
    b.len() >= 3 && b[0] == c0 && b[1] == c1 && b[2] == c2
}

/// The device class a vendor device-type code names: codes starting `mss`
/// are switches, `msl` lights, `msg` garage doors, `mts` thermostats.
pub open spec fn spec_device_class(b: Seq<u8>) -> Seq<char> {
    if starts_with3(b, 0x6d, 0x73, 0x73) {
        "switch"@
    } else if starts_with3(b, 0x6d, 0x73, 0x6c) {
        "light"@
    } else if starts_with3(b, 0x6d, 0x73, 0x67) {
        "garage"@
    } else if starts_with3(b, 0x6d, 0x74, 0x73) {
        "thermostat"@
    } else {
        "unknown"@
    }
}

/// Maps a vendor device-type code to the device class stored for it.
pub fn classify_device_type(device_type: &str) -> (r: &'static str)
    ensures
        r@ == spec_device_class(device_type.spec_bytes()),
{
    let b = device_type.as_bytes();
    if b.len() >= 3 && b[0] == 0x6d && b[1] == 0x73 && b[2] == 0x73 {
        "switch"
    } else if b.len() >= 3 && b[0] == 0x6d && b[1] == 0x73 && b[2] == 0x6c {
        "light"
    } else if b.len() >= 3 && b[0] == 0x6d && b[1] == 0x73 && b[2] == 0x67 {
        "garage"
    } else if b.len() >= 3 && b[0] == 0x6d && b[1] == 0x74 && b[2] == 0x73 {
        "thermostat"
    } else {
        "unknown"
    }
}

/// The vendor's regional API endpoints, tried in this order at login.
pub const MEROSS_API_EU: &'static str = "https://iotx-eu.meross.com";

pub const MEROSS_API_US: &'static str = "https://iotx-us.meross.com";

pub const MEROSS_API_AP: &'static str = "https://iotx-ap.meross.com";

/// The API base URL stored credentials name, or the European default.
pub fn get_api_url(api_base_url: Option<&str>) -> (r: String)
    ensures
        r@ == match api_base_url {
            Some(u) => u@,
            None => "https://iotx-eu.meross.com"@,
        },
{
    match api_base_url {
        Some(u) => String::from_str(u),
        None => String::from_str(MEROSS_API_EU),
    }
}

/// Classifies one API response: status zero with a body is success; any
/// other status fails authentication carrying the server's own message, and
/// status zero without a body fails authentication too.
pub fn classify_api_response(api_status: i64, has_data: bool, info: Option<String>) -> (r: Result<
    (),
    ProviderError,
>)
    ensures
        api_status == 0 && has_data <==> r is Ok,
        api_status != 0 ==> match r {
            Err(ProviderError::AuthenticationFailed(m)) => m@ == "API error: "@ + match info {
                Some(i) => i@,
                None => "Unknown error"@,
            },
            _ => false,
        },
        api_status == 0 && !has_data ==> match r {
            Err(ProviderError::AuthenticationFailed(m)) => m@ == "No data in response"@,
            _ => false,
        },
{
    if api_status != 0 {
        let msg = match info {
            Some(m) => m,
            None => String::from_str("Unknown error"),
        };
        let mut text = String::from_str("API error: ");
        text.append(msg.as_str());
        Err(ProviderError::AuthenticationFailed(text))
    } else if !has_data {
        Err(ProviderError::AuthenticationFailed(String::from_str("No data in response")))
    } else {
        Ok(())
    }
}

/// The port a broker address names: its second colon-separated segment as a
/// number, or 2001 — the vendor's TLS port — when absent or unreadable.
pub open spec fn spec_broker_port(b: Seq<u8>) -> int {
    let p = prefix_end(b);
    if p == b.len() {
        2001
    } else {
        let rest = b.subrange(p + 1, b.len() as int);
        let seg = rest.subrange(0, prefix_end(rest));
        if seg.len() > 0 && all_digits(seg) && dec_value(seg) <= 0xFFFF {
            dec_value(seg) as int
        } else {
            2001
        }
    }
}

/// Splits a broker address `host[:port]`: the host is everything before the
/// first colon; the port is the next segment as a number, or 2001 when
/// absent or unreadable.
pub fn parse_broker_address(domain: &str) -> (r: (String, u16))
    ensures
        ({
            let p = domain.spec_bytes().subrange(0, prefix_end(domain.spec_bytes()));
            if vstd::utf8::valid_utf8(p) {
                r.0@ == vstd::utf8::decode_utf8(p)
            } else {
                r.0@ == domain@
            }
        }),
        r.1 as int == spec_broker_port(domain.spec_bytes()),
{
    let b = domain.as_bytes();
    let n = b.len();
    let mut end: usize = 0;
    while end < n && b[end] != 0x3a
        invariant
            0 <= end <= n,
            n == b@.len(),
            forall|j: int| 0 <= j < end ==> b@[j] != 0x3a,
        decreases n - end,
    {
        end += 1;
    }
    proof {
        crate::text::lemma_prefix_end_at(b@, end as int);
    }
    let mut host_bytes: Vec<u8> = Vec::new();
    let mut i: usize = 0;
    while i < end
        invariant
            0 <= i <= end <= n,
            n == b@.len(),
            host_bytes@ =~= b@.subrange(0, i as int),
        decreases end - i,
    {
        host_bytes.push(b[i]);
        i += 1;
    }
    proof {
        assert(host_bytes@ =~= b@.subrange(0, prefix_end(b@)));
    }
    let host = match crate::protocol::utf8_string(host_bytes) {
        Some(h) => h,
        None => String::from_str(domain),
    };
    let port: u16 = if end == n {
        2001
    } else {
        let ghost rest = b@.subrange(end + 1, n as int);
        let mut seg_end: usize = end + 1;
        while seg_end < n && b[seg_end] != 0x3a
            invariant
                end + 1 <= seg_end <= n,
                n == b@.len(),
                forall|j: int| end + 1 <= j < seg_end ==> b@[j] != 0x3a,
            decreases n - seg_end,
        {
            seg_end += 1;
        }
        proof {
            assert(forall|j: int| 0 <= j < seg_end - end - 1 ==> rest[j] == b@[j + end + 1]);
            crate::text::lemma_prefix_end_at(rest, seg_end - end - 1);
        }
        let ghost seg = rest.subrange(0, prefix_end(rest));
        let mut v: u32 = 0;
        let mut ok = seg_end > end + 1;
        let mut j: usize = end + 1;
        while j < seg_end
            invariant
                end + 1 <= j <= seg_end <= n,
                n == b@.len(),
                seg == rest.subrange(0, seg_end - end - 1),
                rest == b@.subrange(end + 1, n as int),
                forall|q: int| 0 <= q < seg.len() ==> seg[q] == b@[q + end + 1],
                v <= 0xFFFF,
                ok ==> seg_end > end + 1 && all_digits(seg.subrange(0, j - end - 1)) && v as nat
                    == dec_value(seg.subrange(0, j - end - 1)) && dec_value(
                    seg.subrange(0, j - end - 1),
                ) <= 0xFFFF,
                !ok ==> !(seg.len() > 0 && all_digits(seg) && dec_value(seg) <= 0xFFFF),
            decreases seg_end - j,
        {
            let c = b[j];
            proof {
                assert(seg[j - end - 1] == c);
            }
            if c < 0x30 || c > 0x39 {
                proof {
                    if all_digits(seg) {
                        assert(is_digit(seg[j - end - 1]));
                    }
                }
                ok = false;
            } else if ok {
                let next = v * 10 + ((c - 0x30) as u32);
                proof {
                    let cur = seg.subrange(0, j - end);
                    assert(cur.drop_last() =~= seg.subrange(0, j - end - 1));
                    assert(cur.last() == c);
                    assert(next as nat == dec_value(cur));
                }
                if next > 0xFFFF {
                    proof {
                        if all_digits(seg) && dec_value(seg) <= 0xFFFF {
                            crate::text::lemma_dec_value_prefix(seg, j - end);
                        }
                    }
                    ok = false;
                } else {
                    v = next;
                }
            }
            j += 1;
        }
        if ok {
            proof {
                assert(seg.subrange(0, seg.len() as int) =~= seg);
            }
            v as u16
        } else {
            2001
        }
    };
    (host, port)
}

} // verus!
