use pvpc_cheap::ha::HomeAssistantClient;
use pvpc_cheap::meross::{
    build_device_topic, build_request, calculate_api_sign, calculate_sign, classify_device_type,
    encode_envelope, encode_envelope_checked, extract_is_on, generate_message_id, generate_nonce,
    get_api_url,
    generate_mqtt_password, is_json_plain, nonce_from_seed, parse_broker_address, status_payload,
    toggle_payload, Digest, MerossHeader, MerossMqttClient, SystemAll, SystemAllResponse,
    ToggleState, ToggleXState,
};
use pvpc_cheap::protocol::{MqttConfig, MqttError, MqttMessage, ProtocolSession};
use pvpc_cheap::text::{base64_encode, parse_hour_prefix};

// ---------------------------------------------------------------------------
// Signatures and encodings.
// ---------------------------------------------------------------------------

#[test]
fn test_base64_encode() {
    // Test base64 encoding
    assert_eq!(base64_encode("hello"), "aGVsbG8=");
    assert_eq!(base64_encode(""), "");
    assert_eq!(base64_encode("a"), "YQ==");
    assert_eq!(base64_encode("ab"), "YWI=");
    assert_eq!(base64_encode("abc"), "YWJj");
}

#[test]
fn meross_mqtt_test_calculate_sign() {
    let message_id = "test_message_id";
    let key = "test_key";
    let timestamp = 1234567890u64;

    let sign = calculate_sign(message_id, key, timestamp);

    // Should be 32-character hex string
    assert_eq!(sign.len(), 32);
    assert!(sign.chars().all(|c| c.is_ascii_hexdigit()));
}

#[test]
fn meross_test_calculate_sign() {
    let timestamp = 1234567890u64;
    let nonce = "ABCDEFGHIJKLMNOP";
    let params = "eyJ0ZXN0IjoidmFsdWUifQ==";

    let sign = calculate_api_sign(timestamp, nonce, params);

    // Sign should be a 32-character hex string
    assert_eq!(sign.len(), 32);
    assert!(sign.chars().all(|c| c.is_ascii_hexdigit()));
    // Should be lowercase
    assert_eq!(sign, sign.to_lowercase());
}

#[test]
fn message_sign_matches_the_reference_digest() {
    // The signature is exactly the MD5 of message id, key and timestamp.
    let sign = calculate_sign("abc123", "shared", 1700000000);
    let expected = format!("{:x}", md5::compute("abc123shared1700000000".as_bytes()));
    assert_eq!(sign, expected);
}

#[test]
fn signing_the_same_tuple_twice_is_deterministic() {
    let a = calculate_sign("m-1", "key", 1700000001);
    let b = calculate_sign("m-1", "key", 1700000001);
    assert_eq!(a, b);
    let c = calculate_sign("m-1", "key", 1700000002);
    assert_ne!(a, c);
}

#[test]
fn connection_password_is_digest_of_account_and_key() {
    let pw = generate_mqtt_password("user123", "secret");
    let expected = format!("{:x}", md5::compute("user123secret".as_bytes()));
    assert_eq!(pw, expected);
}

#[test]
fn api_sign_matches_the_reference_digest() {
    let sign = calculate_api_sign(1234567890, "NONCE", "cGFyYW1z");
    let expected = format!(
        "{:x}",
        md5::compute("23x17ahWarFH6w291234567890NONCEcGFyYW1z".as_bytes())
    );
    assert_eq!(sign, expected);
}

#[test]
fn test_generate_message_id() {
    let id1 = generate_message_id();
    let id2 = generate_message_id();

    assert_eq!(id1.len(), 32);
    assert_eq!(id2.len(), 32);
    // Should be different
    assert_ne!(id1, id2);
}

#[test]
fn test_generate_nonce() {
    let nonce1 = generate_nonce();
    let nonce2 = generate_nonce();

    // Nonce should be 16 characters
    assert_eq!(nonce1.len(), 16);
    assert_eq!(nonce2.len(), 16);

    // All characters should be alphanumeric
    assert!(nonce1.chars().all(|c| c.is_ascii_alphanumeric()));
}

#[test]
fn nonce_expansion_is_deterministic_per_seed() {
    assert_eq!(nonce_from_seed(0), "0000000000000000");
    // Seed 35 yields digit Z, then refills with 35 * 31 = 1085, whose
    // base-36 digits 5 and 30 alternate.
    assert_eq!(nonce_from_seed(35), "Z5U5U5U5U5U5U5U5");
    assert_eq!(nonce_from_seed(7), nonce_from_seed(7));
    assert_ne!(nonce_from_seed(7), nonce_from_seed(8));
}

#[test]
fn test_build_request() {
    let params_json = "{\"email\":\"test@example.com\"}";
    let request = build_request(params_json);

    // Request should have all required fields
    assert!(!request.params.is_empty());
    assert_eq!(request.sign.len(), 32);
    assert_eq!(request.nonce.len(), 16);
    assert!(request.timestamp > 0);
}

// ---------------------------------------------------------------------------
// Topics, envelope, payloads.
// ---------------------------------------------------------------------------

#[test]
fn test_build_device_topic() {
    let uuid = "device-uuid-123";
    let topic = build_device_topic(uuid);
    assert_eq!(topic, "/appliance/device-uuid-123/subscribe");
}

#[test]
fn client_topics_carry_account_and_app_id() {
    let client = MerossMqttClient::new(
        "user123".to_string(),
        "secret".to_string(),
        "mqtt-eu-5.meross.com".to_string(),
    );
    let topic = client.build_client_topic();
    assert!(topic.starts_with("/app/user123-"));
    assert!(topic.ends_with("/subscribe"));
    assert!(client.build_client_id().starts_with("app:"));
}

#[test]
fn test_from_credentials_valid() {
    let client =
        MerossMqttClient::from_parts(Some("user123"), Some("secret_key"), Some("eu-iotx.meross.com"));
    assert!(client.is_ok());
    let client = client.unwrap();
    assert_eq!(client.user_id, "user123");
    assert_eq!(client.key, "secret_key");
    assert_eq!(client.mqtt_domain, "eu-iotx.meross.com");
}

#[test]
fn test_from_credentials_missing_user_id() {
    let client = MerossMqttClient::from_parts(None, Some("secret_key"), None);
    assert!(client.is_err());
}

#[test]
fn test_from_credentials_missing_key() {
    let client = MerossMqttClient::from_parts(Some("user123"), None, None);
    assert!(client.is_err());
}

#[test]
fn test_meross_message_serialization() {
    let header = MerossHeader {
        message_id: "test123".to_string(),
        method: "SET".to_string(),
        from: "/app/test".to_string(),
        namespace: "Appliance.Control.ToggleX".to_string(),
        timestamp: 1234567890,
        timestamp_ms: 1234567890000,
        sign: "abc123".to_string(),
        payload_version: 1,
    };
    let payload = toggle_payload(0, true);
    let json = String::from_utf8(encode_envelope(&header, &payload)).unwrap();
    assert!(json.contains("Appliance.Control.ToggleX"));
    assert!(json.contains("togglex"));
}

#[test]
fn envelope_is_bit_exact() {
    let header = MerossHeader {
        message_id: "id1".to_string(),
        method: "GET".to_string(),
        from: "/app/u-a/subscribe".to_string(),
        namespace: "Appliance.System.All".to_string(),
        timestamp: 7,
        timestamp_ms: 7000,
        sign: "s1".to_string(),
        payload_version: 1,
    };
    let json = String::from_utf8(encode_envelope(&header, &status_payload())).unwrap();
    assert_eq!(
        json,
        "{\"header\":{\"messageId\":\"id1\",\"method\":\"GET\",\"from\":\"/app/u-a/subscribe\",\
         \"namespace\":\"Appliance.System.All\",\"timestamp\":7,\"timestampMs\":7000,\
         \"sign\":\"s1\",\"payloadVersion\":1},\"payload\":{}}"
    );
    // The same document parses back as JSON.
    let parsed: serde_json::Value = serde_json::from_str(&json).unwrap();
    assert_eq!(parsed["header"]["messageId"], "id1");
    assert_eq!(parsed["header"]["timestampMs"], 7000);
    assert_eq!(parsed["payload"], serde_json::Value::Object(serde_json::Map::new()));
}

#[test]
fn toggle_payload_encodes_channel_and_state() {
    assert_eq!(toggle_payload(0, true), "{\"togglex\":{\"channel\":0,\"onoff\":1}}");
    assert_eq!(toggle_payload(3, false), "{\"togglex\":{\"channel\":3,\"onoff\":0}}");
    let parsed: serde_json::Value = serde_json::from_str(&toggle_payload(2, true)).unwrap();
    assert_eq!(parsed["togglex"]["channel"], 2);
    assert_eq!(parsed["togglex"]["onoff"], 1);
}

#[test]
fn json_plain_rejects_quotes_and_controls() {
    assert!(is_json_plain("abc-123/topic"));
    assert!(!is_json_plain("a\"b"));
    assert!(!is_json_plain("a\\b"));
    assert!(!is_json_plain("a\nb"));
}

#[test]
fn state_extraction_prefers_the_channel_list() {
    let multi = SystemAllResponse {
        all: Some(SystemAll {
            digest: Some(Digest {
                togglex: Some(vec![
                    ToggleXState { channel: 0, onoff: 1 },
                    ToggleXState { channel: 1, onoff: 0 },
                ]),
                toggle: None,
            }),
        }),
    };
    assert!(extract_is_on(&multi));
    let single = SystemAllResponse {
        all: Some(SystemAll {
            digest: Some(Digest { togglex: None, toggle: Some(ToggleState { onoff: 0 }) }),
        }),
    };
    assert!(!extract_is_on(&single));
    let empty = SystemAllResponse { all: None };
    assert!(!extract_is_on(&empty));
}

#[test]
fn device_types_classify_by_prefix() {
    assert_eq!(classify_device_type("mss310"), "switch");
    assert_eq!(classify_device_type("msl120"), "light");
    assert_eq!(classify_device_type("msg100"), "garage");
    assert_eq!(classify_device_type("mts200"), "thermostat");
    assert_eq!(classify_device_type("xyz"), "unknown");
}

#[test]
fn test_get_api_url_default() {
    let url = get_api_url(None);
    assert_eq!(url, "https://iotx-eu.meross.com");
}

#[test]
fn test_get_api_url_custom() {
    let url = get_api_url(Some("https://custom.meross.com"));
    assert_eq!(url, "https://custom.meross.com");
}

#[test]
fn broker_addresses_split_on_the_colon() {
    let (host, port) = parse_broker_address("mqtt-eu-5.meross.com");
    assert_eq!(host, "mqtt-eu-5.meross.com");
    assert_eq!(port, 2001);
    let (host, port) = parse_broker_address("broker.example:8883");
    assert_eq!(host, "broker.example");
    assert_eq!(port, 8883);
    let (host, port) = parse_broker_address("broker.example:notaport");
    assert_eq!(host, "broker.example");
    assert_eq!(port, 2001);
}

// ---------------------------------------------------------------------------
// The publish/subscribe layer.
// ---------------------------------------------------------------------------

#[test]
fn test_mqtt_config_default() {
    let config = MqttConfig::default();
    assert_eq!(config.broker_host, "localhost");
    assert_eq!(config.broker_port, 1883);
    assert!(!config.use_tls);
    assert!(config.client_id.starts_with("pvpc-cheap-"));
}

#[test]
fn test_mqtt_error_display() {
    let err = MqttError::Timeout;
    assert!(err.message().contains("timed out"));

    let err = MqttError::ConnectionFailed("test".to_string());
    assert!(err.message().contains("connection failed"));
}

#[test]
fn test_mqtt_message_payload_str() {
    let msg = MqttMessage {
        topic: "test/topic".to_string(),
        payload: b"hello world".to_vec(),
    };
    assert_eq!(msg.payload_str(), Some("hello world".to_string()));
}

#[test]
fn payload_str_rejects_invalid_utf8() {
    let msg = MqttMessage { topic: "t".to_string(), payload: vec![0xff, 0xfe] };
    assert_eq!(msg.payload_str(), None);
}

#[test]
fn timed_out_request_leaves_no_residual_entry() {
    let mut session = ProtocolSession::new(
        "user123".to_string(),
        "secret".to_string(),
        "broker".to_string(),
        2001,
    );
    session.set_connected(true);
    // A request registers its correlation id, never gets an answer, and
    // times out: the timeout removes the registration.
    session.register_request("msg-0001".to_string());
    assert_eq!(session.pending_count(), 1);
    session.remove_filter("msg-0001");
    assert_eq!(session.pending_count(), 0);
    assert_eq!(session.match_incoming("/app/user123-a/subscribe/msg-0001"), None);
    // A second request with the same filter works as if the first had never
    // happened.
    session.register_request("msg-0001".to_string());
    assert_eq!(session.pending_count(), 1);
    assert_eq!(session.match_incoming("/app/user123-a/subscribe/msg-0001"), Some(0));
}

#[test]
fn incoming_messages_match_substring_or_wildcard() {
    let mut session = ProtocolSession::new(
        "u".to_string(),
        "k".to_string(),
        "broker".to_string(),
        2001,
    );
    session.register_request("abc".to_string());
    session.register_request("*".to_string());
    // The first matching registration wins.
    assert_eq!(session.match_incoming("topic/abc/reply"), Some(0));
    assert_eq!(session.match_incoming("topic/xyz/reply"), Some(1));
    session.take_pending(1);
    assert_eq!(session.match_incoming("topic/xyz/reply"), None);
}

#[test]
fn connection_loss_clears_every_pending_request() {
    let mut session = ProtocolSession::new(
        "u".to_string(),
        "k".to_string(),
        "broker".to_string(),
        2001,
    );
    session.register_request("a".to_string());
    session.register_request("b".to_string());
    session.set_connected(false);
    session.clear_pending();
    assert_eq!(session.pending_count(), 0);
}

// ---------------------------------------------------------------------------
// The home-automation HTTP client.
// ---------------------------------------------------------------------------

#[test]
fn test_client_creation() {
    let client = HomeAssistantClient::new(
        "http://homeassistant.local:8123".to_string(),
        "my_token".to_string(),
    );

    assert_eq!(client.base_url, "http://homeassistant.local:8123");
    assert_eq!(client.token, "my_token");
}

#[test]
fn test_client_with_different_urls() {
    let client1 = HomeAssistantClient::new(
        "http://192.168.1.100:8123".to_string(),
        "token1".to_string(),
    );
    let client2 = HomeAssistantClient::new(
        "https://ha.example.com".to_string(),
        "token2".to_string(),
    );

    assert_eq!(client1.base_url, "http://192.168.1.100:8123");
    assert_eq!(client2.base_url, "https://ha.example.com");
}

#[test]
fn test_service_url_format() {
    // Test that the URL format is correct by checking the pattern
    let base_url = "http://homeassistant.local:8123";
    let domain = "switch";
    let service = "turn_on";
    let expected_url = format!("{}/api/services/{}/{}", base_url, domain, service);

    assert_eq!(
        expected_url,
        "http://homeassistant.local:8123/api/services/switch/turn_on"
    );
}

#[test]
fn test_authorization_header_format() {
    let token = "my_long_lived_access_token";
    let expected_header = format!("Bearer {}", token);

    assert_eq!(expected_header, "Bearer my_long_lived_access_token");
}

#[test]
fn client_builds_service_urls_and_auth_headers() {
    let client = HomeAssistantClient::new(
        "http://homeassistant.local:8123".to_string(),
        "my_token".to_string(),
    );
    assert_eq!(
        client.service_url("switch", "turn_on"),
        "http://homeassistant.local:8123/api/services/switch/turn_on"
    );
    assert_eq!(client.auth_header(), "Bearer my_token");
}

// ---------------------------------------------------------------------------
// The provider registry.
// ---------------------------------------------------------------------------

#[test]
fn test_provider_registry_creation() {
    let registry = pvpc_cheap::provider::ProviderRegistry::new();
    assert!(registry.has_provider("meross"));
}

#[test]
fn test_provider_registry_get() {
    let registry = pvpc_cheap::provider::ProviderRegistry::new();
    let provider = registry.get("meross");
    assert!(provider.is_some());
    assert_eq!(provider.unwrap().provider_name(), "meross");
}

#[test]
fn test_provider_registry_unknown() {
    let registry = pvpc_cheap::provider::ProviderRegistry::new();
    assert!(registry.get("unknown_provider").is_none());
}

#[test]
fn test_available_providers() {
    let registry = pvpc_cheap::provider::ProviderRegistry::new();
    let providers = registry.available_providers();
    assert!(providers.contains(&"meross".to_string()));
}

#[test]
fn test_provider_name() {
    let registry = pvpc_cheap::provider::ProviderRegistry::new();
    let provider = registry.get("meross").unwrap();
    assert_eq!(provider.provider_name(), "meross");
}

#[test]
fn test_display_name() {
    let registry = pvpc_cheap::provider::ProviderRegistry::new();
    let provider = registry.get("meross").unwrap();
    assert_eq!(provider.display_name(), "Meross Smart Home");
}

#[test]
fn test_capabilities() {
    let registry = pvpc_cheap::provider::ProviderRegistry::new();
    let caps = registry.get("meross").unwrap().get_capabilities();

    assert!(caps.can_toggle);
    assert!(caps.can_read_consumption);
    assert!(!caps.can_dim);
    assert!(!caps.can_set_temperature);
}

#[test]
fn test_default_trait() {
    let registry = pvpc_cheap::provider::ProviderRegistry::default();
    assert_eq!(registry.get("meross").unwrap().provider_name(), "meross");
}

#[test]
fn default_client_id_carries_a_full_random_suffix() {
    // "pvpc-cheap-" plus the 36 characters of a hyphenated random id.
    let config = MqttConfig::default();
    assert_eq!(config.client_id.len(), 11 + 36);
    let other = MqttConfig::default();
    assert_ne!(config.client_id, other.client_id);
}

#[test]
fn mqtt_error_messages_name_each_failure() {
    assert_eq!(
        MqttError::SubscribeFailed("x".to_string()).message(),
        "MQTT subscribe failed: x"
    );
    assert_eq!(
        MqttError::PublishFailed("y".to_string()).message(),
        "MQTT publish failed: y"
    );
    assert_eq!(MqttError::Disconnected.message(), "MQTT client disconnected");
    assert_eq!(
        MqttError::InvalidResponse("z".to_string()).message(),
        "Invalid MQTT response: z"
    );
}

#[test]
fn hour_prefix_parsing_reads_stored_times() {
    assert_eq!(parse_hour_prefix("19:00"), Some(19));
    assert_eq!(parse_hour_prefix("7"), Some(7));
    assert_eq!(parse_hour_prefix("07:30"), Some(7));
    assert_eq!(parse_hour_prefix(""), None);
    assert_eq!(parse_hour_prefix("abc"), None);
    assert_eq!(parse_hour_prefix(":30"), None);
    assert_eq!(parse_hour_prefix("99"), Some(99));
    assert_eq!(parse_hour_prefix("4294967296"), None);
}

#[test]
fn envelopes_with_unencodable_headers_are_refused() {
    let mut header = MerossHeader {
        message_id: "id1".to_string(),
        method: "GET".to_string(),
        from: "/app/u-a/subscribe".to_string(),
        namespace: "Appliance.System.All".to_string(),
        timestamp: 7,
        timestamp_ms: 7000,
        sign: "s1".to_string(),
        payload_version: 1,
    };
    assert!(encode_envelope_checked(&header, "{}").is_some());
    header.namespace = "bad\"namespace".to_string();
    assert!(encode_envelope_checked(&header, "{}").is_none());
}
