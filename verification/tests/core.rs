//! Configurations, transactions, receipts, mock attestations and errors.

use craftsec::attestation::{
    hash_bytes, millis_since_epoch, AttestationError, AttestationProvider, ExecutionAttestation,
    MockAttestationProvider,
};
use craftsec::error::CraftSecError;
use craftsec::float::Float;
use craftsec::json::{Json, JsonNumber};
use craftsec::model::{
    MultiAttestationRequest, ProgramSpec, ThresholdConfig, Transaction,
};
use craftsec::point::EdwardsPoint;
use craftsec::receipt::AttestationReceipt;
use craftsec::string_map::StringMap;
use std::time::{Duration, UNIX_EPOCH};

fn float(x: f64) -> Float {
    Float::from_bits(x.to_bits()).unwrap()
}

fn sample_transaction() -> Transaction {
    Transaction {
        seq: 1,
        prev_hash: "abc".into(),
        sender: "did:alice".into(),
        recipient: "did:bob".into(),
        amount: float(50.0),
        asset: "USDC".into(),
        timestamp: 1000,
        program_cid: "Qm_transfer".into(),
        user_sig: "deadbeef".into(),
    }
}

#[test]
fn threshold_config_valid() {
    assert!(ThresholdConfig::new(2, 3).is_ok());
    assert!(ThresholdConfig::new(3, 5).is_ok());
    assert!(ThresholdConfig::new(1, 1).is_ok());
}

#[test]
fn threshold_config_invalid() {
    assert!(ThresholdConfig::new(0, 3).is_err());
    assert!(ThresholdConfig::new(4, 3).is_err());
}

#[test]
fn threshold_config_error_names_the_numbers() {
    let e = ThresholdConfig::new(4, 3).unwrap_err();
    assert!(matches!(e, CraftSecError::InvalidThreshold { t: 4, n: 3 }));
    assert_eq!(e.to_text(), "invalid threshold: t=4, n=3");
}

#[test]
fn program_spec_holds_its_threshold() {
    let spec = ProgramSpec {
        cid: "Qm_transfer".into(),
        name: "transfer".into(),
        version: "1".into(),
        threshold: ThresholdConfig::new(2, 3).unwrap(),
    };
    assert_eq!(spec.clone().threshold.threshold, 2);
}

#[test]
fn transaction_signing_bytes_deterministic() {
    let tx = sample_transaction();
    assert_eq!(tx.signing_bytes(), tx.signing_bytes());
}

#[test]
fn transaction_signing_bytes_are_compact_json() {
    let tx = sample_transaction();
    let expected = concat_json(&[
        "{\"seq\":1,\"prev_hash\":\"abc\",\"sender\":\"did:alice\",",
        "\"recipient\":\"did:bob\",\"amount\":50.0,\"asset\":\"USDC\",",
        "\"timestamp\":1000,\"program_cid\":\"Qm_transfer\",\"user_sig\":\"deadbeef\"}",
    ]);
    assert_eq!(tx.signing_bytes(), expected.as_bytes());
    let value: serde_json::Value = serde_json::from_slice(&tx.signing_bytes()).unwrap();
    assert_eq!(value["amount"].as_f64(), Some(50.0));
}

fn concat_json(parts: &[&str]) -> String {
    parts.concat()
}

#[test]
fn transactions_that_differ_have_different_bytes() {
    let base = sample_transaction().signing_bytes();
    let mut other = sample_transaction();
    other.amount = float(50.5);
    assert_ne!(other.signing_bytes(), base);
    let mut other = sample_transaction();
    other.sender = "did:alice\",\"recipient\":\"did:eve".into();
    assert_ne!(other.signing_bytes(), base);
    let mut other = sample_transaction();
    other.timestamp = 1001;
    assert_ne!(other.signing_bytes(), base);
    assert_eq!(sample_transaction().clone().signing_bytes(), base);
}

#[test]
fn receipt_creation_and_serde() {
    let mut receipt = AttestationReceipt::new(
        "Qm_transfer".into(),
        b"test args",
        b"test result",
        1000,
    );
    receipt.add_signature(1, "aabbccdd".into());
    receipt.add_signature(2, "eeff0011".into());

    let json = receipt.to_json();
    let parsed: serde_json::Value = serde_json::from_str(&json).unwrap();
    assert_eq!(parsed["program_cid"], "Qm_transfer");
    assert_eq!(parsed["node_signatures"].as_array().unwrap().len(), 2);
    assert_eq!(parsed["timestamp"], 1000);
    assert_eq!(parsed["args_hash"], receipt.args_hash.as_str());
    assert_eq!(parsed["node_signatures"][1][0], 2);
    assert_eq!(parsed["node_signatures"][1][1], "eeff0011");
}

#[test]
fn receipt_json_without_signatures() {
    let receipt = AttestationReceipt {
        program_cid: "a\"b".into(),
        args_hash: "01".into(),
        result_hash: "02".into(),
        timestamp: 7,
        node_signatures: vec![],
    };
    assert_eq!(
        receipt.to_json(),
        "{\"program_cid\":\"a\\\"b\",\"args_hash\":\"01\",\"result_hash\":\"02\",\"timestamp\":7,\"node_signatures\":[]}"
    );
}

#[test]
fn receipt_signing_bytes_deterministic() {
    let r1 = AttestationReceipt::new("Qm_test".into(), b"args", b"result", 42);
    let r2 = AttestationReceipt::new("Qm_test".into(), b"args", b"result", 42);
    assert_eq!(r1.signing_bytes(), r2.signing_bytes());
}

#[test]
fn receipt_tamper_detection() {
    let r1 = AttestationReceipt::new("Qm_test".into(), b"args", b"result", 42);
    let r2 = AttestationReceipt::new("Qm_test".into(), b"args_tampered", b"result", 42);
    assert_ne!(r1.signing_bytes(), r2.signing_bytes());
    assert_ne!(r1.args_hash, r2.args_hash);
}

#[test]
fn receipt_hashes_are_sha256() {
    let r = AttestationReceipt::new("Qm_test".into(), b"args", b"result", 42);
    assert_eq!(r.args_hash, "090772cf4068973daad3f715eb788d39fe2c02be42efd86de81f0e59198d6237");
    assert_eq!(r.result_hash, "f6a214f7a5fcda0c2cee9660b7fc29f5649e3c68aad48e20e950137c98913a68");
    let mut expected = b"CraftSEC-Receipt-v1Qm_test".to_vec();
    expected.extend_from_slice(r.args_hash.as_bytes());
    expected.extend_from_slice(r.result_hash.as_bytes());
    expected.extend_from_slice(&[42, 0, 0, 0, 0, 0, 0, 0]);
    assert_eq!(r.signing_bytes(), expected);
}

#[test]
fn receipt_signatures_do_not_change_what_is_signed() {
    let mut r = AttestationReceipt::new("Qm_test".into(), b"args", b"result", 42);
    let before = r.signing_bytes();
    assert!(!r.verify_signatures());
    r.add_signature(3, "00".into());
    assert_eq!(r.node_signatures, vec![(3, "00".to_string())]);
    assert_eq!(r.signing_bytes(), before);
}

/// The hexadecimal text of a base point and a scalar of one.
fn some_signature() -> String {
    let mut bytes = vec![0x66u8; 32];
    bytes[0] = 0x58;
    bytes.push(1);
    bytes.extend_from_slice(&[0; 31]);
    hex::encode(bytes)
}

#[test]
fn receipts_need_signatures() {
    let mut r = AttestationReceipt::new("Qm_test".into(), b"args", b"result", 42);
    assert!(!r.verify_signatures());
    r.add_signature(1, some_signature().to_uppercase());
    assert!(r.verify_signatures());
    assert!(!r.verify_signatures_under(&EdwardsPoint::basepoint()));
    let unreduced = format!("{}{}", &some_signature()[..64], "ff".repeat(32));
    let no_point = format!("02{}{}", "00".repeat(31), &some_signature()[64..]);
    for text in ["zz", "00", "", unreduced.as_str(), no_point.as_str()] {
        let mut bad = r.clone();
        bad.add_signature(2, text.into());
        assert!(!bad.verify_signatures(), "{}", text);
    }
    let mut odd = r.clone();
    odd.add_signature(2, some_signature() + "0");
    assert!(!odd.verify_signatures());
}

#[test]
fn mock_attest_execution() {
    let provider = MockAttestationProvider::default();
    let att = provider
        .attest_execution("Qm_transfer", b"input data", b"output data")
        .unwrap();
    assert_eq!(att.program_cid, "Qm_transfer");
    assert!(att.verify_structure());
    assert_eq!(att.input_hash, hash_bytes(b"input data"));
    assert_eq!(att.output_hash, hash_bytes(b"output data"));
}

#[test]
fn mock_attestation_time_is_the_clock() {
    let before = std::time::SystemTime::now()
        .duration_since(std::time::UNIX_EPOCH)
        .unwrap()
        .as_millis() as u64;
    let att = MockAttestationProvider::new(2, 3)
        .attest_execution("Qm_transfer", b"in", b"out")
        .unwrap();
    assert!(att.timestamp_ms >= before);
    assert!(att.timestamp_ms < before + 60_000);
}

#[test]
fn mock_attestation_at_a_given_time() {
    let att = MockAttestationProvider::attest_execution_at("Qm_test", b"in", b"out", 12345);
    assert_eq!(
        hex::encode(&att.signature),
        "32f74724de937fc00034d7e58e101a5157eb3880212729dc69ef26465683055a"
    );
    let signed = ExecutionAttestation::signing_bytes(
        "Qm_test",
        &hash_bytes(b"in"),
        &hash_bytes(b"out"),
        12345,
    );
    assert_eq!(
        hex::encode(&signed),
        "43726166745345432d457865634174746573742d7631516d5f74657374582967534d0f909d196b97f9e6921342777aea87b46fa52df165389db1fb8ccf762069bc07a6e1b5df123a5ae7bd91c10daa04694fbaa17fba0cd6a8dcce8f223930000000000000"
    );
    assert_eq!(att.group_public_key, hash_bytes(b"Qm_test"));
}

#[test]
fn execution_bytes_differ_with_every_part() {
    let a = ExecutionAttestation::signing_bytes("Qm", &[1; 32], &[2; 32], 3);
    assert_ne!(ExecutionAttestation::signing_bytes("Qn", &[1; 32], &[2; 32], 3), a);
    assert_ne!(ExecutionAttestation::signing_bytes("Qm", &[9; 32], &[2; 32], 3), a);
    assert_ne!(ExecutionAttestation::signing_bytes("Qm", &[1; 32], &[9; 32], 3), a);
    assert_ne!(ExecutionAttestation::signing_bytes("Qm", &[1; 32], &[2; 32], 4), a);
}

#[test]
fn structure_needs_signature_and_key() {
    let mut att = MockAttestationProvider::attest_execution_at("Qm_test", b"in", b"out", 1);
    assert!(att.verify_structure());
    att.signature.clear();
    assert!(!att.verify_structure());
    att.signature = vec![1];
    assert!(!att.verify_structure());
    att.group_public_key.clear();
    assert!(!att.verify_structure());
}

#[test]
fn structure_binds_the_signed_bytes() {
    let provider = MockAttestationProvider::default();
    let att = provider.attest_execution("Qm_transfer", b"in", b"out").unwrap();
    assert!(att.verify_structure());
    let mut forged = att.clone();
    forged.output_hash = hash_bytes(b"forged");
    assert!(!forged.verify_structure());
    let mut later = att.clone();
    later.timestamp_ms += 1;
    assert!(!later.verify_structure());
    let mut renamed = att.clone();
    renamed.program_cid = "Qm_swap".into();
    assert!(!renamed.verify_structure());
}

#[test]
fn mock_derive_program_key_deterministic() {
    let provider = MockAttestationProvider::default();
    let k1 = provider.derive_program_key("Qm_transfer").unwrap();
    let k2 = provider.derive_program_key("Qm_transfer").unwrap();
    assert_eq!(k1.public_key, k2.public_key);
    assert_eq!(
        hex::encode(&k1.public_key),
        "07d3801275788b906fef7c21a32a7f634362f3c779664c1ac51823aa6ba11230"
    );
}

#[test]
fn mock_different_programs_different_keys() {
    let provider = MockAttestationProvider::default();
    let k1 = provider.derive_program_key("Qm_transfer").unwrap();
    let k2 = provider.derive_program_key("Qm_swap").unwrap();
    assert_ne!(k1.public_key, k2.public_key);
}

#[test]
fn mock_sign_as_program() {
    let provider = MockAttestationProvider::default();
    let sig = provider
        .sign_as_program("Qm_transfer", b"hello world")
        .unwrap();
    assert_eq!(sig.program_cid, "Qm_transfer");
    assert_eq!(sig.message, b"hello world");
    assert!(!sig.signature.is_empty());
}

#[test]
fn mock_sign_deterministic() {
    let provider = MockAttestationProvider::default();
    let s1 = provider.sign_as_program("Qm_test", b"msg").unwrap();
    let s2 = provider.sign_as_program("Qm_test", b"msg").unwrap();
    assert_eq!(s1.signature, s2.signature);
    assert_eq!(
        hex::encode(&s1.signature),
        "4cc8fd42cf6300e32bce7330ee1b14060a32bd8f8de7d2fd924dcf338a95c18a"
    );
}

#[test]
fn mock_sign_different_messages() {
    let provider = MockAttestationProvider::default();
    let s1 = provider.sign_as_program("Qm_test", b"msg1").unwrap();
    let s2 = provider.sign_as_program("Qm_test", b"msg2").unwrap();
    assert_ne!(s1.signature, s2.signature);
}

#[test]
fn mock_default_is_two_of_three() {
    let provider = MockAttestationProvider::default();
    assert_eq!((provider.threshold, provider.total), (2, 3));
    let provider = MockAttestationProvider::new(3, 5);
    assert_eq!((provider.threshold, provider.total), (3, 5));
}

#[test]
fn error_messages() {
    assert_eq!(CraftSecError::InvalidShare("x".into()).to_text(), "invalid share: x");
    assert_eq!(CraftSecError::InvalidCommitment("x".into()).to_text(), "invalid commitment: x");
    assert_eq!(CraftSecError::InvalidSignature("x".into()).to_text(), "invalid signature: x");
    assert_eq!(
        CraftSecError::InsufficientShares { have: 1, need: 20 }.to_text(),
        "insufficient shares: have 1, need 20"
    );
    assert_eq!(CraftSecError::AttestationFailed("x".into()).to_text(), "attestation failed: x");
    assert_eq!(CraftSecError::ProgramError("x".into()).to_text(), "program error: x");
    assert_eq!(CraftSecError::ProgramFrozen("x".into()).to_text(), "program frozen: x");
    assert_eq!(CraftSecError::SerializationError("x".into()).to_text(), "serialization error: x");
}

#[test]
fn provider_error_messages() {
    assert_eq!(
        AttestationError::ThresholdNotMet { need: 2, have: 1 }.to_text(),
        "threshold not met: need 2, have 1"
    );
    assert_eq!(AttestationError::ProgramNotFound("x".into()).to_text(), "program not found: x");
    assert_eq!(AttestationError::SigningFailed("x".into()).to_text(), "signing failed: x");
    assert_eq!(
        AttestationError::KeyDerivationFailed("x".into()).to_text(),
        "key derivation failed: x"
    );
}

#[test]
fn floats_are_ordered_by_value() {
    let values = [-1e300, -2.5, -5e-324, -0.0, 0.0, 5e-324, 1.0, 1.5, 1e300];
    for a in values {
        for b in values {
            assert_eq!(float(a).at_most(&float(b)), a <= b);
        }
        assert_eq!(float(a).not_positive(), a <= 0.0);
        assert_eq!(float(a).to_bits(), a.to_bits());
    }
    assert!(Float::from_bits(f64::NAN.to_bits()).is_none());
    assert!(Float::from_bits(f64::INFINITY.to_bits()).is_none());
    assert!(Float::from_bits(f64::NEG_INFINITY.to_bits()).is_none());
}

#[test]
fn integers_become_the_nearest_float() {
    for n in [0u64, 1, 50, (1 << 53) + 1, (1 << 53) + 3, u64::MAX] {
        let f = Json::Number(JsonNumber::PosInt(n)).as_float().unwrap();
        assert_eq!(f.to_bits(), (n as f64).to_bits());
    }
    for n in [-1i64, -50, i64::MIN, i64::MIN + 1] {
        let f = Json::Number(JsonNumber::NegInt(n)).as_float().unwrap();
        assert_eq!(f.to_bits(), (n as f64).to_bits());
    }
    assert!(Json::Text("1".into()).as_float().is_none());
}

fn serde_of(json: &Json) -> serde_json::Value {
    match json {
        Json::Null => serde_json::Value::Null,
        Json::Bool(b) => serde_json::Value::Bool(*b),
        Json::Number(JsonNumber::PosInt(n)) => serde_json::Value::from(*n),
        Json::Number(JsonNumber::NegInt(n)) => serde_json::Value::from(*n),
        Json::Number(JsonNumber::Float(f)) => serde_json::Value::from(f64::from_bits(f.to_bits())),
        Json::Text(s) => serde_json::Value::from(s.as_str()),
        Json::List(items) => serde_json::Value::Array(items.iter().map(serde_of).collect()),
        Json::Object(entries) => serde_json::Value::Object(
            entries.iter().map(|(k, v)| (k.clone(), serde_of(v))).collect(),
        ),
    }
}

#[test]
fn json_text_is_that_of_serde() {
    let json = Json::Object(vec![
        ("a".into(), Json::List(vec![Json::Null, Json::Bool(true), Json::Bool(false)])),
        (
            "b".into(),
            Json::List(vec![
                Json::Number(JsonNumber::PosInt(u64::MAX)),
                Json::Number(JsonNumber::NegInt(i64::MIN)),
                Json::Number(JsonNumber::Float(float(-0.0))),
                Json::Number(JsonNumber::Float(float(1e100))),
                Json::Number(JsonNumber::Float(float(0.1))),
            ]),
        ),
        ("c\"\\".into(), Json::Text("\u{8}\t\n\u{c}\r\u{1}\u{1f}\u{7f}é/\"\\".into())),
        ("e".into(), Json::List(vec![])),
        ("d".into(), Json::Object(vec![])),
        ("\u{10000}".into(), Json::Null),
        ("\u{ffff}".into(), Json::Null),
        ("a".into(), Json::Null),
    ]);
    assert_eq!(json.to_text(), serde_json::to_string(&serde_of(&json)).unwrap());
    assert_eq!(json.clone().to_text(), json.to_text());
}

#[test]
fn json_fields() {
    let json = Json::Object(vec![
        ("n".into(), Json::Number(JsonNumber::PosInt(7))),
        ("s".into(), Json::Text("text".into())),
        ("n".into(), Json::Number(JsonNumber::PosInt(8))),
    ]);
    assert_eq!(json.unsigned_field("n"), Some(8));
    assert_eq!(serde_of(&json)["n"].as_u64(), Some(8));
    assert_eq!(json.to_text(), serde_json::to_string(&serde_of(&json)).unwrap());
    assert_eq!(json.string_field("s"), Some("text"));
    assert_eq!(json.string_field("n"), None);
    assert_eq!(json.unsigned_field("x"), None);
    assert!(json.float_field("s").is_none());
    assert!(Json::Null.get("n").is_none());
}

#[test]
fn individual_requests_carry_everything_over() {
    let multi = MultiAttestationRequest {
        program_cids: vec!["Qm_a".into(), "Qm_b".into()],
        requester: "did:alice".into(),
        args: Json::Bool(true),
        request_id: "multi".into(),
    };
    let requests = multi.to_individual_requests();
    assert_eq!(requests.len(), 2);
    assert_eq!(requests[0].program_cid, "Qm_a");
    assert_eq!(requests[1].program_cid, "Qm_b");
    for r in &requests {
        assert_eq!(r.requester, "did:alice");
        assert_eq!(r.request_id, "multi");
        assert_eq!(r.args.to_text(), "true");
    }
}

#[test]
fn string_map_replaces_and_finds() {
    let mut map: StringMap<u32> = StringMap::new();
    assert!(map.get("a").is_none());
    map.insert("a".into(), 1);
    map.insert("b".into(), 2);
    map.insert("a".into(), 3);
    assert_eq!(map.get("a"), Some(&3));
    assert_eq!(map.get("b"), Some(&2));
    assert!(map.contains_key("b"));
    assert!(!map.contains_key("c"));
}

#[test]
fn milliseconds_of_spans() {
    let span = Duration::new(1, 2_999_999);
    assert_eq!(millis_since_epoch(Ok(span)), 1002);
    let longest = Duration::MAX;
    assert_eq!(millis_since_epoch(Ok(longest)), longest.as_millis() as u64);
    let early = UNIX_EPOCH.duration_since(UNIX_EPOCH + span).unwrap_err();
    assert_eq!(millis_since_epoch(Err(early)), 0);
}
