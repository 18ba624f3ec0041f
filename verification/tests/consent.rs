use portos_kernel::artifact::id_for_bytes;
use portos_kernel::cas::{
    ingest_name, loaded_number, meta, meta_for, path_for, place_for_bytes, stored_number, Ingest, MetaRow,
};
use portos_kernel::consent::{consent_mac, render_budget, Budget, ConsentKey, ConsentRecord};
use portos_kernel::error::KernelError;
use portos_kernel::label::Label;

fn record(key: &ConsentKey) -> ConsentRecord {
    let mut b = Budget::new();
    b.insert("echo::emit".to_string(), 3);
    let mac = consent_mac(key, "blake3:abc", &b, "n1", 1, 3600);
    ConsentRecord {
        plan_hash: "blake3:abc".to_string(),
        budget: b,
        nonce: "n1".to_string(),
        issued_at: 1,
        ttl_secs: 3600,
        mac,
    }
}

#[test]
fn verify_accepts_and_tamper_is_caught() {
    let key = ConsentKey::generate();
    let rec = record(&key);
    assert!(rec.verify(&key, 2).is_ok());

    let mut tampered = rec.clone();
    tampered.budget.insert("echo::emit".to_string(), 3000);
    assert!(matches!(
        tampered.verify(&key, 2),
        Err(KernelError::Denied(e)) if e == "consent MAC mismatch"
    ));
    assert!(
        matches!(rec.verify(&key, 1 + 3601), Err(KernelError::Denied(e)) if e == "consent expired"),
        "expired consent refused"
    );
}

#[test]
fn the_signature_is_the_keyed_digest_of_the_record() {
    let key = ConsentKey::from_stored(&[9u8; 32]).unwrap();
    let rec = record(&key);
    let text = r#"{"budget":{"echo::emit":3},"issued_at":1,"nonce":"n1","plan_hash":"blake3:abc","ttl_secs":3600}"#;
    assert_eq!(rec.mac, blake3::keyed_hash(&[9u8; 32], text.as_bytes()).to_hex().to_string());
    let odd = consent_mac(&key, "a\"b\\c\n", &Budget::new(), "\u{1}", 0, 0);
    let text = r#"{"budget":{},"issued_at":0,"nonce":"\u0001","plan_hash":"a\"b\\c\n","ttl_secs":0}"#;
    assert_eq!(odd, blake3::keyed_hash(&[9u8; 32], text.as_bytes()).to_hex().to_string());
    assert_eq!(rec.verify(&key, 3601).is_ok(), true);
}

#[test]
fn every_control_character_is_escaped() {
    let key = ConsentKey::from_stored(&[9u8; 32]).unwrap();
    let nonce: String = (0u8..=0x80).map(char::from).collect::<String>() + "\u{e9}\u{2028}";
    let mac = consent_mac(&key, "h", &Budget::new(), &nonce, 0, 0);
    let quoted = serde_json::to_string(&nonce).unwrap();
    assert!(quoted.contains(r"\u0000") && quoted.contains(r"\b\t\n\u000b\f\r\u000e"));
    let text =
        format!(r#"{{"budget":{{}},"issued_at":0,"nonce":{quoted},"plan_hash":"h","ttl_secs":0}}"#);
    assert_eq!(mac, blake3::keyed_hash(&[9u8; 32], text.as_bytes()).to_hex().to_string());
}

#[test]
fn no_field_reaches_into_another() {
    let key = ConsentKey::from_stored(&[9u8; 32]).unwrap();
    let mut counted = Budget::new();
    counted.insert("v".to_string(), 1);
    let mut smuggled = Budget::new();
    smuggled.insert("v\":1,\"w".to_string(), 2);
    let mut both = Budget::new();
    both.insert("v".to_string(), 1);
    both.insert("w".to_string(), 2);
    let macs = [
        consent_mac(&key, "h", &counted, "n", 1, 23),
        consent_mac(&key, "h", &counted, "n", 12, 3),
        consent_mac(&key, "n", &counted, "h", 1, 23),
        consent_mac(&key, "h", &counted, "n\",\"plan_hash\":\"h", 1, 23),
        consent_mac(&key, "h", &smuggled, "n", 1, 23),
        consent_mac(&key, "h", &both, "n", 1, 23),
    ];
    for (i, a) in macs.iter().enumerate() {
        assert!(macs[i + 1..].iter().all(|b| b != a));
    }
}

#[test]
fn a_stored_key_has_its_length() {
    assert!(ConsentKey::from_stored(&[1u8; 31]).is_none());
    assert!(ConsentKey::from_stored(&[1u8; 33]).is_none());
    let key = ConsentKey::from_stored(&[1u8; 32]).unwrap();
    assert_eq!(key.stored(), &[1u8; 32]);
    let a = ConsentKey::generate();
    let b = ConsentKey::generate();
    assert_ne!(a.stored(), b.stored());
}

#[test]
fn a_budget_is_rendered_in_the_order_of_its_verbs() {
    let mut b = Budget::new();
    b.insert("z::last".to_string(), 1);
    b.insert("a::first".to_string(), 2);
    assert_eq!(
        render_budget("blake3:0123456789abcdef0123", &b),
        "Plan blake3:0123456789abcd\nwill get these effect budgets:\n  - a::first <= 2\n  - z::last <= 1\nOperation that exceeds budget will be stopped. Reading and pure computation are not limited though\n"
    );
    assert!(render_budget("short", &Budget::new()).starts_with("Plan short\n"));
}

#[test]
fn artifacts_are_addressed_by_their_content() {
    assert_eq!(
        id_for_bytes(b""),
        "blake3:af1349b9f5f9a1a6a0404dea36dcc9499bcb25c9adc112b7cc9a93cae41f3262"
    );
    assert_eq!(
        id_for_bytes(b"abc"),
        format!("blake3:{}", hex::encode(blake3::hash(b"abc").as_bytes()))
    );
    let (id, dir, file) = place_for_bytes(b"abc");
    assert_eq!(id, id_for_bytes(b"abc"));
    assert_eq!(path_for(&id).unwrap(), (dir, file));
    assert!(path_for("blake3:xyz").is_err());
    assert!(path_for("md5:0123").is_err());
    let m = meta_for(b"abc", "text/plain", Label::with_conf("c"), "plugin:p", 7);
    assert_eq!(m.size, 3);
    assert_eq!(m.media_type, "text/plain");
    assert_eq!(m.created_at, 7);
    assert_eq!(m.origin, "plugin:p");
    assert!(m.labels.conf.contains("c"));
}

#[test]
fn ingest_names_are_fresh() {
    let a = ingest_name();
    let b = ingest_name();
    assert_ne!(a, b);
}

#[test]
fn numbers_survive_storage_in_signed_columns() {
    for n in [0u64, 1, i64::MAX as u64, i64::MAX as u64 + 1, u64::MAX] {
        assert_eq!(loaded_number(stored_number(n)), n);
    }
    assert_eq!(stored_number(u64::MAX), -1);
}

#[test]
fn a_stream_is_addressed_like_its_bytes() {
    let data: Vec<u8> = (0..5000u32).map(|i| (i % 251) as u8).collect();
    let mut ingest = Ingest::new();
    for piece in data.chunks(700) {
        ingest = ingest.update(piece);
    }
    let (m, dir, file) = ingest.finish("text/plain", Label::public_trusted(), "test:src", 9);
    assert_eq!((m.id.clone(), dir, file), place_for_bytes(&data));
    assert_eq!((m.size, m.created_at, m.ttl_secs), (5000, 9, None));
    assert_eq!((m.media_type.as_str(), m.origin.as_str()), ("text/plain", "test:src"));
}

#[test]
fn stored_metadata_is_read_back() {
    let row = |labels: Result<Label, String>| MetaRow {
        id: "blake3:abc".to_string(),
        media_type: "text/plain".to_string(),
        size: -1,
        labels,
        origin: "o".to_string(),
        created_at: 3,
        ttl_secs: Some(4),
    };
    let m = meta("blake3:abc", Some(row(Ok(Label::with_conf("c"))))).unwrap();
    assert_eq!((m.size, m.created_at, m.ttl_secs), (u64::MAX, 3, Some(4)));
    assert!(m.labels.conf.contains("c"));
    let e = meta("blake3:abc", Some(row(Err("eof".to_string())))).unwrap_err();
    assert_eq!(e.message(), "corrupt: labels json: eof");
    assert_eq!(meta("blake3:abc", None).unwrap_err().message(), "not found: blake3:abc");
}
