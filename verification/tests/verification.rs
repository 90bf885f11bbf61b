use sentinel_dbms::collection::Collection;
use sentinel_dbms::document::{Document, Timestamp, DOCUMENT_SENTINEL_VERSION};
use sentinel_dbms::error::SentinelError;
use sentinel_dbms::json::JsonValue;
use sentinel_dbms::verification::{
    document_verdict, hash_verdict, signature_check_needed, signature_verdict, stream_error_passed_on, SignatureCheck,
    VerificationMode, VerificationOptions,
};

fn doc(signature: &str) -> Document {
    Document::new(
        "doc1".to_string(),
        JsonValue::Null,
        "abc".to_string(),
        signature.to_string(),
        Timestamp { secs: 3, nanos: 4 },
    )
}

fn reason_of(r: Result<(), SentinelError>) -> String {
    match r {
        Err(SentinelError::HashVerificationFailed { reason, .. }) => reason,
        Err(SentinelError::SignatureVerificationFailed { reason, .. }) => reason,
        _ => panic!("expected a verification failure"),
    }
}

#[test]
fn options_presets() {
    let s = VerificationOptions::strict();
    assert!(s.verify_hash && s.verify_signature);
    assert_eq!(s.hash_verification_mode, VerificationMode::Strict);
    let d0 = VerificationOptions::default();
    assert_eq!(d0.empty_signature_mode, VerificationMode::Warn);
    assert_eq!(d0.signature_verification_mode, VerificationMode::Strict);
    assert_eq!(d0.hash_verification_mode, VerificationMode::Strict);
    assert!(d0.verify_hash && d0.verify_signature);
    // An unsigned document in a collection without a key passes the default checks.
    assert!(document_verdict("d", "abc", "", &d0, false, &Some(Ok("abc".to_string())), &None).is_ok());
    let w = VerificationOptions::warn();
    assert_eq!(w.empty_signature_mode, VerificationMode::Warn);
    let d = VerificationOptions::disabled();
    assert!(!d.verify_hash && !d.verify_signature);
    assert_eq!(d.signature_verification_mode, VerificationMode::Silent);
}

#[test]
fn hash_mismatch_fails_only_in_strict_mode() {
    let strict = VerificationOptions::strict();
    assert!(hash_verdict("d", "abc", &strict, "abc").is_ok());
    assert_eq!(reason_of(hash_verdict("d", "abc", &strict, "xyz")), "Expected hash: abc, Computed hash: xyz");
    assert!(hash_verdict("d", "abc", &VerificationOptions::warn(), "xyz").is_ok());
}

#[test]
fn signature_checks() {
    let strict = VerificationOptions::strict();
    assert_eq!(reason_of(signature_verdict("d", "", &strict, None)), "Document has no signature");
    let warn = VerificationOptions { empty_signature_mode: VerificationMode::Warn, ..strict };
    assert!(signature_verdict("d", "", &warn, None).is_ok());
    assert_eq!(
        reason_of(signature_verdict("d", "sig", &strict, Some(false))),
        "Signature verification using public key failed"
    );
    assert!(signature_verdict("d", "sig", &strict, Some(true)).is_ok());
    assert!(signature_verdict("d", "sig", &strict, None).is_ok());
    let off = VerificationOptions { verify_signature: false, ..strict };
    assert!(signature_verdict("d", "sig", &off, Some(false)).is_ok());
    let silent = VerificationOptions {
        signature_verification_mode: VerificationMode::Silent,
        empty_signature_mode: VerificationMode::Silent,
        ..strict
    };
    assert!(signature_verdict("d", "", &silent, None).is_ok());
    assert_eq!(signature_check_needed(&strict, "sig", true), SignatureCheck::NeedsValidity);
    assert_eq!(signature_check_needed(&strict, "sig", false), SignatureCheck::Decided);
    assert_eq!(signature_check_needed(&strict, "", true), SignatureCheck::Decided);
}

#[test]
fn document_checks_hash_first() {
    let strict = VerificationOptions::strict();
    let r = document_verdict("d", "abc", "", &strict, false, &Some(Ok("xyz".to_string())), &None);
    assert_eq!(reason_of(r), "Expected hash: abc, Computed hash: xyz");
    let r = document_verdict("d", "abc", "", &strict, false, &Some(Ok("abc".to_string())), &None);
    assert_eq!(reason_of(r), "Document has no signature");
    let r = document_verdict("d", "abc", "sig", &strict, true, &Some(Ok("abc".to_string())), &Some(Ok(true)));
    assert!(r.is_ok());
    let r = document_verdict(
        "d",
        "abc",
        "sig",
        &strict,
        true,
        &Some(Ok("abc".to_string())),
        &Some(Err(SentinelError::CryptoFailed { operation: "verify".to_string() })),
    );
    assert!(matches!(r, Err(SentinelError::CryptoFailed { .. })));
    let r = document_verdict(
        "d",
        "abc",
        "",
        &strict,
        false,
        &Some(Err(SentinelError::CryptoFailed { operation: "hash".to_string() })),
        &None,
    );
    assert!(matches!(r, Err(SentinelError::CryptoFailed { operation }) if operation == "hash"));
    assert!(document_verdict("d", "abc", "", &VerificationOptions::disabled(), false, &None, &None).is_ok());
}

#[test]
fn streaming_passes_on_failures_in_strict_mode() {
    let e = SentinelError::HashVerificationFailed { id: "d".to_string(), reason: "r".to_string() };
    assert!(stream_error_passed_on(&e, &VerificationOptions::strict(), false));
    assert!(!stream_error_passed_on(&e, &VerificationOptions::warn(), false));
    let only_empty_strict = VerificationOptions { empty_signature_mode: VerificationMode::Strict, ..VerificationOptions::warn() };
    assert!(!stream_error_passed_on(&e, &only_empty_strict, false));
    assert!(stream_error_passed_on(&e, &only_empty_strict, true));
    let io = SentinelError::Io { message: "x".to_string() };
    assert!(stream_error_passed_on(&io, &VerificationOptions::warn(), false));
}

#[test]
fn document_level_signature_and_hash() {
    let unsigned = doc("");
    assert_eq!(reason_of(unsigned.verify_signature(&Ok(true))), "Document has no signature");
    let signed = doc("sig");
    assert!(signed.verify_signature(&Ok(true)).is_ok());
    assert_eq!(reason_of(signed.verify_signature(&Ok(false))), "Signature is invalid");
    assert_eq!(
        reason_of(signed.verify_signature(&Err("bad key".to_string()))),
        "Signature verification failed: bad key"
    );
    assert!(signed.verify_hash(&Ok("abc".to_string())).is_ok());
    assert_eq!(reason_of(signed.verify_hash(&Ok("def".to_string()))), "Hash mismatch: expected abc, got def");
    assert_eq!(reason_of(signed.verify_hash(&Err("oops".to_string()))), "Hash computation failed: oops");
}

#[test]
fn document_assembly_and_data_replacement() {
    let mut d = doc("sig");
    assert_eq!(d.id(), "doc1");
    assert_eq!(d.version(), DOCUMENT_SENTINEL_VERSION);
    assert_eq!(d.created_at(), d.updated_at());
    assert!(!d.stale_data_warning());
    assert_eq!(d.warning_timestamp(), None);
    assert!(d.has_signature());
    d.set_data(JsonValue::Bool(true), Timestamp { secs: 9, nanos: 0 }, "new".to_string(), String::new());
    assert_eq!(d.hash(), "new");
    assert_eq!(d.signature(), "");
    assert_eq!(d.updated_at(), Timestamp { secs: 9, nanos: 0 });
    assert_eq!(d.created_at(), Timestamp { secs: 3, nanos: 4 });
    d.set_stale_data_warning(true, Some(Timestamp { secs: 10, nanos: 0 }));
    assert!(d.stale_data_warning());
}

#[test]
fn collection_level_checks() {
    let signing = Collection::new("signed".to_string(), true, Timestamp { secs: 0, nanos: 0 });
    let d = doc("sig");
    let strict = VerificationOptions::strict();
    assert!(signing.verify_hash(&d, &strict, &Some(Ok("abc".to_string()))).is_ok());
    assert_eq!(
        reason_of(signing.verify_hash(&d, &strict, &Some(Ok("zzz".to_string())))),
        "Expected hash: abc, Computed hash: zzz"
    );
    let failed = Some(Err(SentinelError::CryptoFailed { operation: "hash".to_string() }));
    assert!(matches!(signing.verify_hash(&d, &strict, &failed), Err(SentinelError::CryptoFailed { .. })));
    let silent = VerificationOptions { hash_verification_mode: VerificationMode::Silent, ..strict };
    assert!(signing.verify_hash(&d, &silent, &None).is_ok());
    assert!(signing.verify_signature(&d, &strict, &Some(Ok(true))).is_ok());
    assert_eq!(
        reason_of(signing.verify_signature(&d, &strict, &Some(Ok(false)))),
        "Signature verification using public key failed"
    );
    let keyless = Collection::new("plain".to_string(), false, Timestamp { secs: 0, nanos: 0 });
    // Without a key no signature is checked against one.
    assert!(keyless.verify_signature(&d, &strict, &Some(Ok(false))).is_ok());
    // Neither check enabled: every document passes.
    let none = VerificationOptions { verify_hash: false, verify_signature: false, ..strict };
    assert!(keyless.verify_document(&doc(""), &none, &Some(Ok("other".to_string())), &None).is_ok());
    let r = signing.verify_document(&d, &strict, &Some(Ok("abc".to_string())), &Some(Ok(false)));
    assert_eq!(reason_of(r), "Signature verification using public key failed");
    let unsigned_coll = Collection::new("plain".to_string(), false, Timestamp { secs: 0, nanos: 0 });
    assert!(unsigned_coll.verify_document(&d, &strict, &Some(Ok("abc".to_string())), &None).is_ok());
    let unsigned = Document::new_without_signature("doc2".to_string(), JsonValue::Null, "abc".to_string(), Timestamp { secs: 0, nanos: 0 });
    assert_eq!(unsigned.signature(), "");
    assert_eq!(reason_of(unsigned_coll.verify_document(&unsigned, &strict, &Some(Ok("abc".to_string())), &None)), "Document has no signature");
}
