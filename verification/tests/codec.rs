use base64::Engine;
use ed25519_dalek::Signer;
use street_relay::codec::{
    escape_json_string, random_challenge, sign_envelope, signable_string, unsigned_envelope,
    verify_envelope, verify_signature, SigError,
};

fn b64(bytes: &[u8]) -> String {
    base64::engine::general_purpose::STANDARD.encode(bytes)
}

#[test]
fn canonical_form_is_byte_stable() {
    let a = signable_string("client.move", "id-1", 42, "{\"dir\":\"up\"}");
    let b = signable_string("client.move", "id-1", 42, "{\"dir\":\"up\"}");
    assert_eq!(a, b);
    assert_eq!(
        a,
        "{\"type\":\"client.move\",\"id\":\"id-1\",\"ts\":42,\"payload\":{\"dir\":\"up\"}}"
    );
    let c = signable_string("t", "i", -7, "null");
    assert_eq!(c, "{\"type\":\"t\",\"id\":\"i\",\"ts\":-7,\"payload\":null}");
}

#[test]
fn escaping_matches_the_reference_serializer() {
    let tricky = "a\"b\\c\n\t\r\u{8}\u{c}\u{1}\u{1f} z\u{e9}";
    let ours = escape_json_string(tricky);
    let reference = serde_json::to_string(tricky).unwrap();
    // the reference wraps the body in quotes
    assert_eq!(format!("\"{}\"", ours), reference);
}

#[test]
fn envelopes_sign_and_verify() {
    let secret = [7u8; 32];
    let signing = ed25519_dalek::SigningKey::from_bytes(&secret);
    let pk = signing.verifying_key().to_bytes();
    let env = sign_envelope(&secret, "client.move", "id-9", 1000, "{\"dir\":\"up\"}");
    assert_eq!(verify_envelope(&env, &pk), Ok(true));

    let mut tampered = sign_envelope(&secret, "client.move", "id-9", 1000, "{\"dir\":\"up\"}");
    tampered.payload = "{\"dir\":\"down\"}".to_string();
    assert_eq!(verify_envelope(&tampered, &pk), Ok(false));

    let unsigned = unsigned_envelope("server.notice", "id-2", 5, "{}");
    assert_eq!(verify_envelope(&unsigned, &pk), Ok(false));

    let mut broken = sign_envelope(&secret, "client.move", "id-9", 1000, "{}");
    broken.sig = Some("!!!not-base64!!!".to_string());
    assert_eq!(verify_envelope(&broken, &pk), Err(SigError::BadEncoding));
}

#[test]
fn challenge_signatures_check_out() {
    let secret = [9u8; 32];
    let signing = ed25519_dalek::SigningKey::from_bytes(&secret);
    let challenge = random_challenge();
    assert_eq!(challenge.len(), 44);
    let sig = signing.sign(challenge.as_bytes());
    let sig_b64 = b64(&sig.to_bytes());
    let pk_b64 = b64(&signing.verifying_key().to_bytes());
    assert!(verify_signature(&pk_b64, challenge.as_bytes(), &sig_b64));
    assert!(!verify_signature(&pk_b64, b"other bytes", &sig_b64));
    assert!(!verify_signature("****", challenge.as_bytes(), &sig_b64));
}
