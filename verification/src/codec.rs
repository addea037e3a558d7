//! The wire envelope and its signature scheme. A message is signed over
//! the canonical JSON object `{"type":...,"id":...,"ts":...,"payload":...}`
//! in exactly that field order, with no whitespace; this module builds
//! that canonical form itself, so two runs over the same logical input
//! yield identical bytes. Ed25519 and base64 are supplied by outside
//! crates behind the trusted items below.
use vstd::prelude::*;

use base64::Engine;
use ed25519_dalek::Signer;
use rand::RngCore;

use crate::text::{dec_int, digit_str, i64_to_string};

verus! {

/// A wire message: its type, a correlation id, a millisecond timestamp,
/// an optional base64 signature, and the payload as JSON text.
#[derive(Debug)]
pub struct Envelope {
    pub message_type: String,
    pub id: String,
    pub ts: i64,
    pub sig: Option<String>,
    pub payload: String,
}

/// The part of an envelope that a signature binds.
#[derive(Debug)]
pub struct SignableEnvelope {
    pub message_type: String,
    pub id: String,
    pub ts: i64,
    pub payload: String,
}

/// Why a signature could not even be checked.
#[derive(Debug, Clone, Copy, PartialEq, Eq, Structural)]
pub enum SigError {
    BadEncoding,
}

/// Signature bytes that Ed25519 signing with secret key `key` gives to
/// the message `msg`; signing is deterministic, so this is a function
/// of the two.
pub uninterp spec fn ed25519_sig(key: Seq<u8>, msg: Seq<u8>) -> Seq<u8>;

/// Whether `sig` is a signature of `msg` that strict Ed25519
/// verification accepts under the public key bytes `pubkey` (false for
/// malformed keys or signatures of the wrong length).
pub uninterp spec fn ed25519_valid(pubkey: Seq<u8>, msg: Seq<u8>, sig: Seq<u8>) -> bool;

/// The standard base64 text (with padding) of a byte string.
pub uninterp spec fn b64_of(bytes: Seq<u8>) -> Seq<char>;

/// The byte string whose canonical base64 text is `s`, if any; standard
/// decoding accepts exactly the canonical encodings.
pub open spec fn b64_decode_spec(s: Seq<char>) -> Option<Seq<u8>> {
    if exists|b: Seq<u8>| b64_of(b) == s {
        Some(choose|b: Seq<u8>| b64_of(b) == s)
    } else {
        None
    }
}

/// Relies on ed25519_dalek::SigningKey::from_bytes and Signer::sign:
/// RFC 8032 signing, deterministic in the key and message, yielding a
/// 64-byte signature.
#[verifier::external_body]
fn ed25519_sign(secret: &[u8], msg: &[u8]) -> (r: Vec<u8>)
    requires
        secret@.len() == 32,
    ensures
        r@ == ed25519_sig(secret@, msg@),
        r@.len() == 64,
{
    let mut arr = [0u8; 32];
    arr.copy_from_slice(secret);
    let key = ed25519_dalek::SigningKey::from_bytes(&arr);
    let sig = key.sign(msg);
    sig.to_bytes().to_vec()
}

/// Relies on ed25519_dalek::VerifyingKey::verify_strict: a deterministic
/// accept/reject of a signature over a message under a public key; a
/// key or signature of the wrong shape rejects.
#[verifier::external_body]
fn ed25519_verify(pubkey: &[u8], msg: &[u8], sig: &[u8]) -> (r: bool)
    ensures
        r == ed25519_valid(pubkey@, msg@, sig@),
{
    let pk_arr: [u8; 32] = match pubkey.try_into() {
        Ok(a) => a,
        Err(_) => return false,
    };
    let vk = match ed25519_dalek::VerifyingKey::from_bytes(&pk_arr) {
        Ok(k) => k,
        Err(_) => return false,
    };
    let sig_arr: [u8; 64] = match sig.try_into() {
        Ok(a) => a,
        Err(_) => return false,
    };
    let s = ed25519_dalek::Signature::from_bytes(&sig_arr);
    vk.verify_strict(msg, &s).is_ok()
}

/// Relies on base64::engine::general_purpose::STANDARD.encode: standard
/// base64 with padding, four output characters for every three input
/// bytes begun.
#[verifier::external_body]
pub(crate) fn b64_encode(bytes: &[u8]) -> (r: String)
    ensures
        r@ == b64_of(bytes@),
        r@.len() == 4 * ((bytes@.len() + 2) / 3),
{
    base64::engine::general_purpose::STANDARD.encode(bytes)
}

/// Relies on base64::engine::general_purpose::STANDARD.decode: it
/// returns the bytes whose canonical encoding is the input, and rejects
/// everything else (non-canonical padding and trailing bits included).
#[verifier::external_body]
pub(crate) fn b64_decode(s: &str) -> (r: Option<Vec<u8>>)
    ensures
        match r {
            Some(v) => b64_of(v@) == s@ && forall|b: Seq<u8>| b64_of(b) == s@ ==> b == v@,
            None => forall|b: Seq<u8>| b64_of(b) != s@,
        },
{
    base64::engine::general_purpose::STANDARD.decode(s).ok()
}

/// Relies on uuid::Uuid::new_v4 and its Display form: a fresh random
/// identifier, rendered as the 36-character hyphenated text.
#[verifier::external_body]
pub(crate) fn fresh_id() -> (r: String)
    ensures
        r@.len() == 36,
{
    uuid::Uuid::new_v4().to_string()
}

/// Relies on rand::thread_rng's RngCore::fill_bytes to fill 32 bytes;
/// nothing is assumed about their values.
#[verifier::external_body]
fn random_bytes_32() -> (r: Vec<u8>)
    ensures
        r@.len() == 32,
{
    let mut b = [0u8; 32];
    rand::thread_rng().fill_bytes(&mut b);
    b.to_vec()
}

/// Hexadecimal digit character (lowercase), for values below sixteen.
pub open spec fn hex_char(d: int) -> char {
    if d < 10 {
        crate::text::digit_char(d)
    } else if d == 10 {
        'a'
    } else if d == 11 {
        'b'
    } else if d == 12 {
        'c'
    } else if d == 13 {
        'd'
    } else if d == 14 {
        'e'
    } else {
        'f'
    }
}

/// JSON escape of one character, exactly as the canonical serializer
/// writes it: the seven short escapes, `\u00..` for other control
/// characters, everything else verbatim.
pub open spec fn esc_char(c: char) -> Seq<char> {
    if c == '"' {
        seq!['\\', '"']
    } else if c == '\\' {
        seq!['\\', '\\']
    } else if c as u32 == 8 {
        seq!['\\', 'b']
    } else if c as u32 == 9 {
        seq!['\\', 't']
    } else if c as u32 == 10 {
        seq!['\\', 'n']
    } else if c as u32 == 12 {
        seq!['\\', 'f']
    } else if c as u32 == 13 {
        seq!['\\', 'r']
    } else if (c as u32) < 32 {
        seq!['\\', 'u', '0', '0', hex_char(c as u32 as int / 16), hex_char(c as u32 as int % 16)]
    } else {
        seq![c]
    }
}

/// JSON escape of a whole string body.
pub open spec fn json_escaped(s: Seq<char>) -> Seq<char>
    decreases s.len(),
{
    if s.len() == 0 {
        Seq::empty()
    } else {
        json_escaped(s.drop_last()) + esc_char(s.last())
    }
}

fn hex_str(d: u32) -> (r: &'static str)
    requires
        d < 16,
    ensures
        r@ =~= seq![hex_char(d as int)],
{
    proof {
        reveal_strlit("a");
        reveal_strlit("b");
        reveal_strlit("c");
        reveal_strlit("d");
        reveal_strlit("e");
        reveal_strlit("f");
    }
    if d < 10 {
        digit_str(d as u64)
    } else if d == 10 {
        "a"
    } else if d == 11 {
        "b"
    } else if d == 12 {
        "c"
    } else if d == 13 {
        "d"
    } else if d == 14 {
        "e"
    } else {
        "f"
    }
}

/// The JSON string-body escape of `s`, matching the canonical
/// serializer byte for byte.
pub fn escape_json_string(s: &str) -> (r: String)
    ensures
        r@ == json_escaped(s@),
{
    let l = s.unicode_len();
    let mut r = String::new();
    let mut i: usize = 0;
    proof {
        assert(s@.take(0) =~= Seq::<char>::empty());
    }
    while i < l
        invariant
            i <= l,
            l == s@.len(),
            r@ == json_escaped(s@.take(i as int)),
        decreases l - i,
    {
        let c = s.get_char(i);
        let cv = c as u32;
        proof {
            assert(s@.take(i + 1).drop_last() =~= s@.take(i as int));
            assert(s@.take(i + 1).last() == s@[i as int]);
        }
        if cv == 34 {
            r.append("\\\"");
            proof {
                reveal_strlit("\\\"");
                assert("\\\""@ =~= seq!['\\', '"']);
            }
        } else if cv == 92 {
            r.append("\\\\");
            proof {
                reveal_strlit("\\\\");
                assert("\\\\"@ =~= seq!['\\', '\\']);
            }
        } else if cv == 8 {
            r.append("\\b");
            proof {
                reveal_strlit("\\b");
                assert("\\b"@ =~= seq!['\\', 'b']);
            }
        } else if cv == 9 {
            r.append("\\t");
            proof {
                reveal_strlit("\\t");
                assert("\\t"@ =~= seq!['\\', 't']);
            }
        } else if cv == 10 {
            r.append("\\n");
            proof {
                reveal_strlit("\\n");
                assert("\\n"@ =~= seq!['\\', 'n']);
            }
        } else if cv == 12 {
            r.append("\\f");
            proof {
                reveal_strlit("\\f");
                assert("\\f"@ =~= seq!['\\', 'f']);
            }
        } else if cv == 13 {
            r.append("\\r");
            proof {
                reveal_strlit("\\r");
                assert("\\r"@ =~= seq!['\\', 'r']);
            }
        } else if cv < 32 {
            r.append("\\u00");
            let hi = hex_str(cv / 16);
            let lo = hex_str(cv % 16);
            r.append(hi);
            r.append(lo);
            proof {
                reveal_strlit("\\u00");
                assert("\\u00"@ =~= seq!['\\', 'u', '0', '0']);
            }
        } else {
            let piece = s.substring_char(i, i + 1);
            r.append(piece);
            proof {
                assert(piece@ =~= seq![s@[i as int]]);
            }
        }
        proof {
            assert(r@ =~= json_escaped(s@.take(i + 1)));
        }
        i = i + 1;
    }
    proof {
        assert(s@.take(l as int) =~= s@);
    }
    r
}

/// The canonical signable text of an envelope: the four fields in fixed
/// order, string fields escaped, no whitespace.
pub open spec fn spec_signable(
    message_type: Seq<char>,
    id: Seq<char>,
    ts: int,
    payload: Seq<char>,
) -> Seq<char> {
    "{\"type\":\""@ + json_escaped(message_type) + "\",\"id\":\""@ + json_escaped(id)
        + "\",\"ts\":"@ + dec_int(ts) + ",\"payload\":"@ + payload + "}"@
}

/// Canonical signable text, built deterministically from the fields;
/// signing and verifying both rebuild it with this one function.
pub fn signable_string(message_type: &str, id: &str, ts: i64, payload: &str) -> (r: String)
    ensures
        r@ == spec_signable(message_type@, id@, ts as int, payload@),
{
    let mut r = String::from_str("{\"type\":\"");
    let t = escape_json_string(message_type);
    r.append(t.as_str());
    r.append("\",\"id\":\"");
    let idp = escape_json_string(id);
    r.append(idp.as_str());
    r.append("\",\"ts\":");
    let tss = i64_to_string(ts);
    r.append(tss.as_str());
    r.append(",\"payload\":");
    r.append(payload);
    r.append("}");
    proof {
        assert(r@ =~= spec_signable(message_type@, id@, ts as int, payload@));
    }
    r
}

/// An unsigned envelope around `payload`.
pub fn unsigned_envelope(message_type: &str, id: &str, ts: i64, payload: &str) -> (r: Envelope)
    ensures
        r.message_type@ == message_type@,
        r.id@ == id@,
        r.ts == ts,
        r.sig is None,
        r.payload@ == payload@,
{
    Envelope {
        message_type: message_type.to_owned(),
        id: id.to_owned(),
        ts,
        sig: None,
        payload: payload.to_owned(),
    }
}

/// A signed envelope: the signature is the Ed25519 signature of the
/// canonical signable text, base64-encoded.
pub fn sign_envelope(secret: &[u8], message_type: &str, id: &str, ts: i64, payload: &str) -> (r:
    Envelope)
    requires
        secret@.len() == 32,
    ensures
        r.message_type@ == message_type@,
        r.id@ == id@,
        r.ts == ts,
        r.payload@ == payload@,
        r.sig matches Some(s) && s@ == b64_of(
            ed25519_sig(
                secret@,
                vstd::utf8::encode_utf8(spec_signable(message_type@, id@, ts as int, payload@)),
            ),
        ),
{
    let signable = signable_string(message_type, id, ts, payload);
    let sig_bytes = ed25519_sign(secret, signable.as_str().as_bytes());
    let sig_b64 = b64_encode(sig_bytes.as_slice());
    Envelope {
        message_type: message_type.to_owned(),
        id: id.to_owned(),
        ts,
        sig: Some(sig_b64),
        payload: payload.to_owned(),
    }
}

/// What checking an envelope's signature under `pubkey` must come to:
/// no signature reads as invalid; an undecodable or wrongly sized one
/// is a malformed message; otherwise strict verification decides.
pub open spec fn spec_verify_envelope(
    message_type: Seq<char>,
    id: Seq<char>,
    ts: int,
    payload: Seq<char>,
    sig: Option<Seq<char>>,
    pubkey: Seq<u8>,
) -> Result<bool, SigError> {
    match sig {
        None => Ok(false),
        Some(s) => match b64_decode_spec(s) {
            Some(sb) => if sb.len() == 64 {
                Ok(
                    ed25519_valid(
                        pubkey,
                        vstd::utf8::encode_utf8(spec_signable(message_type, id, ts, payload)),
                        sb,
                    ),
                )
            } else {
                Err(SigError::BadEncoding)
            },
            None => Err(SigError::BadEncoding),
        },
    }
}

/// Check an envelope's signature against the signer's public key bytes.
pub fn verify_envelope(envelope: &Envelope, pubkey: &[u8]) -> (r: Result<bool, SigError>)
    ensures
        r == spec_verify_envelope(
            envelope.message_type@,
            envelope.id@,
            envelope.ts as int,
            envelope.payload@,
            match envelope.sig {
                Some(ref s) => Some(s@),
                None => None,
            },
            pubkey@,
        ),
{
    let sig_b64 = match &envelope.sig {
        Some(s) => s,
        None => {
            return Ok(false);
        },
    };
    let sig_bytes = match b64_decode(sig_b64.as_str()) {
        Some(v) => v,
        None => {
            return Err(SigError::BadEncoding);
        },
    };
    if sig_bytes.len() != 64 {
        return Err(SigError::BadEncoding);
    }
    let signable = signable_string(
        envelope.message_type.as_str(),
        envelope.id.as_str(),
        envelope.ts,
        envelope.payload.as_str(),
    );
    Ok(ed25519_verify(pubkey, signable.as_str().as_bytes(), sig_bytes.as_slice()))
}

/// A fresh authentication challenge: 32 random bytes, base64-encoded.
pub fn random_challenge() -> (r: String)
    ensures
        exists|b: Seq<u8>| b.len() == 32 && r@ == b64_of(b),
        r@.len() == 44,
{
    let bytes = random_bytes_32();
    b64_encode(bytes.as_slice())
}

/// Check a detached signature: both the public key and the signature
/// come base64-encoded, and any malformed part reads as invalid.
pub fn verify_signature(pubkey_b64: &str, msg: &[u8], sig_b64: &str) -> (r: bool)
    ensures
        r == match (b64_decode_spec(pubkey_b64@), b64_decode_spec(sig_b64@)) {
            (Some(pk), Some(sb)) => ed25519_valid(pk, msg@, sb),
            _ => false,
        },
{
    let pk = match b64_decode(pubkey_b64) {
        Some(v) => v,
        None => {
            return false;
        },
    };
    let sb = match b64_decode(sig_b64) {
        Some(v) => v,
        None => {
            return false;
        },
    };
    ed25519_verify(pk.as_slice(), msg, sb.as_slice())
}


/// Serializing the canonical signable object twice from the same
/// logical input yields identical text (and so identical bytes): the
/// canonical form is a function of the four fields alone.
pub proof fn lemma_canonical_form_deterministic(
    message_type: Seq<char>,
    id: Seq<char>,
    ts: int,
    payload: Seq<char>,
    r1: Seq<char>,
    r2: Seq<char>,
)
    requires
        r1 == spec_signable(message_type, id, ts, payload),
        r2 == spec_signable(message_type, id, ts, payload),
    ensures
        r1 == r2,
{
}

} // verus!
