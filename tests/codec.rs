use frauth::codec::{encode, Error, PublicFile};
use frauth::crypto::{KeyPair, PrivateKey};
use frauth::schema::{PublishUserInfo, Timestamp};
use frauth::table::Table;

const SECRET_HEX: &str = "9d61b19deffd5a60ba844af492ec2cc44449c5697b326919703bac031cae7f60";
const PUBLIC_HEX: &str = "d75a980182b10ab7d54bfed3c964073a0ee172f3daa62325af021a68f707511a";
const EMPTY_SIG_HEX: &str = "e5564300c360ac729086e2cc806e828a84877f1eb8e5d974d873e065224901555fb8821590a33bacc61e39701cf9b46bd25bf5f0595bbe24655141438e7a100b";

fn unhex(s: &str) -> Vec<u8> {
    (0..s.len() / 2)
        .map(|i| u8::from_str_radix(&s[2 * i..2 * i + 2], 16).unwrap())
        .collect()
}

fn test_keypair() -> KeyPair {
    let mut bytes = [0u8; 32];
    bytes.copy_from_slice(&unhex(SECRET_HEX));
    KeyPair::from_secret(PrivateKey { bytes })
}

fn payload_for(kp: &KeyPair) -> Vec<u8> {
    format!(
        "name = \"Alice\"\npubkey = \"{}\"\nfriends = []\n\n[identities]\nemail = \"alice@example.com\"\n",
        kp.public_text()
    )
    .into_bytes()
}

fn identity_for(kp: &KeyPair) -> PublishUserInfo {
    let mut identities = Table::new();
    identities.insert("email".to_string(), "alice@example.com".to_string());
    PublishUserInfo {
        name: "Alice".to_string(),
        status: None,
        pubkey: kp.public_text(),
        last_updated: Some(Timestamp { secs: 1_600_000_000, nanos: 0 }),
        friends: Vec::new(),
        identities,
    }
}

fn envelope(payload: &str, sig_line: &str) -> Vec<u8> {
    format!("FRAUTH-CONTENTS\n{}FRAUTH-SIGNATURE\n{}\nFRAUTH-ENDOFFILE\n", payload, sig_line).into_bytes()
}

#[test]
fn public_key_derivation_matches_known_vector() {
    let kp = test_keypair();
    assert_eq!(kp.public().to_vec(), unhex(PUBLIC_HEX));
    assert_eq!(kp.public_text(), "11qYAYKxCrfVS/7TyWQHOg7hcvPapiMlrwIaaPcHURo=");
}

#[test]
fn signature_matches_known_vector() {
    let kp = test_keypair();
    assert_eq!(kp.sign(&[]), unhex(EMPTY_SIG_HEX));
}

#[test]
fn envelope_text_has_the_documented_layout() {
    let kp = test_keypair();
    let doc = PublicFile::from_public_info(&kp, b"a = 1\n".to_vec());
    let text = String::from_utf8(doc.to_file_repr()).unwrap();
    let mut lines = text.lines();
    assert_eq!(lines.next(), Some("FRAUTH-CONTENTS"));
    assert_eq!(lines.next(), Some("a = 1"));
    assert_eq!(lines.next(), Some("FRAUTH-SIGNATURE"));
    assert_eq!(lines.next().map(|l| l.len()), Some(88));
    assert_eq!(lines.next(), Some("FRAUTH-ENDOFFILE"));
    assert_eq!(lines.next(), None);
    assert!(text.ends_with("FRAUTH-ENDOFFILE\n"));
}

#[test]
fn round_trip_gives_back_identity() {
    let kp = test_keypair();
    let payload = payload_for(&kp);
    let text = encode(payload.clone(), &kp);
    let doc = PublicFile::try_from_str(&text).unwrap();
    assert_eq!(doc.payload, payload);
    assert_eq!(doc.sig, kp.sign(&payload));
    let got = doc.authenticate(Some(identity_for(&kp))).unwrap();
    assert_eq!(got.name, "Alice");
    assert_eq!(got.pubkey, kp.public_text());
    assert_eq!(got.identities.len(), 1);
    assert_eq!(got.identities.get("email"), Some(&"alice@example.com".to_string()));
}

#[test]
fn round_trip_with_generated_key() {
    let kp = KeyPair::generate();
    let payload = payload_for(&kp);
    let text = encode(payload.clone(), &kp);
    let doc = PublicFile::try_from_str(&text).unwrap();
    assert_eq!(doc.payload, payload);
    assert!(doc.authenticate(Some(identity_for(&kp))).is_ok());
}

#[test]
fn crlf_envelope_is_read_line_by_line() {
    let kp = test_keypair();
    let payload = payload_for(&kp);
    let text = String::from_utf8(encode(payload.clone(), &kp)).unwrap().replace('\n', "\r\n");
    let doc = PublicFile::try_from_str(text.as_bytes()).unwrap();
    assert_eq!(doc.payload, payload);
    assert!(doc.authenticate(Some(identity_for(&kp))).is_ok());
}

#[test]
fn tampered_payload_fails_verification() {
    let kp = test_keypair();
    let payload = payload_for(&kp);
    let text = encode(payload.clone(), &kp);
    let start = "FRAUTH-CONTENTS\n".len();
    for pos in [start + 8, start + 10, start + payload.len() - 3] {
        let mut tampered = text.clone();
        tampered[pos] ^= 0x01;
        let doc = PublicFile::try_from_str(&tampered).unwrap();
        assert_ne!(doc.payload, payload);
        assert_eq!(doc.authenticate(Some(identity_for(&kp))).unwrap_err(), Error::Verification);
    }
}

#[test]
fn flipping_any_payload_byte_never_yields_the_signed_payload() {
    let kp = test_keypair();
    let payload = payload_for(&kp);
    let text = encode(payload.clone(), &kp);
    let start = "FRAUTH-CONTENTS\n".len();
    for pos in start..start + payload.len() {
        let mut tampered = text.clone();
        tampered[pos] ^= 0x01;
        if let Ok(doc) = PublicFile::try_from_str(&tampered) {
            assert_ne!(doc.payload, payload);
            assert!(doc.authenticate(Some(identity_for(&kp))).is_err());
        }
    }
}

#[test]
fn zero_signature_markers_is_layout_error() {
    let text = b"FRAUTH-CONTENTS\na = 1\nb = 2\nc = 3\nFRAUTH-ENDOFFILE\n".to_vec();
    assert_eq!(PublicFile::try_from_str(&text).unwrap_err(), Error::Layout);
}

#[test]
fn two_signature_markers_is_layout_error() {
    let kp = test_keypair();
    let text = encode(b"a = 1\n".to_vec(), &kp);
    let sig_line = String::from_utf8(text.clone()).unwrap().lines().nth(3).unwrap().to_string();
    let doubled = envelope("a = 1\nFRAUTH-SIGNATURE\nb = 2\n", &sig_line);
    assert_eq!(PublicFile::try_from_str(&doubled).unwrap_err(), Error::Layout);
}

#[test]
fn empty_body_is_layout_error() {
    let text = b"FRAUTH-CONTENTS\nFRAUTH-SIGNATURE\nAAAA\nFRAUTH-ENDOFFILE\nFRAUTH-ENDOFFILE\n".to_vec();
    assert_eq!(PublicFile::try_from_str(&text).unwrap_err(), Error::Layout);
}

#[test]
fn empty_signature_region_is_layout_error() {
    let text = b"FRAUTH-CONTENTS\na = 1\nb = 2\nFRAUTH-SIGNATURE\nFRAUTH-ENDOFFILE\n".to_vec();
    assert_eq!(PublicFile::try_from_str(&text).unwrap_err(), Error::Layout);
}

#[test]
fn wrong_markers_are_layout_errors() {
    assert_eq!(PublicFile::try_from_str(b"").unwrap_err(), Error::Layout);
    let bad_top = envelope("a = 1\n", "AAAA").split_off(1);
    assert_eq!(PublicFile::try_from_str(&bad_top).unwrap_err(), Error::Layout);
    let mut bad_end = envelope("a = 1\n", "AAAA");
    bad_end.truncate(bad_end.len() - 2);
    assert_eq!(PublicFile::try_from_str(&bad_end).unwrap_err(), Error::Layout);
}

#[test]
fn bad_signature_text_is_signature_error() {
    let not_base64 = envelope("a = 1\n", "not base64!");
    assert_eq!(PublicFile::try_from_str(&not_base64).unwrap_err(), Error::SignatureDecode);
    let too_short = envelope("a = 1\n", "AAAA");
    assert_eq!(PublicFile::try_from_str(&too_short).unwrap_err(), Error::SignatureDecode);
    // 64 bytes whose last byte has its high bits set
    let high = base64::encode([0xffu8; 64]);
    let bad_scalar = envelope("a = 1\n", &high);
    assert_eq!(PublicFile::try_from_str(&bad_scalar).unwrap_err(), Error::SignatureDecode);
}

#[test]
fn signature_line_is_trimmed() {
    let zeros = base64::encode([0u8; 64]);
    let padded = envelope("a = 1\n", &format!("  {}\t", zeros));
    let doc = PublicFile::try_from_str(&padded).unwrap();
    assert_eq!(doc.sig, vec![0u8; 64]);
    assert_eq!(doc.payload, b"a = 1\n".to_vec());
}

#[test]
fn unparsed_payload_is_payload_error() {
    let kp = test_keypair();
    let doc = PublicFile::try_from_str(&encode(b"a = 1\n".to_vec(), &kp)).unwrap();
    assert_eq!(doc.authenticate(None).unwrap_err(), Error::PayloadParse);
}

#[test]
fn bad_public_key_is_public_key_error() {
    let kp = test_keypair();
    let doc = PublicFile::try_from_str(&encode(payload_for(&kp), &kp)).unwrap();
    let mut info = identity_for(&kp);
    info.pubkey = "not base64!".to_string();
    assert_eq!(doc.authenticate(Some(info)).unwrap_err(), Error::PublicKeyDecode);
    let mut info = identity_for(&kp);
    info.pubkey = base64::encode([1u8; 16]);
    assert_eq!(doc.authenticate(Some(info)).unwrap_err(), Error::PublicKeyDecode);
}

#[test]
fn other_key_is_verification_error() {
    let kp = test_keypair();
    let other = KeyPair::generate();
    let doc = PublicFile::try_from_str(&encode(payload_for(&kp), &kp)).unwrap();
    let mut info = identity_for(&kp);
    info.pubkey = other.public_text();
    assert_eq!(doc.authenticate(Some(info)).unwrap_err(), Error::Verification);
}
