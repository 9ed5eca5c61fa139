use flowmux::hashing::{to_lower_hex, Sha256Stream};
use sha2::Digest;

#[test]
fn streaming_digest_matches_one_shot() {
    let payload = b"flowmux ASR sha256 round-trip";
    let mut h = Sha256Stream::new();
    h.update(&payload[..7]);
    h.update(&payload[7..]);
    let streamed = to_lower_hex(&h.finalize());
    let one_shot = format!("{:x}", sha2::Sha256::digest(payload));
    assert_eq!(streamed, one_shot);
}

#[test]
fn empty_input_digest_and_hex_form() {
    let h = Sha256Stream::new();
    assert_eq!(
        to_lower_hex(&h.finalize()),
        "e3b0c44298fc1c149afbf4c8996fb92427ae41e4649b934ca495991b7852b855"
    );
    assert_eq!(to_lower_hex(&[0x00, 0x0f, 0xa0, 0xff]), "000fa0ff");
    assert_eq!(to_lower_hex(&[]), "");
}
