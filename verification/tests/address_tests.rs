use webcrane::address::{decode_addr, encode_addr, try_decode_addr};

#[test]
fn encode_addr_is_base64_of_ip_and_port() {
    assert_eq!(encode_addr("127.0.0.1", "5432"), "MTI3LjAuMC4xOjU0MzI=");
}

#[test]
fn decode_addr_gives_back_the_address() {
    let encoded = encode_addr("192.168.0.17", "5432");
    assert_eq!(decode_addr(&encoded), "192.168.0.17:5432");
    assert_eq!(try_decode_addr(&encoded), Some("192.168.0.17:5432".to_string()));
    let unicode = encode_addr("höst", "1");
    assert_eq!(decode_addr(&unicode), "höst:1");
}

#[test]
fn invalid_credentials_decode_to_nothing() {
    assert_eq!(try_decode_addr("not base64!"), None);
    // Valid Base64 of the byte 0xff, which is not UTF-8.
    assert_eq!(try_decode_addr("/w=="), None);
}

#[test]
fn encode_addr_text_round_trips() {
    let c = webcrane::address::encode_addr_text("127.0.0.1:5432");
    assert_eq!(c, "MTI3LjAuMC4xOjU0MzI=");
    assert_eq!(decode_addr(&c), "127.0.0.1:5432");
}

#[test]
fn push_endpoint_shows_credentials_of_its_address() {
    let (addr, creds) = webcrane::config::push_endpoint([192, 168, 1, 20], 80);
    assert_eq!(addr, "192.168.1.20:80");
    assert_eq!(creds, "MTkyLjE2OC4xLjIwOjgw");
    assert_eq!(decode_addr(&creds), addr);
    let (addr, creds) = webcrane::config::push_endpoint([127, 0, 0, 1], 5432);
    assert_eq!(addr, "127.0.0.1:5432");
    assert_eq!(creds, "MTI3LjAuMC4xOjU0MzI=");
}

#[test]
fn only_canonical_base64_is_accepted() {
    // "QQ==" is the encoding of "A"; "QR==" sets trailing bits, "QQ" lacks
    // its padding: neither is what the encoder makes.
    assert_eq!(try_decode_addr("QQ=="), Some("A".to_string()));
    assert_eq!(try_decode_addr("QR=="), None);
    assert_eq!(try_decode_addr("QQ"), None);
    assert_eq!(try_decode_addr(""), Some(String::new()));
}
