use optima::codec::{decodable, hex_upper, json_string, of_hex_pair, urldecode, urlencode};

#[test]
fn unreserved_characters_stay_in_an_address() {
    assert_eq!(urlencode("AZaz09-_.~"), "AZaz09-_.~");
    assert_eq!(urlencode("a b&c=d/?"), "a%20b%26c%3Dd%2F%3F");
    assert_eq!(urlencode("ü"), "%C3%BC");
}

#[test]
fn decoding_undoes_encoding() {
    for s in ["", "plain", "p@ss word+1%", "Grüße, 世界", "100%25"] {
        let e = urlencode(s);
        assert!(decodable(&e));
        assert_eq!(urldecode(&e), s);
    }
}

#[test]
fn decoding_takes_what_is_no_escape_as_it_is() {
    assert_eq!(urldecode("a+b"), "a b");
    assert_eq!(urldecode("100%"), "100%");
    assert_eq!(urldecode("%zz"), "%zz");
    assert_eq!(urldecode("%41"), "A");
}

#[test]
fn bytes_that_are_no_text_are_repaired() {
    assert_eq!(urldecode("%ff"), "\u{fffd}");
    assert_eq!(urldecode("%c3%bc"), "ü");
}

#[test]
fn escapes_that_part_a_character_are_not_decodable() {
    assert!(!decodable("%aü"));
    assert!(decodable("%aa"));
}

#[test]
fn a_script_literal_cannot_be_left() {
    assert_eq!(json_string("a\"b\\c"), "\"a\\\"b\\\\c\"");
    assert_eq!(json_string("</script>"), "\"\\u003c/script\\u003e\"");
}

#[test]
fn hexadecimal_digits() {
    assert_eq!(hex_upper(&[0x00, 0x0f, 0xa5, 0xff]), "000FA5FF");
    assert_eq!(of_hex_pair('f', 'F'), Some(255));
    assert_eq!(of_hex_pair('+', '7'), Some(7));
    assert_eq!(of_hex_pair('7', '+'), None);
}
