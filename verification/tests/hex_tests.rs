use inventorize::hash::{HashAlgorithm, HashValue};
use inventorize::util::{
    bytes_to_hex_string, char_to_nibble, has_hidden_component, hex_string_to_bytes, is_hidden,
    nibble_to_char, str_eq, FileError,
};

#[test]
fn encode_empty() {
    assert_eq!(bytes_to_hex_string(&[]), "");
}

#[test]
fn encode_bytes() {
    assert_eq!(bytes_to_hex_string(&[0x00, 0xff, 0x1a]), "00ff1a");
    assert_eq!(bytes_to_hex_string(&[0xde, 0xad, 0xbe, 0xef]), "deadbeef");
}

#[test]
fn decode_bytes() {
    assert_eq!(hex_string_to_bytes("00ff1a"), Some(vec![0x00, 0xff, 0x1a]));
    assert_eq!(hex_string_to_bytes(""), Some(vec![]));
}

#[test]
fn decode_is_case_insensitive() {
    assert_eq!(hex_string_to_bytes("00FF1A"), Some(vec![0x00, 0xff, 0x1a]));
    assert_eq!(hex_string_to_bytes("DeAdBeEf"), Some(vec![0xde, 0xad, 0xbe, 0xef]));
}

#[test]
fn decode_rejects_odd_length() {
    assert_eq!(hex_string_to_bytes("abc"), None);
    assert_eq!(hex_string_to_bytes("0"), None);
}

#[test]
fn decode_rejects_non_hex() {
    assert_eq!(hex_string_to_bytes("zz"), None);
    assert_eq!(hex_string_to_bytes("0g"), None);
    assert_eq!(hex_string_to_bytes("0~00"), None);
}

#[test]
fn round_trip_all_bytes() {
    let mut data: Vec<u8> = Vec::new();
    for b in 0..=255u8 {
        data.push(b);
    }
    let encoded = bytes_to_hex_string(&data);
    assert_eq!(encoded.len(), 512);
    assert_eq!(hex_string_to_bytes(&encoded), Some(data));
}

#[test]
fn nibble_conversions() {
    assert_eq!(nibble_to_char(0), '0');
    assert_eq!(nibble_to_char(9), '9');
    assert_eq!(nibble_to_char(10), 'a');
    assert_eq!(nibble_to_char(15), 'f');
    assert_eq!(char_to_nibble('7'), Some(7));
    assert_eq!(char_to_nibble('b'), Some(11));
    assert_eq!(char_to_nibble('B'), Some(11));
    assert_eq!(char_to_nibble('x'), None);
}

#[test]
fn algorithm_names() {
    assert_eq!(HashAlgorithm::Md5.name(), "md5");
    assert_eq!(HashAlgorithm::Sha1.name(), "sha1");
    assert_eq!(HashAlgorithm::from_name("md5"), Ok(HashAlgorithm::Md5));
    assert_eq!(HashAlgorithm::from_name("sha1"), Ok(HashAlgorithm::Sha1));
    assert!(HashAlgorithm::from_name("MD5").is_err());
    assert!(HashAlgorithm::from_name("sha256").is_err());
    assert!(HashAlgorithm::from_name("").is_err());
}

#[test]
fn hash_value_parsing() {
    let v = HashValue::from_hex("00ff").unwrap();
    assert_eq!(v.to_hex(), "00ff");
    assert!(HashValue::from_hex("zz").is_err());
    assert!(HashValue::from_hex("abc").is_err());
    let w = HashValue::from_bytes(vec![0x00, 0xff]);
    assert!(v.equals(&w));
    assert!(!v.equals(&HashValue::from_bytes(vec![0x00])));
    assert!(w.duplicate().equals(&w));
}

#[test]
fn hidden_final_component() {
    assert!(is_hidden(".git"));
    assert!(is_hidden("a/.hidden"));
    assert!(is_hidden("a/b/.c"));
    assert!(!is_hidden("a.txt"));
    assert!(!is_hidden("a/b"));
    assert!(!is_hidden(".git/config"));
    assert!(!is_hidden(""));
}

#[test]
fn hidden_any_component() {
    assert!(has_hidden_component(".git/config"));
    assert!(has_hidden_component("a/.git/nested/file"));
    assert!(has_hidden_component(".x"));
    assert!(!has_hidden_component("a/b/c.txt"));
    assert!(!has_hidden_component("src/main"));
}

#[test]
fn string_comparison() {
    assert!(str_eq("abc", "abc"));
    assert!(!str_eq("abc", "abd"));
    assert!(!str_eq("abc", "ab"));
    assert!(str_eq("", ""));
}

#[test]
fn file_error_holds_path_and_message() {
    let e = FileError::new("some/file", "permission denied");
    assert_eq!(e.path(), "some/file");
    assert_eq!(e.message(), "permission denied");
}
