use std::collections::HashMap;

use bytes::BytesMut;
use ddmw_util::app::{conf_path, DEFAULT_CONF_FILE};
use ddmw_util::kvparam::{calc_buf_size, parsed_value, KVParams};
use ddmw_util::Error;

#[test]
fn kvparam_empty_kvparam_size() {
    let params: HashMap<String, String> = HashMap::new();
    assert_eq!(calc_buf_size(&params), 0);
}

#[test]
fn kvparam_single_kvparam_size() {
    let mut params = HashMap::new();
    params.insert("a".to_string(), "b".to_string());
    assert_eq!(calc_buf_size(&params), 5);
}

#[test]
fn empty_buffer_writes_nothing() {
    let p = KVParams::new();
    assert_eq!(p.calc_buf_size(), 0);
    let mut buf = BytesMut::new();
    assert!(p.write_bytes(&mut buf).is_ok());
    assert_eq!(buf.len(), 0);
    assert_eq!(buf.capacity(), 0);
}

#[test]
fn single_entry_wire_form() {
    let mut p = KVParams::new();
    p.add_param("a", "b");
    assert_eq!(p.calc_buf_size(), 5);
    let mut buf = BytesMut::new();
    assert!(p.write_bytes(&mut buf).is_ok());
    assert_eq!(&buf[..], b"a b\n\n");
}

#[test]
fn write_appends_after_existing_bytes() {
    let mut p = KVParams::new();
    p.add_param("key", "value");
    let mut buf = BytesMut::new();
    buf.extend_from_slice(b"xy");
    assert!(p.write_bytes(&mut buf).is_ok());
    assert_eq!(&buf[..], b"xykey value\n\n");
}

#[test]
fn written_length_matches_size() {
    let mut p = KVParams::new();
    p.add_param("channel", "7");
    p.add_param("name", "sender-one");
    p.add_param("empty", "");
    p.add_param("größe", "zwölf");
    let mut buf = BytesMut::new();
    assert!(p.write_bytes(&mut buf).is_ok());
    assert_eq!(buf.len(), p.calc_buf_size());
    let expected = (7 + 1 + 1 + 1) + (4 + 1 + 10 + 1) + (5 + 1 + 0 + 1) + (7 + 1 + 6 + 1) + 1;
    assert_eq!(p.calc_buf_size(), expected);
    assert_eq!(buf[buf.len() - 1], b'\n');
    assert_eq!(buf[buf.len() - 2], b'\n');
}

#[test]
fn multibyte_text_counts_bytes() {
    let mut p = KVParams::new();
    p.add_param("é", "€");
    assert_eq!(p.calc_buf_size(), 2 + 1 + 3 + 1 + 1);
    let mut buf = BytesMut::new();
    assert!(p.write_bytes(&mut buf).is_ok());
    assert_eq!(&buf[..], "é €\n\n".as_bytes());
}

#[test]
fn size_ignores_insertion_order() {
    let mut a = KVParams::new();
    a.add_param("one", "1");
    a.add_param("two", "22");
    a.add_param("three", "333");
    let mut b = KVParams::new();
    b.add_param("three", "333");
    b.add_param("one", "1");
    b.add_param("two", "22");
    assert_eq!(a.calc_buf_size(), b.calc_buf_size());
    assert_eq!(a.calc_buf_size(), 6 + 7 + 10 + 1);
}

#[test]
fn size_is_repeatable() {
    let mut p = KVParams::new();
    p.add_param("k", "v");
    p.add_param("other", "value");
    let first = p.calc_buf_size();
    let second = p.calc_buf_size();
    assert_eq!(first, second);
    assert_eq!(first, 4 + 12 + 1);
}

#[test]
fn second_set_overwrites_first() {
    let mut p = KVParams::new();
    p.add_param("x", "1");
    p.add_param("x", "2");
    assert_eq!(p.get_str("x"), Some("2"));
    let inner = p.into_inner();
    assert_eq!(inner.len(), 1);
    assert_eq!(inner.get("x").map(|s| s.as_str()), Some("2"));
}

#[test]
fn overwritten_entry_serializes_once() {
    let mut p = KVParams::new();
    p.add_param("x", "1");
    p.add_param("x", "2");
    let mut buf = BytesMut::new();
    assert!(p.write_bytes(&mut buf).is_ok());
    assert_eq!(&buf[..], b"x 2\n\n");
}

#[test]
fn absent_key_is_not_present() {
    let mut p = KVParams::new();
    p.add_param("present", "yes");
    assert_eq!(p.get_str("absent"), None);
    assert_eq!(p.get_param("absent"), None);
    assert_eq!(p.get_param("present"), Some("yes"));
}

#[test]
fn get_int_parses_number() {
    let mut p = KVParams::new();
    p.add_param("count", "42");
    let v: u32 = p.get_int::<u32>("count").unwrap();
    assert_eq!(v, 42);
}

#[test]
fn get_int_bad_format_names_key() {
    let mut p = KVParams::new();
    p.add_param("count", "abc");
    match p.get_int::<u32>("count") {
        Err(Error::BadFormat(m)) => {
            assert!(m.contains("count"));
            assert_eq!(m, "Unable to parse numeric value from parameter 'count'");
        }
        _ => panic!("expected a format error"),
    }
}

#[test]
fn get_int_missing_key() {
    let p = KVParams::new();
    match p.get_int::<u32>("missing") {
        Err(Error::KeyNotFound(k)) => assert_eq!(k, "missing"),
        _ => panic!("expected a missing key"),
    }
}

#[test]
fn get_int_signed_and_out_of_range() {
    let mut p = KVParams::new();
    p.add_param("neg", "-5");
    p.add_param("big", "300");
    assert_eq!(p.get_int::<i32>("neg").unwrap(), -5);
    assert!(matches!(p.get_int::<u32>("neg"), Err(Error::BadFormat(_))));
    assert!(matches!(p.get_int::<u8>("big"), Err(Error::BadFormat(_))));
    assert_eq!(p.get_int::<u16>("big").unwrap(), 300);
}

#[test]
fn parsed_value_outcomes() {
    assert!(matches!(parsed_value::<u32>("n", Some(7)), Ok(7)));
    match parsed_value::<u32>("n", None) {
        Err(Error::BadFormat(m)) => assert_eq!(m, "Unable to parse numeric value from parameter 'n'"),
        _ => panic!("expected a format error"),
    }
}

#[test]
fn from_hashmap_keeps_entries() {
    let mut hm = HashMap::new();
    hm.insert("a".to_string(), "1".to_string());
    hm.insert("bb".to_string(), "22".to_string());
    let p = KVParams::from_hashmap(hm);
    assert_eq!(p.get_str("a"), Some("1"));
    assert_eq!(p.get_str("bb"), Some("22"));
    assert_eq!(p.calc_buf_size(), 4 + 6 + 1);
    let back = p.into_inner();
    assert_eq!(back.len(), 2);
    assert_eq!(back.get("bb").map(|s| s.as_str()), Some("22"));
}

#[test]
fn hashmap_and_buffer_sizes_agree() {
    let mut hm = HashMap::new();
    hm.insert("alpha".to_string(), "1".to_string());
    hm.insert("beta".to_string(), "two".to_string());
    let direct = calc_buf_size(&hm);
    let p = KVParams::from_hashmap(hm);
    assert_eq!(direct, p.calc_buf_size());
    assert_eq!(direct, 8 + 9 + 1);
}

#[test]
fn error_messages() {
    assert_eq!(Error::BadFormat("x".to_string()).message(), "Bad format; x");
    assert_eq!(Error::Figment("y".to_string()).message(), "Figiment error; y");
    assert_eq!(Error::FileNotFound("f".to_string()).message(), "File not found; f");
    assert_eq!(Error::SerializeError("s".to_string()).message(), "Unable to serialize; s");
    assert_eq!(Error::KeyNotFound("k".to_string()).message(), "Key not found; k");
}

#[test]
fn conf_path_order() {
    assert_eq!(conf_path(Some("a.toml".to_string()), Some("b.toml".to_string())), "a.toml");
    assert_eq!(conf_path(None, Some("b.toml".to_string())), "b.toml");
    assert_eq!(conf_path(None, None), DEFAULT_CONF_FILE);
    assert_eq!(conf_path(None, None), "ddmwapp.toml");
}
