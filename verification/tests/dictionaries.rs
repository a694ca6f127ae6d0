use plist_ffi::creation::{
    plist_new_array, plist_new_bool, plist_new_data, plist_new_dict, plist_new_int, plist_new_string,
    plist_new_uint,
};
use plist_ffi::dict::{
    internal_get_bool, internal_get_i64, internal_get_u64, plist_dict_copy_bool, plist_dict_copy_data,
    plist_dict_copy_int, plist_dict_copy_item, plist_dict_copy_string, plist_dict_copy_uint,
    plist_dict_get_bool, plist_dict_get_int, plist_dict_get_item, plist_dict_get_item_key,
    plist_dict_get_size, plist_dict_get_uint, plist_dict_item_get_key, plist_dict_merge,
    plist_dict_new_iter, plist_dict_next_item, plist_dict_remove_item, plist_dict_set_item,
};
use plist_ffi::getters::{plist_get_bool_val, plist_get_data_ptr, plist_get_int_val, plist_get_string_val, plist_get_uint_val};
use plist_ffi::value::{PlistDict, PlistValue};
use plist_ffi::{NodeType, PlistErr, PlistWrapper};

fn key(s: &str) -> String {
    s.to_string()
}

fn set(d: &mut PlistValue, k: &str, v: PlistValue) {
    plist_dict_set_item(d, key(k), PlistWrapper::new_node(v));
}

fn keys_in_order(d: &PlistValue) -> Vec<String> {
    let mut it = plist_dict_new_iter();
    let mut out = Vec::new();
    loop {
        match plist_dict_next_item(d, &mut it) {
            Some(Some((k, _))) => out.push(k),
            Some(None) => return out,
            None => panic!("not a dictionary"),
        }
    }
}

fn item<'a>(d: &'a PlistValue, k: &str) -> Option<&'a PlistValue> {
    match d {
        PlistValue::Dictionary(dict) => dict.get(&key(k)),
        _ => None,
    }
}

#[test]
fn set_then_get() {
    let mut d = plist_new_dict();
    set(&mut d, "a", plist_new_uint(1));
    set(&mut d, "b", plist_new_uint(2));
    assert_eq!(plist_dict_get_size(&d), 2);
    assert_eq!(plist_get_uint_val(item(&d, "a").unwrap()), Some(1));
    assert_eq!(plist_get_uint_val(item(&d, "b").unwrap()), Some(2));
    set(&mut d, "a", plist_new_uint(3));
    assert_eq!(plist_dict_get_size(&d), 2);
    assert_eq!(plist_get_uint_val(item(&d, "a").unwrap()), Some(3));
    assert_eq!(plist_get_uint_val(item(&d, "b").unwrap()), Some(2));
    assert!(item(&d, "c").is_none());
}

#[test]
fn set_keeps_order_and_appends_new_keys() {
    let mut d = plist_new_dict();
    set(&mut d, "x", plist_new_uint(1));
    set(&mut d, "y", plist_new_uint(2));
    set(&mut d, "z", plist_new_uint(3));
    set(&mut d, "x", plist_new_uint(4));
    assert_eq!(keys_in_order(&d), vec![key("x"), key("y"), key("z")]);
    assert_eq!(plist_dict_get_item(&d, &key("z")), Some(2));
    assert_eq!(plist_dict_get_item(&d, &key("w")), None);
}

#[test]
fn remove_moves_the_last_entry_into_place() {
    let mut d = plist_new_dict();
    for (i, k) in ["a", "b", "c", "d"].iter().enumerate() {
        set(&mut d, k, plist_new_uint(i as u64));
    }
    plist_dict_remove_item(&mut d, &key("b"));
    assert_eq!(plist_dict_get_size(&d), 3);
    assert_eq!(keys_in_order(&d), vec![key("a"), key("d"), key("c")]);
    assert!(item(&d, "b").is_none());
    assert_eq!(plist_get_uint_val(item(&d, "d").unwrap()), Some(3));
    plist_dict_remove_item(&mut d, &key("c"));
    assert_eq!(keys_in_order(&d), vec![key("a"), key("d")]);
    set(&mut d, "b", plist_new_uint(9));
    assert_eq!(keys_in_order(&d), vec![key("a"), key("d"), key("b")]);
    assert_eq!(plist_get_uint_val(item(&d, "b").unwrap()), Some(9));
}

#[test]
fn operations_on_other_nodes_do_nothing() {
    let mut n = plist_new_uint(5);
    set(&mut n, "a", plist_new_uint(1));
    plist_dict_remove_item(&mut n, &key("a"));
    assert_eq!(plist_get_uint_val(&n), Some(5));
    assert_eq!(plist_dict_get_size(&n), 0);
    assert_eq!(plist_dict_get_item(&n, &key("a")), None);
    let mut it = plist_dict_new_iter();
    assert!(plist_dict_next_item(&n, &mut it).is_none());
    assert!(matches!(it.node(), NodeType::Iterator(0)));
    assert_eq!(plist_dict_get_bool(&n, &key("a")), 0);
    assert_eq!(plist_dict_get_int(&n, &key("a")), 0);
    assert_eq!(plist_dict_get_uint(&n, &key("a")), 0);
}

#[test]
fn iteration_visits_each_entry_then_stops() {
    let mut d = plist_new_dict();
    set(&mut d, "one", plist_new_uint(1));
    set(&mut d, "two", plist_new_uint(2));
    let mut it = plist_dict_new_iter();
    assert_eq!(plist_dict_next_item(&d, &mut it), Some(Some((key("one"), 0))));
    assert_eq!(plist_dict_next_item(&d, &mut it), Some(Some((key("two"), 1))));
    assert_eq!(plist_dict_next_item(&d, &mut it), Some(None));
    assert_eq!(plist_dict_next_item(&d, &mut it), Some(None));
    assert!(matches!(it.node(), NodeType::Iterator(4)));
}

#[test]
fn children_can_be_changed_in_place() {
    let mut d = plist_new_dict();
    set(&mut d, "a", plist_new_uint(1));
    let pos = plist_dict_get_item(&d, &key("a")).unwrap();
    if let PlistValue::Dictionary(dict) = &mut d {
        *dict.value_at_mut(pos) = plist_new_string("now text".to_string());
    }
    assert_eq!(plist_get_string_val(item(&d, "a").unwrap()), Some("now text".to_string()));
}

#[test]
fn item_keys_of_handles() {
    let child = PlistWrapper::new_child(u32::MAX, Some(key("name")), 1);
    assert_eq!(plist_dict_get_item_key(&child), Some(key("name")));
    let k = plist_dict_item_get_key(&child).unwrap();
    assert_eq!(plist_get_string_val(&k), Some(key("name")));
    let owned = PlistWrapper::new_node(plist_new_uint(1));
    assert_eq!(plist_dict_get_item_key(&owned), None);
    assert!(plist_dict_item_get_key(&owned).is_none());
    let keyless = PlistWrapper::new_child(u32::MAX, None, 1);
    assert!(plist_dict_item_get_key(&keyless).is_none());
}

#[test]
fn merge_overrides_and_appends() {
    let mut t = plist_new_dict();
    set(&mut t, "a", plist_new_uint(1));
    set(&mut t, "b", plist_new_uint(2));
    let mut s = plist_new_dict();
    set(&mut s, "c", plist_new_uint(30));
    set(&mut s, "a", plist_new_uint(10));
    plist_dict_merge(&mut t, PlistWrapper::new_node(s));
    assert_eq!(keys_in_order(&t), vec![key("a"), key("b"), key("c")]);
    assert_eq!(plist_get_uint_val(item(&t, "a").unwrap()), Some(10));
    assert_eq!(plist_get_uint_val(item(&t, "b").unwrap()), Some(2));
    assert_eq!(plist_get_uint_val(item(&t, "c").unwrap()), Some(30));
    // A source that is not a dictionary changes nothing.
    plist_dict_merge(&mut t, PlistWrapper::new_node(plist_new_uint(0)));
    assert_eq!(plist_dict_get_size(&t), 3);
}

#[test]
fn nested_dictionaries_are_copied_whole() {
    let mut inner = plist_new_dict();
    set(&mut inner, "deep", plist_new_string("v".to_string()));
    let mut src = plist_new_dict();
    set(&mut src, "inner", inner);
    set(&mut src, "list", plist_new_array());
    let mut dst = plist_new_dict();
    assert_eq!(plist_dict_copy_item(&mut dst, &src, &key("inner"), None), PlistErr::PLIST_ERR_SUCCESS);
    plist_dict_remove_item(&mut src, &key("inner"));
    let copied = item(&dst, "inner").unwrap();
    assert_eq!(plist_get_string_val(item(copied, "deep").unwrap()), Some(key("v")));
}

#[test]
fn copy_item_with_and_without_alternative_key() {
    let mut src = plist_new_dict();
    set(&mut src, "from", plist_new_int(-7));
    let mut dst = plist_new_dict();
    assert_eq!(plist_dict_copy_item(&mut dst, &src, &key("to"), Some(&key("from"))), PlistErr::PLIST_ERR_SUCCESS);
    assert_eq!(plist_get_int_val(item(&dst, "to").unwrap()), Some(-7));
    assert_eq!(plist_dict_copy_item(&mut dst, &src, &key("from"), None), PlistErr::PLIST_ERR_SUCCESS);
    assert_eq!(plist_dict_copy_item(&mut dst, &src, &key("missing"), None), PlistErr::PLIST_ERR_INVALID_ARG);
    assert_eq!(plist_dict_get_size(&dst), 2);
    let mut not_dict = plist_new_uint(1);
    assert_eq!(plist_dict_copy_item(&mut not_dict, &src, &key("from"), None), PlistErr::PLIST_ERR_INVALID_ARG);
    assert_eq!(plist_dict_copy_item(&mut dst, &plist_new_uint(1), &key("from"), None), PlistErr::PLIST_ERR_INVALID_ARG);
}

#[test]
fn typed_copies() {
    let mut src = plist_new_dict();
    set(&mut src, "flag", plist_new_string("TRUE".to_string()));
    set(&mut src, "num", plist_new_string("-12".to_string()));
    set(&mut src, "big", plist_new_string("ffffffffffffffff".to_string()));
    set(&mut src, "bytes", plist_new_data(vec![1, 2]));
    set(&mut src, "text", plist_new_string("hi".to_string()));
    let mut dst = plist_new_dict();
    assert_eq!(plist_dict_copy_bool(&mut dst, &src, &key("b"), Some(&key("flag"))), PlistErr::PLIST_ERR_SUCCESS);
    assert_eq!(plist_get_bool_val(item(&dst, "b").unwrap()), Some(1));
    assert_eq!(plist_dict_copy_int(&mut dst, &src, &key("i"), Some(&key("num"))), PlistErr::PLIST_ERR_SUCCESS);
    assert_eq!(plist_get_int_val(item(&dst, "i").unwrap()), Some(-12));
    assert_eq!(plist_dict_copy_uint(&mut dst, &src, &key("u"), Some(&key("big"))), PlistErr::PLIST_ERR_SUCCESS);
    assert_eq!(plist_get_uint_val(item(&dst, "u").unwrap()), Some(u64::MAX));
    assert_eq!(plist_dict_copy_int(&mut dst, &src, &key("i2"), Some(&key("big"))), PlistErr::PLIST_ERR_INVALID_ARG);
    assert_eq!(plist_dict_copy_uint(&mut dst, &src, &key("u2"), Some(&key("num"))), PlistErr::PLIST_ERR_INVALID_ARG);
    assert_eq!(plist_dict_copy_data(&mut dst, &src, &key("bytes"), None), PlistErr::PLIST_ERR_SUCCESS);
    assert_eq!(plist_get_data_ptr(item(&dst, "bytes").unwrap()), Some(&vec![1, 2]));
    assert_eq!(plist_dict_copy_data(&mut dst, &src, &key("text"), None), PlistErr::PLIST_ERR_INVALID_ARG);
    assert_eq!(plist_dict_copy_string(&mut dst, &src, &key("text"), None), PlistErr::PLIST_ERR_SUCCESS);
    assert_eq!(plist_get_string_val(item(&dst, "text").unwrap()), Some(key("hi")));
    assert_eq!(plist_dict_copy_string(&mut dst, &src, &key("bytes"), None), PlistErr::PLIST_ERR_INVALID_ARG);
    assert_eq!(plist_dict_copy_bool(&mut dst, &src, &key("text"), None), PlistErr::PLIST_ERR_INVALID_ARG);
    assert_eq!(plist_dict_get_size(&dst), 5);
}

fn dict_with(k: &str, v: PlistValue) -> PlistDict {
    match {
        let mut d = plist_new_dict();
        set(&mut d, k, v);
        d
    } {
        PlistValue::Dictionary(d) => d,
        _ => unreachable!(),
    }
}

#[test]
fn boolean_readings() {
    let k = key("k");
    assert_eq!(internal_get_bool(&dict_with("k", plist_new_bool(1)), &k), Some(true));
    assert_eq!(internal_get_bool(&dict_with("k", plist_new_data(vec![0])), &k), Some(false));
    assert_eq!(internal_get_bool(&dict_with("k", plist_new_data(vec![200])), &k), Some(true));
    assert_eq!(internal_get_bool(&dict_with("k", plist_new_data(vec![1, 1])), &k), None);
    assert_eq!(internal_get_bool(&dict_with("k", plist_new_int(-5)), &k), Some(false));
    assert_eq!(internal_get_bool(&dict_with("k", plist_new_int(0)), &k), Some(false));
    assert_eq!(internal_get_bool(&dict_with("k", plist_new_uint(u64::MAX)), &k), Some(true));
    assert_eq!(internal_get_bool(&dict_with("k", plist_new_string("tRuE".to_string())), &k), Some(true));
    assert_eq!(internal_get_bool(&dict_with("k", plist_new_string("FALSE".to_string())), &k), Some(false));
    assert_eq!(internal_get_bool(&dict_with("k", plist_new_string("yes".to_string())), &k), None);
    assert_eq!(internal_get_bool(&dict_with("k", plist_new_array()), &k), None);
    assert_eq!(internal_get_bool(&dict_with("other", plist_new_bool(1)), &k), None);
    let mut d = plist_new_dict();
    set(&mut d, "k", plist_new_string("true".to_string()));
    assert_eq!(plist_dict_get_bool(&d, &k), 1);
    set(&mut d, "k", plist_new_string("nope".to_string()));
    assert_eq!(plist_dict_get_bool(&d, &k), 0);
}

#[test]
fn signed_readings() {
    let k = key("k");
    let get = |v: PlistValue| internal_get_i64(&dict_with("k", v), &k);
    assert_eq!(get(plist_new_data(vec![0xff])), Some(255));
    assert_eq!(get(plist_new_data(vec![0xff, 0xff])), Some(-1));
    assert_eq!(get(plist_new_data(vec![0x34, 0x12])), Some(0x1234));
    assert_eq!(get(plist_new_data(vec![0, 0, 0, 0x80])), Some(i32::MIN as i64));
    assert_eq!(get(plist_new_data(vec![1, 0, 0, 0, 0, 0, 0, 0x80])), Some(i64::MIN + 1));
    assert_eq!(get(plist_new_data(vec![1, 2, 3])), None);
    assert_eq!(get(plist_new_int(-9)), Some(-9));
    assert_eq!(get(plist_new_uint(u64::MAX)), None);
    assert_eq!(get(plist_new_uint(7)), Some(7));
    assert_eq!(get(plist_new_string("10".to_string())), Some(10));
    assert_eq!(get(plist_new_string("+10".to_string())), Some(10));
    assert_eq!(get(plist_new_string("-42".to_string())), Some(-42));
    assert_eq!(get(plist_new_string("ff".to_string())), Some(255));
    assert_eq!(get(plist_new_string("0x1F".to_string())), Some(31));
    assert_eq!(get(plist_new_string("-0x10".to_string())), Some(-16));
    assert_eq!(get(plist_new_string("-9223372036854775808".to_string())), Some(i64::MIN));
    assert_eq!(get(plist_new_string("9223372036854775808".to_string())), None);
    assert_eq!(get(plist_new_string("7fffffffffffffff".to_string())), Some(i64::MAX));
    assert_eq!(get(plist_new_string("".to_string())), None);
    assert_eq!(get(plist_new_string("-".to_string())), None);
    assert_eq!(get(plist_new_string("0x".to_string())), None);
    assert_eq!(get(plist_new_string("1 2".to_string())), None);
    assert_eq!(get(plist_new_string("00000000000000000000000012".to_string())), Some(12));
    assert_eq!(get(plist_new_bool(1)), None);
    let mut d = plist_new_dict();
    set(&mut d, "k", plist_new_string("12abc".to_string()));
    assert_eq!(plist_dict_get_int(&d, &k), 0x12abc);
    set(&mut d, "k", plist_new_string("xyz".to_string()));
    assert_eq!(plist_dict_get_int(&d, &k), 0);
}

#[test]
fn unsigned_readings() {
    let k = key("k");
    let get = |v: PlistValue| internal_get_u64(&dict_with("k", v), &k);
    assert_eq!(get(plist_new_data(vec![0xff, 0xff])), Some(0xffff));
    assert_eq!(get(plist_new_data(vec![0xff; 4])), Some(0xffff_ffff));
    assert_eq!(get(plist_new_data(vec![0xff; 8])), Some(u64::MAX));
    assert_eq!(get(plist_new_data(vec![1, 0, 0, 0, 0])), None);
    assert_eq!(get(plist_new_int(-1)), None);
    assert_eq!(get(plist_new_int(5)), Some(5));
    assert_eq!(get(plist_new_string("18446744073709551615".to_string())), Some(u64::MAX));
    assert_eq!(get(plist_new_string("18446744073709551616".to_string())), None);
    assert_eq!(get(plist_new_string("-1".to_string())), None);
    assert_eq!(get(plist_new_string("+0xff".to_string())), Some(255));
    assert_eq!(get(plist_new_string("A".to_string())), Some(10));
    let mut d = plist_new_dict();
    set(&mut d, "k", plist_new_uint(77));
    assert_eq!(plist_dict_get_uint(&d, &k), 77);
    assert_eq!(plist_dict_get_uint(&d, &key("absent")), 0);
}

#[test]
fn little_endian_bytes_read_back() {
    let k = key("k");
    let signed = |v: Vec<u8>| internal_get_i64(&dict_with("k", plist_new_data(v)), &k);
    let unsigned = |v: Vec<u8>| internal_get_u64(&dict_with("k", plist_new_data(v)), &k);
    for n in [i64::MIN, -1, 0, 1, 0x0123_4567_89ab_cdef, i64::MAX] {
        assert_eq!(signed(n.to_le_bytes().to_vec()), Some(n));
    }
    for n in [i32::MIN, -70000, -1, 0, 70000, i32::MAX] {
        assert_eq!(signed(n.to_le_bytes().to_vec()), Some(n as i64));
    }
    for n in [i16::MIN, -2, 0, 300, i16::MAX] {
        assert_eq!(signed(n.to_le_bytes().to_vec()), Some(n as i64));
    }
    for b in [0u8, 127, 128, 255] {
        assert_eq!(signed(vec![b]), Some(b as i64));
        assert_eq!(unsigned(vec![b]), Some(b as u64));
    }
    for n in [0u64, 1, 0xfedc_ba98_7654_3210, u64::MAX] {
        assert_eq!(unsigned(n.to_le_bytes().to_vec()), Some(n));
    }
    for n in [0u32, 65536, u32::MAX] {
        assert_eq!(unsigned(n.to_le_bytes().to_vec()), Some(n as u64));
    }
    for n in [0u16, 258, u16::MAX] {
        assert_eq!(unsigned(n.to_le_bytes().to_vec()), Some(n as u64));
    }
}

#[test]
fn a_full_run_of_iteration() {
    let mut d = plist_new_dict();
    for k in ["q", "w", "e", "r"] {
        set(&mut d, k, plist_new_string(k.to_uppercase()));
    }
    plist_dict_remove_item(&mut d, &key("w"));
    let mut it = plist_dict_new_iter();
    let mut seen = Vec::new();
    for n in 0..3usize {
        match plist_dict_next_item(&d, &mut it) {
            Some(Some((k, pos))) => {
                assert_eq!(pos, n);
                assert_eq!(plist_get_string_val(item(&d, &k).unwrap()), Some(k.to_uppercase()));
                seen.push(k);
            }
            _ => panic!("an entry was expected"),
        }
    }
    assert_eq!(seen, vec![key("q"), key("r"), key("e")]);
    assert_eq!(plist_dict_next_item(&d, &mut it), Some(None));
}

#[test]
fn repeated_set_and_remove_keeps_contents_right() {
    let mut d = plist_new_dict();
    for round in 0..50u64 {
        set(&mut d, "a", plist_new_uint(round));
        set(&mut d, "b", plist_new_uint(round + 100));
        plist_dict_remove_item(&mut d, &key("a"));
        assert_eq!(plist_dict_get_size(&d), 1);
        assert_eq!(plist_get_uint_val(item(&d, "b").unwrap()), Some(round + 100));
        set(&mut d, "c", plist_new_uint(round + 200));
        plist_dict_remove_item(&mut d, &key("b"));
        plist_dict_remove_item(&mut d, &key("c"));
        assert_eq!(plist_dict_get_size(&d), 0);
    }
}

#[test]
fn decimal_renderings_read_back() {
    let k = key("k");
    let signed = |t: String| internal_get_i64(&dict_with("k", plist_new_string(t)), &k);
    let unsigned = |t: String| internal_get_u64(&dict_with("k", plist_new_string(t)), &k);
    for n in [i64::MIN, -1000, -1, 0, 7, 10, 99, i64::MAX] {
        assert_eq!(signed(n.to_string()), Some(n));
    }
    for v in [0u64, 10, 12345, u64::MAX] {
        assert_eq!(unsigned(v.to_string()), Some(v));
    }
}
