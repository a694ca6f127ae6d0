use plist_ffi::creation::{
    plist_copy, plist_new_array, plist_new_bool, plist_new_data, plist_new_dict, plist_new_int,
    plist_new_null, plist_new_real, plist_new_string, plist_new_uid, plist_new_uint,
    plist_new_unix_date,
};
use plist_ffi::getters::{
    plist_get_bool_val, plist_get_data_ptr, plist_get_data_val, plist_get_int_val, plist_get_parent,
    plist_get_key_val, plist_get_node_type, plist_get_real_val, plist_get_string_ptr,
    plist_get_string_val, plist_get_uid_val, plist_get_uint_val, plist_get_unix_date_val,
};
use plist_ffi::value::PlistInteger;
use plist_ffi::{NodeType, PlistErr, PlistFormat, PlistType, PlistWrapper};

#[test]
fn node_types_of_new_nodes() {
    assert_eq!(plist_get_node_type(&plist_new_dict()), PlistType::PLIST_DICT);
    assert_eq!(plist_get_node_type(&plist_new_array()), PlistType::PLIST_ARRAY);
    assert_eq!(plist_get_node_type(&plist_new_string("x".to_string())), PlistType::PLIST_STRING);
    assert_eq!(plist_get_node_type(&plist_new_bool(1)), PlistType::PLIST_BOOLEAN);
    assert_eq!(plist_get_node_type(&plist_new_uint(1)), PlistType::PLIST_INT);
    assert_eq!(plist_get_node_type(&plist_new_int(-1)), PlistType::PLIST_INT);
    assert_eq!(plist_get_node_type(&plist_new_real(2.5f64.to_bits())), PlistType::PLIST_REAL);
    assert_eq!(plist_get_node_type(&plist_new_data(vec![1, 2])), PlistType::PLIST_DATA);
    assert_eq!(plist_get_node_type(&plist_new_unix_date(10)), PlistType::PLIST_DATE);
    assert_eq!(plist_get_node_type(&plist_new_uid(3)), PlistType::PLIST_UID);
    // There is no null node: it is empty data.
    assert_eq!(plist_get_node_type(&plist_new_null()), PlistType::PLIST_DATA);
    assert_eq!(plist_get_data_ptr(&plist_new_null()).map(|d| d.len()), Some(0));
}

#[test]
fn values_read_back() {
    assert_eq!(plist_get_bool_val(&plist_new_bool(7)), Some(1));
    assert_eq!(plist_get_bool_val(&plist_new_bool(0)), Some(0));
    assert_eq!(plist_get_uint_val(&plist_new_uint(u64::MAX)), Some(u64::MAX));
    assert_eq!(plist_get_int_val(&plist_new_uint(u64::MAX)), None);
    assert_eq!(plist_get_int_val(&plist_new_int(i64::MIN)), Some(i64::MIN));
    assert_eq!(plist_get_uint_val(&plist_new_int(-1)), None);
    assert_eq!(plist_get_uint_val(&plist_new_int(42)), Some(42));
    let real = plist_get_real_val(&plist_new_real((-0.125f64).to_bits())).unwrap();
    assert_eq!(f64::from_bits(real), -0.125f64);
    assert_eq!(plist_get_string_val(&plist_new_string("héllo".to_string())), Some("héllo".to_string()));
    assert_eq!(plist_get_key_val(&plist_new_string("k".to_string())), Some("k".to_string()));
    assert_eq!(plist_get_string_ptr(&plist_new_string("abc".to_string())).map(|s| s.len()), Some(3));
    assert_eq!(plist_get_unix_date_val(&plist_new_unix_date(1_700_000_000)), Some(1_700_000_000));
    assert_eq!(plist_get_uid_val(&plist_new_uid(99)), Some(99));
    assert_eq!(plist_get_data_ptr(&plist_new_data(vec![9, 8, 7])), Some(&vec![9, 8, 7]));
}

#[test]
fn getters_of_another_kind_answer_none() {
    let text = plist_new_string("1".to_string());
    assert_eq!(plist_get_bool_val(&text), None);
    assert_eq!(plist_get_uint_val(&text), None);
    assert_eq!(plist_get_int_val(&text), None);
    assert_eq!(plist_get_real_val(&text), None);
    assert_eq!(plist_get_data_val(&text), None);
    assert!(plist_get_data_ptr(&text).is_none());
    assert_eq!(plist_get_unix_date_val(&text), None);
    assert_eq!(plist_get_uid_val(&text), None);
    assert_eq!(plist_get_string_val(&plist_new_uint(1)), None);
    assert!(plist_get_string_ptr(&plist_new_uint(1)).is_none());
}

#[test]
fn data_value_gets_a_trailing_nul() {
    assert_eq!(plist_get_data_val(&plist_new_data(vec![1, 2, 3])), Some(vec![1, 2, 3, 0]));
    assert_eq!(plist_get_data_val(&plist_new_data(vec![])), Some(vec![0]));
}

#[test]
fn copy_is_equal() {
    let source = plist_new_data(vec![5, 6]);
    let copy = plist_copy(&source);
    assert_eq!(plist_get_data_ptr(&copy), Some(&vec![5, 6]));
    let text = plist_copy(&plist_new_string("t".to_string()));
    assert_eq!(plist_get_string_val(&text), Some("t".to_string()));
}

#[test]
fn integer_fits() {
    let n = PlistInteger::from_unsigned(1u64 << 63);
    assert_eq!(n.as_signed(), None);
    assert_eq!(n.as_unsigned(), Some(1u64 << 63));
    let m = PlistInteger::from_signed(-3);
    assert_eq!(m.as_signed(), Some(-3));
    assert_eq!(m.as_unsigned(), None);
    assert_eq!(m.copy().as_signed(), Some(-3));
}

#[test]
fn codes_follow_libplist() {
    assert_eq!(PlistType::PLIST_NONE.code(), -1);
    assert_eq!(PlistType::PLIST_BOOLEAN.code(), 0);
    assert_eq!(PlistType::PLIST_DICT.code(), 5);
    assert_eq!(PlistType::PLIST_UID.code(), 9);
    assert_eq!(PlistType::PLIST_NULL.code(), 10);
    assert_eq!(PlistErr::PLIST_ERR_SUCCESS.code(), 0);
    assert_eq!(PlistErr::PLIST_ERR_INVALID_ARG.code(), -1);
    assert_eq!(PlistErr::PLIST_ERR_IO.code(), -5);
    assert_eq!(PlistErr::PLIST_ERR_UNKNOWN.code(), -255);
    assert_eq!(PlistFormat::PLIST_FORMAT_NONE.code(), 0);
    assert_eq!(PlistFormat::PLIST_FORMAT_OSTEP.code(), 4);
    assert_eq!(PlistFormat::PLIST_FORMAT_PRINT.code(), 10);
    assert_eq!(PlistFormat::PLIST_FORMAT_PLUTIL.code(), 12);
    assert_eq!(plist_ffi::PLIST_OPT_COMPACT | plist_ffi::PLIST_OPT_INDENT, 9);
}

#[test]
fn handles() {
    let mut it = PlistWrapper::new_iterator(4);
    assert_eq!(it.iter_next(), 4);
    assert_eq!(it.iter_next(), 5);
    assert!(matches!(it.node(), NodeType::Iterator(6)));

    let owned = PlistWrapper::new_node(plist_new_uint(3));
    let v = owned.consume().unwrap();
    assert_eq!(plist_get_uint_val(&v), Some(3));

    let child = PlistWrapper::new_child(u32::MAX, Some("k".to_string()), 1);
    assert!(child.consume().is_none());

    let mut node = PlistWrapper::new_node(plist_new_uint(1));
    *node.borrow_self() = plist_new_uint(2);
    match node.node() {
        NodeType::Node(v) => assert_eq!(plist_get_uint_val(v), Some(2)),
        _ => panic!("a node handle stays a node"),
    }
}


#[test]
fn parent_handles() {
    let child = PlistWrapper::new_child(0, Some("k".to_string()), 2);
    let parent = plist_get_parent(&child).unwrap();
    assert!(matches!(parent.node(), NodeType::Child { index: u32::MAX, key: None, depth: 1 }));
    assert!(plist_get_parent(&PlistWrapper::new_node(plist_new_uint(1))).is_none());
    assert!(plist_get_parent(&PlistWrapper::new_iterator(0)).is_none());
}

#[test]
fn the_parent_of_a_root_is_none() {
    // A root dictionary, the handle of one of its items, that item's parent
    // (the root itself), and the parent of that: none.
    let root = PlistWrapper::new_node(plist_new_dict());
    let item = root.child_handle(Some("a".to_string()));
    assert!(matches!(item.node(), NodeType::Child { depth: 1, .. }));
    let parent = plist_get_parent(&item).unwrap();
    assert!(matches!(parent.node(), NodeType::Child { depth: 0, .. }));
    assert!(plist_get_parent(&parent).is_none());
    let grandchild = item.child_handle(Some("b".to_string()));
    assert!(matches!(grandchild.node(), NodeType::Child { depth: 2, .. }));
}
