use observation_tools::ids::{Error, ExecutionId, GroupId, ObservationId, PayloadId};
use observation_tools::keys::{ExecutionObservationKey, GroupChildrenKey, PayloadKey, metadata_key};

#[test]
fn ids_show_in_simple_form() {
    let id = ExecutionId(0x018e9a3a2c1b7e3f8d2a4b5c6d7e8f9a);
    assert_eq!(id.to_string(), "018e9a3a2c1b7e3f8d2a4b5c6d7e8f9a");
    assert_eq!(ObservationId::nil().to_string(), "00000000000000000000000000000000");
    assert_eq!(ExecutionId::nil().0, 0);
}

#[test]
fn ids_read_back() {
    let id = ObservationId(0xdeadbeef_0000_1111_2222_333344445555);
    let text = id.to_string();
    assert_eq!(ObservationId::parse(&text).unwrap(), id);
    let hyphenated = "018e9a3a-2c1b-7e3f-8d2a-4b5c6d7e8f9a";
    assert_eq!(ExecutionId::parse(hyphenated).unwrap().0, 0x018e9a3a2c1b7e3f8d2a4b5c6d7e8f9a);
}

#[test]
fn bad_ids_are_refused() {
    assert!(matches!(ExecutionId::parse("not-a-uuid"), Err(Error::InvalidExecutionId(_))));
    assert!(matches!(ObservationId::parse(""), Err(Error::InvalidObservationId(_))));
}

#[test]
fn fresh_ids_are_simple_uuids() {
    let g = GroupId::new();
    assert_eq!(g.as_str().len(), 32);
    assert!(g.as_str().chars().all(|c| c.is_ascii_hexdigit() && !c.is_ascii_uppercase()));
    let p = PayloadId::new();
    assert_eq!(p.as_str().len(), 32);
    assert_ne!(ExecutionId::new(), ExecutionId::new());
    assert_eq!(GroupId::from("abc".to_string()).as_str(), "abc");
}

#[test]
fn keys_join_parts_with_colons() {
    let e = ExecutionId(1);
    let o = ObservationId(2);
    let p = PayloadId::from_text("pid");
    let key = ExecutionObservationKey { execution_id: &e, observation_id: &o }.encode();
    assert_eq!(key, "00000000000000000000000000000001:00000000000000000000000000000002");
    assert_eq!(ExecutionObservationKey::encode_prefix(&e), "00000000000000000000000000000001:");
    let pk = PayloadKey { observation_id: &o, payload_id: &p }.encode();
    assert_eq!(pk, "00000000000000000000000000000002:pid");
    let prefix = PayloadKey::encode_prefix(&o);
    assert_eq!(PayloadKey::parse_payload_id(&pk, &prefix), Some("pid".to_string()));
    assert_eq!(PayloadKey::parse_payload_id("other:pid", &prefix), None);
    let gk = GroupChildrenKey { execution_id: &e, parent_id: "_ROOT_", child_id: "c" }.encode();
    assert_eq!(gk, "00000000000000000000000000000001:_ROOT_:c");
    assert_eq!(GroupChildrenKey::encode_prefix(&e, "g"), "00000000000000000000000000000001:g:");
    assert_eq!(GroupChildrenKey::resume_key("p:", "t"), "p:t\0");
    assert_eq!(metadata_key(&o), "00000000000000000000000000000002");
}

#[test]
fn fresh_execution_and_observation_ids_are_version_7() {
    let e = ExecutionId::new().0;
    let o = ObservationId::new().0;
    for v in [e, o] {
        assert_eq!((v >> 76) & 0xf, 7);
        assert_eq!((v >> 62) & 0x3, 2);
    }
    assert_eq!(&ExecutionId::new().to_string()[12..13], "7");
}
