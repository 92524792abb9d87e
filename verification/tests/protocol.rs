use clarion::plugin::protocol::{response_from_parts, JsonRpcVersion, ProtocolError};

#[test]
fn proto_02_json_rpc_version_rejects_non_2_0() {
    // "3.0"
    assert!(JsonRpcVersion::from_text("3.0").is_err(), "should reject version 3.0");
    // "1.0"
    assert!(JsonRpcVersion::from_text("1.0").is_err(), "should reject version 1.0");
    // "" (empty)
    assert!(JsonRpcVersion::from_text("").is_err(), "should reject empty version string");
}

#[test]
fn json_rpc_version_accepts_2_0_and_names_the_refused_version() {
    assert_eq!(JsonRpcVersion::from_text("2.0"), Ok(JsonRpcVersion));
    assert_eq!(
        JsonRpcVersion::from_text("3.0"),
        Err("unsupported JSON-RPC version \"3.0\"; expected \"2.0\"".to_owned())
    );
}

#[test]
fn proto_08_response_with_both_result_and_error_rejected() {
    let error = ProtocolError { code: -32600, message: "oops".to_owned(), data: None };
    let err = match response_from_parts(1, Some("{\"ok\":true}".to_owned()), Some(Ok(error))) {
        Ok(_) => panic!("must reject"),
        Err(m) => m,
    };
    assert!(err.contains("both"), "error message should mention `both` fields present; got: {err}");
}

#[test]
fn proto_08_response_with_neither_result_nor_error_rejected() {
    let err = match response_from_parts(1, None, None) {
        Ok(_) => panic!("must reject"),
        Err(m) => m,
    };
    assert!(err.contains("neither"), "error message should mention neither field present; got: {err}");
}

#[test]
fn response_from_parts_keeps_the_one_member_present() {
    let ok = response_from_parts(7, Some("{\"ok\":true}".to_owned()), None).unwrap();
    assert_eq!(ok.id, 7);
    assert_eq!(ok.payload, Ok("{\"ok\":true}".to_owned()));
    let pe = ProtocolError { code: -32601, message: "no such method".to_owned(), data: None };
    let err = response_from_parts(8, None, Some(Ok(pe.clone()))).unwrap();
    assert_eq!(err.id, 8);
    assert_eq!(err.payload, Err(pe));
    // The error member's decoding failure is reported when it is the only member.
    assert_eq!(
        response_from_parts(9, None, Some(Err("invalid type".to_owned()))).err(),
        Some("invalid type".to_owned())
    );
    // With both members, the refusal wins whatever the error member held.
    assert_eq!(
        response_from_parts(9, Some("1".to_owned()), Some(Err("invalid type".to_owned()))).err(),
        Some(
            "response envelope must have exactly one of `result` or `error`, but both were present"
                .to_owned()
        )
    );
}
