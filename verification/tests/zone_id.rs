use dyndns::zone_id::ZoneId;

#[test]
fn test_io() {
    let id_str = "30ed3e88cd9a56e0eb2b326a63500f4e";
    let zid = ZoneId::new(id_str).expect("zid can be constructed");
    let output = zid.render();
    assert_eq!(id_str, &output);
}

#[test]
fn test_zone_id_wrong_length() {
    let zid = ZoneId::new("30ed3e88cd9a56e0eb2b326a63500fe");
    assert!(zid.is_err());
    if let Err(e) = zid {
        let msg = e.message();
        assert_eq!(msg, "Hex string must be 32 characters long");
    }
    let zid = ZoneId::new("30ed3e88cd9a56e0eb2b326a63500feee");
    assert!(zid.is_err());
    if let Err(e) = zid {
        let msg = e.message();
        assert_eq!(msg, "Hex string must be 32 characters long");
    }
}

#[test]
fn test_invalid_hex() {
    let zid = ZoneId::new("00zzzzzzzzzzzzzzzzzzzzzzzzzzzzzz");
    assert!(zid.is_err());
    if let Err(e) = zid {
        let msg = e.message();
        assert_eq!(msg, "Invalid hex byte at position 1: zz");
    }
    let zid = ZoneId::new("0000zzzzzzzzzzzzzzzzzzzzzzzzzzzz");
    assert!(zid.is_err());
    if let Err(e) = zid {
        let msg = e.message();
        assert_eq!(msg, "Invalid hex byte at position 2: zz");
    }
}

#[test]
fn test_uppercase_renders_lowercase() {
    let zid = ZoneId::new("30ED3E88CD9A56E0EB2B326A63500F4E").expect("uppercase hex is accepted");
    assert_eq!(zid.render(), "30ed3e88cd9a56e0eb2b326a63500f4e");
}

#[test]
fn test_mixed_case_round_trip() {
    let zid = ZoneId::new("AbCdEf0123456789aBcDeF9876543210").expect("mixed case is accepted");
    assert_eq!(zid.render(), "abcdef0123456789abcdef9876543210");
}

#[test]
fn test_empty_input_is_length_error() {
    let zid = ZoneId::new("");
    assert!(zid.is_err());
    if let Err(e) = zid {
        assert_eq!(e.message(), "Hex string must be 32 characters long");
    }
}

#[test]
fn test_first_invalid_group_is_reported() {
    // both groups are bad: the first one is the one reported
    let zid = ZoneId::new("q0qq0000000000000000000000000000");
    assert!(zid.is_err());
    if let Err(e) = zid {
        assert_eq!(e.message(), "Invalid hex byte at position 0: q0");
    }
}
