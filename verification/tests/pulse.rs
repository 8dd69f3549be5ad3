use beacon_rand::errors::SamplerError;
use beacon_rand::pulse::parse_hex_output;
use beacon_rand::pulse::PulseRecord;

#[test]
fn hex_output_decodes_exactly() {
    let mut hex = String::from("FF10");
    hex.push_str(&"00".repeat(62));
    let v = parse_hex_output(&hex).unwrap();
    assert_eq!(v.len(), 64);
    assert_eq!(v[0], 0xFF);
    assert_eq!(v[1], 0x10);
    for i in 2..64 {
        assert_eq!(v[i], 0);
    }
}

#[test]
fn hex_output_rejects_bad_lengths_and_digits() {
    assert!(parse_hex_output("").is_none());
    assert!(parse_hex_output(&"0".repeat(127)).is_none());
    assert!(parse_hex_output(&"0".repeat(129)).is_none());
    // Lowercase digits are not part of the beacon's encoding.
    assert!(parse_hex_output(&"ff".repeat(64)).is_none());
    let mut bad = "G".repeat(1);
    bad.push_str(&"0".repeat(127));
    assert!(parse_hex_output(&bad).is_none());
}

#[test]
fn from_parts_records_the_instant() {
    let hex = "AB".repeat(64);
    let rec = PulseRecord::from_parts(
        String::from("https://example.invalid/pulse/1"),
        3,
        44,
        "1970-01-01T00:00:00Z",
        &hex,
    )
    .unwrap();
    assert_eq!(rec.chain_index, 3);
    assert_eq!(rec.pulse_index, 44);
    assert_eq!(rec.timestamp, 0);
    assert_eq!(rec.output_value.len(), 64);
    assert_eq!(rec.output_value[0], 0xAB);

    let later = PulseRecord::from_parts(
        String::from("uri"),
        1,
        1,
        "1970-01-02T00:00:00Z",
        &hex,
    )
    .unwrap();
    assert_eq!(later.timestamp, 86400);
}

#[test]
fn from_parts_rejects_malformed_input() {
    let hex = "AB".repeat(64);
    assert!(matches!(
        PulseRecord::from_parts(String::from("uri"), 1, 1, "not-a-timestamp", &hex),
        Err(SamplerError::ParseError)
    ));
    assert!(matches!(
        PulseRecord::from_parts(String::from("uri"), 1, 1, "1970-01-01T00:00:00Z", "AB"),
        Err(SamplerError::ParseError)
    ));
}
