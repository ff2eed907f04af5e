use esp_pulser::command::{
    decode, update_outcome, update_target, update_url, Command, UpdateError, COMMAND_BUFFER_LEN,
    UPDATE_BIN_URL,
};

#[test]
fn nothing_received_is_no_command() {
    assert_eq!(decode(&[0; 10], 0), None);
    assert_eq!(decode(&[1, 2, 3, 4, 5, 6, 7, 8, 9, 10], 0), None);
}

#[test]
fn restart() {
    assert_eq!(decode(&[0, 9, 9, 9, 9, 9, 9, 9, 9, 9], 1), Some(Command::Restart));
    assert_eq!(decode(&[0; 10], 10), Some(Command::Restart));
}

#[test]
fn update_carries_the_received_bytes_after_the_opcode() {
    let buf = [1, b'1', b'.', b'2', b'.', b'3', 0, 0, 0, 0];
    assert_eq!(decode(&buf, 6), Some(Command::Update { tag: b"1.2.3".to_vec() }));
    assert_eq!(decode(&buf, 1), Some(Command::Update { tag: vec![] }));
    assert_eq!(decode(&buf, 10), Some(Command::Update { tag: b"1.2.3\0\0\0\0".to_vec() }));
    // a count beyond the buffer reads to its end
    assert_eq!(decode(&buf, 11), Some(Command::Update { tag: b"1.2.3\0\0\0\0".to_vec() }));
    assert_eq!(COMMAND_BUFFER_LEN, 10);
}

#[test]
fn amplitudes_are_the_second_byte() {
    let mut buf = [0u8; 10];
    buf[0] = 2;
    buf[1] = 35;
    assert_eq!(decode(&buf, 2), Some(Command::SetLedAmplitude(35)));
    buf[0] = 4;
    buf[1] = 255;
    assert_eq!(decode(&buf, 2), Some(Command::SetHapticAmplitude(255)));
    // the byte is read even if it was not received
    assert_eq!(decode(&buf, 1), Some(Command::SetHapticAmplitude(255)));
}

#[test]
fn port_is_read_high_byte_first() {
    let mut buf = [0u8; 10];
    buf[0] = 3;
    buf[1] = 0x0d;
    buf[2] = 0x05;
    assert_eq!(decode(&buf, 3), Some(Command::ConnectUdp { port: 3333 }));
    buf[1] = 0xff;
    buf[2] = 0xff;
    assert_eq!(decode(&buf, 3), Some(Command::ConnectUdp { port: 65535 }));
    buf[1] = 0x01;
    buf[2] = 0x00;
    assert_eq!(decode(&buf, 3), Some(Command::ConnectUdp { port: 256 }));
}

#[test]
fn other_opcodes_are_unknown() {
    assert_eq!(decode(&[5, 0, 0, 0, 0, 0, 0, 0, 0, 0], 1), Some(Command::Unknown(5)));
    assert_eq!(decode(&[255, 1, 2, 0, 0, 0, 0, 0, 0, 0], 3), Some(Command::Unknown(255)));
}

#[test]
fn address_is_the_pattern_with_the_tag_filled_in() {
    assert_eq!(
        update_url("1.2.3"),
        "https://github.com/krokosik/esp-pulser/releases/download/v1.2.3/esp-pulser"
    );
    assert_eq!(update_url("1.2.3"), UPDATE_BIN_URL.replace("TAG", "1.2.3"));
    assert_eq!(update_url(""), UPDATE_BIN_URL.replace("TAG", ""));
    assert_eq!(update_url("TAG"), UPDATE_BIN_URL);
    assert_eq!(update_url("aTAGb"), UPDATE_BIN_URL.replace("TAG", "aTAGb"));
}

#[test]
fn update_target_parses_the_address() {
    let uri = update_target("0.4.1").unwrap();
    assert_eq!(uri.scheme_str(), Some("https"));
    assert_eq!(uri.host(), Some("github.com"));
    assert_eq!(uri.path(), "/krokosik/esp-pulser/releases/download/v0.4.1/esp-pulser");
    assert_eq!(
        uri.to_string(),
        "https://github.com/krokosik/esp-pulser/releases/download/v0.4.1/esp-pulser"
    );
    assert_eq!(
        update_target("").unwrap().path(),
        "/krokosik/esp-pulser/releases/download/v/esp-pulser"
    );
}

#[test]
fn update_target_rejects_an_address_that_does_not_parse() {
    assert_eq!(update_target("1 2").unwrap_err(), UpdateError::InvalidUrl);
    assert_eq!(update_target("1.2.3\0\0").unwrap_err(), UpdateError::InvalidUrl);
    assert_eq!(update_target("1\n").unwrap_err(), UpdateError::InvalidUrl);
}

#[test]
fn update_target_agrees_with_the_parser_on_the_address() {
    for tag in ["1.2.3", "", "a/b", "x?y=1", "x#y", "1 2", "ü", "%", "[", "\\", "\u{7f}"] {
        let parsed = http::Uri::try_from(update_url(tag));
        assert_eq!(update_target(tag).is_ok(), parsed.is_ok(), "{:?}", tag);
    }
}

#[test]
fn update_outcome_maps_the_parse_result() {
    let ok = http::Uri::try_from("https://example.org/a".to_string());
    assert_eq!(update_outcome(ok).unwrap().path(), "/a");
    let bad = http::Uri::try_from(String::new());
    assert!(bad.is_err());
    assert_eq!(update_outcome(bad).unwrap_err(), UpdateError::InvalidUrl);
}
