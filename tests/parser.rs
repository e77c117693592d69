use pico_bridge::error::ParseError;
use pico_bridge::line::{classify_line, match_usb_serial_buf, LineOutcome};
use pico_bridge::number::bytes_to_number;
use pico_bridge::parse::message_parse_build;
use pico_bridge::request::{HostChannel, HostRequest, Interface, Operation};
use pico_bridge::text::{content_len, slice_contains, split_words};
use pico_bridge::writer::{next_write, WriteEvent, WriteStep};

fn line_buf(text: &str) -> [u8; 64] {
    let mut buf = [0u8; 64];
    buf[..text.len()].copy_from_slice(text.as_bytes());
    buf
}

fn parsed(text: &str) -> HostRequest {
    match message_parse_build(text) {
        Ok(req) => req,
        Err(e) => panic!("{:?} for {:?}", e, text),
    }
}

#[test]
fn smi_read_two_hex_words() {
    let req = parsed("smi r 0x10 0x20");
    assert_eq!(req.host_config, Some(HostChannel::Serial));
    assert_eq!(req.interface, Some(Interface::RegisterBus));
    assert_eq!(req.operation, Some(Operation::Read));
    assert_eq!(req.size, 2);
    assert_eq!(req.payload, [16, 32, 0, 0]);
}

#[test]
fn gpio_write_one_decimal_word() {
    let req = parsed("gpio w 5");
    assert_eq!(req.interface, Some(Interface::Gpio));
    assert_eq!(req.operation, Some(Operation::Write));
    assert_eq!(req.size, 1);
    assert_eq!(req.payload, [5, 0, 0, 0]);
}

#[test]
fn unknown_operation_is_rejected() {
    assert_eq!(message_parse_build("smi x 1").unwrap_err(), ParseError::InvalidOperation);
}

#[test]
fn menu_line_gives_no_request_and_no_error() {
    assert!(matches!(match_usb_serial_buf(&line_buf("menu")), Ok(LineOutcome::Menu)));
    assert!(matches!(classify_line("show menu please"), Ok(LineOutcome::Menu)));
    assert!(matches!(classify_line("MENU"), Err(ParseError::InvalidInterface)));
}

#[test]
fn oversized_decimal_word_is_rejected() {
    assert_eq!(message_parse_build("smi r 99999999999").unwrap_err(), ParseError::NumberTooLarge);
}

#[test]
fn six_words_parse_and_seven_do_not() {
    let req = parsed("spi w 1 2 3 4");
    assert_eq!(req.size, 4);
    assert_eq!(req.payload, [1, 2, 3, 4]);
    assert_eq!(message_parse_build("spi w 1 2 3 4 5").unwrap_err(), ParseError::TooManyArguments);
    assert_eq!(message_parse_build("a b c d e f g").unwrap_err(), ParseError::TooManyArguments);
}

#[test]
fn rejection_repeats_without_carried_state() {
    for line in ["bus r 1", "smi q", "smi r 1 2 3 4 5", ""] {
        let first = message_parse_build(line).unwrap_err();
        let second = message_parse_build(line).unwrap_err();
        assert_eq!(first, second);
        let _ = parsed("jtag r 7");
        assert_eq!(message_parse_build(line).unwrap_err(), first);
    }
}

#[test]
fn every_keyword_pair_with_payload_counts() {
    let interfaces = [
        ("smi", Interface::RegisterBus),
        ("cfg", Interface::Config),
        ("gpio", Interface::Gpio),
        ("jtag", Interface::Jtag),
        ("spi", Interface::Spi),
    ];
    let operations = [("r", Operation::Read), ("w", Operation::Write), ("smiset", Operation::BusSpecificSet)];
    let words = ["7", "0x1f", "4294967199", "0xFFFFFFFF"];
    let values = [7u32, 31, 4294967199, 0xffff_ffff];
    for (iw, i) in interfaces {
        for (ow, o) in operations {
            for count in 0..=4usize {
                let mut line = format!("{} {}", iw, ow);
                for w in &words[..count] {
                    line.push(' ');
                    line.push_str(w);
                }
                let req = parsed(&line);
                assert_eq!(req.interface, Some(i));
                assert_eq!(req.operation, Some(o));
                assert_eq!(req.size as usize, count);
                for k in 0..4 {
                    let expected = if k < count { values[k] } else { 0 };
                    assert_eq!(req.payload[k], expected);
                }
                assert!(req.is_complete());
                let sealed = req.validate();
                assert_eq!(sealed.interface(), i);
                assert_eq!(sealed.operation(), o);
                assert_eq!(sealed.size() as usize, count);
                assert_eq!(sealed.channel(), HostChannel::Serial);
            }
        }
    }
}

#[test]
fn keywords_match_in_either_case() {
    let req = parsed("SMI R 1");
    assert_eq!(req.interface, Some(Interface::RegisterBus));
    assert_eq!(req.operation, Some(Operation::Read));
    let req = parsed("GpIo SmiSet 0x2");
    assert_eq!(req.interface, Some(Interface::Gpio));
    assert_eq!(req.operation, Some(Operation::BusSpecificSet));
    assert_eq!(message_parse_build("smii r").unwrap_err(), ParseError::InvalidInterface);
    assert_eq!(message_parse_build("sm r").unwrap_err(), ParseError::InvalidInterface);
    assert_eq!(message_parse_build("smi rw").unwrap_err(), ParseError::InvalidOperation);
}

#[test]
fn missing_words_are_rejected() {
    assert_eq!(message_parse_build("").unwrap_err(), ParseError::InvalidInterface);
    assert_eq!(message_parse_build("   \t ").unwrap_err(), ParseError::InvalidInterface);
    assert_eq!(message_parse_build("cfg").unwrap_err(), ParseError::InvalidOperation);
    let req = parsed("  cfg \t r\r\n");
    assert_eq!(req.size, 0);
    assert_eq!(req.payload, [0, 0, 0, 0]);
}

#[test]
fn first_bad_payload_word_decides_the_error() {
    assert_eq!(message_parse_build("smi w 1 zz 0xq").unwrap_err(), ParseError::NotHexOrDecimal);
    assert_eq!(message_parse_build("smi w 0xq zz").unwrap_err(), ParseError::InvalidHexChar);
    assert_eq!(message_parse_build("smi w 1 2x").unwrap_err(), ParseError::InvalidDecimalChar);
}

#[test]
fn decimal_words() {
    assert_eq!(bytes_to_number("0"), Ok(0));
    assert_eq!(bytes_to_number("42"), Ok(42));
    assert_eq!(bytes_to_number("007"), Ok(7));
    assert_eq!(bytes_to_number("429496719"), Ok(429496719));
    assert_eq!(bytes_to_number("4294967199"), Ok(4294967199));
    assert_eq!(bytes_to_number("4294967200"), Err(ParseError::NumberTooLarge));
    assert_eq!(bytes_to_number("4294967295"), Err(ParseError::NumberTooLarge));
    assert_eq!(bytes_to_number("12a"), Err(ParseError::InvalidDecimalChar));
    assert_eq!(bytes_to_number("0X10"), Err(ParseError::InvalidDecimalChar));
    assert_eq!(bytes_to_number("1-"), Err(ParseError::InvalidDecimalChar));
}

#[test]
fn hex_words() {
    assert_eq!(bytes_to_number("0x"), Ok(0));
    assert_eq!(bytes_to_number("0xff"), Ok(255));
    assert_eq!(bytes_to_number("0xFF"), Ok(255));
    assert_eq!(bytes_to_number("0xDeadBeef"), Ok(0xdead_beef));
    assert_eq!(bytes_to_number("0xffffffff"), Ok(u32::MAX));
    assert_eq!(bytes_to_number("0x000000001"), Err(ParseError::NumberTooLarge));
    assert_eq!(bytes_to_number("0x12g"), Err(ParseError::InvalidHexChar));
}

#[test]
fn words_that_are_no_number() {
    assert_eq!(bytes_to_number(""), Err(ParseError::NotHexOrDecimal));
    assert_eq!(bytes_to_number("x10"), Err(ParseError::NotHexOrDecimal));
    assert_eq!(bytes_to_number("+5"), Err(ParseError::NotHexOrDecimal));
    assert_eq!(bytes_to_number("-5"), Err(ParseError::NotHexOrDecimal));
}

#[test]
fn decimal_round_trip_samples() {
    for v in [0u32, 1, 9, 10, 99, 100, 12345, 429_496_719] {
        assert_eq!(bytes_to_number(&v.to_string()), Ok(v));
    }
}

#[test]
fn hex_round_trip_samples() {
    for v in [0u32, 1, 15, 16, 255, 0x1234_5678, 0x8000_0000, u32::MAX] {
        assert_eq!(bytes_to_number(&format!("0x{:x}", v)), Ok(v));
    }
}

#[test]
fn splitting_on_whitespace() {
    assert_eq!(split_words("  a bc\td\r\n"), vec!["a", "bc", "d"]);
    assert_eq!(split_words("x\u{3000}y\u{a0}z"), vec!["x", "y", "z"]);
    assert!(split_words(" \t ").is_empty());
    assert_eq!(split_words("one"), vec!["one"]);
}

#[test]
fn substring_search() {
    assert!(slice_contains("the menu", "menu"));
    assert!(slice_contains("menu", "menu"));
    assert!(!slice_contains("men", "menu"));
    assert!(!slice_contains("mEnu", "menu"));
    assert!(slice_contains("abc", ""));
}

#[test]
fn buffer_text_ends_at_first_zero() {
    assert_eq!(content_len(&line_buf("smi r 5")), 7);
    assert_eq!(content_len(&[1u8, 2, 3]), 3);
    assert_eq!(content_len(&[0u8, 2, 3]), 0);
    let req = match match_usb_serial_buf(&line_buf("gpio w 5")) {
        Ok(LineOutcome::Request(req)) => req,
        other => panic!("{:?}", other),
    };
    assert_eq!(req.size, 1);
    assert_eq!(req.payload, [5, 0, 0, 0]);
    let mut buf = line_buf("smi r 1");
    buf[10] = b'z';
    assert!(matches!(match_usb_serial_buf(&buf), Ok(LineOutcome::Request(_))));
}

#[test]
fn buffer_that_is_not_utf8() {
    let mut buf = line_buf("smi r ");
    buf[6] = 0xff;
    assert_eq!(match_usb_serial_buf(&buf).unwrap_err(), ParseError::MalformedText);
    let buf = line_buf("smi r \u{e9}");
    assert_eq!(match_usb_serial_buf(&buf).unwrap_err(), ParseError::NotHexOrDecimal);
}

#[test]
fn draft_completeness_gates_validation() {
    let mut req = HostRequest::new();
    assert!(!req.is_complete());
    req.set_host_config(HostChannel::Serial);
    req.set_interface(Interface::Jtag);
    assert!(!req.is_complete());
    req.set_operation(Operation::Write);
    assert!(req.is_complete());
    req.set_payload([1, 2, 0, 0]);
    assert!(!req.is_complete());
    req.set_size(2);
    assert!(req.is_complete());
    req.set_size(5);
    assert!(!req.is_complete());
    req.set_size(2);
    let sealed = req.validate();
    assert_eq!(sealed.payload(), [1, 2, 0, 0]);
    assert_eq!(sealed.size(), 2);
}

#[test]
fn write_steps() {
    assert_eq!(next_write(0, 10, WriteEvent::Written(4), false), WriteStep::Continue(4));
    assert_eq!(next_write(4, 10, WriteEvent::Written(6), true), WriteStep::Continue(10));
    assert_eq!(next_write(4, 10, WriteEvent::WouldBlock, true), WriteStep::Continue(4));
    assert_eq!(next_write(4, 10, WriteEvent::WouldBlock, false), WriteStep::Stop);
    assert_eq!(next_write(4, 10, WriteEvent::Failed, true), WriteStep::Stop);
}

#[test]
fn error_messages() {
    assert_eq!(ParseError::TooManyArguments.message(), "Too many arguments\n\r");
    assert_eq!(ParseError::NumberTooLarge.message(), "Integer number too large!\n\r");
}

#[test]
fn menu_after_the_zero_byte_still_shows_the_menu() {
    let mut buf = line_buf("smi r 1");
    buf[20..24].copy_from_slice(b"menu");
    assert!(matches!(match_usb_serial_buf(&buf), Ok(LineOutcome::Menu)));
    assert!(matches!(classify_line("a b c d e f g menu"), Ok(LineOutcome::Menu)));
}

#[test]
fn malformed_bytes_after_the_zero_byte_are_rejected() {
    let mut buf = line_buf("smi r 1");
    buf[30] = 0xc3;
    assert_eq!(match_usb_serial_buf(&buf).unwrap_err(), ParseError::MalformedText);
}

#[test]
fn command_ends_at_the_first_nul_character() {
    let req = match classify_line("gpio w 5\0 6 7") {
        Ok(LineOutcome::Request(req)) => req,
        other => panic!("{:?}", other),
    };
    assert_eq!(req.size, 1);
    assert_eq!(req.payload, [5, 0, 0, 0]);
    assert_eq!(classify_line("\0smi r 1").unwrap_err(), ParseError::InvalidInterface);
}
