use json_event_parser::{JsonError, JsonErrorKind, JsonEvent, JsonReader, Literal};
use std::borrow::Cow;

fn read_all(input: &[u8]) -> Result<Vec<JsonEvent<'static>>, JsonError> {
    let mut reader = JsonReader::from_reader(input);
    read_rest(&mut reader)
}

fn read_rest(reader: &mut JsonReader) -> Result<Vec<JsonEvent<'static>>, JsonError> {
    let mut buffer = Vec::new();
    let mut events = Vec::new();
    loop {
        let event = reader.read_event(&mut buffer)?;
        let end = event == JsonEvent::Eof;
        events.push(event);
        if end {
            return Ok(events);
        }
    }
}

fn string(text: &str) -> JsonEvent<'static> {
    JsonEvent::String(Cow::Owned(text.to_string()))
}

fn key(text: &str) -> JsonEvent<'static> {
    JsonEvent::ObjectKey(Cow::Owned(text.to_string()))
}

fn number(text: &str) -> JsonEvent<'static> {
    JsonEvent::Number(Cow::Owned(text.to_string()))
}

fn space(text: &str) -> JsonEvent<'static> {
    JsonEvent::WhiteSpace(text.to_string())
}

fn error_of(input: &str) -> JsonError {
    read_all(input.as_bytes()).unwrap_err()
}

#[test]
fn it_works() {
    let json_str = r#"{
    "nadeko": "cute",
    "sumire": "cute",
    "number": 1234,
    "numbers": [1, 2, 3]
}"#
    .to_string();

    let mut reader = JsonReader::from_reader(json_str.as_bytes());
    let mut buffer = Vec::new();
    loop {
        let ev = reader.read_event(&mut buffer).unwrap();
        println!("{:?}", ev);
        if matches!(ev, JsonEvent::Eof) {
            break;
        }
    }
}

#[test]
fn events_of_a_small_object() {
    let events = read_all(b"{\"foo\": 1}").unwrap();
    assert_eq!(
        events,
        vec![
            JsonEvent::StartObject,
            key("foo"),
            space(" "),
            number("1"),
            JsonEvent::EndObject,
            JsonEvent::Eof,
        ]
    );
}

#[test]
fn end_to_end_example() {
    let events = read_all(b"{\"a\": [1, 2]}").unwrap();
    assert_eq!(
        events,
        vec![
            JsonEvent::StartObject,
            key("a"),
            space(" "),
            JsonEvent::StartArray,
            number("1"),
            JsonEvent::NextArrayValue,
            space(" "),
            number("2"),
            JsonEvent::EndArray,
            JsonEvent::EndObject,
            JsonEvent::Eof,
        ]
    );
    let significant: Vec<JsonEvent> = events
        .iter()
        .filter(|e| !matches!(e, JsonEvent::WhiteSpace(_)))
        .cloned()
        .collect();
    assert_eq!(
        significant,
        vec![
            JsonEvent::StartObject,
            key("a"),
            JsonEvent::StartArray,
            number("1"),
            JsonEvent::NextArrayValue,
            number("2"),
            JsonEvent::EndArray,
            JsonEvent::EndObject,
            JsonEvent::Eof,
        ]
    );
}

#[test]
fn white_space_behind_a_value_comes_before_the_comma() {
    let events = read_all(b"[1 \n, 2]").unwrap();
    assert_eq!(
        events,
        vec![
            JsonEvent::StartArray,
            number("1"),
            space(" \n"),
            JsonEvent::NextArrayValue,
            space(" "),
            number("2"),
            JsonEvent::EndArray,
            JsonEvent::Eof,
        ]
    );
}

#[test]
fn white_space_behind_the_last_value_comes_before_the_close() {
    let events = read_all(b"{\"k\":true\t}").unwrap();
    assert_eq!(
        events,
        vec![
            JsonEvent::StartObject,
            key("k"),
            JsonEvent::Boolean(true),
            space("\t"),
            JsonEvent::EndObject,
            JsonEvent::Eof,
        ]
    );
}

#[test]
fn white_space_behind_a_key_comes_before_the_key() {
    let events = read_all(b"{\"k\"  :null}").unwrap();
    assert_eq!(
        events,
        vec![
            JsonEvent::StartObject,
            space("  "),
            key("k"),
            JsonEvent::Null,
            JsonEvent::EndObject,
            JsonEvent::Eof,
        ]
    );
}

#[test]
fn two_runs_come_in_a_row_around_a_key() {
    let events = read_all(b"{ \"k\" : 1}").unwrap();
    assert_eq!(
        events,
        vec![
            JsonEvent::StartObject,
            space(" "),
            space(" "),
            key("k"),
            space(" "),
            number("1"),
            JsonEvent::EndObject,
            JsonEvent::Eof,
        ]
    );
}

#[test]
fn a_run_of_white_space_is_one_event() {
    let events = read_all(b" \t\r\n 7 \n").unwrap();
    assert_eq!(
        events,
        vec![space(" \t\r\n "), number("7"), space(" \n"), JsonEvent::Eof]
    );
}

#[test]
fn scalars_at_the_top_level() {
    assert_eq!(read_all(b"true").unwrap(), vec![JsonEvent::Boolean(true), JsonEvent::Eof]);
    assert_eq!(read_all(b"false").unwrap(), vec![JsonEvent::Boolean(false), JsonEvent::Eof]);
    assert_eq!(read_all(b"null").unwrap(), vec![JsonEvent::Null, JsonEvent::Eof]);
    assert_eq!(read_all(b"\"\"").unwrap(), vec![string(""), JsonEvent::Eof]);
}

#[test]
fn empty_containers() {
    assert_eq!(
        read_all(b"[]").unwrap(),
        vec![JsonEvent::StartArray, JsonEvent::EndArray, JsonEvent::Eof]
    );
    assert_eq!(
        read_all(b"{}").unwrap(),
        vec![JsonEvent::StartObject, JsonEvent::EndObject, JsonEvent::Eof]
    );
    assert_eq!(
        read_all(b"[{},[]]").unwrap(),
        vec![
            JsonEvent::StartArray,
            JsonEvent::StartObject,
            JsonEvent::EndObject,
            JsonEvent::NextArrayValue,
            JsonEvent::StartArray,
            JsonEvent::EndArray,
            JsonEvent::EndArray,
            JsonEvent::Eof,
        ]
    );
}

#[test]
fn object_members_are_separated_by_events() {
    let events = read_all(b"{\"a\":1,\"b\":\"x\"}").unwrap();
    assert_eq!(
        events,
        vec![
            JsonEvent::StartObject,
            key("a"),
            number("1"),
            JsonEvent::NextObjectValue,
            key("b"),
            string("x"),
            JsonEvent::EndObject,
            JsonEvent::Eof,
        ]
    );
}

#[test]
fn eof_is_reported_again_and_again() {
    let mut reader = JsonReader::from_reader(b"1");
    let mut buffer = Vec::new();
    assert_eq!(reader.read_event(&mut buffer).unwrap(), number("1"));
    assert_eq!(reader.read_event(&mut buffer).unwrap(), JsonEvent::Eof);
    assert_eq!(reader.read_event(&mut buffer).unwrap(), JsonEvent::Eof);
}

#[test]
fn peeking_reads_nothing() {
    let mut reader = JsonReader::from_reader(b"  \n[1]");
    let mut buffer = Vec::new();
    assert_eq!(reader.peek_front_skipping_whitespaces(), Some(b'['));
    assert_eq!(reader.read_event(&mut buffer).unwrap(), space("  \n"));
    assert_eq!(reader.peek_front_skipping_whitespaces(), Some(b'['));
    assert_eq!(reader.read_event(&mut buffer).unwrap(), JsonEvent::StartArray);
    let mut empty = JsonReader::from_reader(b" \t");
    assert_eq!(empty.peek_front_skipping_whitespaces(), None);
    assert_eq!(empty.read_event(&mut buffer).unwrap(), space(" \t"));
}

// Structure.

#[test]
fn close_without_open_is_unmatched() {
    assert_eq!(error_of("]"), JsonError::UnmatchedClose(b']'));
    assert_eq!(error_of("}"), JsonError::UnmatchedClose(b'}'));
    assert_eq!(error_of("[}"), JsonError::UnmatchedClose(b'}'));
    assert_eq!(error_of("{]"), JsonError::UnmatchedClose(b']'));
    assert_eq!(error_of("[1]]"), JsonError::UnmatchedClose(b']'));
    assert_eq!(error_of("]").kind(), JsonErrorKind::InvalidStructure);
}

#[test]
fn close_behind_a_comma_is_unmatched() {
    assert_eq!(error_of("[1,]"), JsonError::UnmatchedClose(b']'));
    assert_eq!(error_of("{\"a\":1,}"), JsonError::UnmatchedClose(b'}'));
}

#[test]
fn end_of_input_inside_a_container() {
    assert_eq!(error_of("["), JsonError::UnexpectedEof);
    assert_eq!(error_of("{"), JsonError::UnexpectedEof);
    assert_eq!(error_of("[1"), JsonError::UnexpectedEof);
    assert_eq!(error_of("[1 "), JsonError::UnexpectedEof);
    assert_eq!(error_of("[1,"), JsonError::UnexpectedEof);
    assert_eq!(error_of("{\"a\""), JsonError::UnexpectedEof);
    assert_eq!(error_of("{\"a\" "), JsonError::UnexpectedEof);
    assert_eq!(error_of("{\"a\":"), JsonError::UnexpectedEof);
    assert_eq!(error_of("{\"a\":1"), JsonError::UnexpectedEof);
    assert_eq!(error_of("[[]"), JsonError::UnexpectedEof);
    assert_eq!(error_of("[").kind(), JsonErrorKind::UnexpectedEof);
}

#[test]
fn empty_input_is_no_document() {
    assert_eq!(error_of(""), JsonError::UnexpectedEof);
    let mut reader = JsonReader::from_reader(b"  ");
    let mut buffer = Vec::new();
    assert_eq!(reader.read_event(&mut buffer).unwrap(), space("  "));
    assert_eq!(reader.read_event(&mut buffer).unwrap_err(), JsonError::UnexpectedEof);
}

#[test]
fn second_top_level_value_is_trailing_content() {
    assert_eq!(error_of("1 2"), JsonError::TrailingContent);
    assert_eq!(error_of("{} []"), JsonError::TrailingContent);
    assert_eq!(error_of("null\"x\""), JsonError::TrailingContent);
    assert_eq!(error_of("1 2").kind(), JsonErrorKind::InvalidStructure);
    let mut reader = JsonReader::from_reader(b"true false");
    let mut buffer = Vec::new();
    assert_eq!(reader.read_event(&mut buffer).unwrap(), JsonEvent::Boolean(true));
    assert_eq!(reader.read_event(&mut buffer).unwrap(), space(" "));
    assert_eq!(reader.read_event(&mut buffer).unwrap_err(), JsonError::TrailingContent);
}

#[test]
fn key_without_colon() {
    assert_eq!(error_of("{\"a\" 1}"), JsonError::MissingColon);
    assert_eq!(error_of("{\"a\"}"), JsonError::MissingColon);
    assert_eq!(error_of("{1}"), JsonError::MissingColon);
    assert_eq!(error_of("{\"a\"}").kind(), JsonErrorKind::InvalidStructure);
}

#[test]
fn key_that_is_no_string() {
    assert_eq!(error_of("{1:2}"), JsonError::KeyNotString);
    assert_eq!(error_of("{\"a\":1,null:2}"), JsonError::KeyNotString);
    assert_eq!(error_of("{[]:2}"), JsonError::KeyNotString);
    assert_eq!(error_of("{1:2}").kind(), JsonErrorKind::InvalidStructure);
}

#[test]
fn values_without_comma() {
    assert_eq!(error_of("[1 2]"), JsonError::MissingComma);
    assert_eq!(error_of("[1}"), JsonError::MissingComma);
    assert_eq!(error_of("{\"a\":1 \"b\":2}"), JsonError::MissingComma);
    assert_eq!(error_of("{\"a\":1]"), JsonError::MissingComma);
    assert_eq!(error_of("[1:2]"), JsonError::MissingComma);
    assert_eq!(error_of("[1 2]").kind(), JsonErrorKind::InvalidStructure);
}

#[test]
fn bytes_that_start_no_value() {
    assert_eq!(error_of("x"), JsonError::UnexpectedCharacter(b'x'));
    assert_eq!(error_of(","), JsonError::UnexpectedCharacter(b','));
    assert_eq!(error_of("[,1]"), JsonError::UnexpectedCharacter(b','));
    assert_eq!(error_of(":"), JsonError::UnexpectedCharacter(b':'));
    assert_eq!(error_of("+1"), JsonError::UnexpectedCharacter(b'+'));
    assert_eq!(error_of("x").kind(), JsonErrorKind::InvalidStructure);
}

#[test]
fn literals_must_be_spelled_out() {
    assert_eq!(error_of("tru"), JsonError::UnexpectedEof);
    assert_eq!(error_of("nul"), JsonError::UnexpectedEof);
    assert_eq!(error_of("fals"), JsonError::UnexpectedEof);
    assert_eq!(
        error_of("trux"),
        JsonError::InvalidLiteral { expected: Literal::True, found: b"trux".to_vec() }
    );
    assert_eq!(
        error_of("[falsy]"),
        JsonError::InvalidLiteral { expected: Literal::False, found: b"falsy".to_vec() }
    );
    assert_eq!(
        error_of("nil,"),
        JsonError::InvalidLiteral { expected: Literal::Null, found: b"nil,".to_vec() }
    );
    assert_eq!(error_of("trux").kind(), JsonErrorKind::InvalidStructure);
    assert_eq!(error_of("truex"), JsonError::UnexpectedCharacter(b'x'));
    assert_eq!(error_of("true false"), JsonError::TrailingContent);
}

// Depth.

#[test]
fn depth_cap_rejects_the_third_open() {
    let mut reader = JsonReader::from_reader(b"[[[1]]]");
    reader.max_stack_size(2);
    let mut buffer = Vec::new();
    assert_eq!(reader.read_event(&mut buffer).unwrap(), JsonEvent::StartArray);
    assert_eq!(reader.read_event(&mut buffer).unwrap(), JsonEvent::StartArray);
    let error = reader.read_event(&mut buffer).unwrap_err();
    assert_eq!(error, JsonError::DepthExceeded(2));
    assert_eq!(error.kind(), JsonErrorKind::DepthExceeded);
}

#[test]
fn depth_cap_accepts_what_is_within() {
    let mut reader = JsonReader::from_reader(b"[[1]]");
    reader.max_stack_size(2);
    let events = read_rest(&mut reader).unwrap();
    assert_eq!(
        events,
        vec![
            JsonEvent::StartArray,
            JsonEvent::StartArray,
            number("1"),
            JsonEvent::EndArray,
            JsonEvent::EndArray,
            JsonEvent::Eof,
        ]
    );
}

#[test]
fn depth_cap_counts_objects_and_arrays_alike() {
    let mut reader = JsonReader::from_reader(b"{\"a\":[{\"b\":1}]}");
    reader.max_stack_size(2);
    assert_eq!(read_rest(&mut reader).unwrap_err(), JsonError::DepthExceeded(2));
    let mut reader = JsonReader::from_reader(b"[{},{},[]]");
    reader.max_stack_size(2);
    assert!(read_rest(&mut reader).is_ok());
}

#[test]
fn depth_cap_of_zero_admits_scalars_only() {
    let mut reader = JsonReader::from_reader(b"12");
    reader.max_stack_size(0);
    assert_eq!(read_rest(&mut reader).unwrap(), vec![number("12"), JsonEvent::Eof]);
    let mut reader = JsonReader::from_reader(b"[]");
    reader.max_stack_size(0);
    assert_eq!(read_rest(&mut reader).unwrap_err(), JsonError::DepthExceeded(0));
}

#[test]
fn no_cap_by_default() {
    let mut input = Vec::new();
    for _ in 0..500 {
        input.push(b'[');
    }
    for _ in 0..500 {
        input.push(b']');
    }
    assert_eq!(read_all(&input).unwrap().len(), 1001);
}

#[test]
fn depth_cap_can_be_chained() {
    let mut reader = JsonReader::from_reader(b"[[]]");
    let mut buffer = Vec::new();
    let first = reader.max_stack_size(5).max_stack_size(1).read_event(&mut buffer);
    assert_eq!(first.unwrap(), JsonEvent::StartArray);
    assert_eq!(reader.read_event(&mut buffer).unwrap_err(), JsonError::DepthExceeded(1));
}

// Numbers.

#[test]
fn numbers_keep_their_spelling() {
    for text in ["0", "-0", "1.5e10", "-3.2E-4", "1.50", "10", "123456789012345678901234567890",
        "0.0", "1e0", "1E+5", "9e-07", "-12.034e+56"]
    {
        assert_eq!(read_all(text.as_bytes()).unwrap(), vec![number(text), JsonEvent::Eof]);
    }
}

#[test]
fn numbers_in_an_array_keep_their_spelling() {
    assert_eq!(
        read_all(b"[0,-0,1.5e10,-3.2E-4]").unwrap(),
        vec![
            JsonEvent::StartArray,
            number("0"),
            JsonEvent::NextArrayValue,
            number("-0"),
            JsonEvent::NextArrayValue,
            number("1.5e10"),
            JsonEvent::NextArrayValue,
            number("-3.2E-4"),
            JsonEvent::EndArray,
            JsonEvent::Eof,
        ]
    );
}

#[test]
fn malformed_numbers_are_rejected() {
    assert_eq!(error_of("01"), JsonError::TrailingContent);
    assert_eq!(error_of("[01]"), JsonError::MissingComma);
    assert_eq!(error_of("1."), JsonError::UnexpectedEof);
    assert_eq!(error_of(".5"), JsonError::UnexpectedCharacter(b'.'));
    assert_eq!(error_of("1e"), JsonError::UnexpectedEof);
}

#[test]
fn malformed_numbers_name_the_offending_byte() {
    assert_eq!(error_of("1.x"), JsonError::InvalidNumber(b'x'));
    assert_eq!(error_of("[1.]"), JsonError::InvalidNumber(b']'));
    assert_eq!(error_of("-a"), JsonError::InvalidNumber(b'a'));
    assert_eq!(error_of("--1"), JsonError::InvalidNumber(b'-'));
    assert_eq!(error_of("1ex"), JsonError::InvalidNumber(b'x'));
    assert_eq!(error_of("1e+,"), JsonError::InvalidNumber(b','));
    assert_eq!(error_of("1e-x"), JsonError::InvalidNumber(b'x'));
    assert_eq!(error_of("-"), JsonError::UnexpectedEof);
    assert_eq!(error_of("1e+"), JsonError::UnexpectedEof);
    assert_eq!(error_of("1.x").kind(), JsonErrorKind::InvalidNumber);
}

// Strings.

#[test]
fn escape_table() {
    let events = read_all(b"\"a\\n\\t\\\"\\\\\\/b\"").unwrap();
    assert_eq!(events, vec![string("a\n\t\"\\/b"), JsonEvent::Eof]);
    let events = read_all(b"\"\\b\\f\\r\"").unwrap();
    assert_eq!(events, vec![string("\u{08}\u{0C}\r"), JsonEvent::Eof]);
}

#[test]
fn unicode_escapes() {
    assert_eq!(read_all(b"\"\\u0041\"").unwrap(), vec![string("A"), JsonEvent::Eof]);
    assert_eq!(read_all(b"\"\\u00e9\\u00E9\"").unwrap(), vec![string("éé"), JsonEvent::Eof]);
    assert_eq!(read_all(b"\"\\u20AC\"").unwrap(), vec![string("€"), JsonEvent::Eof]);
    assert_eq!(read_all(b"\"\\u0000\"").unwrap(), vec![string("\u{0}"), JsonEvent::Eof]);
    assert_eq!(read_all(b"\"\\uFFFF\"").unwrap(), vec![string("\u{FFFF}"), JsonEvent::Eof]);
    assert_eq!(read_all(b"\"\\uD7FF\\uE000\"").unwrap(), vec![string("\u{D7FF}\u{E000}"), JsonEvent::Eof]);
}

#[test]
fn surrogate_pair() {
    let events = read_all(b"\"\\uD83D\\uDE00\"").unwrap();
    assert_eq!(events, vec![string("\u{1F600}"), JsonEvent::Eof]);
    let events = read_all(b"\"\\ud800\\udc00\\uDBFF\\uDFFF\"").unwrap();
    assert_eq!(events, vec![string("\u{10000}\u{10FFFF}"), JsonEvent::Eof]);
}

#[test]
fn second_escape_must_be_a_low_surrogate() {
    assert_eq!(error_of("\"\\uD83D\\u0041\""), JsonError::InvalidSurrogatePair(0xD83D, 0x0041));
    assert_eq!(error_of("\"\\uD83D\\uD83D\""), JsonError::InvalidSurrogatePair(0xD83D, 0xD83D));
    assert_eq!(error_of("\"\\uD800\\uDBFF\""), JsonError::InvalidSurrogatePair(0xD800, 0xDBFF));
    assert_eq!(error_of("\"\\uDBFF\\uE000\""), JsonError::InvalidSurrogatePair(0xDBFF, 0xE000));
    assert_eq!(error_of("[\"\\uDE00\\u0020\"]"), JsonError::InvalidSurrogatePair(0xDE00, 0x0020));
    assert_eq!(
        error_of("\"\\uD83D\\u0041\"").kind(),
        JsonErrorKind::InvalidString
    );
}

#[test]
fn a_low_surrogate_starts_a_pair_too() {
    let events = read_all(b"\"\\uDC00\\uDC00\"").unwrap();
    assert_eq!(events, vec![string("\u{10000}"), JsonEvent::Eof]);
    assert_eq!(error_of("\"\\uDC00 and more\""), JsonError::LoneSurrogate(0xDC00));
}

#[test]
fn lone_surrogate_is_rejected() {
    assert_eq!(error_of("\"\\uD83Dabcdef\""), JsonError::LoneSurrogate(0xD83D));
    assert_eq!(error_of("\"\\uD83D\\n    \""), JsonError::LoneSurrogate(0xD83D));
    assert_eq!(error_of("\"\\uDE00 and more\""), JsonError::LoneSurrogate(0xDE00));
    assert_eq!(error_of("\"\\uD83D\""), JsonError::UnexpectedEof);
    assert_eq!(error_of("\"\\uD83D\\uZZZZ\""), JsonError::InvalidHexDigit(b'Z'));
    assert_eq!(error_of("\"\\uD83Dabcdef\"").kind(), JsonErrorKind::InvalidString);
}

#[test]
fn text_that_is_not_escaped_is_copied() {
    let events = read_all("\"é😀 /\u{7f}\"".as_bytes()).unwrap();
    assert_eq!(events, vec![string("é😀 /\u{7f}"), JsonEvent::Eof]);
}

#[test]
fn control_characters_must_be_escaped() {
    assert_eq!(error_of("\"a\nb\""), JsonError::ControlCharacter(b'\n'));
    assert_eq!(error_of("\"\u{0}\""), JsonError::ControlCharacter(0));
    assert_eq!(error_of("\"\u{1f}\""), JsonError::ControlCharacter(0x1f));
    assert_eq!(error_of("\"a\tb\"").kind(), JsonErrorKind::InvalidString);
}

#[test]
fn unknown_escapes_are_rejected() {
    assert_eq!(error_of("\"\\q\""), JsonError::InvalidEscape(b'q'));
    assert_eq!(error_of("\"\\U0041\""), JsonError::InvalidEscape(b'U'));
    assert_eq!(error_of("\"\\'\""), JsonError::InvalidEscape(b'\''));
    assert_eq!(error_of("\"\\q\"").kind(), JsonErrorKind::InvalidString);
}

#[test]
fn unicode_escapes_need_four_hexadecimal_digits() {
    assert_eq!(error_of("\"\\u12G4\""), JsonError::InvalidHexDigit(b'G'));
    assert_eq!(error_of("\"\\u12\" "), JsonError::InvalidHexDigit(b'"'));
    assert_eq!(error_of("\"\\u12\""), JsonError::UnexpectedEof);
    assert_eq!(error_of("\"\\u12"), JsonError::UnexpectedEof);
    assert_eq!(error_of("\"\\u-123\""), JsonError::InvalidHexDigit(b'-'));
    assert_eq!(error_of("\"\\u12G4\"").kind(), JsonErrorKind::InvalidString);
}

#[test]
fn strings_must_end() {
    assert_eq!(error_of("\"abc"), JsonError::UnexpectedEof);
    assert_eq!(error_of("\"abc\\"), JsonError::UnexpectedEof);
    assert_eq!(error_of("\"abc\\\""), JsonError::UnexpectedEof);
}

#[test]
fn strings_must_be_utf8() {
    assert_eq!(read_all(&[b'"', 0xff, b'"']).unwrap_err(), JsonError::InvalidUtf8);
    assert_eq!(read_all(&[b'"', 0xc3, b'"']).unwrap_err(), JsonError::InvalidUtf8);
    assert_eq!(read_all(&[b'"', 0xed, 0xa0, 0x80, b'"']).unwrap_err(), JsonError::InvalidUtf8);
    assert_eq!(read_all(&[b'[', b'"', 0x80, b'"', b']']).unwrap_err().kind(), JsonErrorKind::InvalidString);
}

#[test]
fn bytes_that_are_not_ascii_start_no_value() {
    assert_eq!(read_all(&[0xc3, 0xa9]).unwrap_err(), JsonError::UnexpectedCharacter(0xc3));
}

// Events.

#[test]
fn into_owned_keeps_the_value() {
    let text = String::from("borrowed");
    let events = vec![
        JsonEvent::String(Cow::Borrowed(text.as_str())),
        JsonEvent::Number(Cow::Borrowed("1.50")),
        JsonEvent::ObjectKey(Cow::Borrowed(text.as_str())),
        JsonEvent::WhiteSpace(" ".to_string()),
        JsonEvent::Boolean(true),
        JsonEvent::Boolean(false),
        JsonEvent::Null,
        JsonEvent::StartArray,
        JsonEvent::NextArrayValue,
        JsonEvent::EndArray,
        JsonEvent::StartObject,
        JsonEvent::NextObjectValue,
        JsonEvent::EndObject,
        JsonEvent::Eof,
    ];
    let owned: Vec<JsonEvent<'static>> = events.iter().map(|e| e.into_owned()).collect();
    assert_eq!(owned, events);
    for event in &owned {
        match event {
            JsonEvent::String(t) | JsonEvent::Number(t) | JsonEvent::ObjectKey(t) => {
                assert!(matches!(t, Cow::Owned(_)))
            }
            _ => {}
        }
    }
}

#[test]
fn events_compare_by_content() {
    let owned = JsonEvent::String(Cow::Owned("a".to_string()));
    let borrowed = JsonEvent::String(Cow::Borrowed("a"));
    assert_eq!(owned, borrowed);
    assert_eq!(owned.clone(), borrowed.clone());
    assert_ne!(borrowed, JsonEvent::ObjectKey(Cow::Borrowed("a")));
    assert_ne!(borrowed, JsonEvent::Number(Cow::Borrowed("a")));
    assert_ne!(JsonEvent::NextArrayValue, JsonEvent::NextObjectValue);
}
