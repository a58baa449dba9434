use json_event_parser::{JsonEvent, JsonReader, JsonWriter};
use std::borrow::Cow;

fn write_events(events: Vec<JsonEvent>) -> String {
    let mut writer = JsonWriter::from_writer(Vec::new());
    for event in events {
        writer.write_event(event).unwrap();
    }
    String::from_utf8(writer.into_inner()).unwrap()
}

fn read_and_write(json_str: &str) -> String {
    let mut reader = JsonReader::from_reader(json_str.as_bytes());
    let mut writer = JsonWriter::from_writer(Vec::new());
    let mut buffer = vec![];
    loop {
        let event = reader.read_event(&mut buffer).unwrap();
        if event == JsonEvent::Eof {
            break;
        }
        writer.write_event(event).unwrap();
    }
    String::from_utf8(writer.into_inner()).unwrap()
}

#[test]
fn simple_write() {
    let events = vec![
        JsonEvent::StartObject,
        JsonEvent::ObjectKey(Cow::Owned("key".to_string())),
        JsonEvent::String(Cow::Owned("value".to_string())),
        JsonEvent::EndObject,
    ];

    let json_str = write_events(events);
    assert_eq!(json_str, "{\"key\":\"value\"}");
}

#[test]
fn with_whitespace() {
    let events = vec![
        JsonEvent::WhiteSpace("\n  ".to_string()),
        JsonEvent::StartObject,
        JsonEvent::ObjectKey(Cow::Owned("key".to_string())),
        JsonEvent::String(Cow::Owned("value".to_string())),
        JsonEvent::EndObject,
    ];

    let json_str = write_events(events);
    assert_eq!(json_str, "\n  {\"key\":\"value\"}");
}

#[test]
fn read_and_write_object() {
    let json_str = "        {\"key\":    \"value\"  \n, \"key2\": 123}   ";
    assert_eq!(read_and_write(json_str), json_str);
}

#[test]
fn read_and_write_array() {
    let json_str = "    [ 1 , 2 , 3]   ";
    assert_eq!(read_and_write(json_str), json_str);
}

#[test]
fn read_and_write_notebook() {
    let json_str = "{\n \"cells\": [\n  {\n   \"cell_type\": \"code\",\n   \"execution_count\": 3,\n   \"metadata\": {\"collapsed\": true},\n   \"outputs\": [\n    {\"name\": \"stdout\", \"text\": [\"a\\n\", \"b\\tc\"]}\n   ],\n   \"source\": [\"print(\\\"hi\\\")\"]\n  }\n ],\n \"nbformat\": 4,\n \"nbformat_minor\": 2.50e+1\n}\n";
    assert_eq!(read_and_write(json_str), json_str);
}

#[test]
fn write_borrowed_text() {
    let events = vec![
        JsonEvent::StartArray,
        JsonEvent::String(Cow::Borrowed("a")),
        JsonEvent::NextArrayValue,
        JsonEvent::Number(Cow::Borrowed("1.50")),
        JsonEvent::EndArray,
    ];
    assert_eq!(write_events(events), "[\"a\",1.50]");
}

#[test]
fn write_every_plain_event() {
    let events = vec![
        JsonEvent::StartObject,
        JsonEvent::ObjectKey(Cow::Borrowed("k")),
        JsonEvent::StartArray,
        JsonEvent::Boolean(true),
        JsonEvent::NextArrayValue,
        JsonEvent::Boolean(false),
        JsonEvent::NextArrayValue,
        JsonEvent::Null,
        JsonEvent::EndArray,
        JsonEvent::NextObjectValue,
        JsonEvent::ObjectKey(Cow::Borrowed("n")),
        JsonEvent::Number(Cow::Borrowed("-0")),
        JsonEvent::EndObject,
        JsonEvent::Eof,
    ];
    assert_eq!(write_events(events), "{\"k\":[true,false,null],\"n\":-0}");
}

#[test]
fn write_eof_is_empty() {
    assert_eq!(write_events(vec![JsonEvent::Eof]), "");
}

#[test]
fn write_does_not_validate() {
    let events = vec![JsonEvent::EndArray, JsonEvent::NextObjectValue, JsonEvent::StartObject];
    assert_eq!(write_events(events), "],{");
}

#[test]
fn write_escapes_quote_and_backslash() {
    let events = vec![JsonEvent::String(Cow::Borrowed("a\"b\\c/d"))];
    assert_eq!(write_events(events), "\"a\\\"b\\\\c/d\"");
}

#[test]
fn write_escapes_named_controls() {
    let events = vec![JsonEvent::String(Cow::Borrowed("\u{08}\u{0C}\n\r\t"))];
    assert_eq!(write_events(events), "\"\\b\\f\\n\\r\\t\"");
}

#[test]
fn write_escapes_other_controls_in_hexadecimal() {
    let events = vec![JsonEvent::String(Cow::Borrowed("\u{00}\u{0B}\u{1F}\u{10}"))];
    assert_eq!(write_events(events), "\"\\u0000\\u000B\\u001F\\u0010\"");
}

#[test]
fn write_passes_other_bytes_through() {
    let events = vec![JsonEvent::ObjectKey(Cow::Borrowed("é😀 \u{7f}"))];
    assert_eq!(write_events(events), "\"é😀 \u{7f}\":");
}

#[test]
fn write_appends_to_what_the_buffer_holds() {
    let mut writer = JsonWriter::from_writer(b"x=".to_vec());
    writer.write_event(JsonEvent::Null).unwrap();
    assert_eq!(writer.into_inner(), b"x=null".to_vec());
}

#[test]
fn written_strings_read_back() {
    let text = "a\n\t\"\\/b\u{01}\u{1f}é😀";
    let written = write_events(vec![JsonEvent::String(Cow::Borrowed(text))]);
    let mut reader = JsonReader::from_reader(written.as_bytes());
    let mut buffer = vec![];
    assert_eq!(
        reader.read_event(&mut buffer).unwrap(),
        JsonEvent::String(Cow::Borrowed(text))
    );
    assert_eq!(reader.read_event(&mut buffer).unwrap(), JsonEvent::Eof);
}

#[test]
fn round_trip_keeps_white_space_everywhere_but_before_a_colon() {
    let json_str = " \t{\r\n\"a\":\n[ ]\n,\"b\":{ } , \"c\": [ [ 1 ,2 ] , \"x\" ]\n}\n\n";
    assert_eq!(read_and_write(json_str), json_str);
}

#[test]
fn white_space_before_a_colon_moves_before_the_key() {
    assert_eq!(read_and_write("{\"a\" \t: 1}"), "{ \t\"a\": 1}");
}

#[test]
fn other_spellings_of_a_string_are_rewritten() {
    assert_eq!(read_and_write("\"\\u0041\\/\\u000a\""), "\"A/\\n\"");
}

#[test]
fn end_to_end_example_writes_back() {
    let json_str = "{\"a\": [1, 2]}";
    let mut reader = JsonReader::from_reader(json_str.as_bytes());
    let mut buffer = vec![];
    let mut events = vec![];
    loop {
        let event = reader.read_event(&mut buffer).unwrap();
        if event == JsonEvent::Eof {
            break;
        }
        events.push(event);
    }
    assert_eq!(
        events.iter().filter(|e| matches!(e, JsonEvent::WhiteSpace(_))).count(),
        2
    );
    assert_eq!(write_events(events), json_str);
}
