use json_event_parser::{flush_events, JsonEvent, JsonReader, JsonWriter, NotebookFilter};
use std::borrow::Cow;

fn strip(input: &str) -> String {
    let mut reader = JsonReader::from_reader(input.as_bytes());
    let mut writer = JsonWriter::from_writer(Vec::new());
    let mut filter = NotebookFilter::new();
    let mut buffer = Vec::new();
    loop {
        let event = reader.read_event(&mut buffer).unwrap();
        if event == JsonEvent::Eof {
            break;
        }
        filter.filter_event(&event, &mut writer).unwrap();
    }
    String::from_utf8(writer.into_inner()).unwrap()
}

#[test]
fn flush_writes_spaces_then_event() {
    let mut writer = JsonWriter::from_writer(Vec::new());
    let mut spaces = vec![" ".to_string(), "\n\t".to_string()];
    flush_events(false, &mut writer, &mut spaces, &JsonEvent::StartArray).unwrap();
    assert!(spaces.is_empty());
    assert_eq!(writer.into_inner(), b" \n\t[".to_vec());
}

#[test]
fn flush_drops_when_skipping() {
    let mut writer = JsonWriter::from_writer(b"x".to_vec());
    let mut spaces = vec![" ".to_string()];
    flush_events(true, &mut writer, &mut spaces, &JsonEvent::String(Cow::Borrowed("a"))).unwrap();
    assert!(spaces.is_empty());
    assert_eq!(writer.into_inner(), b"x".to_vec());
}

#[test]
fn other_documents_pass_unchanged() {
    let input = " {\"a\": [1, {\"outputs\": [2], \"metadata\": {\"collapsed\": 1}}],\n \"execution_count\": 7 }";
    assert_eq!(strip(input), input);
}

#[test]
fn outputs_are_emptied() {
    let input = "{\"cells\": [{\"outputs\": [1, [2, [3]], {\"a\": []}], \"source\": [\"x\"]}]}";
    let expected = "{\"cells\": [{\"outputs\": [], \"source\": [\"x\"]}]}";
    assert_eq!(strip(input), expected);
}

#[test]
fn execution_count_becomes_null() {
    let input = "{\"cells\": [{\"execution_count\": 12, \"source\": []}, {\"execution_count\": null}]}";
    let expected = "{\"cells\": [{\"execution_count\": null, \"source\": []}, {\"execution_count\": null}]}";
    assert_eq!(strip(input), expected);
}

#[test]
fn collapsed_is_removed_from_metadata() {
    let input = "{\"cells\": [{\"metadata\": {\"collapsed\": true, \"a\": 1}, \"source\": []}]}";
    let expected = "{\"cells\": [{\"metadata\": { \"a\": 1}, \"source\": []}]}";
    assert_eq!(strip(input), expected);
}

#[test]
fn a_whole_cell() {
    let input = "{\n \"cells\": [\n  {\n   \"cell_type\": \"code\",\n   \"execution_count\": 3,\n   \"metadata\": {\n    \"collapsed\": false,\n    \"scrolled\": true\n   },\n   \"outputs\": [\n    {\n     \"name\": \"stdout\",\n     \"text\": [\n      \"hi\\n\"\n     ]\n    }\n   ],\n   \"source\": [\n    \"print('hi')\"\n   ]\n  }\n ],\n \"nbformat\": 4\n}\n";
    let expected = "{\n \"cells\": [\n  {\n   \"cell_type\": \"code\",\n   \"execution_count\": null,\n   \"metadata\": {\n    \"scrolled\": true\n   },\n   \"outputs\": [],\n   \"source\": [\n    \"print('hi')\"\n   ]\n  }\n ],\n \"nbformat\": 4\n}";
    assert_eq!(strip(input), expected);
}

#[test]
fn white_space_is_held_back_until_the_next_event() {
    let mut writer = JsonWriter::from_writer(Vec::new());
    let mut filter = NotebookFilter::new();
    filter.filter_event(&JsonEvent::Null, &mut writer).unwrap();
    filter.filter_event(&JsonEvent::WhiteSpace("\n".to_string()), &mut writer).unwrap();
    filter.filter_event(&JsonEvent::WhiteSpace(" ".to_string()), &mut writer).unwrap();
    let mut held = JsonWriter::from_writer(Vec::new());
    std::mem::swap(&mut held, &mut writer);
    assert_eq!(held.into_inner(), b"null".to_vec());
    filter.filter_event(&JsonEvent::Eof, &mut writer).unwrap();
    assert_eq!(writer.into_inner(), b"\n ".to_vec());
}
