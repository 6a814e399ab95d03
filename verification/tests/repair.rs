use valvonta::errors::ParseError;
use valvonta::event::decode_event;
use valvonta::parser::remove_invalid_json;
use valvonta::parser::schedule;
use valvonta::parser::schedule_marker;

fn sample_line(events_body: &str) -> String {
    let prefix = "x".repeat(81);
    format!(
        "{}Events: {}, ActiveTyyppi: \"\", ActiveId: \"\", DialogEnabled: 0}};",
        prefix, events_body
    )
}

fn sample_event_json() -> String {
    let mut text = String::new();
    text.push_str("{\"LongText\": {\"0\": \"Valvonta\"}, ");
    text.push_str("\"Text\": {\"0\": \"Valvonta YK\"}, ");
    text.push_str("\"Start\": 525, \"End\": 540, ");
    text.push_str("\"OpeInfo\": {\"0\": {\"0\": {\"nimi\": \"Matti\", \"lyhenne\": \"MA\"}}}, ");
    text.push_str("\"HenkiloInfo\": {\"0\": {\"0\": null}}, ");
    text.push_str("\"ViikonPaiva\": \"Maanantai\"}");
    text
}

#[test]
fn repair_yields_valid_json_with_events_array() {
    let line = sample_line(&format!("[{}]", sample_event_json()));
    let repaired = remove_invalid_json(&line);
    let value: serde_json::Value = serde_json::from_str(&repaired).expect("repair must parse");
    let events = value.get("Events").expect("Events key");
    assert!(events.is_array());
    assert_eq!(events.as_array().unwrap().len(), 1);
}

#[test]
fn repair_round_trips_to_the_same_array_length() {
    let line = sample_line(&format!("[{}, {}]", sample_event_json(), sample_event_json()));
    let repaired = remove_invalid_json(&line);
    let first: serde_json::Value = serde_json::from_str(&repaired).unwrap();
    let encoded = serde_json::to_string(&first).unwrap();
    let second: serde_json::Value = serde_json::from_str(&encoded).unwrap();
    assert_eq!(
        first.get("Events").unwrap().as_array().unwrap().len(),
        second.get("Events").unwrap().as_array().unwrap().len()
    );
}

#[test]
fn schedule_extracts_and_decodes_events() {
    let line = sample_line(&format!("[{}]", sample_event_json()));
    let document = format!("<html>\n{}\n{}\n</html>", schedule_marker(), line);
    let values = schedule(&document).expect("schedule must extract");
    assert_eq!(values.len(), 1);
    let event = decode_event(&values[0]).expect("event must decode");
    assert_eq!(event.text(), "Valvonta YK");
    assert_eq!(event.long_text(), "Valvonta");
    assert_eq!(*event.start(), 525);
    assert_eq!(*event.end(), 540);
    assert_eq!(event.weekday(), "Maanantai");
    assert_eq!(event.teachers(), vec!["Matti".to_string()]);
}

#[test]
fn schedule_reports_a_missing_marker() {
    assert_eq!(
        schedule("<html>\nnothing here\n</html>"),
        Err(ParseError::MarkerNotFound)
    );
}

#[test]
fn schedule_reports_a_truncated_document() {
    let document = format!("<html>\n{}", schedule_marker());
    assert_eq!(schedule(&document), Err(ParseError::TruncatedDocument));
}

#[test]
fn schedule_rejects_a_short_schedule_line() {
    let document = format!("{}\ntoo short", schedule_marker());
    assert_eq!(schedule(&document), Err(ParseError::MalformedScheduleLine));
}

#[test]
fn schedule_rejects_a_line_already_opened() {
    let line = format!("{}{{\"Events\": []}}", "x".repeat(81));
    let document = format!("{}\n{}", schedule_marker(), line);
    assert_eq!(schedule(&document), Err(ParseError::MalformedScheduleLine));
}

#[test]
fn schedule_reports_invalid_json() {
    let line = format!("{}Events: [oops", "x".repeat(81));
    let document = format!("{}\n{}", schedule_marker(), line);
    assert_eq!(schedule(&document), Err(ParseError::InvalidJson));
}

#[test]
fn schedule_reports_a_missing_events_field() {
    let line = format!("{}\"Other\": []}}", "x".repeat(81));
    let document = format!("{}\n{}", schedule_marker(), line);
    assert_eq!(schedule(&document), Err(ParseError::MissingEventsField));
}

#[test]
fn a_second_events_occurrence_corrupts_loudly() {
    // The repair rewrites every occurrence of the bare key, so a line whose
    // string data also holds the word becomes invalid JSON and is reported,
    // never silently mis-parsed.
    let line = sample_line("[{\"0\": \"Events\"}]");
    let document = format!("{}\n{}", schedule_marker(), line);
    assert_eq!(schedule(&document), Err(ParseError::InvalidJson));
}
