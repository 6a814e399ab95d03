use valvonta::errors::DecodeError;
use valvonta::event::decode_event;
use valvonta::event::decode_events;

fn value_of(text: &str) -> serde_json::Value {
    serde_json::from_str(text).expect("test fixture must parse")
}

fn portal_event() -> String {
    let mut text = String::new();
    text.push_str("{\"LongText\": {\"0\": \"Välituntivalvonta\"}, ");
    text.push_str("\"Text\": {\"0\": \"Valvonta E + S\"}, ");
    text.push_str("\"Start\": 645, \"End\": 660, ");
    text.push_str("\"OpeInfo\": {\"0\": {\"0\": {\"nimi\": \"Matti Meikäläinen\", \"lyhenne\": \"MM\"}}}, ");
    text.push_str("\"HenkiloInfo\": {\"0\": {\"0\": {\"nimi\": \"Maija Maa\", \"lyhenne\": \"MA\"}}}, ");
    text.push_str("\"ViikonPaiva\": \"Keskiviikko\"}");
    text
}

#[test]
fn decodes_a_full_portal_event() {
    let event = decode_event(&value_of(&portal_event())).expect("must decode");
    assert_eq!(event.text(), "Valvonta E + S");
    assert_eq!(event.long_text(), "Välituntivalvonta");
    assert_eq!(*event.start(), 645);
    assert_eq!(*event.end(), 660);
    assert_eq!(event.weekday(), "Keskiviikko");
    assert_eq!(
        event.teachers(),
        vec!["Matti Meikäläinen".to_string(), "Maija Maa".to_string()]
    );
}

#[test]
fn an_absent_innermost_staff_object_is_an_empty_name() {
    let text = portal_event().replace(
        "{\"0\": {\"0\": {\"nimi\": \"Maija Maa\", \"lyhenne\": \"MA\"}}}",
        "{\"0\": {}}",
    );
    let event = decode_event(&value_of(&text)).expect("must decode");
    assert_eq!(event.teachers(), vec!["Matti Meikäläinen".to_string()]);
}

#[test]
fn a_null_innermost_staff_object_is_an_empty_name() {
    let text = portal_event().replace(
        "{\"0\": {\"0\": {\"nimi\": \"Matti Meikäläinen\", \"lyhenne\": \"MM\"}}}",
        "{\"0\": {\"0\": null}}",
    );
    let event = decode_event(&value_of(&text)).expect("must decode");
    assert_eq!(event.teachers(), vec!["Maija Maa".to_string()]);
}

#[test]
fn a_missing_title_wrapper_is_a_decode_error() {
    let text = portal_event().replace("{\"0\": \"Valvonta E + S\"}", "\"Valvonta E + S\"");
    assert_eq!(decode_event(&value_of(&text)), Err(DecodeError::MalformedEvent));
}

#[test]
fn a_missing_field_is_a_decode_error() {
    let text = portal_event().replace("\"Start\": 645, ", "");
    assert_eq!(decode_event(&value_of(&text)), Err(DecodeError::MalformedEvent));
}

#[test]
fn a_non_object_event_is_a_decode_error() {
    assert_eq!(decode_event(&value_of("[1, 2]")), Err(DecodeError::MalformedEvent));
    assert_eq!(decode_event(&value_of("42")), Err(DecodeError::MalformedEvent));
}

#[test]
fn a_malformed_staff_wrapper_is_a_decode_error() {
    let text = portal_event().replace(
        "{\"0\": {\"0\": {\"nimi\": \"Matti Meikäläinen\", \"lyhenne\": \"MM\"}}}",
        "{\"0\": {\"0\": \"Matti\"}}",
    );
    assert_eq!(decode_event(&value_of(&text)), Err(DecodeError::MalformedEvent));
}

#[test]
fn an_oversized_start_is_a_decode_error() {
    let text = portal_event().replace("\"Start\": 645", "\"Start\": 4294967296");
    assert_eq!(decode_event(&value_of(&text)), Err(DecodeError::MalformedEvent));
}

#[test]
fn plain_field_names_decode_too() {
    let mut text = String::new();
    text.push_str("{\"long_text\": {\"0\": \"Välituntivalvonta\"}, ");
    text.push_str("\"text\": {\"0\": \"Valvonta D\"}, ");
    text.push_str("\"start\": 705, \"end\": 720, ");
    text.push_str("\"ope_info\": {\"0\": {}}, ");
    text.push_str("\"henkilo_info\": {\"0\": {}}, ");
    text.push_str("\"weekday\": \"Perjantai\"}");
    let event = decode_event(&value_of(&text)).expect("must decode");
    assert_eq!(event.text(), "Valvonta D");
    assert_eq!(*event.start(), 705);
    assert_eq!(event.weekday(), "Perjantai");
    assert_eq!(event.teachers(), Vec::<String>::new());
}

#[test]
fn equal_decoded_and_built_events_agree() {
    let decoded = decode_event(&value_of(&portal_event())).unwrap();
    let built = valvonta::event::Event::new(
        "Valvonta E + S".to_string(),
        "Välituntivalvonta".to_string(),
        645,
        660,
        "Keskiviikko".to_string(),
        "Matti Meikäläinen".to_string(),
        "Maija Maa".to_string(),
    );
    assert_eq!(decoded.text(), built.text());
    assert_eq!(decoded.teachers(), built.teachers());
}

#[test]
fn a_reversed_interval_is_a_decode_error() {
    let text = portal_event().replace("\"Start\": 645, \"End\": 660", "\"Start\": 660, \"End\": 645");
    assert_eq!(decode_event(&value_of(&text)), Err(DecodeError::MalformedEvent));
}

#[test]
fn an_empty_interval_is_a_decode_error() {
    let text = portal_event().replace("\"Start\": 645, \"End\": 660", "\"Start\": 645, \"End\": 645");
    assert_eq!(decode_event(&value_of(&text)), Err(DecodeError::MalformedEvent));
}

#[test]
fn an_end_past_the_day_is_a_decode_error() {
    let text = portal_event().replace("\"End\": 660", "\"End\": 1440");
    assert_eq!(decode_event(&value_of(&text)), Err(DecodeError::MalformedEvent));
}

#[test]
fn the_last_minute_of_the_day_decodes() {
    let text = portal_event().replace("\"End\": 660", "\"End\": 1439");
    let event = decode_event(&value_of(&text)).expect("must decode");
    assert_eq!(*event.end(), 1439);
}

#[test]
fn decode_events_keeps_order() {
    let second = portal_event().replace("\"Start\": 645, \"End\": 660", "\"Start\": 705, \"End\": 720");
    let array = format!("[{}, {}]", portal_event(), second);
    let value = value_of(&array);
    let values = value.as_array().unwrap().clone();
    let events = decode_events(&values).expect("must decode");
    assert_eq!(events.len(), 2);
    assert_eq!(*events[0].start(), 645);
    assert_eq!(*events[1].start(), 705);
}

#[test]
fn decode_events_aborts_on_the_first_malformed_element() {
    let array = format!("[{}, 42]", portal_event());
    let value = value_of(&array);
    let values = value.as_array().unwrap().clone();
    assert_eq!(decode_events(&values), Err(DecodeError::MalformedEvent));
}
