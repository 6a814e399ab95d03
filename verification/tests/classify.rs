use valvonta::errors::DecodeError;
use valvonta::event::BreakPlace;
use valvonta::event::Event;

#[test]
fn classifies_the_seven_phrases() {
    assert_eq!(BreakPlace::from_title("Valvonta YK"), Ok(BreakPlace::Upstairs));
    assert_eq!(BreakPlace::from_title("Valvonta AK"), Ok(BreakPlace::Downstairs));
    assert_eq!(BreakPlace::from_title("Valvonta E + S"), Ok(BreakPlace::WingAndShed));
    assert_eq!(BreakPlace::from_title("Valvonta S"), Ok(BreakPlace::Wing));
    assert_eq!(BreakPlace::from_title("Valvonta P"), Ok(BreakPlace::FrontYard));
    assert_eq!(BreakPlace::from_title("Valvonta D"), Ok(BreakPlace::D));
    assert_eq!(
        BreakPlace::from_title("Valvonta Iikoon linna"),
        Ok(BreakPlace::IikoonLinna)
    );
}

#[test]
fn rejects_unrecognized_titles() {
    assert_eq!(
        BreakPlace::from_title("Ruokala"),
        Err(DecodeError::UnknownBreakPlace)
    );
    assert_eq!(BreakPlace::from_title(""), Err(DecodeError::UnknownBreakPlace));
    assert_eq!(
        BreakPlace::from_title("Valvonta"),
        Err(DecodeError::UnknownBreakPlace)
    );
}

#[test]
fn classifies_titles_containing_a_phrase() {
    assert_eq!(
        BreakPlace::from_title("8:45 Valvonta YK (sali)"),
        Ok(BreakPlace::Upstairs)
    );
}

#[test]
fn display_names() {
    assert_eq!(BreakPlace::Upstairs.display_name(), "Yläkerta");
    assert_eq!(BreakPlace::Downstairs.display_name(), "Alakerta");
    assert_eq!(BreakPlace::IikoonLinna.display_name(), "Iikoon linna");
    assert_eq!(BreakPlace::FrontYard.display_name(), "Etupiha/Parkkipaikka");
    assert_eq!(
        BreakPlace::WingAndShed.display_name(),
        "Ruokalarakennuksen katos ja siipirakennus"
    );
    assert_eq!(BreakPlace::D.display_name(), "Takapiha? (D)");
    assert_eq!(BreakPlace::Wing.display_name(), "Siipirakennus");
}

#[test]
fn event_place_reads_the_title() {
    let ev = Event::new(
        "Valvonta YK".to_string(),
        "Välituntivalvonta".to_string(),
        525,
        540,
        "Maanantai".to_string(),
        "Matti".to_string(),
        String::new(),
    );
    assert_eq!(ev.place(), Ok(BreakPlace::Upstairs));
}

#[test]
fn teachers_filters_empty_names() {
    let both = Event::new(
        "Valvonta YK".to_string(),
        String::new(),
        525,
        540,
        "Maanantai".to_string(),
        "Matti".to_string(),
        "Maija".to_string(),
    );
    assert_eq!(both.teachers(), vec!["Matti".to_string(), "Maija".to_string()]);

    let second_only = Event::new(
        "Valvonta YK".to_string(),
        String::new(),
        525,
        540,
        "Maanantai".to_string(),
        String::new(),
        "Maija".to_string(),
    );
    assert_eq!(second_only.teachers(), vec!["Maija".to_string()]);

    let none = Event::new(
        "Valvonta YK".to_string(),
        String::new(),
        525,
        540,
        "Maanantai".to_string(),
        String::new(),
        String::new(),
    );
    assert_eq!(none.teachers(), Vec::<String>::new());

    let duplicates = Event::new(
        "Valvonta YK".to_string(),
        String::new(),
        525,
        540,
        "Maanantai".to_string(),
        "Matti".to_string(),
        "Matti".to_string(),
    );
    assert_eq!(
        duplicates.teachers(),
        vec!["Matti".to_string(), "Matti".to_string()]
    );
}

#[test]
fn getters_return_the_parts() {
    let ev = Event::new(
        "Valvonta AK".to_string(),
        "Välituntivalvonta".to_string(),
        585,
        600,
        "Tiistai".to_string(),
        "Matti".to_string(),
        String::new(),
    );
    assert_eq!(ev.text(), "Valvonta AK");
    assert_eq!(ev.long_text(), "Välituntivalvonta");
    assert_eq!(*ev.start(), 585);
    assert_eq!(*ev.end(), 600);
    assert_eq!(ev.weekday(), "Tiistai");
}
