//! The typed schedule event and the classification of break-duty locations.

use vstd::prelude::*;

use crate::errors::DecodeError;
use crate::json::json_get;
use crate::json::json_model;
use crate::json::JsonData;
use crate::text::chars_of;
use crate::text::contains_seq;
use crate::text::contains_sub;

verus! {

/// One of the seven fixed supervision locations a break-duty event can name.
#[derive(Clone, Copy, Debug, PartialEq, Eq, Structural)]
pub enum BreakPlace {
    IikoonLinna,
    Downstairs,
    Upstairs,
    FrontYard,
    WingAndShed,
    D,
    Wing,
}

/// The location a title names, by the first of the seven fixed phrases it
/// contains, in this order; `None` when it contains none of them.
pub open spec fn place_of_title(t: Seq<char>) -> Option<BreakPlace> {
    if contains_seq(t, "Valvonta YK"@) {
        Some(BreakPlace::Upstairs)
    } else if contains_seq(t, "Valvonta AK"@) {
        Some(BreakPlace::Downstairs)
    } else if contains_seq(t, "Valvonta E + S"@) {
        Some(BreakPlace::WingAndShed)
    } else if contains_seq(t, "Valvonta S"@) {
        Some(BreakPlace::Wing)
    } else if contains_seq(t, "Valvonta P"@) {
        Some(BreakPlace::FrontYard)
    } else if contains_seq(t, "Valvonta D"@) {
        Some(BreakPlace::D)
    } else if contains_seq(t, "Valvonta Iikoon linna"@) {
        Some(BreakPlace::IikoonLinna)
    } else {
        None
    }
}

/// The display text of a location.
pub open spec fn spec_display_name(p: BreakPlace) -> Seq<char> {
    match p {
        BreakPlace::IikoonLinna => "Iikoon linna"@,
        BreakPlace::Downstairs => "Alakerta"@,
        BreakPlace::Upstairs => "Yläkerta"@,
        BreakPlace::FrontYard => "Etupiha/Parkkipaikka"@,
        BreakPlace::WingAndShed => "Ruokalarakennuksen katos ja siipirakennus"@,
        BreakPlace::D => "Takapiha? (D)"@,
        BreakPlace::Wing => "Siipirakennus"@,
    }
}

impl BreakPlace {
    /// Classifies a title: the location named by the first of the seven fixed
    /// phrases the title contains, or an error when it contains none.  A title
    /// outside the seven phrases is reachable on malformed data, so this is a
    /// checked error, never a crash.
    pub fn from_title(title: &str) -> (r: Result<BreakPlace, DecodeError>)
        ensures
            (match r {
                Ok(p) => place_of_title(title@) == Some(p),
                Err(e) => place_of_title(title@) is None && e == DecodeError::UnknownBreakPlace,
            }),
    {
        let t = chars_of(title);
        if contains_sub(&t, &chars_of("Valvonta YK")) {
            Ok(BreakPlace::Upstairs)
        } else if contains_sub(&t, &chars_of("Valvonta AK")) {
            Ok(BreakPlace::Downstairs)
        } else if contains_sub(&t, &chars_of("Valvonta E + S")) {
            Ok(BreakPlace::WingAndShed)
        } else if contains_sub(&t, &chars_of("Valvonta S")) {
            Ok(BreakPlace::Wing)
        } else if contains_sub(&t, &chars_of("Valvonta P")) {
            Ok(BreakPlace::FrontYard)
        } else if contains_sub(&t, &chars_of("Valvonta D")) {
            Ok(BreakPlace::D)
        } else if contains_sub(&t, &chars_of("Valvonta Iikoon linna")) {
            Ok(BreakPlace::IikoonLinna)
        } else {
            Err(DecodeError::UnknownBreakPlace)
        }
    }

    /// The location's display text.
    pub fn display_name(&self) -> (r: &'static str)
        ensures
            r@ == spec_display_name(*self),
    {
        match self {
            BreakPlace::IikoonLinna => "Iikoon linna",
            BreakPlace::Downstairs => "Alakerta",
            BreakPlace::Upstairs => "Yläkerta",
            BreakPlace::FrontYard => "Etupiha/Parkkipaikka",
            BreakPlace::WingAndShed => "Ruokalarakennuksen katos ja siipirakennus",
            BreakPlace::D => "Takapiha? (D)",
            BreakPlace::Wing => "Siipirakennus",
        }
    }
}

/// Each of the seven fixed phrases classifies to its own location, and a
/// text containing none of them is rejected: the classification is total over
/// the phrases and errs on everything else.
#[verifier::rlimit(60)]
pub proof fn lemma_classify_phrases()
    ensures
        place_of_title("Valvonta YK"@) == Some(BreakPlace::Upstairs),
        place_of_title("Valvonta AK"@) == Some(BreakPlace::Downstairs),
        place_of_title("Valvonta E + S"@) == Some(BreakPlace::WingAndShed),
        place_of_title("Valvonta S"@) == Some(BreakPlace::Wing),
        place_of_title("Valvonta P"@) == Some(BreakPlace::FrontYard),
        place_of_title("Valvonta D"@) == Some(BreakPlace::D),
        place_of_title("Valvonta Iikoon linna"@) == Some(BreakPlace::IikoonLinna),
        forall|t: Seq<char>|
            place_of_title(t) is Some <==> (contains_seq(t, "Valvonta YK"@) || contains_seq(
                t,
                "Valvonta AK"@,
            ) || contains_seq(t, "Valvonta E + S"@) || contains_seq(t, "Valvonta S"@)
                || contains_seq(t, "Valvonta P"@) || contains_seq(t, "Valvonta D"@)
                || contains_seq(t, "Valvonta Iikoon linna"@)),
{
    reveal_strlit("Valvonta YK");
    reveal_strlit("Valvonta AK");
    reveal_strlit("Valvonta E + S");
    reveal_strlit("Valvonta S");
    reveal_strlit("Valvonta P");
    reveal_strlit("Valvonta D");
    reveal_strlit("Valvonta Iikoon linna");
    lemma_contains_self("Valvonta YK"@);
    lemma_contains_self("Valvonta AK"@);
    lemma_contains_self("Valvonta E + S"@);
    lemma_contains_self("Valvonta S"@);
    lemma_contains_self("Valvonta P"@);
    lemma_contains_self("Valvonta D"@);
    lemma_contains_self("Valvonta Iikoon linna"@);
    lemma_absent_char("Valvonta AK"@, "Valvonta YK"@, 9, 'Y');
    lemma_absent_char("Valvonta E + S"@, "Valvonta YK"@, 9, 'Y');
    lemma_absent_char("Valvonta E + S"@, "Valvonta AK"@, 10, 'K');
    lemma_absent_char("Valvonta S"@, "Valvonta YK"@, 9, 'Y');
    lemma_absent_char("Valvonta S"@, "Valvonta AK"@, 10, 'K');
    lemma_absent_char("Valvonta S"@, "Valvonta E + S"@, 11, '+');
    lemma_absent_char("Valvonta P"@, "Valvonta YK"@, 9, 'Y');
    lemma_absent_char("Valvonta P"@, "Valvonta AK"@, 10, 'K');
    lemma_absent_char("Valvonta P"@, "Valvonta E + S"@, 11, '+');
    lemma_absent_char("Valvonta P"@, "Valvonta S"@, 9, 'S');
    lemma_absent_char("Valvonta D"@, "Valvonta YK"@, 9, 'Y');
    lemma_absent_char("Valvonta D"@, "Valvonta AK"@, 10, 'K');
    lemma_absent_char("Valvonta D"@, "Valvonta E + S"@, 11, '+');
    lemma_absent_char("Valvonta D"@, "Valvonta S"@, 9, 'S');
    lemma_absent_char("Valvonta D"@, "Valvonta P"@, 9, 'P');
    lemma_absent_char("Valvonta Iikoon linna"@, "Valvonta YK"@, 9, 'Y');
    lemma_absent_char("Valvonta Iikoon linna"@, "Valvonta AK"@, 10, 'K');
    lemma_absent_char("Valvonta Iikoon linna"@, "Valvonta E + S"@, 11, '+');
    lemma_absent_char("Valvonta Iikoon linna"@, "Valvonta S"@, 9, 'S');
    lemma_absent_char("Valvonta Iikoon linna"@, "Valvonta P"@, 9, 'P');
    lemma_absent_char("Valvonta Iikoon linna"@, "Valvonta D"@, 9, 'D');
}

/// Every text contains itself.
pub proof fn lemma_contains_self(s: Seq<char>)
    ensures
        contains_seq(s, s),
{
    assert(s.subrange(0, s.len() as int) =~= s);
    assert(crate::text::contains_at(s, s, 0));
}

/// A text in which some character of the phrase never occurs contains no copy
/// of the phrase.
pub proof fn lemma_absent_char(s: Seq<char>, pat: Seq<char>, k: int, c: char)
    requires
        0 <= k < pat.len(),
        pat[k] == c,
        forall|j: int| 0 <= j < s.len() ==> s[j] != c,
    ensures
        !contains_seq(s, pat),
{
    assert forall|i: int| !crate::text::contains_at(s, pat, i) by {
        if 0 <= i && i + pat.len() <= s.len() {
            assert(s.subrange(i, i + pat.len())[k] == s[i + k]);
        }
    }
}

/// The ghost value of one schedule event: its texts as character sequences,
/// its times, and the two staff-name contributions (either may be empty).
pub struct EventView {
    pub text: Seq<char>,
    pub long_text: Seq<char>,
    pub start: u32,
    pub end: u32,
    pub weekday: Seq<char>,
    pub ope_name: Seq<char>,
    pub henkilo_name: Seq<char>,
}

/// One schedule entry: a short title (the classification key), a long-form
/// label, start and end in minutes since midnight, a weekday name, and up to
/// two staff-name contributions.
#[derive(Debug)]
pub struct Event {
    text: String,
    long_text: String,
    start: u32,
    end: u32,
    weekday: String,
    ope_name: String,
    henkilo_name: String,
}

impl View for Event {
    type V = EventView;

    closed spec fn view(&self) -> EventView {
        EventView {
            text: self.text@,
            long_text: self.long_text@,
            start: self.start,
            end: self.end,
            weekday: self.weekday@,
            ope_name: self.ope_name@,
            henkilo_name: self.henkilo_name@,
        }
    }
}

impl PartialEq for Event {
    /// Events are equal when all their parts are.
    fn eq(&self, other: &Event) -> (r: bool)
        ensures
            r == (self@ == other@),
    {
        self.text == other.text && self.long_text == other.long_text && self.start == other.start
            && self.end == other.end && self.weekday == other.weekday && self.ope_name
            == other.ope_name && self.henkilo_name == other.henkilo_name
    }
}

impl vstd::std_specs::cmp::PartialEqSpecImpl for Event {
    open spec fn obeys_eq_spec() -> bool {
        true
    }

    open spec fn eq_spec(&self, other: &Event) -> bool {
        self@ == other@
    }
}

impl Clone for Event {
    /// A clone carries the same view.
    fn clone(&self) -> (r: Self)
        ensures
            r@ == self@,
    {
        Event {
            text: self.text.clone(),
            long_text: self.long_text.clone(),
            start: self.start,
            end: self.end,
            weekday: self.weekday.clone(),
            ope_name: self.ope_name.clone(),
            henkilo_name: self.henkilo_name.clone(),
        }
    }
}

impl DeepView for Event {
    type V = EventView;

    open spec fn deep_view(&self) -> EventView {
        self.view()
    }
}

/// The staff names of an event: its two contributions with empty names left
/// out, duplicates kept.
pub open spec fn spec_teachers(e: EventView) -> Seq<Seq<char>> {
    let a: Seq<Seq<char>> = if e.ope_name.len() > 0 {
        seq![e.ope_name]
    } else {
        Seq::empty()
    };
    let b: Seq<Seq<char>> = if e.henkilo_name.len() > 0 {
        seq![e.henkilo_name]
    } else {
        Seq::empty()
    };
    a + b
}

impl Event {
    /// Builds an event from its parts.
    pub fn new(
        text: String,
        long_text: String,
        start: u32,
        end: u32,
        weekday: String,
        ope_name: String,
        henkilo_name: String,
    ) -> (r: Event)
        ensures
            r@ == (EventView {
                text: text@,
                long_text: long_text@,
                start: start,
                end: end,
                weekday: weekday@,
                ope_name: ope_name@,
                henkilo_name: henkilo_name@,
            }),
    {
        Event { text, long_text, start, end, weekday, ope_name, henkilo_name }
    }

    /// The long-form label.
    pub fn long_text(&self) -> (r: &String)
        ensures
            r@ == self@.long_text,
    {
        &self.long_text
    }

    /// The short title.
    pub fn text(&self) -> (r: &String)
        ensures
            r@ == self@.text,
    {
        &self.text
    }

    /// The start, in minutes since midnight.
    pub fn start(&self) -> (r: &u32)
        ensures
            r == self@.start,
    {
        &self.start
    }

    /// The end, in minutes since midnight.
    pub fn end(&self) -> (r: &u32)
        ensures
            r == self@.end,
    {
        &self.end
    }

    /// The weekday name.
    pub fn weekday(&self) -> (r: &String)
        ensures
            r@ == self@.weekday,
    {
        &self.weekday
    }

    /// The staff names: the two contributions, empty names left out.
    pub fn teachers(&self) -> (r: Vec<String>)
        ensures
            r.deep_view() == spec_teachers(self@),
    {
        let mut out: Vec<String> = Vec::new();
        if !self.ope_name.as_str().is_empty() {
            out.push(self.ope_name.clone());
        }
        if !self.henkilo_name.as_str().is_empty() {
            out.push(self.henkilo_name.clone());
        }
        proof {
            assert(out.deep_view() =~= spec_teachers(self@));
        }
        out
    }

    /// The supervision location the title names, or an error when it names
    /// none.
    pub fn place(&self) -> (r: Result<BreakPlace, DecodeError>)
        ensures
            (match r {
                Ok(p) => place_of_title(self@.text) == Some(p),
                Err(e) => place_of_title(self@.text) is None && e
                    == DecodeError::UnknownBreakPlace,
            }),
    {
        BreakPlace::from_title(self.text.as_str())
    }
}

/// The key a field is read under: the portal's name when present, else the
/// plain snake-case name, so that a re-encoded event list decodes too.
pub open spec fn field_of(m: Map<Seq<char>, JsonData>, primary: Seq<char>, alt: Seq<char>) -> Option<
    JsonData,
> {
    if m.contains_key(primary) {
        Some(m[primary])
    } else if m.contains_key(alt) {
        Some(m[alt])
    } else {
        None
    }
}

/// The inner string of a `{"0": <string>}` wrapper.
pub open spec fn unwrap_text(j: JsonData) -> Option<Seq<char>> {
    match j {
        JsonData::Obj(m) => {
            if m.contains_key("0"@) {
                match m["0"@] {
                    JsonData::Str(s) => Some(s),
                    _ => None,
                }
            } else {
                None
            }
        },
        _ => None,
    }
}

/// A bare string field.
pub open spec fn opt_str(o: Option<JsonData>) -> Option<Seq<char>> {
    match o {
        Some(JsonData::Str(s)) => Some(s),
        _ => None,
    }
}

/// A minute count: a number fitting a `u32`.
pub open spec fn opt_num(o: Option<JsonData>) -> Option<u32> {
    match o {
        Some(JsonData::UNum(n)) => if n <= u32::MAX as u64 {
            Some(n as u32)
        } else {
            None
        },
        _ => None,
    }
}

/// The staff name of a doubly nested `{"0": {"0": {"nimi": ..}}}` wrapper:
/// empty when the innermost object is absent or null (never an error), the
/// `nimi` string when the innermost object carries its two string fields, and
/// `None` (an error) on any other shape.
pub open spec fn unwrap_name(j: JsonData) -> Option<Seq<char>> {
    match j {
        JsonData::Obj(m) => {
            if m.contains_key("0"@) {
                match m["0"@] {
                    JsonData::Obj(m2) => {
                        if m2.contains_key("0"@) {
                            match m2["0"@] {
                                JsonData::Null => Some(Seq::empty()),
                                JsonData::Obj(m3) => {
                                    if m3.contains_key("nimi"@) && m3.contains_key("lyhenne"@) {
                                        match (m3["nimi"@], m3["lyhenne"@]) {
                                            (JsonData::Str(n), JsonData::Str(_)) => Some(n),
                                            _ => None,
                                        }
                                    } else {
                                        None
                                    }
                                },
                                _ => None,
                            }
                        } else {
                            Some(Seq::empty())
                        }
                    },
                    _ => None,
                }
            } else {
                None
            }
        },
        _ => None,
    }
}

/// The event a JSON value decodes to, when every required field is present
/// and well-shaped: `Text` and `LongText` are singly wrapped strings, `Start`
/// and `End` numbers forming a valid interval of the day (the start strictly
/// before the end, the end within the day's minutes), `ViikonPaiva` a bare
/// string, and `OpeInfo` and `HenkiloInfo` doubly wrapped optional staff
/// names.
pub open spec fn event_of_json(j: JsonData) -> Option<EventView> {
    match j {
        JsonData::Obj(m) => {
            let text = match field_of(m, "Text"@, "text"@) {
                Some(x) => unwrap_text(x),
                None => None,
            };
            let long_text = match field_of(m, "LongText"@, "long_text"@) {
                Some(x) => unwrap_text(x),
                None => None,
            };
            let start = opt_num(field_of(m, "Start"@, "start"@));
            let end = opt_num(field_of(m, "End"@, "end"@));
            let weekday = opt_str(field_of(m, "ViikonPaiva"@, "weekday"@));
            let ope = match field_of(m, "OpeInfo"@, "ope_info"@) {
                Some(x) => unwrap_name(x),
                None => None,
            };
            let henkilo = match field_of(m, "HenkiloInfo"@, "henkilo_info"@) {
                Some(x) => unwrap_name(x),
                None => None,
            };
            if text is Some && long_text is Some && start is Some && end is Some && weekday
                is Some && ope is Some && henkilo is Some {
                if start->0 < end->0 && end->0 <= 1439 {
                    Some(
                        EventView {
                            text: text->0,
                            long_text: long_text->0,
                            start: start->0,
                            end: end->0,
                            weekday: weekday->0,
                            ope_name: ope->0,
                            henkilo_name: henkilo->0,
                        },
                    )
                } else {
                    None
                }
            } else {
                None
            }
        },
        _ => None,
    }
}

/// Looks a field up under the portal's key, falling back to the plain name.
fn get_field<'a>(v: &'a serde_json::Value, primary: &str, alt: &str) -> (r: Option<
    &'a serde_json::Value,
>)
    ensures
        (match json_model(*v) {
            JsonData::Obj(m) => (match field_of(m, primary@, alt@) {
                Some(j) => r is Some && json_model(*r->0) == j,
                None => r is None,
            }),
            _ => r is None,
        }),
{
    match json_get(v, primary) {
        Some(x) => Some(x),
        None => json_get(v, alt),
    }
}

/// Reads the inner string of a `{"0": <string>}` wrapper.
fn get_text(v: &serde_json::Value) -> (r: Option<String>)
    ensures
        (match unwrap_text(json_model(*v)) {
            Some(s) => r is Some && r->0@ == s,
            None => r is None,
        }),
{
    match json_get(v, "0") {
        Some(inner) => match inner.as_str() {
            Some(s) => Some(s.to_owned()),
            None => None,
        },
        None => None,
    }
}

/// Reads the staff name of a doubly nested wrapper, the empty string when the
/// innermost object is absent.
fn get_name(v: &serde_json::Value) -> (r: Option<String>)
    ensures
        (match unwrap_name(json_model(*v)) {
            Some(s) => r is Some && r->0@ == s,
            None => r is None,
        }),
{
    if !v.is_object() {
        return None;
    }
    let inner = match json_get(v, "0") {
        Some(x) => x,
        None => {
            return None;
        },
    };
    if !inner.is_object() {
        return None;
    }
    let person = match json_get(inner, "0") {
        Some(x) => x,
        None => {
            let empty = String::new();
            proof {
                assert(empty@ =~= Seq::<char>::empty());
            }
            return Some(empty);
        },
    };
    if person.is_null() {
        let empty = String::new();
        proof {
            assert(empty@ =~= Seq::<char>::empty());
        }
        return Some(empty);
    }
    let name = match json_get(person, "nimi") {
        Some(x) => match x.as_str() {
            Some(s) => s.to_owned(),
            None => {
                return None;
            },
        },
        None => {
            return None;
        },
    };
    match json_get(person, "lyhenne") {
        Some(x) => match x.as_str() {
            Some(_) => Some(name),
            None => None,
        },
        None => None,
    }
}

/// Decodes one schedule event from its JSON value, exactly when the value has
/// the shape `event_of_json` accepts, times within the day included; every
/// other shape is a checked error.
pub fn decode_event(v: &serde_json::Value) -> (r: Result<Event, DecodeError>)
    ensures
        (match r {
            Ok(e) => event_of_json(json_model(*v)) == Some(e@),
            Err(err) => event_of_json(json_model(*v)) is None && err
                == DecodeError::MalformedEvent,
        }),
{
    if !v.is_object() {
        return Err(DecodeError::MalformedEvent);
    }
    let text = match get_field(v, "Text", "text") {
        Some(x) => match get_text(x) {
            Some(s) => s,
            None => {
                return Err(DecodeError::MalformedEvent);
            },
        },
        None => {
            return Err(DecodeError::MalformedEvent);
        },
    };
    let long_text = match get_field(v, "LongText", "long_text") {
        Some(x) => match get_text(x) {
            Some(s) => s,
            None => {
                return Err(DecodeError::MalformedEvent);
            },
        },
        None => {
            return Err(DecodeError::MalformedEvent);
        },
    };
    let start = match get_field(v, "Start", "start") {
        Some(x) => match x.as_u64() {
            Some(n) => {
                if n <= u32::MAX as u64 {
                    n as u32
                } else {
                    return Err(DecodeError::MalformedEvent);
                }
            },
            None => {
                return Err(DecodeError::MalformedEvent);
            },
        },
        None => {
            return Err(DecodeError::MalformedEvent);
        },
    };
    let end = match get_field(v, "End", "end") {
        Some(x) => match x.as_u64() {
            Some(n) => {
                if n <= u32::MAX as u64 {
                    n as u32
                } else {
                    return Err(DecodeError::MalformedEvent);
                }
            },
            None => {
                return Err(DecodeError::MalformedEvent);
            },
        },
        None => {
            return Err(DecodeError::MalformedEvent);
        },
    };
    if !(start < end && end <= 1439) {
        return Err(DecodeError::MalformedEvent);
    }
    let weekday = match get_field(v, "ViikonPaiva", "weekday") {
        Some(x) => match x.as_str() {
            Some(s) => s.to_owned(),
            None => {
                return Err(DecodeError::MalformedEvent);
            },
        },
        None => {
            return Err(DecodeError::MalformedEvent);
        },
    };
    let ope_name = match get_field(v, "OpeInfo", "ope_info") {
        Some(x) => match get_name(x) {
            Some(s) => s,
            None => {
                return Err(DecodeError::MalformedEvent);
            },
        },
        None => {
            return Err(DecodeError::MalformedEvent);
        },
    };
    let henkilo_name = match get_field(v, "HenkiloInfo", "henkilo_info") {
        Some(x) => match get_name(x) {
            Some(s) => s,
            None => {
                return Err(DecodeError::MalformedEvent);
            },
        },
        None => {
            return Err(DecodeError::MalformedEvent);
        },
    };
    Ok(Event { text, long_text, start, end, weekday, ope_name, henkilo_name })
}

/// A decoded event's times lie within the day: the start strictly before the
/// end, the end at most the day's last minute.
pub proof fn lemma_decoded_event_times(j: JsonData, e: EventView)
    requires
        event_of_json(j) == Some(e),
    ensures
        e.start < e.end,
        e.end <= 1439,
{
}

/// What a whole events array decodes to: each element's event in order, the
/// first malformed element aborting the batch.
pub open spec fn events_of_json(vals: Seq<JsonData>) -> Result<Seq<EventView>, DecodeError>
    decreases vals.len(),
{
    if vals.len() == 0 {
        Ok(Seq::empty())
    } else {
        match event_of_json(vals[0]) {
            None => Err(DecodeError::MalformedEvent),
            Some(e) => match events_of_json(vals.drop_first()) {
                Ok(rest) => Ok(seq![e] + rest),
                Err(err) => Err(err),
            },
        }
    }
}

/// Decodes a whole events array, in order; the first malformed element aborts
/// the batch with its error.
pub fn decode_events(values: &Vec<serde_json::Value>) -> (r: Result<Vec<Event>, DecodeError>)
    ensures
        (match r {
            Ok(es) => events_of_json(
                values@.map_values(|x: serde_json::Value| json_model(x)),
            ) == Ok::<Seq<EventView>, DecodeError>(es.deep_view()),
            Err(e) => events_of_json(
                values@.map_values(|x: serde_json::Value| json_model(x)),
            ) == Err::<Seq<EventView>, DecodeError>(e),
        }),
{
    let ghost ms = values@.map_values(|x: serde_json::Value| json_model(x));
    let n = values.len();
    let mut out: Vec<Event> = Vec::new();
    let mut i: usize = 0;
    proof {
        assert(ms.skip(0) =~= ms);
    }
    while i < n
        invariant
            n == values@.len(),
            n == ms.len(),
            ms == values@.map_values(|x: serde_json::Value| json_model(x)),
            i <= n,
            forall|k: int| 0 <= k < n ==> ms[k] == json_model(#[trigger] values@[k]),
            (match events_of_json(ms) {
                Ok(all) => events_of_json(ms.skip(i as int)) is Ok && all == out.deep_view()
                    + events_of_json(ms.skip(i as int))->Ok_0,
                Err(e) => events_of_json(ms.skip(i as int)) == Err::<Seq<EventView>, DecodeError>(
                    e,
                ),
            }),
        decreases n - i,
    {
        let ghost tail = ms.skip(i as int);
        proof {
            assert(tail.len() > 0);
            assert(tail[0] == ms[i as int]);
            assert(tail.drop_first() =~= ms.skip(i + 1));
        }
        let ev = match decode_event(&values[i]) {
            Ok(ev) => ev,
            Err(err) => {
                proof {
                    assert(event_of_json(tail[0]) is None);
                    assert(events_of_json(tail) == Err::<Seq<EventView>, DecodeError>(
                        DecodeError::MalformedEvent,
                    ));
                }
                return Err(err);
            },
        };
        let ghost old_out = out.deep_view();
        out.push(ev);
        proof {
            assert(out.deep_view() =~~= old_out.push(ev@));
            assert(event_of_json(tail[0]) == Some(ev@));
            let rest = ms.skip(i + 1);
            match events_of_json(ms) {
                Ok(all) => {
                    assert(events_of_json(tail) is Ok);
                    assert(events_of_json(tail)->Ok_0 =~= seq![ev@] + events_of_json(
                        rest,
                    )->Ok_0);
                    assert(old_out + events_of_json(tail)->Ok_0 =~= out.deep_view()
                        + events_of_json(rest)->Ok_0);
                },
                Err(e) => {},
            }
        }
        i = i + 1;
    }
    proof {
        let empty_tail = ms.skip(n as int);
        assert(empty_tail =~= Seq::<JsonData>::empty());
        match events_of_json(ms) {
            Ok(all) => {
                assert(out.deep_view() + Seq::<EventView>::empty() =~= out.deep_view());
            },
            Err(_) => {},
        }
    }
    Ok(out)
}

} // verus!
