//! Scanning pages line by line, repairing the portal's quasi-JSON schedule
//! line, and extracting the identity path and person ids from anchor lines.

use vstd::prelude::*;

use crate::errors::ExtractError;
use crate::errors::ParseError;
use crate::html::first_anchor_href;
use crate::html::first_href_of;
use crate::json::json_get;
use crate::json::json_model;
use crate::json::json_of;
use crate::json::json_parse;
use crate::json::JsonData;
use crate::text::chars_of;
use crate::text::chars_to_string;
use crate::text::concat_vec;
use crate::text::contains_seq;
use crate::text::contains_sub;
use crate::text::digits_val;
use crate::text::is_digit_seq;
use crate::text::parse_u32_chars;
use crate::text::replace_all;
use crate::text::spec_replace;
use crate::text::spec_split;
use crate::text::spec_trim;
use crate::text::split_char;
use crate::text::sub_vec;
use crate::text::trim_chars;

verus! {

/// The zero-based index of the first line containing `pat`, if any.
pub open spec fn line_pos_spec(lines: Seq<Seq<char>>, pat: Seq<char>) -> Option<int>
    decreases lines.len(),
{
    if lines.len() == 0 {
        None
    } else if contains_seq(lines[0], pat) {
        Some(0)
    } else {
        match line_pos_spec(lines.drop_first(), pat) {
            Some(i) => Some(i + 1),
            None => None,
        }
    }
}

/// What the first matching line's index means: it matches, nothing before it
/// does, and `None` means nothing matches at all.
pub proof fn lemma_line_pos_spec(lines: Seq<Seq<char>>, pat: Seq<char>)
    ensures
        (match line_pos_spec(lines, pat) {
            Some(i) => 0 <= i < lines.len() && contains_seq(lines[i], pat) && forall|j: int|
                0 <= j < i ==> !contains_seq(#[trigger] lines[j], pat),
            None => forall|j: int|
                0 <= j < lines.len() ==> !contains_seq(#[trigger] lines[j], pat),
        }),
    decreases lines.len(),
{
    if lines.len() > 0 && !contains_seq(lines[0], pat) {
        lemma_line_pos_spec(lines.drop_first(), pat);
        assert(forall|j: int|
            1 <= j < lines.len() ==> lines.drop_first()[j - 1] == #[trigger] lines[j]);
    }
}

/// Splits a document into its lines.
pub fn split_lines(document: &str) -> (r: Vec<Vec<char>>)
    ensures
        r.deep_view() == spec_split(document@, '\n'),
{
    let cs = chars_of(document);
    split_char(&cs, '\n')
}

/// The zero-based index of the first line containing `pattern`, or `None`
/// when no line does.
pub fn line_pos(pattern: &str, lines: &Vec<Vec<char>>) -> (r: Option<usize>)
    ensures
        (match r {
            Some(i) => line_pos_spec(lines.deep_view(), pattern@) == Some(i as int),
            None => line_pos_spec(lines.deep_view(), pattern@) is None,
        }),
{
    let pat = chars_of(pattern);
    let n = lines.len();
    let mut i: usize = 0;
    proof {
        lemma_line_pos_spec(lines.deep_view(), pattern@);
    }
    while i < n
        invariant
            n == lines@.len(),
            n == lines.deep_view().len(),
            pat@ == pattern@,
            i <= n,
            forall|k: int| 0 <= k < n ==> lines.deep_view()[k] == #[trigger] lines@[k]@,
            (match line_pos_spec(lines.deep_view(), pattern@) {
                Some(p) => i <= p,
                None => true,
            }),
            forall|j: int|
                0 <= j < i ==> !contains_seq(#[trigger] lines.deep_view()[j], pattern@),
        decreases n - i,
    {
        proof {
            lemma_line_pos_spec(lines.deep_view(), pattern@);
        }
        if contains_sub(&lines[i], &pat) {
            proof {
                lemma_line_pos_spec(lines.deep_view(), pattern@);
                match line_pos_spec(lines.deep_view(), pattern@) {
                    Some(p) => {
                        if p < i as int {
                            assert(!contains_seq(lines.deep_view()[p], pattern@));
                        }
                        if p > i as int {
                            assert(!contains_seq(lines.deep_view()[i as int], pattern@));
                        }
                    },
                    None => {
                        assert(!contains_seq(lines.deep_view()[i as int], pattern@));
                    },
                }
            }
            return Some(i);
        }
        i = i + 1;
    }
    proof {
        lemma_line_pos_spec(lines.deep_view(), pattern@);
    }
    None
}

/// The first line containing `pattern`, or `None` when no line does.
pub fn filter_line(pattern: &str, lines: &Vec<Vec<char>>) -> (r: Option<Vec<char>>)
    ensures
        (match line_pos_spec(lines.deep_view(), pattern@) {
            Some(i) => r is Some && r->0@ == lines.deep_view()[i],
            None => r is None,
        }),
{
    proof {
        lemma_line_pos_spec(lines.deep_view(), pattern@);
    }
    match line_pos(pattern, lines) {
        Some(i) => {
            let line = sub_vec(&lines[i], 0, lines[i].len());
            proof {
                assert(line@ =~= lines@[i as int]@);
            }
            Some(line)
        },
        None => None,
    }
}

/// The lines containing `pat`, in order.
pub open spec fn matching_lines(lines: Seq<Seq<char>>, pat: Seq<char>) -> Seq<Seq<char>>
    decreases lines.len(),
{
    if lines.len() == 0 {
        Seq::empty()
    } else if contains_seq(lines[0], pat) {
        seq![lines[0]] + matching_lines(lines.drop_first(), pat)
    } else {
        matching_lines(lines.drop_first(), pat)
    }
}

/// Every line containing `pattern`, in order.
pub fn filter_lines(pattern: &str, lines: &Vec<Vec<char>>) -> (r: Vec<Vec<char>>)
    ensures
        r.deep_view() == matching_lines(lines.deep_view(), pattern@),
{
    let pat = chars_of(pattern);
    let ghost dv = lines.deep_view();
    let n = lines.len();
    let mut out: Vec<Vec<char>> = Vec::new();
    let mut i: usize = 0;
    proof {
        assert(dv.skip(0) =~= dv);
        assert(out.deep_view() =~= Seq::<Seq<char>>::empty());
    }
    while i < n
        invariant
            n == lines@.len(),
            n == dv.len(),
            dv == lines.deep_view(),
            pat@ == pattern@,
            i <= n,
            forall|k: int| 0 <= k < n ==> dv[k] == #[trigger] lines@[k]@,
            matching_lines(dv, pattern@) =~= out.deep_view() + matching_lines(
                dv.skip(i as int),
                pattern@,
            ),
        decreases n - i,
    {
        let ghost tail = dv.skip(i as int);
        proof {
            assert(tail.len() > 0);
            assert(tail[0] == dv[i as int]);
            assert(tail.drop_first() =~= dv.skip(i + 1));
        }
        if contains_sub(&lines[i], &pat) {
            let ghost old_out = out.deep_view();
            let line = sub_vec(&lines[i], 0, lines[i].len());
            proof {
                assert(line@ =~= dv[i as int]);
            }
            out.push(line);
            proof {
                assert(out.deep_view() =~~= old_out.push(dv[i as int]));
                assert(matching_lines(tail, pattern@) =~= seq![tail[0]] + matching_lines(
                    dv.skip(i + 1),
                    pattern@,
                ));
                assert(old_out + (seq![tail[0]] + matching_lines(dv.skip(i + 1), pattern@))
                    =~= out.deep_view() + matching_lines(dv.skip(i + 1), pattern@));
            }
        } else {
            proof {
                assert(matching_lines(tail, pattern@) == matching_lines(dv.skip(i + 1), pattern@));
            }
        }
        i = i + 1;
    }
    proof {
        assert(dv.skip(n as int) =~= Seq::<Seq<char>>::empty());
        assert(matching_lines(Seq::<Seq<char>>::empty(), pattern@) =~= Seq::<Seq<char>>::empty());
        assert(out.deep_view() + Seq::<Seq<char>>::empty() =~= out.deep_view());
    }
    out
}

/// The fixed trailing fragment the portal appends after the events array.
pub open spec fn spec_trailer() -> Seq<char> {
    ", ActiveTyyppi: \"\", ActiveId: \"\", DialogEnabled: 0};"@
}

/// The repaired schedule line: the first 81 characters of the line (the
/// portal's non-JSON prefix) replaced by one `{`, the bare key `Events`
/// quoted, and the fixed trailing fragment closed into `}`.
pub open spec fn spec_repair(s: Seq<char>) -> Seq<char> {
    spec_replace(
        spec_replace(seq!['{'] + s.skip(81), "Events"@, "\"Events\""@),
        spec_trailer(),
        "}"@,
    )
}

/// Repairs the portal's quasi-JSON schedule line into JSON text: drops the
/// fixed 81-character prefix, prepends `{`, quotes the bare `Events` key, and
/// replaces the fixed trailing fragment with `}`.  Each replacement rewrites
/// every occurrence, scanning left to right.
pub fn remove_invalid_json(json_line: &str) -> (r: String)
    requires
        json_line@.len() >= 81,
    ensures
        r@ == spec_repair(json_line@),
{
    let cs = chars_of(json_line);
    let n = cs.len();
    let mut opened: Vec<char> = Vec::new();
    opened.push('{');
    proof {
        assert(opened@ =~= seq!['{']);
    }
    let rest = sub_vec(&cs, 81, n);
    proof {
        assert(rest@ =~= json_line@.skip(81));
    }
    let opened = concat_vec(&opened, &rest);
    let quoted = replace_all(&opened, &chars_of("Events"), &chars_of("\"Events\""));
    let closed = replace_all(
        &quoted,
        &chars_of(", ActiveTyyppi: \"\", ActiveId: \"\", DialogEnabled: 0};"),
        &chars_of("}"),
    );
    chars_to_string(&closed)
}

/// The marker line above the portal's schedule data: an inline script tag
/// signature unique to the schedule page.
pub open spec fn spec_schedule_marker() -> Seq<char> {
    "<script data-cfasync=\"false\" src=\"/cdn-cgi/scripts/5c5dd728/cloudflare-static/email-decode.min.js\"></script><script type=\"text/javascript\">"@
}

/// The marker line above the portal's schedule data.
pub fn schedule_marker() -> (r: &'static str)
    ensures
        r@ == spec_schedule_marker(),
{
    "<script data-cfasync=\"false\" src=\"/cdn-cgi/scripts/5c5dd728/cloudflare-static/email-decode.min.js\"></script><script type=\"text/javascript\">"
}

/// What schedule extraction yields on a page: the events array of the
/// repaired JSON on the line after the marker line, or the first error the
/// page runs into.
pub open spec fn schedule_of(doc: Seq<char>) -> Result<Seq<JsonData>, ParseError> {
    let lines = spec_split(doc, '\n');
    match line_pos_spec(lines, spec_schedule_marker()) {
        None => Err(ParseError::MarkerNotFound),
        Some(p) => {
            if p + 1 >= lines.len() {
                Err(ParseError::TruncatedDocument)
            } else {
                let line = lines[p + 1];
                if line.len() < 81 || (line.len() > 81 && line[81] == '{') {
                    Err(ParseError::MalformedScheduleLine)
                } else {
                    match json_of(spec_repair(line)) {
                        None => Err(ParseError::InvalidJson),
                        Some(j) => match j {
                            JsonData::Obj(m) => {
                                if m.contains_key("Events"@) {
                                    match m["Events"@] {
                                        JsonData::Arr(a) => Ok(a),
                                        _ => Err(ParseError::MissingEventsField),
                                    }
                                } else {
                                    Err(ParseError::MissingEventsField)
                                }
                            },
                            _ => Err(ParseError::MissingEventsField),
                        },
                    }
                }
            }
        },
    }
}

/// Clones the values of a parsed events array.
///
/// Relies on `serde_json::Value`'s derived `Clone`: a clone holds the same
/// JSON tree as the original.
#[verifier::external_body]
fn clone_values(v: &Vec<serde_json::Value>) -> (r: Vec<serde_json::Value>)
    ensures
        r@.map_values(|x: serde_json::Value| json_model(x)) == v@.map_values(
            |x: serde_json::Value| json_model(x),
        ),
{
    v.clone()
}

/// Extracts the raw schedule events of a page: finds the marker line, repairs
/// the quasi-JSON on the line after it, parses the repair, and returns the
/// array under the `Events` key.  Each step's failure is its own error, and
/// a line not shaped as the portal's object literal is rejected before any
/// parse.
pub fn schedule(document: &str) -> (r: Result<Vec<serde_json::Value>, ParseError>)
    ensures
        (match r {
            Ok(vals) => schedule_of(document@) == Ok::<Seq<JsonData>, ParseError>(
                vals@.map_values(|x: serde_json::Value| json_model(x)),
            ),
            Err(e) => schedule_of(document@) == Err::<Seq<JsonData>, ParseError>(e),
        }),
{
    let lines = split_lines(document);
    let pos = match line_pos(schedule_marker(), &lines) {
        Some(p) => p,
        None => {
            return Err(ParseError::MarkerNotFound);
        },
    };
    proof {
        lemma_line_pos_spec(lines.deep_view(), spec_schedule_marker());
    }
    if pos + 1 >= lines.len() {
        return Err(ParseError::TruncatedDocument);
    }
    let line = &lines[pos + 1];
    let ghost line_v = lines.deep_view()[pos + 1];
    proof {
        assert(line@ == line_v);
    }
    if line.len() < 81 {
        return Err(ParseError::MalformedScheduleLine);
    }
    if line.len() > 81 {
        if line[81] == '{' {
            return Err(ParseError::MalformedScheduleLine);
        }
    }
    let line_str = chars_to_string(line);
    let repaired = remove_invalid_json(line_str.as_str());
    let parsed = match json_parse(repaired.as_str()) {
        Ok(v) => v,
        Err(_) => {
            return Err(ParseError::InvalidJson);
        },
    };
    let events = match json_get(&parsed, "Events") {
        Some(e) => e,
        None => {
            return Err(ParseError::MissingEventsField);
        },
    };
    match events.as_array() {
        Some(a) => Ok(clone_values(a)),
        None => Err(ParseError::MissingEventsField),
    }
}

/// What identity extraction yields on a landing page: the `href` of the first
/// anchor of the first line containing the marker, without its leading
/// character, or the first error the page runs into.
pub open spec fn identity_of(doc: Seq<char>) -> Result<Seq<char>, ExtractError> {
    let lines = spec_split(doc, '\n');
    match line_pos_spec(lines, "text-style-link"@) {
        None => Err(ExtractError::NoMatchingLine),
        Some(i) => match first_href_of(lines[i]) {
            None => Err(ExtractError::NoAnchor),
            Some(h) => {
                if h.len() == 0 {
                    Err(ExtractError::MalformedHref)
                } else {
                    Ok(h.skip(1))
                }
            },
        },
    }
}

/// Extracts the identity path segment from the authenticated landing page:
/// the `href` of the anchor on the unique marked line, with its leading path
/// separator dropped.
pub fn parse_identity(document: &str) -> (r: Result<String, ExtractError>)
    ensures
        (match r {
            Ok(s) => identity_of(document@) == Ok::<Seq<char>, ExtractError>(s@),
            Err(e) => identity_of(document@) == Err::<Seq<char>, ExtractError>(e),
        }),
{
    let lines = split_lines(document);
    let line = match filter_line("text-style-link", &lines) {
        Some(l) => l,
        None => {
            return Err(ExtractError::NoMatchingLine);
        },
    };
    let line_str = chars_to_string(&line);
    let href = match first_anchor_href(line_str.as_str()) {
        Some(h) => h,
        None => {
            return Err(ExtractError::NoAnchor);
        },
    };
    let hc = chars_of(href.as_str());
    if hc.len() == 0 {
        return Err(ExtractError::MalformedHref);
    }
    let tail = sub_vec(&hc, 1, hc.len());
    proof {
        assert(tail@ =~= href@.skip(1));
    }
    Ok(chars_to_string(&tail))
}

/// What person-id extraction yields on one anchor line: the line's `>`s made
/// self-closing, the first anchor's `href` split on `/`, and the trimmed
/// piece at index four of the split read as a number.  On the portal's
/// identity-rooted profile links that piece is the person id.  An `href` of
/// fewer than five pieces, or one whose piece there is no number, is
/// malformed.
pub open spec fn teacher_id_of(line: Seq<char>) -> Result<u32, ExtractError> {
    match first_href_of(spec_replace(line, ">"@, "/>"@)) {
        None => Err(ExtractError::NoAnchor),
        Some(h) => {
            let segs = spec_split(h, '/');
            if segs.len() <= 4 {
                Err(ExtractError::MalformedHref)
            } else {
                let t = spec_trim(segs[4]);
                if is_digit_seq(t) && digits_val(t) <= u32::MAX {
                    Ok(digits_val(t) as u32)
                } else {
                    Err(ExtractError::MalformedHref)
                }
            }
        },
    }
}

/// What person-id extraction yields on a sequence of anchor lines: each
/// line's id in order, the first failure aborting the batch.
pub open spec fn teacher_ids_of(lines: Seq<Seq<char>>) -> Result<Seq<u32>, ExtractError>
    decreases lines.len(),
{
    if lines.len() == 0 {
        Ok(Seq::empty())
    } else {
        match teacher_id_of(lines[0]) {
            Err(e) => Err(e),
            Ok(id) => match teacher_ids_of(lines.drop_first()) {
                Ok(rest) => Ok(seq![id] + rest),
                Err(e) => Err(e),
            },
        }
    }
}

/// The marker of the profile-link anchor lines.
pub open spec fn spec_profile_marker() -> Seq<char> {
    "class=\"profile-link "@
}

/// Extracts the person ids of a profile listing page: every line holding the
/// profile-link class contributes the id in its anchor's `href`; the first
/// malformed line aborts the whole batch.
pub fn parse_teachers(document: &str) -> (r: Result<Vec<u32>, ExtractError>)
    ensures
        (match r {
            Ok(ids) => teacher_ids_of(
                matching_lines(spec_split(document@, '\n'), spec_profile_marker()),
            ) == Ok::<Seq<u32>, ExtractError>(ids@),
            Err(e) => teacher_ids_of(
                matching_lines(spec_split(document@, '\n'), spec_profile_marker()),
            ) == Err::<Seq<u32>, ExtractError>(e),
        }),
{
    let lines = split_lines(document);
    let matching = filter_lines("class=\"profile-link ", &lines);
    let ghost flines = matching.deep_view();
    proof {
        assert(flines == matching_lines(spec_split(document@, '\n'), spec_profile_marker()));
    }
    let gt = chars_of(">");
    let gt_close = chars_of("/>");
    let n = matching.len();
    let mut out: Vec<u32> = Vec::new();
    let mut i: usize = 0;
    proof {
        assert(flines.skip(0) =~= flines);
    }
    while i < n
        invariant
            n == matching@.len(),
            n == flines.len(),
            flines == matching.deep_view(),
            flines == matching_lines(spec_split(document@, '\n'), spec_profile_marker()),
            gt@ == ">"@,
            gt_close@ == "/>"@,
            i <= n,
            forall|k: int| 0 <= k < n ==> flines[k] == #[trigger] matching@[k]@,
            (match teacher_ids_of(flines) {
                Ok(all) => teacher_ids_of(flines.skip(i as int)) is Ok && all == out@
                    + teacher_ids_of(flines.skip(i as int))->Ok_0,
                Err(e) => teacher_ids_of(flines.skip(i as int)) == Err::<Seq<u32>, ExtractError>(
                    e,
                ),
            }),
        decreases n - i,
    {
        let ghost tail = flines.skip(i as int);
        proof {
            assert(tail.len() > 0);
            assert(tail[0] == flines[i as int]);
            assert(tail.drop_first() =~= flines.skip(i + 1));
        }
        let replaced = replace_all(&matching[i], &gt, &gt_close);
        let rep_str = chars_to_string(&replaced);
        proof {
            assert(replaced@ == spec_replace(tail[0], ">"@, "/>"@));
        }
        let href = match first_anchor_href(rep_str.as_str()) {
            Some(h) => h,
            None => {
                proof {
                    assert(teacher_id_of(tail[0]) == Err::<u32, ExtractError>(
                        ExtractError::NoAnchor,
                    ));
                    assert(teacher_ids_of(tail) == Err::<Seq<u32>, ExtractError>(
                        ExtractError::NoAnchor,
                    ));
                }
                return Err(ExtractError::NoAnchor);
            },
        };
        let hc = chars_of(href.as_str());
        let segs = split_char(&hc, '/');
        proof {
            assert(first_href_of(spec_replace(tail[0], ">"@, "/>"@)) == Some(href@));
            assert(segs.deep_view() == spec_split(href@, '/'));
        }
        if segs.len() <= 4 {
            proof {
                assert(teacher_id_of(tail[0]) == Err::<u32, ExtractError>(
                    ExtractError::MalformedHref,
                ));
                assert(teacher_ids_of(tail) == Err::<Seq<u32>, ExtractError>(
                    ExtractError::MalformedHref,
                ));
            }
            return Err(ExtractError::MalformedHref);
        }
        let seg = sub_vec(&segs[4], 0, segs[4].len());
        proof {
            assert(seg@ =~= segs.deep_view()[4]);
        }
        let trimmed = trim_chars(&seg);
        let id = match parse_u32_chars(&trimmed) {
            Some(v) => v,
            None => {
                proof {
                    assert(trimmed@ == spec_trim(spec_split(href@, '/')[4]));
                    assert(teacher_id_of(tail[0]) == Err::<u32, ExtractError>(
                        ExtractError::MalformedHref,
                    ));
                    assert(teacher_ids_of(tail) == Err::<Seq<u32>, ExtractError>(
                        ExtractError::MalformedHref,
                    ));
                }
                return Err(ExtractError::MalformedHref);
            },
        };
        proof {
            assert(teacher_id_of(tail[0]) == Ok::<u32, ExtractError>(id));
        }
        out.push(id);
        proof {
            let rest = flines.skip(i + 1);
            match teacher_ids_of(flines) {
                Ok(all) => {
                    assert(teacher_ids_of(tail) is Ok);
                    assert(teacher_ids_of(tail)->Ok_0 =~= seq![id] + teacher_ids_of(rest)->Ok_0);
                    assert(out@ + teacher_ids_of(rest)->Ok_0 =~= all);
                },
                Err(e) => {
                    assert(teacher_id_of(tail[0]) is Ok);
                },
            }
        }
        i = i + 1;
    }
    proof {
        let empty_tail = flines.skip(n as int);
        assert(empty_tail =~= Seq::<Seq<char>>::empty());
        match teacher_ids_of(flines) {
            Ok(all) => {
                assert(out@ + Seq::<u32>::empty() =~= out@);
            },
            Err(_) => {},
        }
    }
    Ok(out)
}

} // verus!
