use valvonta::errors::AuthError;
use valvonta::errors::ExtractError;
use valvonta::parser::parse_identity;
use valvonta::parser::parse_teachers;
use valvonta::session::base_url;
use valvonta::session::find_session_cookie;
use valvonta::session::login_form;
use valvonta::session::profiles_url;
use valvonta::session::schedule_url;
use valvonta::session::session_id_from_index;
use valvonta::session::with_identity;
use valvonta::session::GetScheduleKind;

#[test]
fn identity_comes_from_the_marked_anchor() {
    let document = "<html>\n<a href=\"/elsewhere\">other</a>\n<a class=\"text-style-link\" href=\"/!0123456/\">Etusivu</a>\n</html>";
    assert_eq!(parse_identity(document), Ok("!0123456/".to_string()));
}

#[test]
fn identity_errors_without_the_marker_line() {
    assert_eq!(
        parse_identity("<html>\nno link here\n</html>"),
        Err(ExtractError::NoMatchingLine)
    );
}

#[test]
fn identity_errors_without_an_anchor() {
    assert_eq!(
        parse_identity("<div class=\"text-style-link\">bare</div>"),
        Err(ExtractError::NoAnchor)
    );
}

#[test]
fn person_id_comes_from_the_profile_anchor() {
    let document = "<table>\n<a class=\"profile-link teacher\" href=\"/!0123456/profiles/teachers/113/schedule\">\n</table>";
    assert_eq!(parse_teachers(document), Ok(vec![113]));
}

#[test]
fn person_ids_keep_page_order() {
    let document = "<a class=\"profile-link a\" href=\"/!01/profiles/teachers/113/schedule\">\n<a class=\"profile-link b\" href=\"/!01/profiles/teachers/7/schedule\">\n<a class=\"profile-link c\" href=\"/!01/profiles/personnel/4021/schedule\">";
    assert_eq!(parse_teachers(document), Ok(vec![113, 7, 4021]));
}

#[test]
fn a_short_href_is_malformed_not_a_crash() {
    let document = "<a class=\"profile-link x\" href=\"/profiles\">";
    assert_eq!(parse_teachers(document), Err(ExtractError::MalformedHref));
}

#[test]
fn a_non_numeric_segment_is_malformed() {
    let document = "<a class=\"profile-link x\" href=\"/!01/profiles/teachers/abc/schedule\">";
    assert_eq!(parse_teachers(document), Err(ExtractError::MalformedHref));
}

#[test]
fn an_href_without_the_identity_root_is_malformed() {
    // The id sits at split index four, where the portal's identity-rooted
    // links put it; a link rooted directly at /profiles has a name there.
    let document = "<a class=\"profile-link x\" href=\"/profiles/teachers/113/schedule\">";
    assert_eq!(parse_teachers(document), Err(ExtractError::MalformedHref));
}

#[test]
fn a_marked_line_without_an_anchor_aborts_the_batch() {
    let document = "<a class=\"profile-link a\" href=\"/!01/profiles/teachers/113/schedule\">\n<div class=\"profile-link b\">";
    assert_eq!(parse_teachers(document), Err(ExtractError::NoAnchor));
}

#[test]
fn a_page_without_profile_lines_yields_no_ids() {
    assert_eq!(parse_teachers("<html>\nnothing\n</html>"), Ok(vec![]));
}

#[test]
fn session_id_comes_from_the_index_json() {
    assert_eq!(
        session_id_from_index("{\"SessionID\": \"abc123\", \"ApiVersion\": 5}"),
        Ok("abc123".to_string())
    );
}

#[test]
fn a_malformed_index_is_an_error() {
    assert_eq!(session_id_from_index("not json"), Err(AuthError::MalformedIndex));
    assert_eq!(session_id_from_index("{}"), Err(AuthError::MalformedIndex));
    assert_eq!(
        session_id_from_index("{\"SessionID\": 7}"),
        Err(AuthError::MalformedIndex)
    );
}

#[test]
fn the_session_cookie_is_found_by_name() {
    let cookies = vec![
        ("other".to_string(), "1".to_string()),
        ("Wilma2SID".to_string(), "deadbeef".to_string()),
    ];
    assert_eq!(find_session_cookie(&cookies), Ok("deadbeef".to_string()));
}

#[test]
fn a_missing_session_cookie_is_an_error() {
    let cookies = vec![("other".to_string(), "1".to_string())];
    assert_eq!(find_session_cookie(&cookies), Err(AuthError::NoSessionCookie));
    assert_eq!(find_session_cookie(&vec![]), Err(AuthError::NoSessionCookie));
}

#[test]
fn the_login_form_has_the_four_fields() {
    let form = login_form("user", "SECRET-REDACTED", "sid42");
    assert_eq!(
        form,
        vec![
            ("Login".to_string(), "user".to_string()),
            ("Password".to_string(), "SECRET-REDACTED".to_string()),
            ("SESSIONID".to_string(), "sid42".to_string()),
            ("CompleteJson".to_string(), String::new()),
        ]
    );
}

#[test]
fn urls_are_rooted_at_the_identity() {
    let base = base_url("example.com");
    assert_eq!(base, "https://example.com/");
    let rooted = with_identity(&base, "!0123456/");
    assert_eq!(rooted, "https://example.com/!0123456/");
    assert_eq!(
        profiles_url(&rooted, &GetScheduleKind::Teacher),
        "https://example.com/!0123456/profiles/teachers"
    );
    assert_eq!(
        profiles_url(&rooted, &GetScheduleKind::Personnel),
        "https://example.com/!0123456/profiles/personnel"
    );
    assert_eq!(
        schedule_url(&rooted, &GetScheduleKind::Teacher, 113),
        "https://example.com/!0123456/profiles/teachers/113/schedule"
    );
    assert_eq!(
        schedule_url(&rooted, &GetScheduleKind::Personnel, 4021),
        "https://example.com/!0123456/profiles/personnel/4021/schedule"
    );
}
