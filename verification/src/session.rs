//! The computed parts of the session handshake and of the fetch URLs: reading
//! the session id out of the index page, picking the session cookie, and
//! building the portal paths.  The HTTP requests around these live outside
//! the library.

use vstd::prelude::*;
use vstd::string::StringExecFns;

use crate::errors::AuthError;
use crate::json::json_get;
use crate::json::json_of;
use crate::json::json_parse;
use crate::json::JsonData;
use crate::text::chars_of;
use crate::text::spec_dec;
use crate::text::push_dec;
use crate::text::chars_to_string;
use crate::text::vec_eq;

verus! {

/// Which profile listing a fetch goes to.
pub enum GetScheduleKind {
    Personnel,
    Teacher,
}

/// The path segment of a listing kind.
pub open spec fn spec_kind_segment(kind: GetScheduleKind) -> Seq<char> {
    match kind {
        GetScheduleKind::Personnel => "personnel"@,
        GetScheduleKind::Teacher => "teachers"@,
    }
}

impl GetScheduleKind {
    /// The path segment this kind's endpoints sit under.
    pub fn path_segment(&self) -> (r: &'static str)
        ensures
            r@ == spec_kind_segment(*self),
    {
        match self {
            GetScheduleKind::Personnel => "personnel",
            GetScheduleKind::Teacher => "teachers",
        }
    }
}

/// The session id of an index page body: the string under the `SessionID` key
/// of its JSON object, when the body parses to such an object.
pub open spec fn session_id_of(body: Seq<char>) -> Option<Seq<char>> {
    match json_of(body) {
        Some(JsonData::Obj(m)) => {
            if m.contains_key("SessionID"@) {
                match m["SessionID"@] {
                    JsonData::Str(s) => Some(s),
                    _ => None,
                }
            } else {
                None
            }
        },
        _ => None,
    }
}

/// Reads the session id out of the index page's JSON body; any other body is
/// a malformed index.
pub fn session_id_from_index(body: &str) -> (r: Result<String, AuthError>)
    ensures
        (match r {
            Ok(s) => session_id_of(body@) == Some(s@),
            Err(e) => session_id_of(body@) is None && e == AuthError::MalformedIndex,
        }),
{
    let parsed = match json_parse(body) {
        Ok(v) => v,
        Err(_) => {
            return Err(AuthError::MalformedIndex);
        },
    };
    match json_get(&parsed, "SessionID") {
        Some(v) => match v.as_str() {
            Some(s) => Ok(s.to_owned()),
            None => Err(AuthError::MalformedIndex),
        },
        None => Err(AuthError::MalformedIndex),
    }
}

/// The value of the first cookie named `Wilma2SID`, if any.
pub open spec fn session_cookie_of(cookies: Seq<(Seq<char>, Seq<char>)>) -> Option<Seq<char>>
    decreases cookies.len(),
{
    if cookies.len() == 0 {
        None
    } else if cookies[0].0 == "Wilma2SID"@ {
        Some(cookies[0].1)
    } else {
        session_cookie_of(cookies.drop_first())
    }
}

/// Picks the session cookie out of the login response's cookies, given as
/// name and value pairs in response order; its absence fails the handshake.
pub fn find_session_cookie(cookies: &Vec<(String, String)>) -> (r: Result<String, AuthError>)
    ensures
        (match r {
            Ok(v) => session_cookie_of(cookies.deep_view()) == Some(v@),
            Err(e) => session_cookie_of(cookies.deep_view()) is None && e
                == AuthError::NoSessionCookie,
        }),
{
    let ghost dv = cookies.deep_view();
    let wanted = chars_of("Wilma2SID");
    let n = cookies.len();
    let mut i: usize = 0;
    proof {
        assert(dv.skip(0) =~= dv);
    }
    while i < n
        invariant
            n == cookies@.len(),
            n == dv.len(),
            dv == cookies.deep_view(),
            wanted@ == "Wilma2SID"@,
            i <= n,
            forall|k: int|
                0 <= k < n ==> dv[k] == (#[trigger] cookies@[k].0@, cookies@[k].1@),
            session_cookie_of(dv) == session_cookie_of(dv.skip(i as int)),
        decreases n - i,
    {
        let ghost tail = dv.skip(i as int);
        proof {
            assert(tail[0] == dv[i as int]);
            assert(tail.drop_first() =~= dv.skip(i + 1));
        }
        let name = chars_of(cookies[i].0.as_str());
        if vec_eq(&name, &wanted) {
            let value = cookies[i].1.clone();
            return Ok(value);
        }
        i = i + 1;
    }
    proof {
        assert(dv.skip(n as int) =~= Seq::<(Seq<char>, Seq<char>)>::empty());
    }
    Err(AuthError::NoSessionCookie)
}

/// The form fields of the login request, in order: the credentials, the
/// session id of the index page, and the empty `CompleteJson` marker.
pub open spec fn spec_login_form(
    username: Seq<char>,
    password: Seq<char>,
    session_id: Seq<char>,
) -> Seq<(Seq<char>, Seq<char>)> {
    seq![
        ("Login"@, username),
        ("Password"@, password),
        ("SESSIONID"@, session_id),
        ("CompleteJson"@, Seq::<char>::empty()),
    ]
}

/// Builds the login form's fields.
pub fn login_form(username: &str, password: &str, session_id: &str) -> (r: Vec<(String, String)>)
    ensures
        r.deep_view() == spec_login_form(username@, password@, session_id@),
{
    let mut out: Vec<(String, String)> = Vec::new();
    out.push((String::from_str("Login"), username.to_owned()));
    out.push((String::from_str("Password"), password.to_owned()));
    out.push((String::from_str("SESSIONID"), session_id.to_owned()));
    out.push((String::from_str("CompleteJson"), String::new()));
    proof {
        assert(out.deep_view() =~= spec_login_form(username@, password@, session_id@));
    }
    out
}

/// The portal's base URL for a server host.
pub fn base_url(server: &str) -> (r: String)
    ensures
        r@ == "https://"@ + server@ + "/"@,
{
    let mut url = String::from_str("https://");
    url.append(server);
    url.append("/");
    url
}

/// The base URL extended with the identity path discovered after login.
pub fn with_identity(base: &str, identity: &str) -> (r: String)
    ensures
        r@ == base@ + identity@,
{
    let mut url = base.to_owned();
    url.append(identity);
    url
}

/// The URL of a profile listing: the identity-rooted base followed by the
/// kind's segment.
pub fn profiles_url(base: &str, kind: &GetScheduleKind) -> (r: String)
    ensures
        r@ == base@ + "profiles/"@ + spec_kind_segment(*kind),
{
    let mut url = base.to_owned();
    url.append("profiles/");
    url.append(kind.path_segment());
    url
}

/// The URL of one person's schedule page under a profile listing.
pub fn schedule_url(base: &str, kind: &GetScheduleKind, id: u32) -> (r: String)
    ensures
        r@ == base@ + "profiles/"@ + spec_kind_segment(*kind) + "/"@ + spec_dec(id as int)
            + "/schedule"@,
{
    let mut url = base.to_owned();
    url.append("profiles/");
    url.append(kind.path_segment());
    url.append("/");
    let mut digits: Vec<char> = Vec::new();
    push_dec(id, &mut digits);
    proof {
        assert(Seq::<char>::empty() + spec_dec(id as int) =~= spec_dec(id as int));
    }
    let id_str = chars_to_string(&digits);
    url.append(id_str.as_str());
    url.append("/schedule");
    url
}

} // verus!
