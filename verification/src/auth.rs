use vstd::prelude::*;
use crate::errors::ClientError;
use crate::scan::{
    skip_ws, scan_string, scan_members, skip_value, lookup, LitV, Lit,
    lemma_skip_ws_bounds, lemma_scan_string_advances,
    skip_ws_exec, scan_string_exec, scan_members_exec, skip_value_exec, member_views, find_lit,
    eq_str, to_chars,
};

verus! {

/// The authentication endpoint's response: an error code, an optional error
/// description and an optional token. A present token means success; a
/// missing token with no described error stands for an empty-string failure.
#[derive(Debug)]
pub struct AuthResponse {
    pub error_code: u16,
    pub error_desc: Option<String>,
    pub auth_token: Option<String>,
}

/// The mathematical counterpart of `AuthResponse`.
pub struct AuthResponseV {
    pub error_code: u16,
    pub error_desc: Option<Seq<char>>,
    pub auth_token: Option<Seq<char>>,
}

/// The mathematical value an `AuthResponse` stands for.
pub open spec fn auth_response_view(a: AuthResponse) -> AuthResponseV {
    AuthResponseV {
        error_code: a.error_code,
        error_desc: match a.error_desc {
            Some(t) => Some(t@),
            None => None,
        },
        auth_token: match a.auth_token {
            Some(t) => Some(t@),
            None => None,
        },
    }
}

/// Reads an optional string field: absent and null both stand for no value,
/// a string stands for itself, any other value does not fit the schema.
pub open spec fn opt_str_field(o: Option<LitV>) -> Option<Option<Seq<char>>> {
    match o {
        None => Some(None),
        Some(LitV::Null) => Some(None),
        Some(LitV::Str(t)) => Some(Some(t)),
        Some(_) => None,
    }
}

/// Builds the auth response from the members of its JSON object: the error
/// code is required and must fit sixteen bits, description and token are
/// optional strings.
pub open spec fn auth_fields(ms: Seq<(Seq<char>, LitV)>) -> Option<AuthResponseV> {
    match (lookup(ms, "errorCode"@), opt_str_field(lookup(ms, "errorDesc"@)), opt_str_field(
        lookup(ms, "authToken"@),
    )) {
        (Some(LitV::Int(n)), Some(d), Some(t)) => if 0 <= n <= u16::MAX as i64 {
            Some(AuthResponseV { error_code: n as u16, error_desc: d, auth_token: t })
        } else {
            None
        },
        _ => None,
    }
}

/// Scans the members of the response's top-level object from just after its
/// opening brace, in any order: the first member named "authResponse" whose
/// value is an object is read as the response's members; every other member
/// is ignored, whatever its shape. The bounds on each inner scan's end keep
/// the recursion visibly finite.
pub open spec fn scan_auth_root(
    s: Seq<char>,
    i: int,
    found: Option<Seq<(Seq<char>, LitV)>>,
) -> Option<(Option<Seq<(Seq<char>, LitV)>>, int)>
    decreases s.len() - i,
    when 0 <= i <= s.len()
    via scan_auth_root_decreases
{
    let j = skip_ws(s, i);
    if j < s.len() && s[j] == '}' {
        Some((found, j + 1))
    } else if j < s.len() && s[j] == '"' {
        match scan_string(s, j + 1) {
            Some((key, k)) => {
                let m = skip_ws(s, k);
                if m < s.len() && s[m] == ':' {
                    let vpos = skip_ws(s, m + 1);
                    if key == "authResponse"@ && found is None && vpos < s.len() && s[vpos]
                        == '{' {
                        match scan_members(s, vpos + 1, Seq::empty()) {
                            Some((ms, p)) => if vpos < p <= s.len() {
                                let q = skip_ws(s, p);
                                if q < s.len() && s[q] == ',' {
                                    scan_auth_root(s, q + 1, Some(ms))
                                } else if q < s.len() && s[q] == '}' {
                                    Some((Some(ms), q + 1))
                                } else {
                                    None
                                }
                            } else {
                                None
                            },
                            None => None,
                        }
                    } else {
                        match skip_value(s, vpos, 128) {
                            Some(p) => if vpos < p <= s.len() {
                                let q = skip_ws(s, p);
                                if q < s.len() && s[q] == ',' {
                                    scan_auth_root(s, q + 1, found)
                                } else if q < s.len() && s[q] == '}' {
                                    Some((found, q + 1))
                                } else {
                                    None
                                }
                            } else {
                                None
                            },
                            None => None,
                        }
                    }
                } else {
                    None
                }
            },
            None => None,
        }
    } else {
        None
    }
}

#[via_fn]
proof fn scan_auth_root_decreases(s: Seq<char>, i: int, found: Option<Seq<(Seq<char>, LitV)>>) {
    assert forall|x: int| 0 <= x <= s.len() implies x <= #[trigger] skip_ws(s, x) <= s.len() by {
        lemma_skip_ws_bounds(s, x);
    }
    assert forall|x: int| #[trigger] scan_string(s, x) is Some implies x < scan_string(
        s,
        x,
    ).unwrap().1 <= s.len() by {
        lemma_scan_string_advances(s, x);
    }
}

/// The documented shape of an authentication response body: one object whose
/// member "authResponse" is an object of scalar fields, members in any
/// order, unknown members ignored, nothing but whitespace around the object.
pub open spec fn parse_auth_body(s: Seq<char>) -> Option<AuthResponseV> {
    let i0 = skip_ws(s, 0);
    if i0 < s.len() && s[i0] == '{' {
        match scan_auth_root(s, i0 + 1, None) {
            Some((found, p)) => if skip_ws(s, p) == s.len() {
                match found {
                    Some(ms) => auth_fields(ms),
                    None => None,
                }
            } else {
                None
            },
            None => None,
        }
    } else {
        None
    }
}

/// The mathematical capture a parsed "authResponse" member stands for.
pub open spec fn auth_found_view(f: Option<Vec<(String, Lit)>>) -> Option<
    Seq<(Seq<char>, LitV)>,
> {
    match f {
        Some(ms) => Some(member_views(ms@)),
        None => None,
    }
}

/// The executable top-level scanner of the authentication body, exact
/// against `scan_auth_root` started with nothing captured.
fn scan_auth_root_exec(s: &Vec<char>, i: usize) -> (r: Option<
    (Option<Vec<(String, Lit)>>, usize),
>)
    requires
        i <= s@.len(),
    ensures
        match r {
            Some(p) => scan_auth_root(s@, i as int, None) == Some(
                (auth_found_view(p.0), p.1 as int),
            ) && i < p.1 <= s@.len(),
            None => scan_auth_root(s@, i as int, None) is None,
        },
{
    let mut found: Option<Vec<(String, Lit)>> = None;
    let mut cur = i;
    loop
        invariant
            i <= cur <= s@.len(),
            scan_auth_root(s@, i as int, None) == scan_auth_root(
                s@,
                cur as int,
                auth_found_view(found),
            ),
        decreases s@.len() - cur,
    {
        let j = skip_ws_exec(s, cur);
        if j < s.len() && s[j] == '}' {
            return Some((found, j + 1));
        }
        if !(j < s.len() && s[j] == '"') {
            return None;
        }
        match scan_string_exec(s, j + 1) {
            None => {
                return None;
            },
            Some((key, k)) => {
                let m = skip_ws_exec(s, k);
                if !(m < s.len() && s[m] == ':') {
                    return None;
                }
                let vpos = skip_ws_exec(s, m + 1);
                if eq_str(key.as_str(), "authResponse") && found.is_none() && vpos < s.len()
                    && s[vpos] == '{' {
                    match scan_members_exec(s, vpos + 1) {
                        None => {
                            return None;
                        },
                        Some((ms, p)) => {
                            let q = skip_ws_exec(s, p);
                            if q < s.len() && s[q] == ',' {
                                found = Some(ms);
                                cur = q + 1;
                            } else if q < s.len() && s[q] == '}' {
                                return Some((Some(ms), q + 1));
                            } else {
                                return None;
                            }
                        },
                    }
                } else {
                    match skip_value_exec(s, vpos, 128) {
                        None => {
                            return None;
                        },
                        Some(p) => {
                            let q = skip_ws_exec(s, p);
                            if q < s.len() && s[q] == ',' {
                                cur = q + 1;
                            } else if q < s.len() && s[q] == '}' {
                                return Some((found, q + 1));
                            } else {
                                return None;
                            }
                        },
                    }
                }
            },
        }
    }
}

/// Reads an optional string field from a parsed member, exact against
/// `opt_str_field`.
fn opt_str_exec(o: Option<&Lit>) -> (r: Result<Option<String>, ClientError>)
    ensures
        match r {
            Ok(x) => opt_str_field(
                match o {
                    Some(l) => Some(crate::scan::lit_view(*l)),
                    None => None,
                },
            ) == Some(
                match x {
                    Some(t) => Some(t@),
                    None => None::<Seq<char>>,
                },
            ),
            Err(e) => opt_str_field(
                match o {
                    Some(l) => Some(crate::scan::lit_view(*l)),
                    None => None,
                },
            ) is None && e == ClientError::MalformedResponse,
        },
{
    match o {
        None => Ok(None),
        Some(l) => match l {
            Lit::Null => Ok(None),
            Lit::Str(t) => Ok(Some(t.clone())),
            _ => Err(ClientError::MalformedResponse),
        },
    }
}

/// Parses an authentication response body, exact against `parse_auth_body`:
/// a body in the documented shape yields exactly its fields, any other body
/// is a schema error.
pub fn parse_auth_response(body: &str) -> (r: Result<AuthResponse, ClientError>)
    ensures
        match r {
            Ok(a) => parse_auth_body(body@) == Some(auth_response_view(a)),
            Err(e) => parse_auth_body(body@) is None && e == ClientError::MalformedResponse,
        },
{
    let s = to_chars(body);
    let i0 = skip_ws_exec(&s, 0);
    if !(i0 < s.len() && s[i0] == '{') {
        return Err(ClientError::MalformedResponse);
    }
    let (found, pend) = match scan_auth_root_exec(&s, i0 + 1) {
        Some(pr) => pr,
        None => {
            return Err(ClientError::MalformedResponse);
        },
    };
    if skip_ws_exec(&s, pend) != s.len() {
        return Err(ClientError::MalformedResponse);
    }
    let ghost foundv = auth_found_view(found);
    let ms = match found {
        Some(ms) => ms,
        None => {
            return Err(ClientError::MalformedResponse);
        },
    };
    proof {
        assert(foundv == Some(member_views(ms@)));
    }
    let error_code: u16 = match find_lit(&ms, "errorCode") {
        Some(l) => match l {
            Lit::Int(n) => if 0 <= *n && *n <= u16::MAX as i64 {
                *n as u16
            } else {
                return Err(ClientError::MalformedResponse);
            },
            _ => {
                return Err(ClientError::MalformedResponse);
            },
        },
        None => {
            return Err(ClientError::MalformedResponse);
        },
    };
    let error_desc = match opt_str_exec(find_lit(&ms, "errorDesc")) {
        Ok(x) => x,
        Err(e) => {
            return Err(e);
        },
    };
    let auth_token = match opt_str_exec(find_lit(&ms, "authToken")) {
        Ok(x) => x,
        Err(e) => {
            return Err(e);
        },
    };
    Ok(AuthResponse { error_code, error_desc, auth_token })
}

/// The authentication endpoint for a base URL and billing identifier: the
/// base, the fixed path segment, and the identifier, concatenated.
pub fn auth_url(base_url: &str, billing_id: &str) -> (r: String)
    ensures
        r@ == base_url@ + "auth-apis/auth/1.0/authenticate/"@ + billing_id@,
{
    let out = String::from_str(base_url);
    let out = out.concat("auth-apis/auth/1.0/authenticate/");
    let out = out.concat(billing_id);
    out
}

/// Decides the outcome of the authentication call from the HTTP status and
/// the body. Any status other than 200 is a protocol error carrying that
/// status; on 200 a body in the documented shape yields its token, an empty
/// string standing in when the response carried none, and any other body is
/// a schema error.
pub fn interpret_auth_reply(status: u16, body: &str) -> (r: Result<String, ClientError>)
    ensures
        status != 200 ==> r == Err::<String, ClientError>(ClientError::HttpStatus(status)),
        status == 200 ==> match parse_auth_body(body@) {
            Some(a) => r is Ok && r->Ok_0@ == match a.auth_token {
                Some(t) => t,
                None => Seq::<char>::empty(),
            },
            None => r == Err::<String, ClientError>(ClientError::MalformedResponse),
        },
{
    if status != 200 {
        return Err(ClientError::HttpStatus(status));
    }
    match parse_auth_response(body) {
        Ok(a) => match a.auth_token {
            Some(t) => Ok(t),
            None => Ok(String::new()),
        },
        Err(e) => Err(e),
    }
}

} // verus!
