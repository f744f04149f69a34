use vstd::prelude::*;
use vstd::arithmetic::div_mod::lemma_fundamental_div_mod;
use crate::credentials::MaaS360AdminAuth;
use crate::scan::{scan_string, hex_val, push_char};

verus! {

/// The hexadecimal digit (lower case) standing for a value below sixteen.
pub open spec fn hex_digit(d: int) -> char {
    if d == 0 { '0' }
    else if d == 1 { '1' }
    else if d == 2 { '2' }
    else if d == 3 { '3' }
    else if d == 4 { '4' }
    else if d == 5 { '5' }
    else if d == 6 { '6' }
    else if d == 7 { '7' }
    else if d == 8 { '8' }
    else if d == 9 { '9' }
    else if d == 10 { 'a' }
    else if d == 11 { 'b' }
    else if d == 12 { 'c' }
    else if d == 13 { 'd' }
    else if d == 14 { 'e' }
    else { 'f' }
}

/// How one character is written inside a JSON string literal: quote and
/// backslash get a backslash escape, a control character a \u00XX escape,
/// and every other character stands as itself.
pub open spec fn esc_char(c: char) -> Seq<char> {
    if c == '"' {
        seq!['\\', '"']
    } else if c == '\\' {
        seq!['\\', '\\']
    } else if (c as u32) < 32 {
        seq!['\\', 'u', '0', '0', hex_digit((c as u32) as int / 16), hex_digit((c as u32) as int % 16)]
    } else {
        seq![c]
    }
}

/// The escaped form of a whole string: each character in turn, escaped.
pub open spec fn escape_chars(s: Seq<char>) -> Seq<char>
    decreases s.len(),
{
    if s.len() == 0 {
        Seq::<char>::empty()
    } else {
        esc_char(s[0]) + escape_chars(s.drop_first())
    }
}

/// A JSON string literal: the escaped content between two quotes.
#[verifier::opaque]
pub open spec fn json_quoted(s: Seq<char>) -> Seq<char> {
    seq!['"'] + escape_chars(s) + seq!['"']
}

/// Escaping a string one character longer appends that character's escape.
pub proof fn lemma_escape_push(s: Seq<char>, c: char)
    ensures
        escape_chars(s.push(c)) == escape_chars(s) + esc_char(c),
    decreases s.len(),
{
    if s.len() == 0 {
        assert(s.push(c)[0] == c);
        assert(s.push(c).drop_first() =~= Seq::<char>::empty());
        assert(escape_chars(s.push(c).drop_first()) == Seq::<char>::empty());
        assert(escape_chars(s) == Seq::<char>::empty());
        assert(escape_chars(s.push(c)) =~= escape_chars(s) + esc_char(c));
    } else {
        lemma_escape_push(s.drop_first(), c);
        assert(s.push(c).drop_first() =~= s.drop_first().push(c));
        assert(s.push(c)[0] == s[0]);
        assert(escape_chars(s.push(c)) =~= escape_chars(s) + esc_char(c));
    }
}

/// The executable hexadecimal digit, matching the spec table.
fn hex_digit_exec(d: u32) -> (r: char)
    requires
        d < 16,
    ensures
        r == hex_digit(d as int),
{
    if d == 0 { '0' }
    else if d == 1 { '1' }
    else if d == 2 { '2' }
    else if d == 3 { '3' }
    else if d == 4 { '4' }
    else if d == 5 { '5' }
    else if d == 6 { '6' }
    else if d == 7 { '7' }
    else if d == 8 { '8' }
    else if d == 9 { '9' }
    else if d == 10 { 'a' }
    else if d == 11 { 'b' }
    else if d == 12 { 'c' }
    else if d == 13 { 'd' }
    else if d == 14 { 'e' }
    else { 'f' }
}

/// Appends the escaped form of one character.
fn push_esc_char(out: &mut String, c: char)
    ensures
        final(out)@ == old(out)@ + esc_char(c),
{
    if c == '"' {
        push_char(out, '\\');
        push_char(out, '"');
        assert(final(out)@ =~= old(out)@ + esc_char(c));
    } else if c == '\\' {
        push_char(out, '\\');
        push_char(out, '\\');
        assert(final(out)@ =~= old(out)@ + esc_char(c));
    } else if (c as u32) < 32 {
        let v = c as u32;
        push_char(out, '\\');
        push_char(out, 'u');
        push_char(out, '0');
        push_char(out, '0');
        push_char(out, hex_digit_exec(v / 16));
        push_char(out, hex_digit_exec(v % 16));
        assert(final(out)@ =~= old(out)@ + esc_char(c));
    } else {
        push_char(out, c);
        assert(final(out)@ =~= old(out)@ + esc_char(c));
    }
}

/// Appends the escaped form of a whole string.
pub fn append_escaped(out: &mut String, s: &str)
    ensures
        final(out)@ == old(out)@ + escape_chars(s@),
{
    let n = s.unicode_len();
    let mut i: usize = 0;
    while i < n
        invariant
            n == s@.len(),
            i <= n,
            out@ == old(out)@ + escape_chars(s@.subrange(0, i as int)),
        decreases n - i,
    {
        let c = s.get_char(i);
        proof {
            lemma_escape_push(s@.subrange(0, i as int), s@[i as int]);
            assert(s@.subrange(0, i as int).push(s@[i as int]) =~= s@.subrange(0, i as int + 1));
        }
        push_esc_char(out, c);
        proof {
            assert(out@ =~= old(out)@ + escape_chars(s@.subrange(0, i as int + 1)));
        }
        i += 1;
    }
    proof {
        assert(s@.subrange(0, n as int) =~= s@);
    }
}

/// Appends a JSON string literal: a quote, the escaped content, a quote.
pub fn append_quoted(out: &mut String, s: &str)
    ensures
        final(out)@ == old(out)@ + json_quoted(s@),
{
    proof {
        reveal(json_quoted);
    }
    push_char(out, '"');
    append_escaped(out, s);
    push_char(out, '"');
    assert(final(out)@ =~= old(out)@ + json_quoted(s@));
}

/// The exact JSON text of the credential envelope, in the vendor's
/// documented shape: the three nested objects, the seven fields in order,
/// each value a JSON string literal.
pub open spec fn envelope_json(a: MaaS360AdminAuth) -> Seq<char> {
    "{\"authRequest\":{\"maaS360AdminAuth\":{\"billingID\":"@ + json_quoted(a.billing_id@)
        + ",\"platformID\":"@ + json_quoted(a.platform_id@)
        + ",\"appVersion\":"@ + json_quoted(a.app_version@)
        + ",\"appID\":"@ + json_quoted(a.app_id@)
        + ",\"appAccessKey\":"@ + json_quoted(a.app_access_key@)
        + ",\"userName\":"@ + json_quoted(a.user_name@)
        + ",\"password\":"@ + json_quoted(a.password@)
        + "}}}"@
}

/// Serializes the credential envelope to exactly the JSON text that
/// `envelope_json` gives: the vendor's documented field names, in order,
/// with every credential escaped as a JSON string.
pub fn serialize_envelope(a: &MaaS360AdminAuth) -> (r: String)
    ensures
        r@ == envelope_json(*a),
{
    let mut out = String::new();
    out.append("{\"authRequest\":{\"maaS360AdminAuth\":{\"billingID\":");
    append_quoted(&mut out, self_str(&a.billing_id));
    out.append(",\"platformID\":");
    append_quoted(&mut out, self_str(&a.platform_id));
    out.append(",\"appVersion\":");
    append_quoted(&mut out, self_str(&a.app_version));
    out.append(",\"appID\":");
    append_quoted(&mut out, self_str(&a.app_id));
    out.append(",\"appAccessKey\":");
    append_quoted(&mut out, self_str(&a.app_access_key));
    out.append(",\"userName\":");
    append_quoted(&mut out, self_str(&a.user_name));
    out.append(",\"password\":");
    append_quoted(&mut out, self_str(&a.password));
    out.append("}}}");
    assert(out@ =~= envelope_json(*a));
    out
}

/// A borrowed view of a String, with the same character sequence.
fn self_str(s: &String) -> (r: &str)
    ensures
        r@ == s@,
{
    s.as_str()
}

// ---------------------------------------------------------------------------
// Re-parsing the envelope: the round trip
// ---------------------------------------------------------------------------

/// The mathematical content of a credential envelope: the seven fields.
pub struct AdminAuthV {
    pub billing_id: Seq<char>,
    pub platform_id: Seq<char>,
    pub app_version: Seq<char>,
    pub app_id: Seq<char>,
    pub app_access_key: Seq<char>,
    pub user_name: Seq<char>,
    pub password: Seq<char>,
}

/// The mathematical content a credential struct stands for.
pub open spec fn admin_auth_view(a: MaaS360AdminAuth) -> AdminAuthV {
    AdminAuthV {
        billing_id: a.billing_id@,
        platform_id: a.platform_id@,
        app_version: a.app_version@,
        app_id: a.app_id@,
        app_access_key: a.app_access_key@,
        user_name: a.user_name@,
        password: a.password@,
    }
}

/// Reads one field of the envelope: the fixed text `key` (ending with the
/// value's opening quote) must stand at position `i`, and a JSON string
/// follows it.
pub open spec fn read_field(s: Seq<char>, i: int, key: Seq<char>) -> Option<(Seq<char>, int)> {
    if 0 <= i && i + key.len() <= s.len() && s.subrange(i, i + key.len()) == key {
        scan_string(s, i + key.len())
    } else {
        None
    }
}

/// Reads a whole credential envelope against the documented JSON shape: the
/// three nested objects and the seven fields under exactly their documented
/// names, in order, each value a JSON string, nothing after the closing
/// braces.
pub open spec fn read_envelope(s: Seq<char>) -> Option<AdminAuthV> {
    match read_field(s, 0, "{\"authRequest\":{\"maaS360AdminAuth\":{\"billingID\":\""@) {
        Some((billing, i1)) => match read_field(s, i1, ",\"platformID\":\""@) {
            Some((platform, i2)) => match read_field(s, i2, ",\"appVersion\":\""@) {
                Some((version, i3)) => match read_field(s, i3, ",\"appID\":\""@) {
                    Some((app, i4)) => match read_field(s, i4, ",\"appAccessKey\":\""@) {
                        Some((access, i5)) => match read_field(s, i5, ",\"userName\":\""@) {
                            Some((user, i6)) => match read_field(s, i6, ",\"password\":\""@) {
                                Some((pass, i7)) => if i7 + 3 == s.len() && s.subrange(
                                    i7,
                                    s.len() as int,
                                ) == "}}}"@ {
                                    Some(
                                        AdminAuthV {
                                            billing_id: billing,
                                            platform_id: platform,
                                            app_version: version,
                                            app_id: app,
                                            app_access_key: access,
                                            user_name: user,
                                            password: pass,
                                        },
                                    )
                                } else {
                                    None
                                },
                                None => None,
                            },
                            None => None,
                        },
                        None => None,
                    },
                    None => None,
                },
                None => None,
            },
            None => None,
        },
        None => None,
    }
}

/// A hexadecimal digit written by the escaper is read back as its value.
pub proof fn lemma_hex_roundtrip(d: int)
    requires
        0 <= d < 16,
    ensures
        hex_val(hex_digit(d)) == Some(d),
{
}

/// Scanning from just inside the opening quote of an escaped string yields
/// back exactly the original content, ending just after the closing quote.
pub proof fn lemma_scan_escaped(s: Seq<char>, i: int, c: Seq<char>)
    requires
        0 <= i,
        i + escape_chars(c).len() + 1 <= s.len(),
        s.subrange(i, i + escape_chars(c).len()) == escape_chars(c),
        s[i + escape_chars(c).len()] == '"',
    ensures
        scan_string(s, i) == Some((c, i + escape_chars(c).len() + 1)),
    decreases c.len(),
{
    if c.len() == 0 {
        assert(escape_chars(c).len() == 0);
        assert(s[i] == '"');
        assert(c =~= Seq::<char>::empty());
    } else {
        let c0 = c[0];
        let e = esc_char(c0);
        let rest = escape_chars(c.drop_first());
        assert(escape_chars(c) == e + rest);
        let el = e.len() as int;
        assert forall|t: int| 0 <= t < el implies s[i + t] == e[t] by {
            assert(s.subrange(i, i + escape_chars(c).len() as int)[t] == escape_chars(c)[t]);
            assert((e + rest)[t] == e[t]);
        }
        assert forall|t: int| 0 <= t < rest.len() implies s[i + el + t] == rest[t] by {
            assert(s.subrange(i, i + escape_chars(c).len() as int)[el + t] == escape_chars(c)[el
                + t]);
            assert((e + rest)[el + t] == rest[t]);
        }
        assert(s.subrange(i + el, i + el + rest.len()) =~= rest);
        assert(s[i + el + rest.len()] == '"');
        lemma_scan_escaped(s, i + el, c.drop_first());
        assert(scan_string(s, i + el) == Some((c.drop_first(), i + escape_chars(c).len() + 1)));
        if c0 == '"' {
            assert(s[i] == '\\' && s[i + 1] == '"');
            assert(seq!['"'] + c.drop_first() =~= c);
        } else if c0 == '\\' {
            assert(s[i] == '\\' && s[i + 1] == '\\');
            assert(seq!['\\'] + c.drop_first() =~= c);
        } else if (c0 as u32) < 32 {
            let v = (c0 as u32) as int;
            assert(s[i] == '\\' && s[i + 1] == 'u' && s[i + 2] == '0' && s[i + 3] == '0');
            assert(s[i + 4] == hex_digit(v / 16) && s[i + 5] == hex_digit(v % 16));
            lemma_fundamental_div_mod(v, 16);
            lemma_hex_roundtrip(v / 16);
            lemma_hex_roundtrip(v % 16);
            assert(hex_val(s[i + 2]) == Some(0int));
            assert(hex_val(s[i + 3]) == Some(0int));
            assert(hex_val(s[i + 4]) == Some(v / 16));
            assert(hex_val(s[i + 5]) == Some(v % 16));
            assert(0 * 4096 + 0 * 256 + (v / 16) * 16 + v % 16 == v);
            assert(0 <= v < 32);
            assert((v as u8) as int == v);
            let u: u32 = c0 as u32;
            vstd::utf8::char_u32_cast(c0, u);
            assert((u as char) == c0);
            assert((v as u8) as u32 == u);
            assert(((v as u8) as char) == (u as char));
            assert(((v as u8) as char) == c0);
            assert(seq![c0] + c.drop_first() =~= c);
        } else {
            assert(e[0] == c0);
            assert(s[i + 0] == e[0]);
            assert(s[i] == c0);
            assert(c0 != '"' && c0 != '\\');
            assert(seq![c0] + c.drop_first() =~= c);
        }
    }
}

/// Reading one field of the envelope from its exact text: the fixed key and
/// the escaped value give back exactly the value.
pub proof fn lemma_read_field_exact(s: Seq<char>, i: int, key: Seq<char>, c: Seq<char>)
    requires
        0 <= i,
        i + key.len() + escape_chars(c).len() + 1 <= s.len(),
        s.subrange(i, i + key.len() + escape_chars(c).len() + 1) == key + escape_chars(c)
            + seq!['"'],
    ensures
        read_field(s, i, key) == Some((c, i + key.len() + escape_chars(c).len() + 1)),
{
    let kl = key.len() as int;
    let el = escape_chars(c).len() as int;
    let whole = key + escape_chars(c) + seq!['"'];
    assert forall|t: int| 0 <= t < whole.len() implies s[i + t] == whole[t] by {
        assert(s.subrange(i, i + whole.len() as int)[t] == whole[t]);
    }
    assert forall|t: int| 0 <= t < kl implies whole[t] == key[t] by {
        assert(whole[t] == (key + escape_chars(c))[t]);
        assert((key + escape_chars(c))[t] == key[t]);
    }
    assert forall|t: int| 0 <= t < el implies whole[kl + t] == escape_chars(c)[t] by {
        assert(whole[kl + t] == (key + escape_chars(c))[kl + t]);
        assert((key + escape_chars(c))[kl + t] == escape_chars(c)[t]);
    }
    assert(s.subrange(i, i + kl) =~= key);
    assert(s.subrange(i + kl, i + kl + el) =~= escape_chars(c));
    assert(whole[kl + el] == '"');
    assert(s[i + kl + el] == '"');
    lemma_scan_escaped(s, i + kl, c);
}
/// Splitting one known stretch of text at the border of its two parts.
proof fn lemma_concat_parts(s: Seq<char>, i: int, x: Seq<char>, y: Seq<char>)
    requires
        0 <= i,
        i + x.len() + y.len() <= s.len(),
        s.subrange(i, i + x.len() + y.len()) == x + y,
    ensures
        s.subrange(i, i + x.len()) == x,
        s.subrange(i + x.len(), i + x.len() + y.len()) == y,
{
    let xl = x.len() as int;
    let yl = y.len() as int;
    assert forall|t: int| 0 <= t < xl + yl implies s[i + t] == (x + y)[t] by {
        assert(s.subrange(i, i + xl + yl)[t] == (x + y)[t]);
    }
    assert(s.subrange(i, i + xl) =~= x);
    assert forall|u: int| 0 <= u < yl implies s.subrange(i + xl, i + xl + yl)[u] == y[u] by {
        assert((x + y)[xl + u] == y[u]);
        assert(s[i + (xl + u)] == (x + y)[xl + u]);
    }
    assert(s.subrange(i + xl, i + xl + yl) =~= y);
}

/// Reading one field from its place: the fixed text `l` stands at `i`, the
/// quoted escaped value right after it, and the key `k` is `l` with the
/// value's opening quote.
proof fn lemma_field_region(s: Seq<char>, i: int, l: Seq<char>, k: Seq<char>, c: Seq<char>)
    requires
        0 <= i,
        k == l + seq!['"'],
        i + l.len() + json_quoted(c).len() <= s.len(),
        s.subrange(i, i + l.len()) == l,
        s.subrange(i + l.len(), i + l.len() + json_quoted(c).len()) == json_quoted(c),
    ensures
        read_field(s, i, k) == Some((c, i + l.len() + json_quoted(c).len())),
{
    reveal(json_quoted);
    let ll = l.len() as int;
    let el = escape_chars(c).len() as int;
    let q = json_quoted(c);
    assert(q.len() == el + 2);
    assert forall|t: int| 0 <= t < ll implies s[i + t] == l[t] by {
        assert(s.subrange(i, i + ll)[t] == l[t]);
    }
    assert forall|u: int| 0 <= u < el + 2 implies s[i + ll + u] == #[trigger] q[u] by {
        assert(s.subrange(i + ll, i + ll + el + 2)[u] == q[u]);
    }
    let whole = k + escape_chars(c) + seq!['"'];
    assert(whole.len() == ll + el + 2);
    assert forall|t: int| 0 <= t < ll + el + 2 implies s[i + t] == whole[t] by {
        if t < ll {
            assert(s[i + t] == l[t]);
            assert(whole[t] == (k + escape_chars(c))[t]);
            assert((k + escape_chars(c))[t] == k[t]);
            assert(k[t] == (l + seq!['"'])[t]);
            assert((l + seq!['"'])[t] == l[t]);
        } else if t == ll {
            assert(s[i + ll + 0] == q[0]);
            assert(s[i + t] == q[0]);
            assert(q[0] == (seq!['"'] + escape_chars(c) + seq!['"'])[0]);
            assert((seq!['"'] + escape_chars(c) + seq!['"'])[0] == (seq!['"'] + escape_chars(
                c,
            ))[0]);
            assert(whole[t] == (k + escape_chars(c))[t]);
            assert((k + escape_chars(c))[t] == k[t]);
            assert(k[t] == (l + seq!['"'])[t]);
        } else if t < ll + 1 + el {
            assert(s[i + ll + (t - ll)] == q[t - ll]);
            assert(s[i + t] == q[t - ll]);
            assert(q[t - ll] == (seq!['"'] + escape_chars(c) + seq!['"'])[t - ll]);
            assert((seq!['"'] + escape_chars(c) + seq!['"'])[t - ll] == (seq!['"'] + escape_chars(
                c,
            ))[t - ll]);
            assert((seq!['"'] + escape_chars(c))[t - ll] == escape_chars(c)[t - ll - 1]);
            assert(whole[t] == (k + escape_chars(c))[t]);
            assert((k + escape_chars(c))[t] == escape_chars(c)[t - k.len()]);
        } else {
            assert(s[i + ll + (el + 1)] == q[el + 1]);
            assert(s[i + t] == q[el + 1]);
            assert(q[el + 1] == (seq!['"'] + escape_chars(c) + seq!['"'])[el + 1]);
            assert(whole[t] == seq!['"'][0]);
        }
    }
    assert(s.subrange(i, i + k.len() + el + 1) =~= whole);
    lemma_read_field_exact(s, i, k, c);
}

/// Each field's key in the re-parsing grammar is the serializer's fixed text
/// followed by the value's opening quote.
proof fn lemma_envelope_keys()
    ensures
        "{\"authRequest\":{\"maaS360AdminAuth\":{\"billingID\":\""@
            == "{\"authRequest\":{\"maaS360AdminAuth\":{\"billingID\":"@ + seq!['"'],
        ",\"platformID\":\""@ == ",\"platformID\":"@ + seq!['"'],
        ",\"appVersion\":\""@ == ",\"appVersion\":"@ + seq!['"'],
        ",\"appID\":\""@ == ",\"appID\":"@ + seq!['"'],
        ",\"appAccessKey\":\""@ == ",\"appAccessKey\":"@ + seq!['"'],
        ",\"userName\":\""@ == ",\"userName\":"@ + seq!['"'],
        ",\"password\":\""@ == ",\"password\":"@ + seq!['"'],
        "}}}"@.len() == 3,
{
    reveal_strlit("{\"authRequest\":{\"maaS360AdminAuth\":{\"billingID\":");
    reveal_strlit("{\"authRequest\":{\"maaS360AdminAuth\":{\"billingID\":\"");
    reveal_strlit(",\"platformID\":");
    reveal_strlit(",\"platformID\":\"");
    reveal_strlit(",\"appVersion\":");
    reveal_strlit(",\"appVersion\":\"");
    reveal_strlit(",\"appID\":");
    reveal_strlit(",\"appID\":\"");
    reveal_strlit(",\"appAccessKey\":");
    reveal_strlit(",\"appAccessKey\":\"");
    reveal_strlit(",\"userName\":");
    reveal_strlit(",\"userName\":\"");
    reveal_strlit(",\"password\":");
    reveal_strlit(",\"password\":\"");
    reveal_strlit("}}}");
    assert("{\"authRequest\":{\"maaS360AdminAuth\":{\"billingID\":\""@
        =~= "{\"authRequest\":{\"maaS360AdminAuth\":{\"billingID\":"@ + seq!['"']);
    assert(",\"platformID\":\""@ =~= ",\"platformID\":"@ + seq!['"']);
    assert(",\"appVersion\":\""@ =~= ",\"appVersion\":"@ + seq!['"']);
    assert(",\"appID\":\""@ =~= ",\"appID\":"@ + seq!['"']);
    assert(",\"appAccessKey\":\""@ =~= ",\"appAccessKey\":"@ + seq!['"']);
    assert(",\"userName\":\""@ =~= ",\"userName\":"@ + seq!['"']);
    assert(",\"password\":\""@ =~= ",\"password\":"@ + seq!['"']);
}

/// The position just after each field's closing quote in the envelope text.
spec fn env_p1(a: MaaS360AdminAuth) -> int {
    "{\"authRequest\":{\"maaS360AdminAuth\":{\"billingID\":"@.len() as int + json_quoted(
        a.billing_id@,
    ).len() as int
}

spec fn env_p2(a: MaaS360AdminAuth) -> int {
    env_p1(a) + ",\"platformID\":"@.len() + json_quoted(a.platform_id@).len()
}

spec fn env_p3(a: MaaS360AdminAuth) -> int {
    env_p2(a) + ",\"appVersion\":"@.len() + json_quoted(a.app_version@).len()
}

spec fn env_p4(a: MaaS360AdminAuth) -> int {
    env_p3(a) + ",\"appID\":"@.len() + json_quoted(a.app_id@).len()
}

spec fn env_p5(a: MaaS360AdminAuth) -> int {
    env_p4(a) + ",\"appAccessKey\":"@.len() + json_quoted(a.app_access_key@).len()
}

spec fn env_p6(a: MaaS360AdminAuth) -> int {
    env_p5(a) + ",\"userName\":"@.len() + json_quoted(a.user_name@).len()
}

spec fn env_p7(a: MaaS360AdminAuth) -> int {
    env_p6(a) + ",\"password\":"@.len() + json_quoted(a.password@).len()
}

/// The serialized envelope splits into its fifteen pieces: each fixed text
/// and each quoted field stands at its place, and the three closing braces
/// end the text.
#[verifier::rlimit(100)]
proof fn lemma_envelope_split(a: MaaS360AdminAuth)
    ensures
        envelope_json(a).subrange(
            0,
            "{\"authRequest\":{\"maaS360AdminAuth\":{\"billingID\":"@.len() as int,
        ) == "{\"authRequest\":{\"maaS360AdminAuth\":{\"billingID\":"@,
        envelope_json(a).subrange(
            "{\"authRequest\":{\"maaS360AdminAuth\":{\"billingID\":"@.len() as int,
            env_p1(a),
        ) == json_quoted(a.billing_id@),
        envelope_json(a).subrange(env_p1(a), env_p1(a) + ",\"platformID\":"@.len())
            == ",\"platformID\":"@,
        envelope_json(a).subrange(env_p1(a) + ",\"platformID\":"@.len(), env_p2(a))
            == json_quoted(a.platform_id@),
        envelope_json(a).subrange(env_p2(a), env_p2(a) + ",\"appVersion\":"@.len())
            == ",\"appVersion\":"@,
        envelope_json(a).subrange(env_p2(a) + ",\"appVersion\":"@.len(), env_p3(a))
            == json_quoted(a.app_version@),
        envelope_json(a).subrange(env_p3(a), env_p3(a) + ",\"appID\":"@.len()) == ",\"appID\":"@,
        envelope_json(a).subrange(env_p3(a) + ",\"appID\":"@.len(), env_p4(a)) == json_quoted(
            a.app_id@,
        ),
        envelope_json(a).subrange(env_p4(a), env_p4(a) + ",\"appAccessKey\":"@.len())
            == ",\"appAccessKey\":"@,
        envelope_json(a).subrange(env_p4(a) + ",\"appAccessKey\":"@.len(), env_p5(a))
            == json_quoted(a.app_access_key@),
        envelope_json(a).subrange(env_p5(a), env_p5(a) + ",\"userName\":"@.len())
            == ",\"userName\":"@,
        envelope_json(a).subrange(env_p5(a) + ",\"userName\":"@.len(), env_p6(a)) == json_quoted(
            a.user_name@,
        ),
        envelope_json(a).subrange(env_p6(a), env_p6(a) + ",\"password\":"@.len())
            == ",\"password\":"@,
        envelope_json(a).subrange(env_p6(a) + ",\"password\":"@.len(), env_p7(a)) == json_quoted(
            a.password@,
        ),
        env_p7(a) + 3 == envelope_json(a).len(),
        envelope_json(a).subrange(env_p7(a), envelope_json(a).len() as int) == "}}}"@,
{
    let s = envelope_json(a);
    let l0 = "{\"authRequest\":{\"maaS360AdminAuth\":{\"billingID\":"@;
    let l1 = ",\"platformID\":"@;
    let l2 = ",\"appVersion\":"@;
    let l3 = ",\"appID\":"@;
    let l4 = ",\"appAccessKey\":"@;
    let l5 = ",\"userName\":"@;
    let l6 = ",\"password\":"@;
    let t8 = "}}}"@;
    let q1 = json_quoted(a.billing_id@);
    let q2 = json_quoted(a.platform_id@);
    let q3 = json_quoted(a.app_version@);
    let q4 = json_quoted(a.app_id@);
    let q5 = json_quoted(a.app_access_key@);
    let q6 = json_quoted(a.user_name@);
    let q7 = json_quoted(a.password@);
    let z1 = l0 + q1;
    let z2 = z1 + l1;
    let z3 = z2 + q2;
    let z4 = z3 + l2;
    let z5 = z4 + q3;
    let z6 = z5 + l3;
    let z7 = z6 + q4;
    let z8 = z7 + l4;
    let z9 = z8 + q5;
    let z10 = z9 + l5;
    let z11 = z10 + q6;
    let z12 = z11 + l6;
    let z13 = z12 + q7;
    lemma_envelope_keys();
    assert(s == z13 + t8);
    assert(s.subrange(0, s.len() as int) =~= s);
    lemma_concat_parts(s, 0, z13, t8);
    lemma_concat_parts(s, 0, z12, q7);
    lemma_concat_parts(s, 0, z11, l6);
    lemma_concat_parts(s, 0, z10, q6);
    lemma_concat_parts(s, 0, z9, l5);
    lemma_concat_parts(s, 0, z8, q5);
    lemma_concat_parts(s, 0, z7, l4);
    lemma_concat_parts(s, 0, z6, q4);
    lemma_concat_parts(s, 0, z5, l3);
    lemma_concat_parts(s, 0, z4, q3);
    lemma_concat_parts(s, 0, z3, l2);
    lemma_concat_parts(s, 0, z2, q2);
    lemma_concat_parts(s, 0, z1, l1);
    lemma_concat_parts(s, 0, l0, q1);
}

/// The first four fields of the envelope are read back from their places.
#[verifier::rlimit(100)]
proof fn lemma_envelope_fields_head(a: MaaS360AdminAuth)
    ensures
        read_field(
            envelope_json(a),
            0,
            "{\"authRequest\":{\"maaS360AdminAuth\":{\"billingID\":\""@,
        ) == Some((a.billing_id@, env_p1(a))),
        read_field(envelope_json(a), env_p1(a), ",\"platformID\":\""@) == Some(
            (a.platform_id@, env_p2(a)),
        ),
        read_field(envelope_json(a), env_p2(a), ",\"appVersion\":\""@) == Some(
            (a.app_version@, env_p3(a)),
        ),
        read_field(envelope_json(a), env_p3(a), ",\"appID\":\""@) == Some(
            (a.app_id@, env_p4(a)),
        ),
{
    let s = envelope_json(a);
    lemma_envelope_split(a);
    lemma_envelope_keys();
    lemma_field_region(
        s,
        0,
        "{\"authRequest\":{\"maaS360AdminAuth\":{\"billingID\":"@,
        "{\"authRequest\":{\"maaS360AdminAuth\":{\"billingID\":\""@,
        a.billing_id@,
    );
    lemma_field_region(s, env_p1(a), ",\"platformID\":"@, ",\"platformID\":\""@, a.platform_id@);
    lemma_field_region(s, env_p2(a), ",\"appVersion\":"@, ",\"appVersion\":\""@, a.app_version@);
    lemma_field_region(s, env_p3(a), ",\"appID\":"@, ",\"appID\":\""@, a.app_id@);
}

/// The last three fields of the envelope are read back from their places,
/// and only the three closing braces follow the last.
#[verifier::rlimit(100)]
proof fn lemma_envelope_fields_tail(a: MaaS360AdminAuth)
    ensures
        read_field(envelope_json(a), env_p4(a), ",\"appAccessKey\":\""@) == Some(
            (a.app_access_key@, env_p5(a)),
        ),
        read_field(envelope_json(a), env_p5(a), ",\"userName\":\""@) == Some(
            (a.user_name@, env_p6(a)),
        ),
        read_field(envelope_json(a), env_p6(a), ",\"password\":\""@) == Some(
            (a.password@, env_p7(a)),
        ),
        env_p7(a) + 3 == envelope_json(a).len(),
        envelope_json(a).subrange(env_p7(a), envelope_json(a).len() as int) == "}}}"@,
{
    let s = envelope_json(a);
    lemma_envelope_split(a);
    lemma_envelope_keys();
    lemma_field_region(
        s,
        env_p4(a),
        ",\"appAccessKey\":"@,
        ",\"appAccessKey\":\""@,
        a.app_access_key@,
    );
    lemma_field_region(s, env_p5(a), ",\"userName\":"@, ",\"userName\":\""@, a.user_name@);
    lemma_field_region(s, env_p6(a), ",\"password\":"@, ",\"password\":\""@, a.password@);
}

/// The round trip: serializing a credential envelope and re-parsing the text
/// against the documented JSON shape yields back exactly the seven fields,
/// under exactly their documented names.
pub proof fn lemma_envelope_round_trip(a: MaaS360AdminAuth)
    ensures
        read_envelope(envelope_json(a)) == Some(admin_auth_view(a)),
{
    lemma_envelope_fields_head(a);
    lemma_envelope_fields_tail(a);
}

} // verus!
