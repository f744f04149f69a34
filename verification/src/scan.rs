use vstd::prelude::*;

verus! {

// ---------------------------------------------------------------------------
// Character classes
// ---------------------------------------------------------------------------

/// JSON insignificant whitespace.
pub open spec fn is_ws(c: char) -> bool {
    c == ' ' || c == '\t' || c == '\n' || c == '\r'
}

/// A decimal digit.
pub open spec fn is_digit(c: char) -> bool {
    '0' <= c && c <= '9'
}

/// The numeric value of a decimal digit.
pub open spec fn digit_val(c: char) -> int {
    (c as u32) as int - ('0' as u32) as int
}

/// The numeric value of a hexadecimal digit, if the character is one.
pub open spec fn hex_val(c: char) -> Option<int> {
    if '0' <= c && c <= '9' {
        Some((c as u32) as int - ('0' as u32) as int)
    } else if 'a' <= c && c <= 'f' {
        Some((c as u32) as int - ('a' as u32) as int + 10)
    } else if 'A' <= c && c <= 'F' {
        Some((c as u32) as int - ('A' as u32) as int + 10)
    } else {
        None
    }
}

/// What a single-character backslash escape stands for.
pub open spec fn unescape_char(e: char) -> Option<char> {
    if e == '"' { Some('"') }
    else if e == '\\' { Some('\\') }
    else if e == '/' { Some('/') }
    else if e == 'n' { Some('\n') }
    else if e == 't' { Some('\t') }
    else if e == 'r' { Some('\r') }
    else if e == 'b' { Some('\u{8}') }
    else if e == 'f' { Some('\u{c}') }
    else { None }
}

// ---------------------------------------------------------------------------
// Whitespace
// ---------------------------------------------------------------------------

/// The first position at or after `i` holding no whitespace.
pub open spec fn skip_ws(s: Seq<char>, i: int) -> int
    decreases s.len() - i,
{
    if 0 <= i < s.len() && is_ws(s[i]) {
        skip_ws(s, i + 1)
    } else {
        i
    }
}

/// Skipping whitespace never moves backwards nor past the end.
pub proof fn lemma_skip_ws_bounds(s: Seq<char>, i: int)
    requires
        0 <= i <= s.len(),
    ensures
        i <= skip_ws(s, i) <= s.len(),
    decreases s.len() - i,
{
    if i < s.len() && is_ws(s[i]) {
        lemma_skip_ws_bounds(s, i + 1);
    }
}

/// The executable whitespace skipper, exact against `skip_ws`.
pub fn skip_ws_exec(s: &Vec<char>, i: usize) -> (j: usize)
    requires
        i <= s@.len(),
    ensures
        j as int == skip_ws(s@, i as int),
        i <= j <= s@.len(),
{
    let mut j = i;
    loop
        invariant
            i <= j <= s@.len(),
            skip_ws(s@, i as int) == skip_ws(s@, j as int),
        decreases s@.len() - j,
    {
        if j >= s.len() {
            return j;
        }
        let c = s[j];
        if c == ' ' || c == '\t' || c == '\n' || c == '\r' {
            j += 1;
        } else {
            return j;
        }
    }
}

// ---------------------------------------------------------------------------
// Strings
// ---------------------------------------------------------------------------

/// Scans a JSON string from the position just after its opening quote:
/// the unescaped content and the position just after the closing quote.
/// Accepted escapes are the single-character ones and \uXXXX for every
/// non-surrogate value below 0x10000; an unescaped control character is
/// malformed.
pub open spec fn scan_string(s: Seq<char>, i: int) -> Option<(Seq<char>, int)>
    decreases s.len() - i,
{
    if !(0 <= i < s.len()) {
        None
    } else if s[i] == '"' {
        Some((Seq::<char>::empty(), i + 1))
    } else if s[i] == '\\' {
        if i + 1 >= s.len() {
            None
        } else if s[i + 1] == 'u' {
            if i + 6 > s.len() {
                None
            } else {
                match (hex_val(s[i + 2]), hex_val(s[i + 3]), hex_val(s[i + 4]), hex_val(s[i + 5])) {
                    (Some(a), Some(b), Some(c), Some(d)) => {
                        let v = a * 4096 + b * 256 + c * 16 + d;
                        if v < 0xD800 || v >= 0xE000 {
                            match scan_string(s, i + 6) {
                                Some((t, j)) => Some((seq![v as char] + t, j)),
                                None => None,
                            }
                        } else {
                            None
                        }
                    },
                    _ => None,
                }
            }
        } else {
            match unescape_char(s[i + 1]) {
                Some(u) => match scan_string(s, i + 2) {
                    Some((t, j)) => Some((seq![u] + t, j)),
                    None => None,
                },
                None => None,
            }
        }
    } else if (s[i] as u32) < 32 {
        None
    } else {
        match scan_string(s, i + 1) {
            Some((t, j)) => Some((seq![s[i]] + t, j)),
            None => None,
        }
    }
}

/// A successful string scan always consumes at least the closing quote and
/// stays inside the input.
pub proof fn lemma_scan_string_advances(s: Seq<char>, i: int)
    requires
        scan_string(s, i) is Some,
    ensures
        i < scan_string(s, i).unwrap().1 <= s.len(),
    decreases s.len() - i,
{
    if 0 <= i < s.len() && s[i] == '"' {
    } else if 0 <= i < s.len() && s[i] == '\\' && i + 1 < s.len() && s[i + 1] == 'u' {
        lemma_scan_string_advances(s, i + 6);
    } else if 0 <= i < s.len() && s[i] == '\\' {
        lemma_scan_string_advances(s, i + 2);
    } else if 0 <= i < s.len() && (s[i] as u32) >= 32 {
        lemma_scan_string_advances(s, i + 1);
    }
}

/// Executable hexadecimal digit reader, exact against `hex_val`.
fn hex_val_exec(c: char) -> (r: Option<u8>)
    ensures
        match r {
            Some(v) => hex_val(c) == Some(v as int) && v < 16,
            None => hex_val(c) is None,
        },
{
    if '0' <= c && c <= '9' {
        Some((c as u32 - '0' as u32) as u8)
    } else if 'a' <= c && c <= 'f' {
        Some((c as u32 - 'a' as u32 + 10) as u8)
    } else if 'A' <= c && c <= 'F' {
        Some((c as u32 - 'A' as u32 + 10) as u8)
    } else {
        None
    }
}

/// Executable escape reader, exact against `unescape_char`.
fn unescape_char_exec(e: char) -> (r: Option<char>)
    ensures
        r == unescape_char(e),
{
    if e == '"' { Some('"') }
    else if e == '\\' { Some('\\') }
    else if e == '/' { Some('/') }
    else if e == 'n' { Some('\n') }
    else if e == 't' { Some('\t') }
    else if e == 'r' { Some('\r') }
    else if e == 'b' { Some('\u{8}') }
    else if e == 'f' { Some('\u{c}') }
    else { None }
}

/// Relies on char::from_u32: every non-surrogate value below 0x10000 is a
/// valid character, carrying exactly that code point.
#[verifier::external_body]
fn char_from_code(v: u32) -> (r: char)
    requires
        v < 0xD800 || (0xE000 <= v && v < 0x10000),
    ensures
        r as u32 == v,
{
    char::from_u32(v).unwrap()
}

/// Relies on String::push: appends exactly the given character.
#[verifier::external_body]
pub(crate) fn push_char(s: &mut String, c: char)
    ensures
        final(s)@ == old(s)@ + seq![c],
{
    s.push(c);
}

/// The executable string scanner, exact against `scan_string`.
pub fn scan_string_exec(s: &Vec<char>, i: usize) -> (r: Option<(String, usize)>)
    requires
        i <= s@.len(),
    ensures
        match r {
            Some(p) => scan_string(s@, i as int) == Some((p.0@, p.1 as int)) && i < p.1 <= s@.len(),
            None => scan_string(s@, i as int) is None,
        },
{
    let mut out = String::new();
    let mut j = i;
    loop
        invariant
            i <= j <= s@.len(),
            scan_string(s@, i as int) == match scan_string(s@, j as int) {
                Some((t, e)) => Some((out@ + t, e)),
                None => None::<(Seq<char>, int)>,
            },
        decreases s@.len() - j,
    {
        if j >= s.len() {
            return None;
        }
        let c = s[j];
        if c == '"' {
            proof {
                assert(out@ + Seq::<char>::empty() =~= out@);
            }
            return Some((out, j + 1));
        } else if c == '\\' {
            if j + 1 >= s.len() {
                return None;
            }
            let e = s[j + 1];
            if e == 'u' {
                if s.len() - j < 6 {
                    return None;
                }
                let h0 = hex_val_exec(s[j + 2]);
                let h1 = hex_val_exec(s[j + 3]);
                let h2 = hex_val_exec(s[j + 4]);
                let h3 = hex_val_exec(s[j + 5]);
                match (h0, h1, h2, h3) {
                    (Some(a), Some(b), Some(cc), Some(d)) => {
                        let v: u32 = (a as u32) * 4096 + (b as u32) * 256 + (cc as u32) * 16 + (d as u32);
                        if 0xD800 <= v && v < 0xE000 {
                            return None;
                        }
                        let ghost out0 = out@;
                        let u = char_from_code(v);
                        proof {
                            vstd::utf8::char_u32_cast(u, v);
                            assert(u == ((v as int) as char));
                        }
                        push_char(&mut out, u);
                        proof {
                            if scan_string(s@, j as int + 6) is Some {
                                let (t, en) = scan_string(s@, j as int + 6).unwrap();
                                assert(out0 + (seq![u] + t) =~= (out0 + seq![u]) + t);
                            }
                        }
                        j += 6;
                    },
                    _ => {
                        return None;
                    },
                }
            } else {
                match unescape_char_exec(e) {
                    Some(u) => {
                        let ghost out0 = out@;
                        push_char(&mut out, u);
                        proof {
                            if scan_string(s@, j as int + 2) is Some {
                                let (t, en) = scan_string(s@, j as int + 2).unwrap();
                                assert(out0 + (seq![u] + t) =~= (out0 + seq![u]) + t);
                            }
                        }
                        j += 2;
                    },
                    None => {
                        return None;
                    },
                }
            }
        } else if (c as u32) < 32 {
            return None;
        } else {
            let ghost out0 = out@;
            push_char(&mut out, c);
            proof {
                if scan_string(s@, j as int + 1) is Some {
                    let (t, en) = scan_string(s@, j as int + 1).unwrap();
                    assert(out0 + (seq![c] + t) =~= (out0 + seq![c]) + t);
                }
            }
            j += 1;
        }
    }
}

// ---------------------------------------------------------------------------
// Integers
// ---------------------------------------------------------------------------

/// Accumulates decimal digits from position `i`: the value read so far is
/// `acc`; returns the final value and the first non-digit position.
pub open spec fn scan_digits(s: Seq<char>, i: int, acc: int) -> (int, int)
    decreases s.len() - i,
{
    if 0 <= i < s.len() && is_digit(s[i]) {
        scan_digits(s, i + 1, acc * 10 + digit_val(s[i]))
    } else {
        (acc, i)
    }
}

/// Digit accumulation never moves backwards nor past the end.
pub proof fn lemma_scan_digits_bounds(s: Seq<char>, i: int, acc: int)
    requires
        0 <= i <= s.len(),
    ensures
        i <= scan_digits(s, i, acc).1 <= s.len(),
    decreases s.len() - i,
{
    if i < s.len() && is_digit(s[i]) {
        lemma_scan_digits_bounds(s, i + 1, acc * 10 + digit_val(s[i]));
    }
}

/// Scans a JSON integer (an optional minus sign and at least one digit,
/// without leading zeros) from position `i`: the value and the first
/// position after the digits. A value outside the 64-bit signed range is a
/// malformed input.
pub open spec fn scan_int(s: Seq<char>, i: int) -> Option<(i64, int)> {
    let neg = 0 <= i < s.len() && s[i] == '-';
    let k = if neg { i + 1 } else { i };
    if 0 <= k < s.len() && is_digit(s[k]) && !(s[k] == '0' && k + 1 < s.len() && is_digit(
        s[k + 1],
    )) {
        let (m, j) = scan_digits(s, k, 0);
        let v = if neg { -m } else { m };
        if i64::MIN <= v <= i64::MAX {
            Some((v as i64, j))
        } else {
            None
        }
    } else {
        None
    }
}

/// A successful integer scan consumes at least one character and stays
/// inside the input.
pub proof fn lemma_scan_int_advances(s: Seq<char>, i: int)
    requires
        scan_int(s, i) is Some,
    ensures
        i < scan_int(s, i).unwrap().1 <= s.len(),
{
    let neg = 0 <= i < s.len() && s[i] == '-';
    let k = if neg { i + 1 } else { i };
    lemma_scan_digits_bounds(s, k + 1, digit_val(s[k]));
}

/// The executable integer scanner, exact against `scan_int`.
pub fn scan_int_exec(s: &Vec<char>, i: usize) -> (r: Option<(i64, usize)>)
    requires
        i <= s@.len(),
    ensures
        match r {
            Some(p) => scan_int(s@, i as int) == Some((p.0, p.1 as int)) && i < p.1 <= s@.len(),
            None => scan_int(s@, i as int) is None,
        },
{
    let mut neg = false;
    let mut k = i;
    if k < s.len() && s[k] == '-' {
        neg = true;
        k = k + 1;
    }
    if !(k < s.len() && '0' <= s[k] && s[k] <= '9') {
        return None;
    }
    if s[k] == '0' && k + 1 < s.len() && '0' <= s[k + 1] && s[k + 1] <= '9' {
        return None;
    }
    let mut j = k;
    let mut acc: u64 = 0;
    let mut over = false;
    let ghost mut g: int = 0;
    while j < s.len() && '0' <= s[j] && s[j] <= '9'
        invariant
            k <= j <= s@.len(),
            scan_digits(s@, k as int, 0) == scan_digits(s@, j as int, g),
            0 <= g,
            !over ==> acc as int == g,
            over ==> g > u64::MAX as int,
        decreases s@.len() - j,
    {
        let d = (s[j] as u32 - '0' as u32) as u64;
        proof {
            assert(d as int == digit_val(s@[j as int]));
        }
        if over {
            proof {
                assert(g * 10 + d as int > u64::MAX as int);
            }
        } else if acc > (u64::MAX - d) / 10 {
            over = true;
            proof {
                assert(acc as int * 10 + d as int > u64::MAX as int) by (nonlinear_arith)
                    requires
                        acc as int > ((u64::MAX - d) as int) / 10,
                        0 <= d <= 9,
                        acc as int >= 0,
                ;
            }
        } else {
            proof {
                assert(acc as int * 10 + d as int <= u64::MAX as int) by (nonlinear_arith)
                    requires
                        acc as int <= ((u64::MAX - d) as int) / 10,
                        0 <= d <= 9,
                        acc as int >= 0,
                ;
            }
            acc = acc * 10 + d;
        }
        proof {
            g = g * 10 + d as int;
        }
        j += 1;
    }
    proof {
        assert(scan_digits(s@, j as int, g) == (g, j as int));
    }
    if over {
        return None;
    }
    if neg {
        if acc > 9223372036854775808u64 {
            return None;
        }
        if acc == 9223372036854775808u64 {
            Some((i64::MIN, j))
        } else {
            Some((-(acc as i64), j))
        }
    } else {
        if acc > i64::MAX as u64 {
            return None;
        }
        Some((acc as i64, j))
    }
}

// ---------------------------------------------------------------------------
// Scalar literals
// ---------------------------------------------------------------------------

/// A scalar JSON value: the only value forms the vendor's response schema
/// puts inside its records.
pub enum Lit {
    Null,
    Bool(bool),
    Int(i64),
    Str(String),
}

/// The mathematical counterpart of `Lit`.
pub enum LitV {
    Null,
    Bool(bool),
    Int(i64),
    Str(Seq<char>),
}

/// The mathematical value a scalar stands for.
pub open spec fn lit_view(l: Lit) -> LitV {
    match l {
        Lit::Null => LitV::Null,
        Lit::Bool(b) => LitV::Bool(b),
        Lit::Int(n) => LitV::Int(n),
        Lit::Str(t) => LitV::Str(t@),
    }
}

/// Scans one scalar JSON value at position `i` (no leading whitespace):
/// a string, an integer, a boolean or null.
pub open spec fn scan_lit(s: Seq<char>, i: int) -> Option<(LitV, int)> {
    if !(0 <= i < s.len()) {
        None
    } else if s[i] == '"' {
        match scan_string(s, i + 1) {
            Some((t, j)) => Some((LitV::Str(t), j)),
            None => None,
        }
    } else if s[i] == '-' || is_digit(s[i]) {
        match scan_int(s, i) {
            Some((v, j)) => Some((LitV::Int(v), j)),
            None => None,
        }
    } else if i + 4 <= s.len() && s.subrange(i, i + 4) == "true"@ {
        Some((LitV::Bool(true), i + 4))
    } else if i + 5 <= s.len() && s.subrange(i, i + 5) == "false"@ {
        Some((LitV::Bool(false), i + 5))
    } else if i + 4 <= s.len() && s.subrange(i, i + 4) == "null"@ {
        Some((LitV::Null, i + 4))
    } else {
        None
    }
}

/// A successful scalar scan consumes at least one character and stays
/// inside the input.
pub proof fn lemma_scan_lit_advances(s: Seq<char>, i: int)
    requires
        scan_lit(s, i) is Some,
    ensures
        i < scan_lit(s, i).unwrap().1 <= s.len(),
{
    if 0 <= i < s.len() && s[i] == '"' {
        lemma_scan_string_advances(s, i + 1);
    } else if 0 <= i < s.len() && (s[i] == '-' || is_digit(s[i])) {
        lemma_scan_int_advances(s, i);
    }
}

/// The executable scalar scanner, exact against `scan_lit`.
pub fn scan_lit_exec(s: &Vec<char>, i: usize) -> (r: Option<(Lit, usize)>)
    requires
        i <= s@.len(),
    ensures
        match r {
            Some(p) => scan_lit(s@, i as int) == Some((lit_view(p.0), p.1 as int)) && i < p.1 <= s@.len(),
            None => scan_lit(s@, i as int) is None,
        },
{
    proof {
        reveal_strlit("true");
        reveal_strlit("false");
        reveal_strlit("null");
    }
    if i >= s.len() {
        return None;
    }
    let c = s[i];
    if c == '"' {
        match scan_string_exec(s, i + 1) {
            Some((t, j)) => Some((Lit::Str(t), j)),
            None => None,
        }
    } else if c == '-' || ('0' <= c && c <= '9') {
        match scan_int_exec(s, i) {
            Some((v, j)) => Some((Lit::Int(v), j)),
            None => None,
        }
    } else if s.len() - i >= 4 && c == 't' && s[i + 1] == 'r' && s[i + 2] == 'u' && s[i + 3] == 'e' {
        proof {
            assert(s@.subrange(i as int, i as int + 4) =~= "true"@);
        }
        Some((Lit::Bool(true), i + 4))
    } else if s.len() - i >= 5 && c == 'f' && s[i + 1] == 'a' && s[i + 2] == 'l' && s[i + 3] == 's'
        && s[i + 4] == 'e' {
        proof {
            assert(s@.subrange(i as int, i as int + 5) =~= "false"@);
            assert(s@.subrange(i as int, i as int + 4)[0] == 'f');
        }
        Some((Lit::Bool(false), i + 5))
    } else if s.len() - i >= 4 && c == 'n' && s[i + 1] == 'u' && s[i + 2] == 'l' && s[i + 3] == 'l' {
        proof {
            assert(s@.subrange(i as int, i as int + 4) =~= "null"@);
            assert(s@.subrange(i as int, i as int + 4)[0] == 'n');
            if i as int + 5 <= s@.len() {
                assert(s@.subrange(i as int, i as int + 5)[0] == 'n');
            }
        }
        Some((Lit::Null, i + 4))
    } else {
        proof {
            if i as int + 4 <= s@.len() && s@.subrange(i as int, i as int + 4) == "true"@ {
                let sub = s@.subrange(i as int, i as int + 4);
                assert(s@[i as int] == sub[0] && s@[i as int + 1] == sub[1]
                    && s@[i as int + 2] == sub[2] && s@[i as int + 3] == sub[3]);
                assert(sub[0] == 't' && sub[1] == 'r' && sub[2] == 'u' && sub[3] == 'e');
            }
            if i as int + 5 <= s@.len() && s@.subrange(i as int, i as int + 5) == "false"@ {
                let sub = s@.subrange(i as int, i as int + 5);
                assert(s@[i as int] == sub[0] && s@[i as int + 1] == sub[1]
                    && s@[i as int + 2] == sub[2] && s@[i as int + 3] == sub[3]
                    && s@[i as int + 4] == sub[4]);
                assert(sub[0] == 'f' && sub[1] == 'a' && sub[2] == 'l' && sub[3] == 's'
                    && sub[4] == 'e');
            }
            if i as int + 4 <= s@.len() && s@.subrange(i as int, i as int + 4) == "null"@ {
                let sub = s@.subrange(i as int, i as int + 4);
                assert(s@[i as int] == sub[0] && s@[i as int + 1] == sub[1]
                    && s@[i as int + 2] == sub[2] && s@[i as int + 3] == sub[3]);
                assert(sub[0] == 'n' && sub[1] == 'u' && sub[2] == 'l' && sub[3] == 'l');
            }
        }
        None
    }
}

// ---------------------------------------------------------------------------
// Skipping values of any shape
// ---------------------------------------------------------------------------

/// Skips one JSON value of any shape at position `i` (no leading
/// whitespace): the position just after it. A skipped value may nest objects
/// and arrays at most `depth` levels deep.
pub open spec fn skip_value(s: Seq<char>, i: int, depth: u64) -> Option<int>
    decreases s.len() - i, 0int,
    when 0 <= i <= s.len()
    via skip_value_decreases
{
    if i < s.len() && s[i] == '{' {
        if depth == 0 {
            None
        } else {
            skip_obj_rest(s, i + 1, (depth - 1) as u64)
        }
    } else if i < s.len() && s[i] == '[' {
        if depth == 0 {
            None
        } else {
            skip_arr_rest(s, i + 1, (depth - 1) as u64)
        }
    } else {
        match scan_lit(s, i) {
            Some((v, j)) => Some(j),
            None => None,
        }
    }
}

/// Skips the members of an object from just after its opening brace.
/// The bound on each inner scan's end keeps the recursion visibly finite.
pub open spec fn skip_obj_rest(s: Seq<char>, i: int, depth: u64) -> Option<int>
    decreases s.len() - i, 1int,
    when 0 <= i <= s.len()
    via skip_obj_rest_decreases
{
    let j = skip_ws(s, i);
    if j < s.len() && s[j] == '}' {
        Some(j + 1)
    } else if j < s.len() && s[j] == '"' {
        match scan_string(s, j + 1) {
            Some((key, k)) => {
                let m = skip_ws(s, k);
                if m < s.len() && s[m] == ':' {
                    let vpos = skip_ws(s, m + 1);
                    match skip_value(s, vpos, depth) {
                        Some(p) => if vpos < p <= s.len() {
                            let q = skip_ws(s, p);
                            if q < s.len() && s[q] == ',' {
                                skip_obj_rest(s, q + 1, depth)
                            } else if q < s.len() && s[q] == '}' {
                                Some(q + 1)
                            } else {
                                None
                            }
                        } else {
                            None
                        },
                        None => None,
                    }
                } else {
                    None
                }
            },
            None => None,
        }
    } else {
        None
    }
}

/// Skips the elements of an array from just after its opening bracket.
pub open spec fn skip_arr_rest(s: Seq<char>, i: int, depth: u64) -> Option<int>
    decreases s.len() - i, 2int,
    when 0 <= i <= s.len()
    via skip_arr_rest_decreases
{
    let j = skip_ws(s, i);
    if j < s.len() && s[j] == ']' {
        Some(j + 1)
    } else {
        match skip_value(s, j, depth) {
            Some(p) => if j < p <= s.len() {
                let q = skip_ws(s, p);
                if q < s.len() && s[q] == ',' {
                    skip_arr_rest(s, q + 1, depth)
                } else if q < s.len() && s[q] == ']' {
                    Some(q + 1)
                } else {
                    None
                }
            } else {
                None
            },
            None => None,
        }
    }
}

#[via_fn]
proof fn skip_value_decreases(s: Seq<char>, i: int, depth: u64) {
}

#[via_fn]
proof fn skip_obj_rest_decreases(s: Seq<char>, i: int, depth: u64) {
    assert forall|x: int| 0 <= x <= s.len() implies x <= #[trigger] skip_ws(s, x) <= s.len() by {
        lemma_skip_ws_bounds(s, x);
    }
    assert forall|x: int| #[trigger] scan_string(s, x) is Some implies x < scan_string(
        s,
        x,
    ).unwrap().1 <= s.len() by {
        lemma_scan_string_advances(s, x);
    }
}

#[via_fn]
proof fn skip_arr_rest_decreases(s: Seq<char>, i: int, depth: u64) {
    assert forall|x: int| 0 <= x <= s.len() implies x <= #[trigger] skip_ws(s, x) <= s.len() by {
        lemma_skip_ws_bounds(s, x);
    }
}

/// The executable value skipper, exact against `skip_value`.
pub fn skip_value_exec(s: &Vec<char>, i: usize, depth: u64) -> (r: Option<usize>)
    requires
        i <= s@.len(),
    ensures
        match r {
            Some(p) => skip_value(s@, i as int, depth) == Some(p as int) && i < p <= s@.len(),
            None => skip_value(s@, i as int, depth) is None,
        },
    decreases s@.len() - i, 0int,
{
    if i < s.len() && s[i] == '{' {
        if depth == 0 {
            None
        } else {
            skip_obj_rest_exec(s, i + 1, depth - 1)
        }
    } else if i < s.len() && s[i] == '[' {
        if depth == 0 {
            None
        } else {
            skip_arr_rest_exec(s, i + 1, depth - 1)
        }
    } else {
        match scan_lit_exec(s, i) {
            Some((v, j)) => Some(j),
            None => None,
        }
    }
}

/// The executable object skipper, exact against `skip_obj_rest`.
fn skip_obj_rest_exec(s: &Vec<char>, i: usize, depth: u64) -> (r: Option<usize>)
    requires
        i <= s@.len(),
    ensures
        match r {
            Some(p) => skip_obj_rest(s@, i as int, depth) == Some(p as int) && i < p <= s@.len(),
            None => skip_obj_rest(s@, i as int, depth) is None,
        },
    decreases s@.len() - i, 1int,
{
    let mut cur = i;
    loop
        invariant
            i <= cur <= s@.len(),
            skip_obj_rest(s@, i as int, depth) == skip_obj_rest(s@, cur as int, depth),
        decreases s@.len() - cur,
    {
        let j = skip_ws_exec(s, cur);
        if j < s.len() && s[j] == '}' {
            return Some(j + 1);
        }
        if !(j < s.len() && s[j] == '"') {
            return None;
        }
        match scan_string_exec(s, j + 1) {
            None => {
                return None;
            },
            Some((key, k)) => {
                let m = skip_ws_exec(s, k);
                if !(m < s.len() && s[m] == ':') {
                    return None;
                }
                let vpos = skip_ws_exec(s, m + 1);
                match skip_value_exec(s, vpos, depth) {
                    None => {
                        return None;
                    },
                    Some(p) => {
                        let q = skip_ws_exec(s, p);
                        if q < s.len() && s[q] == ',' {
                            cur = q + 1;
                        } else if q < s.len() && s[q] == '}' {
                            return Some(q + 1);
                        } else {
                            return None;
                        }
                    },
                }
            },
        }
    }
}

/// The executable array skipper, exact against `skip_arr_rest`.
fn skip_arr_rest_exec(s: &Vec<char>, i: usize, depth: u64) -> (r: Option<usize>)
    requires
        i <= s@.len(),
    ensures
        match r {
            Some(p) => skip_arr_rest(s@, i as int, depth) == Some(p as int) && i < p <= s@.len(),
            None => skip_arr_rest(s@, i as int, depth) is None,
        },
    decreases s@.len() - i, 2int,
{
    let mut cur = i;
    loop
        invariant
            i <= cur <= s@.len(),
            skip_arr_rest(s@, i as int, depth) == skip_arr_rest(s@, cur as int, depth),
        decreases s@.len() - cur,
    {
        let j = skip_ws_exec(s, cur);
        if j < s.len() && s[j] == ']' {
            return Some(j + 1);
        }
        match skip_value_exec(s, j, depth) {
            None => {
                return None;
            },
            Some(p) => {
                let q = skip_ws_exec(s, p);
                if q < s.len() && s[q] == ',' {
                    cur = q + 1;
                } else if q < s.len() && s[q] == ']' {
                    return Some(q + 1);
                } else {
                    return None;
                }
            },
        }
    }
}

// ---------------------------------------------------------------------------
// Flat objects: members whose values are scalars
// ---------------------------------------------------------------------------

/// Scans the members of a record object from the position just after its
/// opening brace: whitespace-separated `"key": value` pairs, comma-separated,
/// ending at the closing brace. Scalar values are kept; a member whose value
/// is an object or an array is ignored. `acc` holds the members already read.
pub open spec fn scan_members(s: Seq<char>, i: int, acc: Seq<(Seq<char>, LitV)>) -> Option<
    (Seq<(Seq<char>, LitV)>, int),
>
    decreases s.len() - i,
    when 0 <= i <= s.len()
    via scan_members_decreases
{
    let j = skip_ws(s, i);
    if j < s.len() && s[j] == '}' {
        Some((acc, j + 1))
    } else if j < s.len() && s[j] == '"' {
        match scan_string(s, j + 1) {
            Some((key, k)) => {
                let m = skip_ws(s, k);
                if m < s.len() && s[m] == ':' {
                    let vpos = skip_ws(s, m + 1);
                    if vpos < s.len() && (s[vpos] == '{' || s[vpos] == '[') {
                        match skip_value(s, vpos, 128) {
                            Some(p) => if vpos < p <= s.len() {
                                let q = skip_ws(s, p);
                                if q < s.len() && s[q] == ',' {
                                    scan_members(s, q + 1, acc)
                                } else if q < s.len() && s[q] == '}' {
                                    Some((acc, q + 1))
                                } else {
                                    None
                                }
                            } else {
                                None
                            },
                            None => None,
                        }
                    } else {
                        match scan_lit(s, vpos) {
                            Some((v, p)) => {
                                let q = skip_ws(s, p);
                                if q < s.len() && s[q] == ',' {
                                    scan_members(s, q + 1, acc.push((key, v)))
                                } else if q < s.len() && s[q] == '}' {
                                    Some((acc.push((key, v)), q + 1))
                                } else {
                                    None
                                }
                            },
                            None => None,
                        }
                    }
                } else {
                    None
                }
            },
            None => None,
        }
    } else {
        None
    }
}

#[via_fn]
proof fn scan_members_decreases(s: Seq<char>, i: int, acc: Seq<(Seq<char>, LitV)>) {
    assert forall|x: int| 0 <= x <= s.len() implies x <= #[trigger] skip_ws(s, x) <= s.len() by {
        lemma_skip_ws_bounds(s, x);
    }
    assert forall|x: int| #[trigger] scan_string(s, x) is Some implies x < scan_string(
        s,
        x,
    ).unwrap().1 <= s.len() by {
        lemma_scan_string_advances(s, x);
    }
    assert forall|x: int| #[trigger] scan_lit(s, x) is Some implies x < scan_lit(
        s,
        x,
    ).unwrap().1 <= s.len() by {
        lemma_scan_lit_advances(s, x);
    }
}

/// A successful member scan moves strictly forward and stays inside the input.
pub proof fn lemma_scan_members_advances(s: Seq<char>, i: int, acc: Seq<(Seq<char>, LitV)>)
    requires
        0 <= i <= s.len(),
        scan_members(s, i, acc) is Some,
    ensures
        i < scan_members(s, i, acc).unwrap().1 <= s.len(),
    decreases s.len() - i,
{
    lemma_skip_ws_bounds(s, i);
    let j = skip_ws(s, i);
    if j < s.len() && s[j] == '}' {
    } else if j < s.len() && s[j] == '"' && scan_string(s, j + 1) is Some {
        lemma_scan_string_advances(s, j + 1);
        let (key, k) = scan_string(s, j + 1).unwrap();
        lemma_skip_ws_bounds(s, k);
        let m = skip_ws(s, k);
        if m < s.len() && s[m] == ':' {
            lemma_skip_ws_bounds(s, m + 1);
            let vpos = skip_ws(s, m + 1);
            if vpos < s.len() && (s[vpos] == '{' || s[vpos] == '[') {
                if skip_value(s, vpos, 128) is Some {
                    let p = skip_value(s, vpos, 128).unwrap();
                    if vpos < p <= s.len() {
                        lemma_skip_ws_bounds(s, p);
                        let q = skip_ws(s, p);
                        if q < s.len() && s[q] == ',' {
                            lemma_scan_members_advances(s, q + 1, acc);
                        }
                    }
                }
            } else if scan_lit(s, vpos) is Some {
                lemma_scan_lit_advances(s, vpos);
                let (v, p) = scan_lit(s, vpos).unwrap();
                lemma_skip_ws_bounds(s, p);
                let q = skip_ws(s, p);
                if q < s.len() && s[q] == ',' {
                    lemma_scan_members_advances(s, q + 1, acc.push((key, v)));
                }
            }
        }
    }
}

/// The mathematical members a vector of parsed members stands for.
pub open spec fn member_views(ms: Seq<(String, Lit)>) -> Seq<(Seq<char>, LitV)> {
    ms.map_values(|p: (String, Lit)| (p.0@, lit_view(p.1)))
}

/// The executable flat-object scanner, exact against `scan_members` started
/// with no accumulated members.
pub fn scan_members_exec(s: &Vec<char>, i: usize) -> (r: Option<(Vec<(String, Lit)>, usize)>)
    requires
        i <= s@.len(),
    ensures
        match r {
            Some(p) => scan_members(s@, i as int, Seq::empty()) == Some(
                (member_views(p.0@), p.1 as int),
            ) && i < p.1 <= s@.len(),
            None => scan_members(s@, i as int, Seq::empty()) is None,
        },
{
    let mut acc: Vec<(String, Lit)> = Vec::new();
    let mut cur = i;
    proof {
        assert(member_views(acc@) =~= Seq::<(Seq<char>, LitV)>::empty());
    }
    loop
        invariant
            i <= cur <= s@.len(),
            scan_members(s@, i as int, Seq::<(Seq<char>, LitV)>::empty()) == scan_members(
                s@,
                cur as int,
                member_views(acc@),
            ),
        decreases s@.len() - cur,
    {
        let j = skip_ws_exec(s, cur);
        if j < s.len() && s[j] == '}' {
            return Some((acc, j + 1));
        }
        if !(j < s.len() && s[j] == '"') {
            return None;
        }
        match scan_string_exec(s, j + 1) {
            None => {
                return None;
            },
            Some((key, k)) => {
                let m = skip_ws_exec(s, k);
                if !(m < s.len() && s[m] == ':') {
                    return None;
                }
                let vstart = skip_ws_exec(s, m + 1);
                if vstart < s.len() && (s[vstart] == '{' || s[vstart] == '[') {
                    match skip_value_exec(s, vstart, 128) {
                        None => {
                            return None;
                        },
                        Some(p) => {
                            let q = skip_ws_exec(s, p);
                            if q < s.len() && s[q] == ',' {
                                cur = q + 1;
                            } else if q < s.len() && s[q] == '}' {
                                return Some((acc, q + 1));
                            } else {
                                return None;
                            }
                        },
                    }
                } else {
                    match scan_lit_exec(s, vstart) {
                        None => {
                            return None;
                        },
                        Some((v, p)) => {
                            let q = skip_ws_exec(s, p);
                            if q < s.len() && s[q] == ',' {
                                let ghost kv = (key@, lit_view(v));
                                let ghost acc0 = member_views(acc@);
                                acc.push((key, v));
                                proof {
                                    assert(member_views(acc@) =~= acc0.push(kv));
                                }
                                cur = q + 1;
                            } else if q < s.len() && s[q] == '}' {
                                let ghost kv = (key@, lit_view(v));
                                let ghost acc0 = member_views(acc@);
                                acc.push((key, v));
                                proof {
                                    assert(member_views(acc@) =~= acc0.push(kv));
                                }
                                return Some((acc, q + 1));
                            } else {
                                return None;
                            }
                        },
                    }
                }
            },
        }
    }
}

// ---------------------------------------------------------------------------
// Arrays of flat objects
// ---------------------------------------------------------------------------

/// Scans an array of flat objects from the position just after its opening
/// bracket: whitespace-separated `{...}` records, comma-separated, ending at
/// the closing bracket. `acc` holds the records already read.
pub open spec fn scan_objs(s: Seq<char>, i: int, acc: Seq<Seq<(Seq<char>, LitV)>>) -> Option<
    (Seq<Seq<(Seq<char>, LitV)>>, int),
>
    decreases s.len() - i,
    when 0 <= i <= s.len()
    via scan_objs_decreases
{
    let j = skip_ws(s, i);
    if j < s.len() && s[j] == ']' {
        Some((acc, j + 1))
    } else if j < s.len() && s[j] == '{' {
        match scan_members(s, j + 1, Seq::empty()) {
            Some((ms, k)) => {
                let q = skip_ws(s, k);
                if q < s.len() && s[q] == ',' {
                    scan_objs(s, q + 1, acc.push(ms))
                } else if q < s.len() && s[q] == ']' {
                    Some((acc.push(ms), q + 1))
                } else {
                    None
                }
            },
            None => None,
        }
    } else {
        None
    }
}

#[via_fn]
proof fn scan_objs_decreases(s: Seq<char>, i: int, acc: Seq<Seq<(Seq<char>, LitV)>>) {
    lemma_skip_ws_bounds(s, i);
    let j = skip_ws(s, i);
    if j < s.len() && s[j] == '{' && scan_members(s, j + 1, Seq::empty()) is Some {
        lemma_scan_members_advances(s, j + 1, Seq::empty());
        let (ms, k) = scan_members(s, j + 1, Seq::empty()).unwrap();
        lemma_skip_ws_bounds(s, k);
    }
}

/// The mathematical records a vector of parsed records stands for.
pub open spec fn objs_views(os: Seq<Vec<(String, Lit)>>) -> Seq<Seq<(Seq<char>, LitV)>> {
    os.map_values(|o: Vec<(String, Lit)>| member_views(o@))
}

/// The executable array scanner, exact against `scan_objs` started with no
/// accumulated records.
pub fn scan_objs_exec(s: &Vec<char>, i: usize) -> (r: Option<(Vec<Vec<(String, Lit)>>, usize)>)
    requires
        i <= s@.len(),
    ensures
        match r {
            Some(p) => scan_objs(s@, i as int, Seq::empty()) == Some(
                (objs_views(p.0@), p.1 as int),
            ) && i < p.1 <= s@.len(),
            None => scan_objs(s@, i as int, Seq::empty()) is None,
        },
{
    let mut acc: Vec<Vec<(String, Lit)>> = Vec::new();
    let mut cur = i;
    proof {
        assert(objs_views(acc@) =~= Seq::<Seq<(Seq<char>, LitV)>>::empty());
    }
    loop
        invariant
            i <= cur <= s@.len(),
            scan_objs(s@, i as int, Seq::<Seq<(Seq<char>, LitV)>>::empty()) == scan_objs(
                s@,
                cur as int,
                objs_views(acc@),
            ),
        decreases s@.len() - cur,
    {
        let j = skip_ws_exec(s, cur);
        if j < s.len() && s[j] == ']' {
            return Some((acc, j + 1));
        }
        if !(j < s.len() && s[j] == '{') {
            return None;
        }
        match scan_members_exec(s, j + 1) {
            None => {
                return None;
            },
            Some((ms, k)) => {
                let q = skip_ws_exec(s, k);
                if q < s.len() && s[q] == ',' {
                    let ghost mv = member_views(ms@);
                    let ghost acc0 = objs_views(acc@);
                    acc.push(ms);
                    proof {
                        assert(objs_views(acc@) =~= acc0.push(mv));
                    }
                    cur = q + 1;
                } else if q < s.len() && s[q] == ']' {
                    let ghost mv = member_views(ms@);
                    let ghost acc0 = objs_views(acc@);
                    acc.push(ms);
                    proof {
                        assert(objs_views(acc@) =~= acc0.push(mv));
                    }
                    return Some((acc, q + 1));
                } else {
                    return None;
                }
            },
        }
    }
}

// ---------------------------------------------------------------------------
// Member lookup and small utilities
// ---------------------------------------------------------------------------

/// The first member with the given key, if any.
pub open spec fn lookup(ms: Seq<(Seq<char>, LitV)>, key: Seq<char>) -> Option<LitV>
    decreases ms.len(),
{
    if ms.len() == 0 {
        None
    } else if ms[0].0 == key {
        Some(ms[0].1)
    } else {
        lookup(ms.drop_first(), key)
    }
}

/// Character-for-character string comparison, exact against view equality.
pub fn eq_str(a: &str, b: &str) -> (r: bool)
    ensures
        r == (a@ == b@),
{
    let na = a.unicode_len();
    let nb = b.unicode_len();
    if na != nb {
        return false;
    }
    let mut i: usize = 0;
    while i < na
        invariant
            na == a@.len(),
            na == b@.len(),
            i <= na,
            forall|k: int| 0 <= k < i ==> a@[k] == b@[k],
        decreases na - i,
    {
        if a.get_char(i) != b.get_char(i) {
            return false;
        }
        i += 1;
    }
    proof {
        assert(a@ =~= b@);
    }
    true
}

/// The first member of the parsed object carrying the given key.
pub fn find_lit<'a>(ms: &'a Vec<(String, Lit)>, key: &str) -> (r: Option<&'a Lit>)
    ensures
        match r {
            Some(l) => lookup(member_views(ms@), key@) == Some(lit_view(*l)),
            None => lookup(member_views(ms@), key@) is None,
        },
{
    let n = ms.len();
    let mut i: usize = 0;
    proof {
        assert(member_views(ms@).subrange(0, n as int) =~= member_views(ms@));
    }
    while i < n
        invariant
            n == ms@.len(),
            i <= n,
            lookup(member_views(ms@), key@) == lookup(
                member_views(ms@).subrange(i as int, n as int),
                key@,
            ),
        decreases n - i,
    {
        let pair = &ms[i];
        proof {
            assert(member_views(ms@).subrange(i as int, n as int)[0] == member_views(ms@)[i as int]);
            assert(member_views(ms@)[i as int] == (ms@[i as int].0@, lit_view(ms@[i as int].1)));
        }
        if eq_str(pair.0.as_str(), key) {
            return Some(&pair.1);
        }
        proof {
            assert(member_views(ms@).subrange(i as int, n as int).drop_first() =~= member_views(
                ms@,
            ).subrange(i as int + 1, n as int));
        }
        i += 1;
    }
    proof {
        assert(member_views(ms@).subrange(n as int, n as int) =~= Seq::<(Seq<char>, LitV)>::empty());
    }
    None
}

/// The characters of a string, as a vector for position-based scanning.
pub fn to_chars(s: &str) -> (r: Vec<char>)
    ensures
        r@ == s@,
{
    let n = s.unicode_len();
    let mut v: Vec<char> = Vec::new();
    let mut i: usize = 0;
    while i < n
        invariant
            n == s@.len(),
            i <= n,
            v@ =~= s@.subrange(0, i as int),
        decreases n - i,
    {
        let c = s.get_char(i);
        v.push(c);
        proof {
            assert(v@ =~= s@.subrange(0, i as int + 1));
        }
        i += 1;
    }
    proof {
        assert(s@.subrange(0, n as int) =~= s@);
    }
    v
}

} // verus!
