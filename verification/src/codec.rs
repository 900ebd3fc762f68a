//! Character-level building blocks of the wire format: JSON string escaping,
//! whitespace skipping, and a recursive-descent parser for JSON string
//! literals. Everything here is stated over `Seq<char>` views.

use vstd::prelude::*;

verus! {

/// The characters the wire format treats as insignificant whitespace.
pub open spec fn is_json_ws(c: char) -> bool {
    c == ' ' || c == '\t' || c == '\n' || c == '\r'
}

/// The lowercase hexadecimal digit for a value below sixteen.
pub open spec fn hex_digit_char(d: u32) -> char
    recommends
        d < 16,
{
    if d == 0 { '0' }
    else if d == 1 { '1' }
    else if d == 2 { '2' }
    else if d == 3 { '3' }
    else if d == 4 { '4' }
    else if d == 5 { '5' }
    else if d == 6 { '6' }
    else if d == 7 { '7' }
    else if d == 8 { '8' }
    else if d == 9 { '9' }
    else if d == 10 { 'a' }
    else if d == 11 { 'b' }
    else if d == 12 { 'c' }
    else if d == 13 { 'd' }
    else if d == 14 { 'e' }
    else { 'f' }
}

/// The value of one hexadecimal digit, either case, if the character is one.
pub open spec fn hex_char_val(c: char) -> Option<u32> {
    let v = c as u32;
    if 0x30 <= v && v <= 0x39 { Some((v - 0x30) as u32) }
    else if 0x61 <= v && v <= 0x66 { Some((v - 0x61 + 10) as u32) }
    else if 0x41 <= v && v <= 0x46 { Some((v - 0x41 + 10) as u32) }
    else { None }
}

/// How the encoder writes one character inside a JSON string literal:
/// quotes and backslashes get a backslash escape, control characters a
/// four-digit hexadecimal escape, and everything else stands as itself.
pub open spec fn escape_char(c: char) -> Seq<char> {
    if c == '"' { seq!['\\', '"'] }
    else if c == '\\' { seq!['\\', '\\'] }
    else if (c as u32) < 0x20 {
        seq!['\\', 'u', '0', '0', hex_digit_char((c as u32) / 16), hex_digit_char((c as u32) % 16)]
    } else {
        seq![c]
    }
}

/// The escaped form of a whole string body.
pub open spec fn escape_seq(s: Seq<char>) -> Seq<char>
    decreases s.len(),
{
    if s.len() == 0 {
        Seq::<char>::empty()
    } else {
        escape_char(s[0]) + escape_seq(s.skip(1))
    }
}

/// Escaping a string extended by one character appends that character's
/// escape to the escaped string.
pub proof fn lemma_escape_seq_push(s: Seq<char>, c: char)
    ensures
        escape_seq(s.push(c)) == escape_seq(s) + escape_char(c),
    decreases s.len(),
{
    assert(escape_seq(s.push(c)) == escape_char(s.push(c)[0]) + escape_seq(s.push(c).skip(1)));
    if s.len() == 0 {
        assert(s.push(c)[0] == c);
        assert(s.push(c).skip(1) =~= Seq::<char>::empty());
        assert(escape_seq(Seq::<char>::empty()) == Seq::<char>::empty());
        assert(s =~= Seq::<char>::empty());
        assert(escape_seq(s.push(c)) =~= escape_seq(s) + escape_char(c));
    } else {
        assert(s.push(c)[0] == s[0]);
        assert(s.push(c).skip(1) =~= s.skip(1).push(c));
        lemma_escape_seq_push(s.skip(1), c);
        assert(escape_seq(s) == escape_char(s[0]) + escape_seq(s.skip(1)));
        assert(escape_seq(s.push(c)) =~= escape_seq(s) + escape_char(c));
    }
}

/// Every character of an escaped string is printable: no control character,
/// in particular no newline, survives escaping.
pub proof fn lemma_escape_seq_no_control(s: Seq<char>)
    ensures
        forall|k: int| 0 <= k < escape_seq(s).len() ==> (#[trigger] escape_seq(s)[k]) as u32 >= 0x20,
    decreases s.len(),
{
    if s.len() == 0 {
    } else {
        lemma_escape_seq_no_control(s.skip(1));
        assert forall|k: int| 0 <= k < escape_seq(s).len() implies
            (#[trigger] escape_seq(s)[k]) as u32 >= 0x20 by {
            if k < escape_char(s[0]).len() {
                assert(escape_seq(s)[k] == escape_char(s[0])[k]);
            } else {
                assert(escape_seq(s)[k] == escape_seq(s.skip(1))[k - escape_char(s[0]).len()]);
            }
        }
    }
}

/// Relies on `String::push`: appends one character to the string.
#[verifier::external_body]
fn push_char(s: &mut String, c: char)
    ensures
        final(s)@ == old(s)@ + seq![c],
{
    s.push(c);
}

/// Relies on `char::from_u32`: `Some` exactly on unicode scalar values,
/// holding the character with that code point.
#[verifier::external_body]
fn char_from_u32(v: u32) -> (r: Option<char>)
    ensures
        r == (if v < 0xD800 || (0xE000 <= v && v <= 0x10FFFF) {
            Some(v as char)
        } else {
            None::<char>
        }),
{
    char::from_u32(v)
}

/// The lowercase hexadecimal digit for a value below sixteen.
fn hex_digit(d: u32) -> (c: char)
    requires
        d < 16,
    ensures
        c == hex_digit_char(d),
{
    if d == 0 { '0' }
    else if d == 1 { '1' }
    else if d == 2 { '2' }
    else if d == 3 { '3' }
    else if d == 4 { '4' }
    else if d == 5 { '5' }
    else if d == 6 { '6' }
    else if d == 7 { '7' }
    else if d == 8 { '8' }
    else if d == 9 { '9' }
    else if d == 10 { 'a' }
    else if d == 11 { 'b' }
    else if d == 12 { 'c' }
    else if d == 13 { 'd' }
    else if d == 14 { 'e' }
    else { 'f' }
}

/// Appends the escaped form of `s` to `out`.
pub fn append_escaped(out: &mut String, s: &str)
    ensures
        final(out)@ == old(out)@ + escape_seq(s@),
{
    let n = s.unicode_len();
    let mut i: usize = 0;
    proof {
        assert(s@.subrange(0, 0) =~= Seq::<char>::empty());
    }
    while i < n
        invariant
            n == s@.len(),
            i <= n,
            out@ == old(out)@ + escape_seq(s@.subrange(0, i as int)),
        decreases n - i,
    {
        let c = s.get_char(i);
        proof {
            assert(s@.subrange(0, i + 1) =~= s@.subrange(0, i as int).push(c));
            lemma_escape_seq_push(s@.subrange(0, i as int), c);
        }
        if c == '"' {
            push_char(out, '\\');
            push_char(out, '"');
        } else if c == '\\' {
            push_char(out, '\\');
            push_char(out, '\\');
        } else if (c as u32) < 0x20 {
            push_char(out, '\\');
            push_char(out, 'u');
            push_char(out, '0');
            push_char(out, '0');
            push_char(out, hex_digit((c as u32) / 16));
            push_char(out, hex_digit((c as u32) % 16));
        } else {
            push_char(out, c);
        }
        proof {
            assert(out@ =~= old(out)@ + escape_seq(s@.subrange(0, i + 1)));
        }
        i = i + 1;
    }
    proof {
        assert(s@.subrange(0, n as int) =~= s@);
    }
}

/// The first position at or after `i` that does not hold whitespace.
pub open spec fn skip_ws(s: Seq<char>, i: int) -> int
    decreases s.len() - i,
{
    if 0 <= i && i < s.len() && is_json_ws(s[i]) {
        skip_ws(s, i + 1)
    } else {
        i
    }
}

/// The character named by a one-letter backslash escape, if the letter is one.
pub open spec fn single_escape_char(c: char) -> Option<char> {
    if c == '"' { Some('"') }
    else if c == '\\' { Some('\\') }
    else if c == '/' { Some('/') }
    else if c == 'b' { Some('\u{8}') }
    else if c == 'f' { Some('\u{c}') }
    else if c == 'n' { Some('\n') }
    else if c == 'r' { Some('\r') }
    else if c == 't' { Some('\t') }
    else { None }
}

/// Whether a code point is a unicode scalar value within the basic plane,
/// the range a four-digit escape can name.
pub open spec fn is_scalar_bmp(v: u32) -> bool {
    v < 0xD800 || (0xE000 <= v && v <= 0xFFFF)
}

/// Prepends one decoded character to a parse result.
pub open spec fn cons_parsed(c: char, r: Option<(Seq<char>, int)>) -> Option<(Seq<char>, int)> {
    match r {
        Some((t, j)) => Some((seq![c] + t, j)),
        None => None,
    }
}

/// Parses the body of a JSON string literal starting at `i`, just past the
/// opening quote: returns the decoded body and the position just past the
/// closing quote. Raw control characters, bad escapes and a missing closing
/// quote are rejected.
pub open spec fn parse_string_body(s: Seq<char>, i: int) -> Option<(Seq<char>, int)>
    decreases s.len() - i,
{
    if !(0 <= i && i < s.len()) {
        None
    } else if s[i] == '"' {
        Some((Seq::<char>::empty(), i + 1))
    } else if s[i] == '\\' {
        if i + 1 < s.len() && single_escape_char(s[i + 1]) is Some {
            cons_parsed(single_escape_char(s[i + 1]).unwrap(), parse_string_body(s, i + 2))
        } else if i + 5 < s.len() && s[i + 1] == 'u' && hex_char_val(s[i + 2]) is Some
            && hex_char_val(s[i + 3]) is Some && hex_char_val(s[i + 4]) is Some
            && hex_char_val(s[i + 5]) is Some {
            let v = ((hex_char_val(s[i + 2]).unwrap() * 16 + hex_char_val(s[i + 3]).unwrap()) * 16
                + hex_char_val(s[i + 4]).unwrap()) * 16 + hex_char_val(s[i + 5]).unwrap();
            if is_scalar_bmp(v as u32) {
                cons_parsed(v as u32 as char, parse_string_body(s, i + 6))
            } else {
                None
            }
        } else {
            None
        }
    } else if (s[i] as u32) < 0x20 {
        None
    } else {
        cons_parsed(s[i], parse_string_body(s, i + 1))
    }
}

/// Parses a JSON string literal whose opening quote stands at `i`.
pub open spec fn parse_string(s: Seq<char>, i: int) -> Option<(Seq<char>, int)> {
    if 0 <= i && i < s.len() && s[i] == '"' {
        parse_string_body(s, i + 1)
    } else {
        None
    }
}

/// The first position at or after `i` that does not hold whitespace.
pub fn skip_ws_at(s: &str, n: usize, i: usize) -> (r: usize)
    requires
        n == s@.len(),
        i <= n,
    ensures
        r == skip_ws(s@, i as int),
        i <= r <= n,
    decreases n - i,
{
    if i < n {
        let c = s.get_char(i);
        if c == ' ' || c == '\t' || c == '\n' || c == '\r' {
            skip_ws_at(s, n, i + 1)
        } else {
            i
        }
    } else {
        i
    }
}

/// Parses the body of a JSON string literal, mirroring `parse_string_body`.
fn parse_string_body_at(s: &str, n: usize, i: usize) -> (r: Option<(String, usize)>)
    requires
        n == s@.len(),
        i <= n,
    ensures
        r is Some <==> parse_string_body(s@, i as int) is Some,
        r matches Some((t, j)) ==> parse_string_body(s@, i as int) == Some((t@, j as int)) && i < j
            <= n,
    decreases n - i,
{
    if i >= n {
        return None;
    }
    let c = s.get_char(i);
    if c == '"' {
        let out = String::new();
        proof {
            assert(out@ =~= Seq::<char>::empty());
        }
        Some((out, i + 1))
    } else if c == '\\' {
        if i + 1 >= n {
            return None;
        }
        let e = s.get_char(i + 1);
        let single: Option<char> = if e == '"' { Some('"') }
        else if e == '\\' { Some('\\') }
        else if e == '/' { Some('/') }
        else if e == 'b' { Some('\u{8}') }
        else if e == 'f' { Some('\u{c}') }
        else if e == 'n' { Some('\n') }
        else if e == 'r' { Some('\r') }
        else if e == 't' { Some('\t') }
        else { None };
        proof {
            assert(single == single_escape_char(s@[i as int + 1]));
        }
        match single {
            Some(d) => {
                match parse_string_body_at(s, n, i + 2) {
                    Some((t, j)) => {
                        let mut out = String::new();
                        push_char(&mut out, d);
                        out.append(t.as_str());
                        proof {
                            assert(out@ =~= seq![d] + t@);
                        }
                        Some((out, j))
                    },
                    None => None,
                }
            },
            None => {
                if e == 'u' && n - i > 5 {
                    let h1 = hex_val(s.get_char(i + 2));
                    let h2 = hex_val(s.get_char(i + 3));
                    let h3 = hex_val(s.get_char(i + 4));
                    let h4 = hex_val(s.get_char(i + 5));
                    match (h1, h2, h3, h4) {
                        (Some(a), Some(b), Some(cc), Some(dd)) => {
                            proof {
                                assert(a < 16 && b < 16 && cc < 16 && dd < 16);
                            }
                            let v: u32 = ((a * 16 + b) * 16 + cc) * 16 + dd;
                            proof {
                                assert(v <= 0xFFFF);
                            }
                            if v < 0xD800 || 0xE000 <= v {
                                match char_from_u32(v) {
                                    Some(d) => {
                                        proof {
                                            assert(d == v as char);
                                        }
                                        match parse_string_body_at(s, n, i + 6) {
                                            Some((t, j)) => {
                                                let mut out = String::new();
                                                push_char(&mut out, d);
                                                out.append(t.as_str());
                                                proof {
                                                    assert(out@ =~= seq![d] + t@);
                                                }
                                                Some((out, j))
                                            },
                                            None => None,
                                        }
                                    },
                                    None => None,
                                }
                            } else {
                                None
                            }
                        },
                        _ => None,
                    }
                } else {
                    None
                }
            },
        }
    } else if (c as u32) < 0x20 {
        None
    } else {
        match parse_string_body_at(s, n, i + 1) {
            Some((t, j)) => {
                let mut out = String::new();
                push_char(&mut out, c);
                out.append(t.as_str());
                proof {
                    assert(out@ =~= seq![c] + t@);
                }
                Some((out, j))
            },
            None => None,
        }
    }
}

/// The value of one hexadecimal digit, either case, if the character is one.
fn hex_val(c: char) -> (r: Option<u32>)
    ensures
        r == hex_char_val(c),
{
    let v = c as u32;
    if 0x30 <= v && v <= 0x39 {
        Some(v - 0x30)
    } else if 0x61 <= v && v <= 0x66 {
        Some(v - 0x61 + 10)
    } else if 0x41 <= v && v <= 0x46 {
        Some(v - 0x41 + 10)
    } else {
        None
    }
}

/// Two characters with the same code point are the same character.
proof fn lemma_char_injective(a: char, b: char)
    requires
        a as u32 == b as u32,
    ensures
        a == b,
{
}

/// Reading back the hexadecimal digit of a value below sixteen yields
/// that value.
proof fn lemma_hex_roundtrip(d: u32)
    requires
        d < 16,
    ensures
        hex_char_val(hex_digit_char(d)) == Some(d),
{
}

/// Parsing a string body that starts with the escaped form of `t` followed
/// by a closing quote recovers `t` exactly and stops just past that quote.
pub proof fn lemma_parse_escaped(s: Seq<char>, i: int, t: Seq<char>)
    requires
        0 <= i,
        i + escape_seq(t).len() + 1 <= s.len(),
        s.subrange(i, i + escape_seq(t).len() + 1) == escape_seq(t) + seq!['"'],
    ensures
        parse_string_body(s, i) == Some((t, i + escape_seq(t).len() + 1)),
    decreases t.len(),
{
    let e = escape_seq(t);
    let l = e.len() as int;
    assert forall|k: int| 0 <= k < l + 1 implies s[i + k] == (e + seq!['"'])[k] by {
        assert(s.subrange(i, i + l + 1)[k] == s[i + k]);
    }
    if t.len() == 0 {
        assert(s[i + 0] == (e + seq!['"'])[0]);
        assert(s[i] == '"');
        assert(t =~= Seq::<char>::empty());
    } else {
        let c = t[0];
        let cu = c as u32;
        let ec = escape_char(c);
        let t1 = t.skip(1);
        let e1 = escape_seq(t1);
        assert(e == ec + e1);
        let i1 = i + ec.len() as int;
        assert forall|k: int| 0 <= k < e1.len() + 1 implies s[i1 + k] == (e1 + seq!['"'])[k] by {
            assert(s[i1 + k] == (e + seq!['"'])[ec.len() + k]);
        }
        assert(s.subrange(i1, i + l + 1) =~= e1 + seq!['"']);
        lemma_parse_escaped(s, i1, t1);
        assert(seq![c] + t1 =~= t);
        assert(s[i + 0] == (e + seq!['"'])[0]);
        if ec.len() >= 2 {
            assert(s[i + 1] == (e + seq!['"'])[1]);
        }
        if ec.len() == 6 {
            assert(s[i + 2] == (e + seq!['"'])[2]);
            assert(s[i + 3] == (e + seq!['"'])[3]);
            assert(s[i + 4] == (e + seq!['"'])[4]);
            assert(s[i + 5] == (e + seq!['"'])[5]);
        }
        if c == '"' {
            assert(s[i] == '\\' && s[i + 1] == '"');
            assert(parse_string_body(s, i) == cons_parsed('"', parse_string_body(s, i + 2)));
        } else if c == '\\' {
            assert(s[i] == '\\' && s[i + 1] == '\\');
            assert(parse_string_body(s, i) == cons_parsed('\\', parse_string_body(s, i + 2)));
        } else if cu < 0x20 {
            assert(s[i] == '\\' && s[i + 1] == 'u' && s[i + 2] == '0' && s[i + 3] == '0');
            assert(s[i + 4] == hex_digit_char(cu / 16) && s[i + 5] == hex_digit_char(cu % 16));
            assert(single_escape_char('u') is None);
            lemma_hex_roundtrip(cu / 16);
            lemma_hex_roundtrip(cu % 16);
            assert(hex_char_val('0') == Some(0u32));
            let v = ((hex_char_val(s[i + 2]).unwrap() * 16 + hex_char_val(s[i + 3]).unwrap()) * 16
                + hex_char_val(s[i + 4]).unwrap()) * 16 + hex_char_val(s[i + 5]).unwrap();
            assert(v == (cu / 16) * 16 + cu % 16);
            assert(v == cu);
            assert(is_scalar_bmp(v as u32));
            assert(((cu as u32) as char) as u32 == cu);
            lemma_char_injective((cu as u32) as char, c);
            assert(v as u32 as char == c);
            assert(parse_string_body(s, i) == cons_parsed(c, parse_string_body(s, i + 6)));
        } else {
            assert(s[i] == c);
            assert(parse_string_body(s, i) == cons_parsed(c, parse_string_body(s, i + 1)));
        }
    }
}

/// Parses a JSON string literal whose opening quote stands at `i`,
/// mirroring `parse_string`.
pub fn parse_string_at(s: &str, n: usize, i: usize) -> (r: Option<(String, usize)>)
    requires
        n == s@.len(),
        i <= n,
    ensures
        r is Some <==> parse_string(s@, i as int) is Some,
        r matches Some((t, j)) ==> parse_string(s@, i as int) == Some((t@, j as int)) && i < j
            <= n,
{
    if i < n {
        let c = s.get_char(i);
        if c == '"' {
            parse_string_body_at(s, n, i + 1)
        } else {
            None
        }
    } else {
        None
    }
}

} // verus!
