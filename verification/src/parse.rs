//! Parsing JSON text back into a document tree.
//!
//! The grammar is the one the serializer in [`crate::json`] writes, extended
//! with the usual freedoms of inbound JSON: whitespace between tokens, the
//! named and `\u` escapes in strings, either letter case for hexadecimal
//! digits, and the full number grammar.  A number that is a signed 64-bit
//! integer of at most nineteen digits is read as an integer; any other
//! number (a fraction, an exponent, a longer or out-of-range integer) is
//! kept as its literal text.  Surrogate-pair escapes are not accepted; a
//! datagram that strays from the grammar is rejected as malformed.

use crate::json::Json;
use crate::json::JsonV;
use crate::json::json_seq_view;
use crate::json::json_obj_view;
use crate::json::json_view;
use crate::json::lemma_json_seq_view_cons;
use crate::json::lemma_json_obj_view_cons;
use crate::text::push_char;
use crate::text::char_from_u32;
use crate::text::str_chars;
use vstd::prelude::*;

verus! {

broadcast use vstd::std_specs::vec::group_vec_axioms, vstd::seq::group_seq_axioms,
    vstd::utf8::char_u32_cast;

/// JSON insignificant whitespace.
pub open spec fn is_ws(c: char) -> bool {
    c == ' ' || c == '\t' || c == '\n' || c == '\r'
}

/// The suffix that remains after leading whitespace.
pub open spec fn skip_ws(s: Seq<char>) -> Seq<char>
    decreases s.len(),
{
    if s.len() > 0 && is_ws(s.first()) {
        skip_ws(s.drop_first())
    } else {
        s
    }
}

pub open spec fn is_digit(c: char) -> bool {
    '0' as u32 <= c as u32 && c as u32 <= '9' as u32
}

pub open spec fn digit_val(c: char) -> int {
    c as u32 as int - '0' as u32 as int
}

/// The value of a hexadecimal digit, or -1 for any other character.
pub open spec fn hex_digit_val(c: char) -> int {
    if is_digit(c) {
        digit_val(c)
    } else if 'a' as u32 <= c as u32 && c as u32 <= 'f' as u32 {
        c as u32 as int - 'a' as u32 as int + 10
    } else if 'A' as u32 <= c as u32 && c as u32 <= 'F' as u32 {
        c as u32 as int - 'A' as u32 as int + 10
    } else {
        -1
    }
}

/// The longest digit run at the head of the text.
pub open spec fn digits_prefix(s: Seq<char>) -> Seq<char>
    decreases s.len(),
{
    if s.len() > 0 && is_digit(s.first()) {
        seq![s.first()] + digits_prefix(s.drop_first())
    } else {
        Seq::empty()
    }
}

/// The suffix after the digit run at the head of the text.
pub open spec fn after_digits(s: Seq<char>) -> Seq<char>
    decreases s.len(),
{
    if s.len() > 0 && is_digit(s.first()) {
        after_digits(s.drop_first())
    } else {
        s
    }
}

/// The numeric value of a digit sequence, most significant first.
pub open spec fn val_of_digits(d: Seq<char>) -> int
    decreases d.len(),
{
    if d.len() == 0 {
        0
    } else {
        val_of_digits(d.drop_last()) * 10 + digit_val(d.last())
    }
}

/// Parses an optional fraction part: the consumed text (empty when there
/// is none) and the rest, or nothing for a dot without digits.
pub open spec fn parse_frac(s: Seq<char>) -> Option<(Seq<char>, Seq<char>)> {
    if s.len() > 0 && s.first() == '.' {
        let fd = digits_prefix(s.drop_first());
        if fd.len() == 0 {
            None
        } else {
            Some((seq!['.'] + fd, after_digits(s.drop_first())))
        }
    } else {
        Some((Seq::empty(), s))
    }
}

/// Parses an optional exponent part: the consumed text (empty when there
/// is none) and the rest, or nothing for an exponent without digits.
pub open spec fn parse_exp(s: Seq<char>) -> Option<(Seq<char>, Seq<char>)> {
    if s.len() > 0 && (s.first() == 'e' || s.first() == 'E') {
        let u = s.drop_first();
        if u.len() > 0 && (u.first() == '+' || u.first() == '-') {
            let ed = digits_prefix(u.drop_first());
            if ed.len() == 0 {
                None
            } else {
                Some((seq![s.first(), u.first()] + ed, after_digits(u.drop_first())))
            }
        } else {
            let ed = digits_prefix(u);
            if ed.len() == 0 {
                None
            } else {
                Some((seq![s.first()] + ed, after_digits(u)))
            }
        }
    } else {
        Some((Seq::empty(), s))
    }
}

/// Parses a JSON number at the head of the text.  A plain integer of at
/// most nineteen digits that fits a signed 64-bit value becomes an
/// integer; any other well-formed number keeps its literal text.
pub open spec fn parse_number(s: Seq<char>) -> Option<(JsonV, Seq<char>)> {
    let neg = s.len() > 0 && s.first() == '-';
    let t = if neg { s.drop_first() } else { s };
    let d = digits_prefix(t);
    if d.len() == 0 {
        None
    } else if d.len() > 1 && d.first() == '0' {
        None
    } else {
        let head = (if neg {
            seq!['-']
        } else {
            Seq::<char>::empty()
        }) + d;
        match parse_frac(after_digits(t)) {
            None => None,
            Some((ft, r1)) => match parse_exp(r1) {
                None => None,
                Some((et, r2)) => {
                    if ft.len() == 0 && et.len() == 0 {
                        let v = if neg {
                            -val_of_digits(d)
                        } else {
                            val_of_digits(d)
                        };
                        if d.len() > 19 || v < -0x8000_0000_0000_0000 || v
                            > 0x7fff_ffff_ffff_ffff {
                            Some((JsonV::Num(head), r2))
                        } else {
                            Some((JsonV::Int(v), r2))
                        }
                    } else {
                        Some((JsonV::Num(head + ft + et), r2))
                    }
                },
            },
        }
    }
}

/// The character denoted by a single-character escape, if the escape is one
/// the grammar knows.
pub open spec fn unescape(e: char) -> Option<char> {
    if e == '"' {
        Some('"')
    } else if e == '\\' {
        Some('\\')
    } else if e == '/' {
        Some('/')
    } else if e == 'b' {
        Some('\u{8}')
    } else if e == 'f' {
        Some('\u{c}')
    } else if e == 'n' {
        Some('\n')
    } else if e == 'r' {
        Some('\r')
    } else if e == 't' {
        Some('\t')
    } else {
        None
    }
}

/// Parses the body of a string literal, the opening quote already consumed:
/// the decoded characters, and the suffix after the closing quote.
pub open spec fn parse_str_body(s: Seq<char>) -> Option<(Seq<char>, Seq<char>)>
    decreases s.len(),
{
    if s.len() == 0 {
        None
    } else {
        let c = s.first();
        if c == '"' {
            Some((Seq::empty(), s.drop_first()))
        } else if c == '\\' {
            if s.len() < 2 {
                None
            } else if s[1] == 'u' {
                if s.len() < 6 {
                    None
                } else {
                    let h = hex_digit_val(s[2]) * 0x1000 + hex_digit_val(s[3]) * 0x100
                        + hex_digit_val(s[4]) * 0x10 + hex_digit_val(s[5]);
                    if hex_digit_val(s[2]) < 0 || hex_digit_val(s[3]) < 0 || hex_digit_val(s[4]) < 0
                        || hex_digit_val(s[5]) < 0 || (0xD800 <= h && h < 0xE000) {
                        None
                    } else {
                        match parse_str_body(s.skip(6)) {
                            Some((t, r)) => Some((seq![(h as u32) as char] + t, r)),
                            None => None,
                        }
                    }
                }
            } else {
                match unescape(s[1]) {
                    Some(d) => match parse_str_body(s.skip(2)) {
                        Some((t, r)) => Some((seq![d] + t, r)),
                        None => None,
                    },
                    None => None,
                }
            }
        } else if (c as u32) < 0x20 {
            None
        } else {
            match parse_str_body(s.drop_first()) {
                Some((t, r)) => Some((seq![c] + t, r)),
                None => None,
            }
        }
    }
}

/// Parses one JSON value at the head of the text, allowing leading
/// whitespace: the value, and the suffix right after it.
pub open spec fn parse_value(s: Seq<char>) -> Option<(JsonV, Seq<char>)>
    decreases s.len(), 0int,
{
    let s1 = skip_ws(s);
    if s1.len() > s.len() || s1.len() == 0 {
        None
    } else {
        let c = s1.first();
        if c == 'n' {
            if s1.len() >= 4 && s1[1] == 'u' && s1[2] == 'l' && s1[3] == 'l' {
                Some((JsonV::Null, s1.skip(4)))
            } else {
                None
            }
        } else if c == 't' {
            if s1.len() >= 4 && s1[1] == 'r' && s1[2] == 'u' && s1[3] == 'e' {
                Some((JsonV::Bool(true), s1.skip(4)))
            } else {
                None
            }
        } else if c == 'f' {
            if s1.len() >= 5 && s1[1] == 'a' && s1[2] == 'l' && s1[3] == 's' && s1[4] == 'e' {
                Some((JsonV::Bool(false), s1.skip(5)))
            } else {
                None
            }
        } else if c == '"' {
            match parse_str_body(s1.drop_first()) {
                Some((t, r)) => Some((JsonV::Str(t), r)),
                None => None,
            }
        } else if c == '[' {
            let s2 = skip_ws(s1.drop_first());
            if s2.len() > 0 && s2.first() == ']' && s2.len() < s.len() {
                Some((JsonV::Arr(Seq::empty()), s2.drop_first()))
            } else {
                match parse_items(s1.drop_first()) {
                    Some((vs, r)) => Some((JsonV::Arr(vs), r)),
                    None => None,
                }
            }
        } else if c == '{' {
            let s2 = skip_ws(s1.drop_first());
            if s2.len() > 0 && s2.first() == '}' && s2.len() < s.len() {
                Some((JsonV::Obj(Seq::empty()), s2.drop_first()))
            } else {
                match parse_members(s1.drop_first()) {
                    Some((ms, r)) => Some((JsonV::Obj(ms), r)),
                    None => None,
                }
            }
        } else if c == '-' || is_digit(c) {
            parse_number(s1)
        } else {
            None
        }
    }
}

/// Parses the elements of a nonempty array, the opening bracket already
/// consumed: the elements, and the suffix after the closing bracket.
pub open spec fn parse_items(s: Seq<char>) -> Option<(Seq<JsonV>, Seq<char>)>
    decreases s.len(), 1int,
{
    match parse_value(s) {
        Some((v, r)) => {
            let r2 = skip_ws(r);
            if r2.len() < s.len() {
                if r2.len() > 0 && r2.first() == ']' {
                    Some((seq![v], r2.drop_first()))
                } else if r2.len() > 0 && r2.first() == ',' {
                    match parse_items(r2.drop_first()) {
                        Some((vs, r3)) => Some((seq![v] + vs, r3)),
                        None => None,
                    }
                } else {
                    None
                }
            } else {
                None
            }
        },
        None => None,
    }
}

/// Parses the members of a nonempty object, the opening brace already
/// consumed: the members, and the suffix after the closing brace.
pub open spec fn parse_members(s: Seq<char>) -> Option<(Seq<(Seq<char>, JsonV)>, Seq<char>)>
    decreases s.len(), 1int,
{
    let s1 = skip_ws(s);
    if s1.len() > s.len() || s1.len() == 0 || s1.first() != '"' {
        None
    } else {
        match parse_str_body(s1.drop_first()) {
            Some((k, r)) => {
                let r1 = skip_ws(r);
                if r1.len() <= s.len() && r1.len() > 0 && r1.first() == ':' {
                    match parse_value(r1.drop_first()) {
                        Some((v, r2)) => {
                            let r3 = skip_ws(r2);
                            if r3.len() < s.len() {
                                if r3.len() > 0 && r3.first() == '}' {
                                    Some((seq![(k, v)], r3.drop_first()))
                                } else if r3.len() > 0 && r3.first() == ',' {
                                    match parse_members(r3.drop_first()) {
                                        Some((ms, r4)) => Some((seq![(k, v)] + ms, r4)),
                                        None => None,
                                    }
                                } else {
                                    None
                                }
                            } else {
                                None
                            }
                        },
                        None => None,
                    }
                } else {
                    None
                }
            },
            None => None,
        }
    }
}

/// Parses a complete JSON document: one value, with nothing but whitespace
/// around it.
pub open spec fn parse_json(s: Seq<char>) -> Option<JsonV> {
    match parse_value(s) {
        Some((v, r)) => if skip_ws(r).len() == 0 {
            Some(v)
        } else {
            None
        },
        None => None,
    }
}

fn is_ws_exec(c: char) -> (r: bool)
    ensures
        r == is_ws(c),
{
    c == ' ' || c == '\t' || c == '\n' || c == '\r'
}

fn is_digit_exec(c: char) -> (r: bool)
    ensures
        r == is_digit(c),
{
    let u = c as u32;
    48 <= u && u <= 57
}

fn hex_val_exec(c: char) -> (r: Option<u8>)
    ensures
        match r {
            Some(d) => hex_digit_val(c) == d as int && d < 16,
            None => hex_digit_val(c) < 0,
        },
{
    let u = c as u32;
    if 48 <= u && u <= 57 {
        Some((u - 48) as u8)
    } else if 97 <= u && u <= 102 {
        Some((u - 87) as u8)
    } else if 65 <= u && u <= 70 {
        Some((u - 55) as u8)
    } else {
        None
    }
}

fn unescape_exec(e: char) -> (r: Option<char>)
    ensures
        r == unescape(e),
{
    if e == '"' {
        Some('"')
    } else if e == '\\' {
        Some('\\')
    } else if e == '/' {
        Some('/')
    } else if e == 'b' {
        Some('\u{8}')
    } else if e == 'f' {
        Some('\u{c}')
    } else if e == 'n' {
        Some('\n')
    } else if e == 'r' {
        Some('\r')
    } else if e == 't' {
        Some('\t')
    } else {
        None
    }
}

/// After whitespace, `skip_ws` leaves the text unchanged.
pub proof fn lemma_skip_ws_fixed(s: Seq<char>)
    requires
        s.len() == 0 || !is_ws(s.first()),
    ensures
        skip_ws(s) == s,
{
}

/// The index right after the whitespace run starting at `i`.
fn ws_end(s: &Vec<char>, i: usize) -> (j: usize)
    requires
        i <= s.len(),
    ensures
        i <= j <= s.len(),
        skip_ws(s@.skip(i as int)) == s@.skip(j as int),
        j == s.len() || !is_ws(s@[j as int]),
    decreases s.len() - i,
{
    let mut j = i;
    while j < s.len() && is_ws_exec(s[j])
        invariant
            i <= j <= s.len(),
            skip_ws(s@.skip(i as int)) == skip_ws(s@.skip(j as int)),
        decreases s.len() - j,
    {
        proof {
            assert(s@.skip(j as int).first() == s@[j as int]);
            assert(s@.skip(j as int).drop_first() =~= s@.skip(j + 1));
        }
        j += 1;
    }
    proof {
        if j < s.len() {
            assert(s@.skip(j as int).first() == s@[j as int]);
        }
        lemma_skip_ws_fixed(s@.skip(j as int));
    }
    j
}

/// The body of a string literal, read from index `i`, the opening quote
/// already consumed.
#[verifier::rlimit(60)]
fn p_str_body(s: &Vec<char>, i: usize) -> (r: Option<(String, usize)>)
    requires
        i <= s.len(),
    ensures
        match r {
            Some((t, j)) => i < j <= s.len() && parse_str_body(s@.skip(i as int)) == Some(
                (t@, s@.skip(j as int)),
            ),
            None => parse_str_body(s@.skip(i as int)) is None,
        },
{
    let mut acc = String::new();
    let mut cur = i;
    loop
        invariant
            i <= cur <= s.len(),
            (match parse_str_body(s@.skip(cur as int)) {
                Some((t, r2)) => parse_str_body(s@.skip(i as int)) == Some((acc@ + t, r2)),
                None => parse_str_body(s@.skip(i as int)) is None,
            }),
        decreases s.len() - cur,
    {
        if cur == s.len() {
            proof {
                assert(s@.skip(cur as int).len() == 0);
            }
            return None;
        }
        let c = s[cur];
        proof {
            assert(s@.skip(cur as int).first() == s@[cur as int]);
        }
        if c == '"' {
            proof {
                assert(s@.skip(cur as int).drop_first() =~= s@.skip(cur + 1));
                assert(parse_str_body(s@.skip(cur as int)) == Some(
                    (Seq::<char>::empty(), s@.skip(cur + 1)),
                ));
                assert(acc@ + Seq::<char>::empty() =~= acc@);
            }
            return Some((acc, cur + 1));
        } else if c == '\\' {
            if s.len() - cur < 2 {
                proof {
                    assert(s@.skip(cur as int).len() < 2);
                }
                return None;
            }
            let e = s[cur + 1];
            proof {
                assert(s@.skip(cur as int)[1] == s@[cur + 1]);
            }
            if e == 'u' {
                if s.len() - cur < 6 {
                    proof {
                        assert(s@.skip(cur as int).len() < 6);
                    }
                    return None;
                }
                proof {
                    assert(s@.skip(cur as int)[2] == s@[cur + 2]);
                    assert(s@.skip(cur as int)[3] == s@[cur + 3]);
                    assert(s@.skip(cur as int)[4] == s@[cur + 4]);
                    assert(s@.skip(cur as int)[5] == s@[cur + 5]);
                }
                let h0 = hex_val_exec(s[cur + 2]);
                let h1 = hex_val_exec(s[cur + 3]);
                let h2 = hex_val_exec(s[cur + 4]);
                let h3 = hex_val_exec(s[cur + 5]);
                match (h0, h1, h2, h3) {
                    (Some(d0), Some(d1), Some(d2), Some(d3)) => {
                        let code: u32 = (d0 as u32) * 0x1000 + (d1 as u32) * 0x100 + (d2 as u32)
                            * 0x10 + (d3 as u32);
                        if 0xD800 <= code && code < 0xE000 {
                            return None;
                        }
                        match char_from_u32(code) {
                            Some(ch) => {
                                let ghost acc0 = acc@;
                                push_char(&mut acc, ch);
                                proof {
                                    assert(s@.skip(cur as int).skip(6) =~= s@.skip(cur + 6));
                                    let ghost sc = s@.skip(cur as int);
                                    let ghost h = hex_digit_val(sc[2]) * 0x1000 + hex_digit_val(
                                        sc[3],
                                    ) * 0x100 + hex_digit_val(sc[4]) * 0x10 + hex_digit_val(sc[5]);
                                    assert(h == code as int);
                                    assert((h as u32) == code);
                                    vstd::utf8::char_u32_cast(ch, code);
                                    assert((h as u32) as char == ch);
                                    match parse_str_body(s@.skip(cur + 6)) {
                                        Some((t, r2)) => {
                                            assert(parse_str_body(sc) == Some(
                                                (seq![ch] + t, r2),
                                            ));
                                            assert(acc0 + (seq![ch] + t) =~= acc@ + t);
                                        },
                                        None => {},
                                    }
                                }
                                cur += 6;
                            },
                            None => {
                                proof {
                                    assert(false);
                                }
                                return None;
                            },
                        }
                    },
                    _ => {
                        return None;
                    },
                }
            } else {
                match unescape_exec(e) {
                    Some(d) => {
                        let ghost acc0 = acc@;
                        push_char(&mut acc, d);
                        proof {
                            assert(s@.skip(cur as int).skip(2) =~= s@.skip(cur + 2));
                            match parse_str_body(s@.skip(cur + 2)) {
                                Some((t, r2)) => {
                                    assert(parse_str_body(s@.skip(cur as int)) == Some(
                                        (seq![d] + t, r2),
                                    ));
                                    assert(acc0 + (seq![d] + t) =~= acc@ + t);
                                },
                                None => {},
                            }
                        }
                        cur += 2;
                    },
                    None => {
                        return None;
                    },
                }
            }
        } else if (c as u32) < 0x20 {
            return None;
        } else {
            let ghost acc0 = acc@;
            push_char(&mut acc, c);
            proof {
                assert(s@.skip(cur as int).drop_first() =~= s@.skip(cur + 1));
                match parse_str_body(s@.skip(cur + 1)) {
                    Some((t, r2)) => {
                        assert(parse_str_body(s@.skip(cur as int)) == Some((seq![c] + t, r2)));
                        assert(acc0 + (seq![c] + t) =~= acc@ + t);
                    },
                    None => {},
                }
            }
            cur += 1;
        }
    }
}

/// Powers of ten.
pub open spec fn pow10(k: int) -> int
    decreases k,
{
    if k <= 0 {
        1
    } else {
        pow10(k - 1) * 10
    }
}

proof fn lemma_pow10_pos(k: int)
    ensures
        pow10(k) >= 1,
    decreases (if k <= 0 { 0int } else { k }),
{
    if k > 0 {
        lemma_pow10_pos(k - 1);
    }
}

proof fn lemma_pow10_mono(a: int, b: int)
    requires
        a <= b,
    ensures
        pow10(a) <= pow10(b),
    decreases b - a,
{
    if a < b {
        lemma_pow10_mono(a, b - 1);
        lemma_pow10_pos(b - 1);
    }
}

proof fn lemma_pow10_19()
    ensures
        pow10(19) == 10_000_000_000_000_000_000int,
{
    reveal_with_fuel(pow10, 21);
}

/// A text whose first `k` characters are digits and whose `k`-th is not
/// splits there into its digit run and the rest.
proof fn lemma_digits_split(t: Seq<char>, k: int)
    requires
        0 <= k <= t.len(),
        forall|m: int| 0 <= m < k ==> is_digit(t[m]),
        k == t.len() || !is_digit(t[k]),
    ensures
        digits_prefix(t) == t.take(k),
        after_digits(t) == t.skip(k),
    decreases k,
{
    if k == 0 {
        assert(t.take(0) =~= Seq::<char>::empty());
        assert(t.skip(0) =~= t);
    } else {
        assert(is_digit(t[0]));
        assert forall|m: int| 0 <= m < k - 1 implies is_digit(t.drop_first()[m]) by {
            assert(t.drop_first()[m] == t[m + 1]);
        }
        if k < t.len() {
            assert(t.drop_first()[k - 1] == t[k]);
        }
        lemma_digits_split(t.drop_first(), k - 1);
        assert(seq![t.first()] + t.drop_first().take(k - 1) =~= t.take(k));
        assert(t.drop_first().skip(k - 1) =~= t.skip(k));
    }
}

/// A run of digits reads as a nonnegative value below ten to its length.
proof fn lemma_val_bounds(d: Seq<char>)
    requires
        forall|m: int| 0 <= m < d.len() ==> is_digit(d[m]),
    ensures
        0 <= val_of_digits(d) < pow10(d.len() as int),
    decreases d.len(),
{
    if d.len() == 0 {
    } else {
        assert forall|m: int| 0 <= m < d.len() - 1 implies is_digit(d.drop_last()[m]) by {
            assert(d.drop_last()[m] == d[m]);
        }
        lemma_val_bounds(d.drop_last());
        assert(is_digit(d.last()));
    }
}

/// The end of the digit run starting at index `i`.
fn digit_run_end(s: &Vec<char>, i: usize) -> (j: usize)
    requires
        i <= s.len(),
    ensures
        i <= j <= s.len(),
        digits_prefix(s@.skip(i as int)) == s@.subrange(i as int, j as int),
        after_digits(s@.skip(i as int)) == s@.skip(j as int),
        forall|m: int| i <= m < j ==> is_digit(s@[m]),
        j == s.len() || !is_digit(s@[j as int]),
{
    let mut j = i;
    while j < s.len() && is_digit_exec(s[j])
        invariant
            i <= j <= s.len(),
            forall|m: int| i <= m < j ==> is_digit(s@[m]),
        decreases s.len() - j,
    {
        j += 1;
    }
    proof {
        let t = s@.skip(i as int);
        assert forall|m: int| 0 <= m < (j - i) implies is_digit(t[m]) by {
            assert(t[m] == s@[m + i]);
        }
        if j < s.len() {
            assert(t[j - i] == s@[j as int]);
        }
        lemma_digits_split(t, j - i);
        assert(t.take(j - i) =~= s@.subrange(i as int, j as int));
        assert(t.skip(j - i) =~= s@.skip(j as int));
    }
    j
}

/// The characters of `s` between two indices, as a string.
fn range_string(s: &Vec<char>, a: usize, b: usize) -> (r: String)
    requires
        a <= b <= s.len(),
    ensures
        r@ == s@.subrange(a as int, b as int),
{
    let mut out = String::new();
    let mut m = a;
    while m < b
        invariant
            a <= m <= b,
            b <= s.len(),
            out@ == s@.subrange(a as int, m as int),
        decreases b - m,
    {
        push_char(&mut out, s[m]);
        proof {
            assert(s@.subrange(a as int, m + 1) =~= s@.subrange(a as int, m as int).push(
                s@[m as int],
            ));
        }
        m += 1;
    }
    out
}

/// Parses a JSON number starting exactly at index `i`.
#[verifier::rlimit(100)]
#[verifier::spinoff_prover]
fn p_number(s: &Vec<char>, i: usize) -> (r: Option<(Json, usize)>)
    requires
        i <= s.len(),
    ensures
        match r {
            Some((v, j)) => i < j <= s.len() && parse_number(s@.skip(i as int)) == Some(
                (v@, s@.skip(j as int)),
            ),
            None => parse_number(s@.skip(i as int)) is None,
        },
{
    let ghost sp = s@.skip(i as int);
    let neg = i < s.len() && s[i] == '-';
    let dstart = if neg { i + 1 } else { i };
    proof {
        if i < s.len() {
            assert(sp.first() == s@[i as int]);
        }
        if neg {
            assert(sp.drop_first() =~= s@.skip(dstart as int));
        } else {
            assert(sp =~= s@.skip(dstart as int));
        }
    }
    let dend = digit_run_end(s, dstart);
    let ghost t = s@.skip(dstart as int);
    let ghost d = s@.subrange(dstart as int, dend as int);
    proof {
        assert forall|m: int| 0 <= m < d.len() implies is_digit(d[m]) by {
            assert(d[m] == s@[m + dstart]);
        }
    }
    let count = dend - dstart;
    if count == 0 {
        return None;
    }
    if count > 1 && s[dstart] == '0' {
        proof {
            assert(d.first() == s@[dstart as int]);
        }
        return None;
    }
    proof {
        assert(d.first() == s@[dstart as int]);
        assert((if i < dstart {
            seq!['-']
        } else {
            Seq::<char>::empty()
        }) + d =~= s@.subrange(i as int, dend as int));
    }
    // fraction
    let fr_end: usize = if dend < s.len() && s[dend] == '.' {
        proof {
            assert(s@.skip(dend as int).first() == s@[dend as int]);
            assert(s@.skip(dend as int).drop_first() =~= s@.skip(dend + 1));
        }
        let fe = digit_run_end(s, dend + 1);
        if fe == dend + 1 {
            proof {
                assert(digits_prefix(s@.skip(dend + 1)) =~= Seq::<char>::empty());
            }
            return None;
        }
        proof {
            assert(seq!['.'] + s@.subrange(dend + 1, fe as int) =~= s@.subrange(
                dend as int,
                fe as int,
            ));
        }
        fe
    } else {
        proof {
            if dend < s.len() {
                assert(s@.skip(dend as int).first() == s@[dend as int]);
            }
        }
        dend
    };
    let ghost ft = parse_frac(s@.skip(dend as int))->Some_0.0;
    proof {
        assert(parse_frac(s@.skip(dend as int)) == Some(
            (s@.subrange(dend as int, fr_end as int), s@.skip(fr_end as int)),
        ) || (fr_end == dend && parse_frac(s@.skip(dend as int)) == Some(
            (Seq::<char>::empty(), s@.skip(dend as int)),
        )));
        assert(ft =~= s@.subrange(dend as int, fr_end as int));
    }
    // exponent
    let ex_end: usize = if fr_end < s.len() && (s[fr_end] == 'e' || s[fr_end] == 'E') {
        proof {
            assert(s@.skip(fr_end as int).first() == s@[fr_end as int]);
            assert(s@.skip(fr_end as int).drop_first() =~= s@.skip(fr_end + 1));
        }
        let sg2: usize = if fr_end + 1 < s.len() && (s[fr_end + 1] == '+' || s[fr_end + 1]
            == '-') {
            proof {
                assert(s@.skip(fr_end + 1).first() == s@[fr_end + 1]);
                assert(s@.skip(fr_end + 1).drop_first() =~= s@.skip(fr_end + 2));
            }
            fr_end + 2
        } else {
            proof {
                if fr_end + 1 < s.len() {
                    assert(s@.skip(fr_end + 1).first() == s@[fr_end + 1]);
                }
            }
            fr_end + 1
        };
        let ee = digit_run_end(s, sg2);
        if ee == sg2 {
            proof {
                assert(digits_prefix(s@.skip(sg2 as int)) =~= Seq::<char>::empty());
            }
            return None;
        }
        proof {
            assert(s@.subrange(fr_end as int, sg2 as int) + s@.subrange(sg2 as int, ee as int)
                =~= s@.subrange(fr_end as int, ee as int));
            if sg2 == fr_end + 2 {
                assert(seq![s@[fr_end as int], s@[fr_end + 1]] =~= s@.subrange(
                    fr_end as int,
                    sg2 as int,
                ));
            } else {
                assert(seq![s@[fr_end as int]] =~= s@.subrange(fr_end as int, sg2 as int));
            }
        }
        ee
    } else {
        proof {
            if fr_end < s.len() {
                assert(s@.skip(fr_end as int).first() == s@[fr_end as int]);
            }
        }
        fr_end
    };
    let ghost et = parse_exp(s@.skip(fr_end as int))->Some_0.0;
    proof {
        assert(et =~= s@.subrange(fr_end as int, ex_end as int));
        assert(parse_exp(s@.skip(fr_end as int)) == Some((et, s@.skip(ex_end as int))));
    }
    if fr_end != dend || ex_end != fr_end {
        // a fraction or exponent is present: keep the literal text
        let lit = range_string(s, i, ex_end);
        proof {
            assert(s@.subrange(i as int, dend as int) + ft + et =~= s@.subrange(
                i as int,
                ex_end as int,
            ));
        }
        return Some((Json::Num(lit), ex_end));
    }
    if count > 19 {
        // too long for a signed 64-bit value: keep the literal text
        let lit = range_string(s, i, dend);
        return Some((Json::Num(lit), dend));
    }
    let mut acc: u64 = 0;
    let mut m = dstart;
    while m < dend
        invariant
            dstart <= m <= dend,
            dend <= s.len(),
            dend - dstart <= 19,
            forall|mm: int| dstart <= mm < dend ==> is_digit(s@[mm]),
            acc == val_of_digits(s@.subrange(dstart as int, m as int)),
            acc < pow10(m - dstart),
        decreases dend - m,
    {
        let c = s[m];
        proof {
            assert(is_digit(s@[m as int]));
            lemma_pow10_mono(m + 1 - dstart, 19);
            lemma_pow10_19();
            assert(s@.subrange(dstart as int, m + 1).drop_last() =~= s@.subrange(
                dstart as int,
                m as int,
            ));
            assert(s@.subrange(dstart as int, m + 1).last() == s@[m as int]);
        }
        let dv: u64 = ((c as u32) - 48) as u64;
        acc = acc * 10 + dv;
        m += 1;
    }
    if neg {
        if acc > 0x8000_0000_0000_0000u64 {
            let lit = range_string(s, i, dend);
            return Some((Json::Num(lit), dend));
        }
        let v: i64 = if acc == 0x8000_0000_0000_0000u64 {
            i64::MIN
        } else {
            -(acc as i64)
        };
        Some((Json::Int(v), dend))
    } else {
        if acc > 0x7fff_ffff_ffff_ffffu64 {
            let lit = range_string(s, i, dend);
            return Some((Json::Num(lit), dend));
        }
        Some((Json::Int(acc as i64), dend))
    }
}

/// Parses one JSON value starting at index `i`, allowing leading whitespace.
#[verifier::rlimit(100)]
fn p_value(s: &Vec<char>, i: usize) -> (r: Option<(Json, usize)>)
    requires
        i <= s.len(),
    ensures
        match r {
            Some((v, j)) => i < j <= s.len() && parse_value(s@.skip(i as int)) == Some(
                (v@, s@.skip(j as int)),
            ),
            None => parse_value(s@.skip(i as int)) is None,
        },
    decreases s.len() - i, 0int,
{
    let ghost sp = s@.skip(i as int);
    let j = ws_end(s, i);
    if j == s.len() {
        return None;
    }
    let c = s[j];
    let ghost s1 = s@.skip(j as int);
    proof {
        assert(s1.first() == s@[j as int]);
    }
    if c == 'n' {
        if s.len() - j >= 4 && s[j + 1] == 'u' && s[j + 2] == 'l' && s[j + 3] == 'l' {
            proof {
                assert(s1[1] == s@[j + 1]);
                assert(s1[2] == s@[j + 2]);
                assert(s1[3] == s@[j + 3]);
                assert(s1.skip(4) =~= s@.skip(j + 4));
            }
            Some((Json::Null, j + 4))
        } else {
            proof {
                if s.len() - j >= 4 {
                    assert(s1[1] == s@[j + 1]);
                    assert(s1[2] == s@[j + 2]);
                    assert(s1[3] == s@[j + 3]);
                }
            }
            None
        }
    } else if c == 't' {
        if s.len() - j >= 4 && s[j + 1] == 'r' && s[j + 2] == 'u' && s[j + 3] == 'e' {
            proof {
                assert(s1[1] == s@[j + 1]);
                assert(s1[2] == s@[j + 2]);
                assert(s1[3] == s@[j + 3]);
                assert(s1.skip(4) =~= s@.skip(j + 4));
            }
            Some((Json::Bool(true), j + 4))
        } else {
            proof {
                if s.len() - j >= 4 {
                    assert(s1[1] == s@[j + 1]);
                    assert(s1[2] == s@[j + 2]);
                    assert(s1[3] == s@[j + 3]);
                }
            }
            None
        }
    } else if c == 'f' {
        if s.len() - j >= 5 && s[j + 1] == 'a' && s[j + 2] == 'l' && s[j + 3] == 's' && s[j + 4]
            == 'e' {
            proof {
                assert(s1[1] == s@[j + 1]);
                assert(s1[2] == s@[j + 2]);
                assert(s1[3] == s@[j + 3]);
                assert(s1[4] == s@[j + 4]);
                assert(s1.skip(5) =~= s@.skip(j + 5));
            }
            Some((Json::Bool(false), j + 5))
        } else {
            proof {
                if s.len() - j >= 5 {
                    assert(s1[1] == s@[j + 1]);
                    assert(s1[2] == s@[j + 2]);
                    assert(s1[3] == s@[j + 3]);
                    assert(s1[4] == s@[j + 4]);
                }
            }
            None
        }
    } else if c == '"' {
        proof {
            assert(s1.drop_first() =~= s@.skip(j + 1));
        }
        match p_str_body(s, j + 1) {
            Some((t, k)) => Some((Json::Str(t), k)),
            None => None,
        }
    } else if c == '[' {
        proof {
            assert(s1.drop_first() =~= s@.skip(j + 1));
        }
        let k = ws_end(s, j + 1);
        proof {
            if k < s.len() {
                assert(s@.skip(k as int).first() == s@[k as int]);
            }
        }
        if k < s.len() && s[k] == ']' {
            let vs: Vec<Json> = Vec::new();
            proof {
                assert(s@.skip(k as int).drop_first() =~= s@.skip(k + 1));
                assert(json_seq_view(vs@) =~= Seq::<JsonV>::empty());
            }
            Some((Json::Arr(vs), k + 1))
        } else {
            match p_items(s, j + 1) {
                Some((vs, k2)) => Some((Json::Arr(vs), k2)),
                None => None,
            }
        }
    } else if c == '{' {
        proof {
            assert(s1.drop_first() =~= s@.skip(j + 1));
        }
        let k = ws_end(s, j + 1);
        proof {
            if k < s.len() {
                assert(s@.skip(k as int).first() == s@[k as int]);
            }
        }
        if k < s.len() && s[k] == '}' {
            let ms: Vec<(String, Json)> = Vec::new();
            proof {
                assert(s@.skip(k as int).drop_first() =~= s@.skip(k + 1));
                assert(json_obj_view(ms@) =~= Seq::<(Seq<char>, JsonV)>::empty());
            }
            Some((Json::Obj(ms), k + 1))
        } else {
            match p_members(s, j + 1) {
                Some((ms, k2)) => Some((Json::Obj(ms), k2)),
                None => None,
            }
        }
    } else if c == '-' || is_digit_exec(c) {
        p_number(s, j)
    } else {
        None
    }
}

/// Parses the elements of a nonempty array starting at index `i`, the
/// opening bracket already consumed.
#[verifier::rlimit(100)]
fn p_items(s: &Vec<char>, i: usize) -> (r: Option<(Vec<Json>, usize)>)
    requires
        i <= s.len(),
    ensures
        match r {
            Some((vs, j)) => i < j <= s.len() && parse_items(s@.skip(i as int)) == Some(
                (json_seq_view(vs@), s@.skip(j as int)),
            ),
            None => parse_items(s@.skip(i as int)) is None,
        },
    decreases s.len() - i, 1int,
{
    match p_value(s, i) {
        Some((v, j)) => {
            let k = ws_end(s, j);
            proof {
                if k < s.len() {
                    assert(s@.skip(k as int).first() == s@[k as int]);
                }
            }
            if k < s.len() && s[k] == ']' {
                let mut vs: Vec<Json> = Vec::new();
                let ghost vg = v;
                vs.push(v);
                proof {
                    assert(s@.skip(k as int).drop_first() =~= s@.skip(k + 1));
                    assert(vs@ =~= seq![vg]);
                    assert(seq![vg].drop_last() =~= Seq::<Json>::empty());
                    assert(seq![vg].last() == vg);
                    assert(json_seq_view(Seq::<Json>::empty()) == Seq::<JsonV>::empty());
                    assert(json_seq_view(seq![vg]) =~= seq![json_view(vg)]);
                }
                Some((vs, k + 1))
            } else if k < s.len() && s[k] == ',' {
                proof {
                    assert(s@.skip(k as int).drop_first() =~= s@.skip(k + 1));
                }
                match p_items(s, k + 1) {
                    Some((mut vs2, j2)) => {
                        let ghost vs0 = vs2@;
                        let ghost vg = v;
                        vs2.insert(0, v);
                        proof {
                            assert(vs0.insert(0, vg) =~= seq![vg] + vs0);
                            lemma_json_seq_view_cons(vg, vs0);
                        }
                        Some((vs2, j2))
                    },
                    None => None,
                }
            } else {
                None
            }
        },
        None => None,
    }
}

/// Parses the members of a nonempty object starting at index `i`, the
/// opening brace already consumed.
#[verifier::rlimit(100)]
fn p_members(s: &Vec<char>, i: usize) -> (r: Option<(Vec<(String, Json)>, usize)>)
    requires
        i <= s.len(),
    ensures
        match r {
            Some((ms, j)) => i < j <= s.len() && parse_members(s@.skip(i as int)) == Some(
                (json_obj_view(ms@), s@.skip(j as int)),
            ),
            None => parse_members(s@.skip(i as int)) is None,
        },
    decreases s.len() - i, 1int,
{
    let j0 = ws_end(s, i);
    if j0 == s.len() {
        return None;
    }
    proof {
        assert(s@.skip(j0 as int).first() == s@[j0 as int]);
    }
    if s[j0] != '"' {
        return None;
    }
    proof {
        assert(s@.skip(j0 as int).drop_first() =~= s@.skip(j0 + 1));
    }
    match p_str_body(s, j0 + 1) {
        Some((key, j1)) => {
            let j2 = ws_end(s, j1);
            proof {
                if j2 < s.len() {
                    assert(s@.skip(j2 as int).first() == s@[j2 as int]);
                }
            }
            if j2 < s.len() && s[j2] == ':' {
                proof {
                    assert(s@.skip(j2 as int).drop_first() =~= s@.skip(j2 + 1));
                }
                match p_value(s, j2 + 1) {
                    Some((v, j3)) => {
                        let j4 = ws_end(s, j3);
                        proof {
                            if j4 < s.len() {
                                assert(s@.skip(j4 as int).first() == s@[j4 as int]);
                            }
                        }
                        if j4 < s.len() && s[j4] == '}' {
                            let ghost mg = (key, v);
                            let mut ms: Vec<(String, Json)> = Vec::new();
                            ms.push((key, v));
                            proof {
                                assert(s@.skip(j4 as int).drop_first() =~= s@.skip(j4 + 1));
                                assert(ms@ =~= seq![mg]);
                                assert(seq![mg].drop_last() =~= Seq::<(String, Json)>::empty());
                                assert(seq![mg].last() == mg);
                                assert(json_obj_view(Seq::<(String, Json)>::empty())
                                    == Seq::<(Seq<char>, JsonV)>::empty());
                                assert(json_obj_view(seq![mg]) =~= seq![
                                    (mg.0@, json_view(mg.1)),
                                ]);
                            }
                            Some((ms, j4 + 1))
                        } else if j4 < s.len() && s[j4] == ',' {
                            proof {
                                assert(s@.skip(j4 as int).drop_first() =~= s@.skip(j4 + 1));
                            }
                            match p_members(s, j4 + 1) {
                                Some((mut ms2, j5)) => {
                                    let ghost ms0 = ms2@;
                                    let ghost mg = (key, v);
                                    ms2.insert(0, (key, v));
                                    proof {
                                        assert(ms0.insert(0, mg) =~= seq![mg] + ms0);
                                        lemma_json_obj_view_cons(mg, ms0);
                                    }
                                    Some((ms2, j5))
                                },
                                None => None,
                            }
                        } else {
                            None
                        }
                    },
                    None => None,
                }
            } else {
                None
            }
        },
        None => None,
    }
}

impl Json {
    /// Parses one complete JSON document from text.
    pub fn from_text(s: &str) -> (r: Option<Json>)
        ensures
            match r {
                Some(j) => parse_json(s@) == Some(j@),
                None => parse_json(s@) is None,
            },
    {
        let cs = str_chars(s);
        proof {
            assert(cs@.skip(0) =~= cs@);
        }
        match p_value(&cs, 0) {
            Some((v, j)) => {
                let k = ws_end(&cs, j);
                if k == cs.len() {
                    Some(v)
                } else {
                    None
                }
            },
            None => None,
        }
    }
}

} // verus!
