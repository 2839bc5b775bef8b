//! The serializer and the parser invert each other: parsing the canonical
//! text of any well-formed document yields that document back, and an
//! announce payload, serialized and deserialized, reproduces the instance
//! name and the service definition field for field.

use crate::json::JsonV;
use crate::json::dec_digits;
use crate::json::esc_char;
use crate::json::esc_str;
use crate::json::hex_char;
use crate::json::int_text;
use crate::json::items_text;
use crate::json::json_text;
use crate::json::member_text;
use crate::json::members_text;
use crate::parse::after_digits;
use crate::parse::digit_val;
use crate::parse::digits_prefix;
use crate::parse::hex_digit_val;
use crate::parse::is_digit;
use crate::parse::is_ws;
use crate::parse::lemma_skip_ws_fixed;
use crate::parse::parse_items;
use crate::parse::parse_json;
use crate::parse::parse_members;
use crate::parse::parse_exp;
use crate::parse::parse_frac;
use crate::parse::parse_number;
use crate::parse::parse_str_body;
use crate::parse::parse_value;
use crate::parse::pow10;
use crate::parse::skip_ws;
use crate::parse::val_of_digits;
use crate::protocol::EventDescriptionV;
use crate::protocol::MethodDescriptionV;
use crate::protocol::MethodParamV;
use crate::protocol::MethodReturnsV;
use crate::protocol::ServiceDefinitionV;
use crate::protocol::ServiceDescriptionV;
use crate::protocol::announce_json;
use crate::protocol::announce_of_json;
use crate::protocol::announce_text;
use crate::protocol::def_json;
use crate::protocol::def_of_json;
use crate::protocol::event_desc_json;
use crate::protocol::event_desc_of_json;
use crate::protocol::events_of_json;
use crate::protocol::method_json;
use crate::protocol::method_of_json;
use crate::protocol::method_param_json;
use crate::protocol::method_param_of_json;
use crate::protocol::method_returns_json;
use crate::protocol::method_returns_of_json;
use crate::protocol::methods_of_json;
use crate::protocol::opt_str_json;
use crate::protocol::opt_str_of;
use crate::protocol::params_of_json;
use crate::protocol::service_desc_json;
use crate::protocol::service_desc_of_json;
use crate::protocol::str_arr_json;
use crate::protocol::strs_of;
use vstd::prelude::*;

verus! {

broadcast use vstd::seq::group_seq_axioms;

/// A document whose every number fits a signed 64-bit integer: the class of
/// documents the serializer and parser agree on (and the only numbers the
/// executable tree can hold).
pub open spec fn wf_json(j: JsonV) -> bool
    decreases j,
{
    match j {
        JsonV::Null => true,
        JsonV::Bool(b) => true,
        JsonV::Int(n) => -0x8000_0000_0000_0000 <= n <= 0x7fff_ffff_ffff_ffff,
        JsonV::Num(t) => false,
        JsonV::Str(t) => true,
        JsonV::Arr(items) => wf_items(items),
        JsonV::Obj(members) => wf_members(members),
    }
}

pub open spec fn wf_items(items: Seq<JsonV>) -> bool
    decreases items,
{
    items.len() == 0 || (wf_items(items.drop_last()) && wf_json(items.last()))
}

pub open spec fn wf_members(members: Seq<(Seq<char>, JsonV)>) -> bool
    decreases members,
{
    members.len() == 0 || (wf_members(members.drop_last()) && wf_json(members.last().1))
}

/// In a well-formed list every element is well-formed.
pub proof fn lemma_wf_items_index(items: Seq<JsonV>, i: int)
    requires
        wf_items(items),
        0 <= i < items.len(),
    ensures
        wf_json(items[i]),
    decreases items,
{
    if i == items.len() - 1 {
        assert(items.last() == items[i]);
    } else {
        assert(items.drop_last()[i] == items[i]);
        lemma_wf_items_index(items.drop_last(), i);
    }
}

/// In a well-formed member list every value is well-formed.
pub proof fn lemma_wf_members_index(members: Seq<(Seq<char>, JsonV)>, i: int)
    requires
        wf_members(members),
        0 <= i < members.len(),
    ensures
        wf_json(members[i].1),
    decreases members,
{
    if i == members.len() - 1 {
        assert(members.last() == members[i]);
    } else {
        assert(members.drop_last()[i] == members[i]);
        lemma_wf_members_index(members.drop_last(), i);
    }
}

/// A well-formed list stays well-formed when its first element is removed.
proof fn lemma_wf_items_drop_first(items: Seq<JsonV>)
    requires
        wf_items(items),
        items.len() >= 1,
    ensures
        wf_items(items.drop_first()),
    decreases items,
{
    if items.len() > 1 {
        assert(items.drop_first().drop_last() =~= items.drop_last().drop_first());
        assert(items.drop_first().last() == items.last());
        lemma_wf_items_drop_first(items.drop_last());
    } else {
        assert(items.drop_first().len() == 0);
    }
}

proof fn lemma_wf_members_drop_first(members: Seq<(Seq<char>, JsonV)>)
    requires
        wf_members(members),
        members.len() >= 1,
    ensures
        wf_members(members.drop_first()),
    decreases members,
{
    if members.len() > 1 {
        assert(members.drop_first().drop_last() =~= members.drop_last().drop_first());
        assert(members.drop_first().last() == members.last());
        lemma_wf_members_drop_first(members.drop_last());
    } else {
        assert(members.drop_first().len() == 0);
    }
}

/// The digit characters written by the serializer read back as their values.
proof fn lemma_hex_roundtrip(d: int)
    requires
        0 <= d < 16,
    ensures
        hex_digit_val(hex_char(d)) == d,
{
}

/// The decimal digits of a nonnegative integer: nonempty, all digits, and
/// without a leading zero unless the value is zero itself.
proof fn lemma_dec_digits_shape(n: int)
    requires
        n >= 0,
    ensures
        dec_digits(n).len() >= 1,
        forall|m: int| 0 <= m < dec_digits(n).len() ==> is_digit(#[trigger] dec_digits(n)[m]),
        n >= 1 ==> dec_digits(n).first() != '0',
    decreases n,
{
    if n < 10 {
        lemma_hex_roundtrip(n);
        assert(dec_digits(n) == seq![hex_char(n)]);
        assert(dec_digits(n)[0] == hex_char(n));
    } else {
        lemma_dec_digits_shape(n / 10);
        lemma_hex_roundtrip(n % 10);
        let d = dec_digits(n);
        let d1 = dec_digits(n / 10);
        assert(d == d1 + seq![hex_char(n % 10)]);
        assert forall|m: int| 0 <= m < d.len() implies is_digit(#[trigger] d[m]) by {
            if m < d1.len() {
                assert(d[m] == d1[m]);
            } else {
                assert(d[m] == hex_char(n % 10));
            }
        }
        assert(d.first() == d1.first());
    }
}

/// A value below ten to the `k` takes at most `k` digits.
proof fn lemma_dec_digits_len(n: int, k: int)
    requires
        0 <= n < pow10(k),
        1 <= k,
    ensures
        dec_digits(n).len() <= k,
    decreases k,
{
    if n < 10 {
    } else {
        assert(pow10(k) == pow10(k - 1) * 10);
        assert(n / 10 < pow10(k - 1));
        assert(k >= 2) by {
            if k == 1 {
                assert(pow10(1) == 10);
            }
        }
        lemma_dec_digits_len(n / 10, k - 1);
    }
}

/// Reading the decimal digits of a value gives the value back.
proof fn lemma_val_of_dec_digits(n: int)
    requires
        n >= 0,
    ensures
        val_of_digits(dec_digits(n)) == n,
    decreases n,
{
    if n < 10 {
        lemma_hex_roundtrip(n);
        assert(dec_digits(n) == seq![hex_char(n)]);
        assert(seq![hex_char(n)].drop_last() =~= Seq::<char>::empty());
        assert(seq![hex_char(n)].last() == hex_char(n));
        assert(val_of_digits(Seq::<char>::empty()) == 0);
        assert(is_digit(hex_char(n)));
        assert(digit_val(hex_char(n)) == n);
    } else {
        lemma_val_of_dec_digits(n / 10);
        lemma_hex_roundtrip(n % 10);
        let d1 = dec_digits(n / 10);
        let c = hex_char(n % 10);
        assert((d1 + seq![c]).drop_last() =~= d1);
        assert((d1 + seq![c]).last() == c);
        assert(is_digit(c));
        assert(digit_val(c) == n % 10);
        assert(val_of_digits(d1 + seq![c]) == n / 10 * 10 + n % 10);
    }
}

/// A digit run followed by a non-digit splits exactly there.
proof fn lemma_digits_prefix_of(d: Seq<char>, rest: Seq<char>)
    requires
        forall|m: int| 0 <= m < d.len() ==> is_digit(#[trigger] d[m]),
        rest.len() == 0 || !is_digit(rest.first()),
    ensures
        digits_prefix(d + rest) == d,
        after_digits(d + rest) == rest,
    decreases d.len(),
{
    if d.len() == 0 {
        assert(d + rest =~= rest);
    } else {
        assert((d + rest).first() == d[0]);
        assert((d + rest).drop_first() =~= d.drop_first() + rest);
        assert forall|m: int| 0 <= m < d.drop_first().len() implies is_digit(
            #[trigger] d.drop_first()[m],
        ) by {
            assert(d.drop_first()[m] == d[m + 1]);
        }
        lemma_digits_prefix_of(d.drop_first(), rest);
        assert(digits_prefix(d + rest) =~= d);
    }
}

/// A remainder that cannot extend a number token: it does not begin with a
/// digit, a decimal point, or an exponent letter.
pub open spec fn safe_boundary(rest: Seq<char>) -> bool {
    rest.len() == 0 || !(is_digit(rest.first()) || rest.first() == '.' || rest.first() == 'e'
        || rest.first() == 'E')
}

/// Parsing the canonical text of an integer yields the integer.
proof fn lemma_parse_number_int(n: int, rest: Seq<char>)
    requires
        -0x8000_0000_0000_0000 <= n <= 0x7fff_ffff_ffff_ffff,
        safe_boundary(rest),
    ensures
        parse_number(int_text(n) + rest) == Some((JsonV::Int(n), rest)),
{
    assert(pow10(19) == 10_000_000_000_000_000_000int) by {
        reveal_with_fuel(pow10, 21);
    }
    if n < 0 {
        let a = -n;
        lemma_dec_digits_shape(a);
        lemma_dec_digits_len(a, 19);
        lemma_val_of_dec_digits(a);
        let s = int_text(n) + rest;
        assert(s.first() == '-');
        assert(!is_digit('-'));
        assert(s.drop_first() =~= dec_digits(a) + rest);
        lemma_digits_prefix_of(dec_digits(a), rest);
        assert(parse_frac(rest) == Some((Seq::<char>::empty(), rest)));
        assert(parse_exp(rest) == Some((Seq::<char>::empty(), rest)));
    } else {
        lemma_dec_digits_shape(n);
        lemma_dec_digits_len(n, 19);
        lemma_val_of_dec_digits(n);
        let s = int_text(n) + rest;
        assert(s.first() == dec_digits(n).first());
        assert(is_digit(s.first()));
        assert(s.first() != '-');
        assert(s =~= dec_digits(n) + rest);
        lemma_digits_prefix_of(dec_digits(n), rest);
        assert(parse_frac(rest) == Some((Seq::<char>::empty(), rest)));
        assert(parse_exp(rest) == Some((Seq::<char>::empty(), rest)));
    }
}

/// Parsing an escaped string body up to its closing quote yields the
/// original characters.
#[verifier::rlimit(100)]
proof fn lemma_esc_str_parse(t: Seq<char>, rest: Seq<char>)
    ensures
        parse_str_body(esc_str(t) + seq!['"'] + rest) == Some((t, rest)),
    decreases t.len(),
{
    let s = esc_str(t) + seq!['"'] + rest;
    if t.len() == 0 {
        assert(esc_str(t) == Seq::<char>::empty());
        assert(s =~= seq!['"'] + rest);
        assert(s.first() == '"');
        assert(s.drop_first() =~= rest);
    } else {
        let c0 = t.first();
        let e = esc_char(c0);
        let tail = esc_str(t.drop_first()) + seq!['"'] + rest;
        assert(esc_str(t) == e + esc_str(t.drop_first()));
        assert(s =~= e + tail);
        lemma_esc_str_parse(t.drop_first(), rest);
        assert(seq![c0] + t.drop_first() =~= t);
        if c0 == '"' {
            assert(s.first() == '\\');
            assert(s[1] == '"');
            assert(s.skip(2) =~= tail);
        } else if c0 == '\\' {
            assert(s.first() == '\\');
            assert(s[1] == '\\');
            assert(s.skip(2) =~= tail);
        } else if c0 == '\u{8}' {
            assert(s.first() == '\\');
            assert(s[1] == 'b');
            assert(s.skip(2) =~= tail);
        } else if c0 == '\t' {
            assert(s.first() == '\\');
            assert(s[1] == 't');
            assert(s.skip(2) =~= tail);
        } else if c0 == '\n' {
            assert(s.first() == '\\');
            assert(s[1] == 'n');
            assert(s.skip(2) =~= tail);
        } else if c0 == '\u{c}' {
            assert(s.first() == '\\');
            assert(s[1] == 'f');
            assert(s.skip(2) =~= tail);
        } else if c0 == '\r' {
            assert(s.first() == '\\');
            assert(s[1] == 'r');
            assert(s.skip(2) =~= tail);
        } else if (c0 as u32) < 0x20 {
            let u = c0 as u32;
            assert(s.first() == '\\');
            assert(s[1] == 'u');
            assert(s.len() >= 6);
            assert(s[2] == '0');
            assert(s[3] == '0');
            assert(s[4] == hex_char(u as int / 16));
            assert(s[5] == hex_char(u as int % 16));
            lemma_hex_roundtrip(u as int / 16);
            lemma_hex_roundtrip(u as int % 16);
            assert(hex_digit_val('0') == 0);
            let h = hex_digit_val(s[2]) * 0x1000 + hex_digit_val(s[3]) * 0x100 + hex_digit_val(
                s[4],
            ) * 0x10 + hex_digit_val(s[5]);
            assert(h == u as int);
            vstd::utf8::char_u32_cast(c0, u);
            assert((h as u32) as char == c0);
            assert(s.skip(6) =~= tail);
        } else {
            assert(s.first() == c0);
            assert(s.drop_first() =~= tail);
        }
    }
}

/// The canonical text of a document is nonempty and starts with a character
/// that is neither whitespace nor a closing delimiter nor a comma nor a
/// digit continuation hazard.
proof fn lemma_json_text_head(j: JsonV)
    requires
        wf_json(j),
    ensures
        json_text(j).len() > 0,
        !is_ws(json_text(j).first()),
        json_text(j).first() != ']',
        json_text(j).first() != '}',
        json_text(j).first() != ',',
{
    match j {
        JsonV::Null => {
            assert(json_text(j).first() == 'n');
        },
        JsonV::Bool(b) => {
            if b {
                assert(json_text(j).first() == 't');
            } else {
                assert(json_text(j).first() == 'f');
            }
        },
        JsonV::Int(n) => {
            if n < 0 {
                assert(json_text(j).first() == '-');
            } else {
                lemma_dec_digits_shape(n);
                assert(json_text(j).first() == dec_digits(n).first());
                assert(is_digit(json_text(j).first()));
            }
        },
        JsonV::Num(t) => {
            assert(false);
        },
        JsonV::Str(t) => {
            assert(json_text(j).first() == '"');
        },
        JsonV::Arr(items) => {
            assert(json_text(j).first() == '[');
        },
        JsonV::Obj(members) => {
            assert(json_text(j).first() == '{');
        },
    }
}

/// Parsing the canonical text of a document, followed by any remainder that
/// cannot extend its final token, yields the document and that remainder.
#[verifier::rlimit(100)]
#[verifier::spinoff_prover]
pub proof fn lemma_parse_canonical(j: JsonV, rest: Seq<char>)
    requires
        wf_json(j),
        safe_boundary(rest),
    ensures
        parse_value(json_text(j) + rest) == Some((j, rest)),
    decreases j, 0int,
{
    let s = json_text(j) + rest;
    lemma_json_text_head(j);
    assert(s.first() == json_text(j).first());
    lemma_skip_ws_fixed(s);
    match j {
        JsonV::Null => {
            assert(s[1] == 'u');
            assert(s[2] == 'l');
            assert(s[3] == 'l');
            assert(s.skip(4) =~= rest);
            assert(parse_value(s) == Some((j, rest)));
        },
        JsonV::Bool(b) => {
            if b {
                assert(s[1] == 'r');
                assert(s[2] == 'u');
                assert(s[3] == 'e');
                assert(s.skip(4) =~= rest);
                assert(parse_value(s) == Some((j, rest)));
            } else {
                assert(s[1] == 'a');
                assert(s[2] == 'l');
                assert(s[3] == 's');
                assert(s[4] == 'e');
                assert(s.skip(5) =~= rest);
                assert(parse_value(s) == Some((j, rest)));
            }
        },
        JsonV::Int(n) => {
            lemma_parse_number_int(n, rest);
            assert(int_text(n) + rest =~= s);
            assert(parse_value(s) == Some((j, rest)));
        },
        JsonV::Num(t) => {
            assert(false);
        },
        JsonV::Str(t) => {
            assert(s.first() == '"');
            assert(s.drop_first() =~= esc_str(t) + seq!['"'] + rest);
            lemma_esc_str_parse(t, rest);
            assert(parse_value(s) == Some((j, rest)));
        },
        JsonV::Arr(items) => {
            assert(s.first() == '[');
            if items.len() == 0 {
                assert(s[1] == ']');
                assert(s.drop_first() =~= seq![']'] + rest);
                lemma_skip_ws_fixed(s.drop_first());
                assert(skip_ws(s.drop_first()).first() == ']');
                assert(skip_ws(s.drop_first()).drop_first() =~= rest);
                assert(items =~= Seq::<JsonV>::empty());
                assert(parse_value(s) == Some((j, rest)));
            } else {
                assert(s.drop_first() =~= items_text(items) + seq![']'] + rest);
                assert(decreases_to!(j => j->Arr_0));
                lemma_items_canonical(items, rest);
                lemma_wf_items_index(items, 0);
                lemma_json_text_head(items.first());
                assert(items_text(items).first() == json_text(items.first()).first());
                let sd = s.drop_first();
                assert(sd.first() == items_text(items).first());
                lemma_skip_ws_fixed(sd);
                assert(parse_value(s) == Some((j, rest)));
            }
        },
        JsonV::Obj(members) => {
            assert(s.first() == '{');
            if members.len() == 0 {
                assert(s[1] == '}');
                assert(s.drop_first() =~= seq!['}'] + rest);
                lemma_skip_ws_fixed(s.drop_first());
                assert(skip_ws(s.drop_first()).first() == '}');
                assert(skip_ws(s.drop_first()).drop_first() =~= rest);
                assert(members =~= Seq::<(Seq<char>, JsonV)>::empty());
                assert(parse_value(s) == Some((j, rest)));
            } else {
                assert(s.drop_first() =~= members_text(members) + seq!['}'] + rest);
                assert(decreases_to!(j => j->Obj_0));
                lemma_members_canonical(members, rest);
                assert(member_text(members.first()).first() == '"');
                assert(members_text(members).first() == '"');
                let sd = s.drop_first();
                assert(sd.first() == '"');
                lemma_skip_ws_fixed(sd);
                assert(parse_value(s) == Some((j, rest)));
            }
        },
    }
}

/// Parsing the serialized elements of a nonempty array, up to the closing
/// bracket, yields those elements.
#[verifier::rlimit(100)]
#[verifier::spinoff_prover]
proof fn lemma_items_canonical(items: Seq<JsonV>, rest: Seq<char>)
    requires
        wf_items(items),
        items.len() >= 1,
    ensures
        parse_items(items_text(items) + seq![']'] + rest) == Some((items, rest)),
    decreases items, 1int,
{
    let s = items_text(items) + seq![']'] + rest;
    assert(decreases_to!(items => items[0]));
    lemma_wf_items_index(items, 0);
    lemma_json_text_head(items.first());
    if items.len() > 1 {
        lemma_wf_items_drop_first(items);
    }
    if items.len() == 1 {
        assert(items_text(items) == json_text(items.first()));
        let r = seq![']'] + rest;
        assert(s =~= json_text(items.first()) + r);
        assert(r.first() == ']');
        assert(safe_boundary(r));
        lemma_parse_canonical(items.first(), r);
        lemma_skip_ws_fixed(r);
        assert(r.drop_first() =~= rest);
        assert(seq![items.first()] =~= items);
    } else {
        assert(items_text(items) == json_text(items.first()) + seq![','] + items_text(
            items.drop_first(),
        ));
        let mid = seq![','] + items_text(items.drop_first()) + seq![']'] + rest;
        assert(s =~= json_text(items.first()) + mid);
        assert(mid.first() == ',');
        assert(safe_boundary(mid));
        lemma_parse_canonical(items.first(), mid);
        lemma_skip_ws_fixed(mid);
        assert(mid.drop_first() =~= items_text(items.drop_first()) + seq![']'] + rest);
        lemma_items_canonical(items.drop_first(), rest);
        assert(seq![items.first()] + items.drop_first() =~= items);
    }
}

/// Parsing the serialized members of a nonempty object, up to the closing
/// brace, yields those members.
#[verifier::rlimit(100)]
#[verifier::spinoff_prover]
proof fn lemma_members_canonical(members: Seq<(Seq<char>, JsonV)>, rest: Seq<char>)
    requires
        wf_members(members),
        members.len() >= 1,
    ensures
        parse_members(members_text(members) + seq!['}'] + rest) == Some((members, rest)),
    decreases members, 1int,
{
    let s = members_text(members) + seq!['}'] + rest;
    let m0 = members.first();
    assert(decreases_to!(members => members[0]));
    assert(decreases_to!(members[0] => members[0].1));
    lemma_wf_members_index(members, 0);
    if members.len() > 1 {
        lemma_wf_members_drop_first(members);
    }
    let after_v: Seq<char> = if members.len() == 1 {
        seq!['}'] + rest
    } else {
        seq![','] + members_text(members.drop_first()) + seq!['}'] + rest
    };
    if members.len() == 1 {
        assert(members_text(members) == member_text(m0));
    } else {
        assert(members_text(members) == member_text(m0) + seq![','] + members_text(
            members.drop_first(),
        ));
    }
    assert(member_text(m0) == seq!['"'] + esc_str(m0.0) + seq!['"', ':'] + json_text(m0.1));
    assert(s =~= seq!['"'] + esc_str(m0.0) + seq!['"', ':'] + json_text(m0.1) + after_v);
    assert(s.first() == '"');
    lemma_skip_ws_fixed(s);
    assert(s.drop_first() =~= esc_str(m0.0) + seq!['"'] + (seq![':'] + json_text(m0.1)
        + after_v));
    lemma_esc_str_parse(m0.0, seq![':'] + json_text(m0.1) + after_v);
    let r = seq![':'] + json_text(m0.1) + after_v;
    assert(r.first() == ':');
    lemma_skip_ws_fixed(r);
    assert(r.drop_first() =~= json_text(m0.1) + after_v);
    assert(after_v.first() == '}' || after_v.first() == ',');
    assert(safe_boundary(after_v));
    lemma_parse_canonical(m0.1, after_v);
    lemma_json_text_head(m0.1);
    lemma_skip_ws_fixed(after_v);
    assert(m0 == (m0.0, m0.1));
    if members.len() == 1 {
        assert(after_v.first() == '}');
        assert(after_v.drop_first() =~= rest);
        assert(seq![m0] =~= members);
    } else {
        assert(after_v.first() == ',');
        assert(after_v.drop_first() =~= members_text(members.drop_first()) + seq!['}'] + rest);
        lemma_members_canonical(members.drop_first(), rest);
        assert(seq![m0] + members.drop_first() =~= members);
    }
}

/// Parsing the canonical text of any document yields the document: the
/// serializer and the parser invert each other.
pub proof fn lemma_json_round_trip(j: JsonV)
    requires
        wf_json(j),
    ensures
        parse_json(json_text(j)) == Some(j),
{
    lemma_parse_canonical(j, Seq::empty());
    assert(json_text(j) + Seq::<char>::empty() =~= json_text(j));
    assert(skip_ws(Seq::<char>::empty()).len() == 0);
}

/// A list whose every element is well-formed is a well-formed list.
proof fn lemma_wf_items_from_index(items: Seq<JsonV>)
    requires
        forall|i: int| 0 <= i < items.len() ==> wf_json(#[trigger] items[i]),
    ensures
        wf_items(items),
    decreases items.len(),
{
    if items.len() > 0 {
        assert forall|i: int| 0 <= i < items.drop_last().len() implies wf_json(
            #[trigger] items.drop_last()[i],
        ) by {
            assert(items.drop_last()[i] == items[i]);
        }
        lemma_wf_items_from_index(items.drop_last());
        assert(wf_json(items.last()));
    }
}

/// A member list whose every value is well-formed is a well-formed list.
proof fn lemma_wf_members_from_index(members: Seq<(Seq<char>, JsonV)>)
    requires
        forall|i: int| 0 <= i < members.len() ==> wf_json(#[trigger] members[i].1),
    ensures
        wf_members(members),
    decreases members.len(),
{
    if members.len() > 0 {
        assert forall|i: int| 0 <= i < members.drop_last().len() implies wf_json(
            #[trigger] members.drop_last()[i].1,
        ) by {
            assert(members.drop_last()[i] == members[i]);
        }
        lemma_wf_members_from_index(members.drop_last());
        assert(wf_json(members.last().1));
    }
}

proof fn lemma_opt_str_json_wf(v: Option<Seq<char>>)
    ensures
        wf_json(opt_str_json(v)),
{
}

proof fn lemma_opt_str_read(v: Option<Seq<char>>)
    ensures
        opt_str_of(opt_str_json(v)) == Some(v),
{
}

proof fn lemma_str_arr_json_wf(xs: Seq<Seq<char>>)
    ensures
        wf_json(str_arr_json(xs)),
{
    let items = xs.map_values(|s: Seq<char>| JsonV::Str(s));
    assert forall|i: int| 0 <= i < items.len() implies wf_json(#[trigger] items[i]) by {
        assert(items[i] == JsonV::Str(xs[i]));
    }
    lemma_wf_items_from_index(items);
}

proof fn lemma_strs_read(xs: Seq<Seq<char>>)
    ensures
        strs_of(str_arr_json(xs)->Arr_0) == Some(xs),
    decreases xs.len(),
{
    let items = xs.map_values(|s: Seq<char>| JsonV::Str(s));
    if xs.len() == 0 {
        assert(xs =~= Seq::<Seq<char>>::empty());
    } else {
        assert(items.drop_last() =~= xs.drop_last().map_values(|s: Seq<char>| JsonV::Str(s)));
        lemma_strs_read(xs.drop_last());
        assert(items.last() == JsonV::Str(xs.last()));
        assert(xs.drop_last().push(xs.last()) =~= xs);
    }
}

proof fn lemma_param_json_wf(p: MethodParamV)
    ensures
        wf_json(method_param_json(p)),
{
    let ms = method_param_json(p)->Obj_0;
    assert forall|i: int| 0 <= i < ms.len() implies wf_json(#[trigger] ms[i].1) by {
        lemma_opt_str_json_wf(p.documentation);
        if i == 0 {
            assert(ms[0].1 == JsonV::Str(p.name));
        } else if i == 1 {
            assert(ms[1].1 == opt_str_json(p.documentation));
        } else if i == 2 {
            assert(ms[2].1 == JsonV::Str(p.param_type));
        } else {
            assert(ms[3].1 == JsonV::Bool(p.optional));
        }
    }
    lemma_wf_members_from_index(ms);
}

proof fn lemma_param_read(p: MethodParamV)
    ensures
        method_param_of_json(method_param_json(p)) == Some(p),
{
    let ms = method_param_json(p)->Obj_0;
    assert(ms[0] == ("name"@, JsonV::Str(p.name)));
    assert(ms[1] == ("documentation"@, opt_str_json(p.documentation)));
    assert(ms[2] == ("type"@, JsonV::Str(p.param_type)));
    assert(ms[3] == ("optional"@, JsonV::Bool(p.optional)));
    lemma_opt_str_read(p.documentation);
    assert(p == (MethodParamV {
        name: p.name,
        documentation: p.documentation,
        param_type: p.param_type,
        optional: p.optional,
    }));
}

proof fn lemma_params_read(ps: Seq<MethodParamV>)
    ensures
        params_of_json(ps.map_values(|p: MethodParamV| method_param_json(p))) == Some(ps),
    decreases ps.len(),
{
    let items = ps.map_values(|p: MethodParamV| method_param_json(p));
    if ps.len() == 0 {
        assert(ps =~= Seq::<MethodParamV>::empty());
    } else {
        assert(items.drop_last() =~= ps.drop_last().map_values(
            |p: MethodParamV| method_param_json(p),
        ));
        lemma_params_read(ps.drop_last());
        assert(items.last() == method_param_json(ps.last()));
        lemma_param_read(ps.last());
        assert(ps.drop_last().push(ps.last()) =~= ps);
    }
}

proof fn lemma_returns_json_wf(r: MethodReturnsV)
    ensures
        wf_json(method_returns_json(r)),
{
    let ms = method_returns_json(r)->Obj_0;
    assert forall|i: int| 0 <= i < ms.len() implies wf_json(#[trigger] ms[i].1) by {
        lemma_opt_str_json_wf(r.documentation);
        lemma_str_arr_json_wf(r.return_type);
        if i == 0 {
            assert(ms[0].1 == opt_str_json(r.documentation));
        } else {
            assert(ms[1].1 == str_arr_json(r.return_type));
        }
    }
    lemma_wf_members_from_index(ms);
}

proof fn lemma_returns_read(r: MethodReturnsV)
    ensures
        method_returns_of_json(method_returns_json(r)) == Some(r),
{
    let ms = method_returns_json(r)->Obj_0;
    assert(ms[0] == ("documentation"@, opt_str_json(r.documentation)));
    assert(ms[1] == ("type"@, str_arr_json(r.return_type)));
    lemma_opt_str_read(r.documentation);
    lemma_strs_read(r.return_type);
    assert(r == (MethodReturnsV {
        documentation: r.documentation,
        return_type: r.return_type,
    }));
}

proof fn lemma_method_json_wf(m: MethodDescriptionV)
    ensures
        wf_json(method_json(m)),
{
    let ms = method_json(m)->Obj_0;
    let items = m.params.map_values(|p: MethodParamV| method_param_json(p));
    assert forall|i: int| 0 <= i < items.len() implies wf_json(#[trigger] items[i]) by {
        assert(items[i] == method_param_json(m.params[i]));
        lemma_param_json_wf(m.params[i]);
    }
    lemma_wf_items_from_index(items);
    assert forall|i: int| 0 <= i < ms.len() implies wf_json(#[trigger] ms[i].1) by {
        lemma_opt_str_json_wf(m.documentation);
        lemma_returns_json_wf(m.returns_desc);
        if i == 0 {
            assert(ms[0].1 == opt_str_json(m.documentation));
        } else if i == 1 {
            assert(ms[1].1 == JsonV::Arr(items));
        } else {
            assert(ms[2].1 == method_returns_json(m.returns_desc));
        }
    }
    lemma_wf_members_from_index(ms);
}

proof fn lemma_method_read(m: MethodDescriptionV)
    ensures
        method_of_json(method_json(m)) == Some(m),
{
    let ms = method_json(m)->Obj_0;
    assert(ms[0] == ("documentation"@, opt_str_json(m.documentation)));
    assert(ms[1] == (
        "params"@,
        JsonV::Arr(m.params.map_values(|p: MethodParamV| method_param_json(p))),
    ));
    assert(ms[2] == ("returns"@, method_returns_json(m.returns_desc)));
    lemma_opt_str_read(m.documentation);
    lemma_params_read(m.params);
    lemma_returns_read(m.returns_desc);
    assert(m == (MethodDescriptionV {
        documentation: m.documentation,
        params: m.params,
        returns_desc: m.returns_desc,
    }));
}

proof fn lemma_event_desc_json_wf(e: EventDescriptionV)
    ensures
        wf_json(event_desc_json(e)),
{
    let ms = event_desc_json(e)->Obj_0;
    assert forall|i: int| 0 <= i < ms.len() implies wf_json(#[trigger] ms[i].1) by {
        lemma_str_arr_json_wf(e.params);
        assert(ms[0].1 == str_arr_json(e.params));
    }
    lemma_wf_members_from_index(ms);
}

proof fn lemma_event_desc_read(e: EventDescriptionV)
    ensures
        event_desc_of_json(event_desc_json(e)) == Some(e),
{
    let ms = event_desc_json(e)->Obj_0;
    assert(ms[0] == ("params"@, str_arr_json(e.params)));
    lemma_strs_read(e.params);
    assert(e == (EventDescriptionV { params: e.params }));
}

proof fn lemma_methods_read(ms: Seq<(Seq<char>, MethodDescriptionV)>)
    ensures
        methods_of_json(
            ms.map_values(|m: (Seq<char>, MethodDescriptionV)| (m.0, method_json(m.1))),
        ) == Some(ms),
    decreases ms.len(),
{
    let mm = ms.map_values(|m: (Seq<char>, MethodDescriptionV)| (m.0, method_json(m.1)));
    if ms.len() == 0 {
        assert(ms =~= Seq::<(Seq<char>, MethodDescriptionV)>::empty());
    } else {
        assert(mm.drop_last() =~= ms.drop_last().map_values(
            |m: (Seq<char>, MethodDescriptionV)| (m.0, method_json(m.1)),
        ));
        lemma_methods_read(ms.drop_last());
        assert(mm.last() == (ms.last().0, method_json(ms.last().1)));
        lemma_method_read(ms.last().1);
        assert(ms.last() == (ms.last().0, ms.last().1));
        assert(ms.drop_last().push(ms.last()) =~= ms);
    }
}

proof fn lemma_events_read(ms: Seq<(Seq<char>, EventDescriptionV)>)
    ensures
        events_of_json(
            ms.map_values(|e: (Seq<char>, EventDescriptionV)| (e.0, event_desc_json(e.1))),
        ) == Some(ms),
    decreases ms.len(),
{
    let em = ms.map_values(|e: (Seq<char>, EventDescriptionV)| (e.0, event_desc_json(e.1)));
    if ms.len() == 0 {
        assert(ms =~= Seq::<(Seq<char>, EventDescriptionV)>::empty());
    } else {
        assert(em.drop_last() =~= ms.drop_last().map_values(
            |e: (Seq<char>, EventDescriptionV)| (e.0, event_desc_json(e.1)),
        ));
        lemma_events_read(ms.drop_last());
        assert(em.last() == (ms.last().0, event_desc_json(ms.last().1)));
        lemma_event_desc_read(ms.last().1);
        assert(ms.last() == (ms.last().0, ms.last().1));
        assert(ms.drop_last().push(ms.last()) =~= ms);
    }
}

proof fn lemma_desc_json_wf(d: ServiceDescriptionV)
    ensures
        wf_json(service_desc_json(d)),
{
    let ms = service_desc_json(d)->Obj_0;
    assert forall|i: int| 0 <= i < ms.len() implies wf_json(#[trigger] ms[i].1) by {
        lemma_opt_str_json_wf(d.description);
        lemma_opt_str_json_wf(d.externalDocumentation);
        lemma_opt_str_json_wf(d.termsOfService);
        lemma_opt_str_json_wf(d.contact);
        lemma_opt_str_json_wf(d.license);
        if i == 0 {
            assert(ms[0].1 == opt_str_json(d.description));
        } else if i == 1 {
            assert(ms[1].1 == opt_str_json(d.externalDocumentation));
        } else if i == 2 {
            assert(ms[2].1 == opt_str_json(d.termsOfService));
        } else if i == 3 {
            assert(ms[3].1 == opt_str_json(d.contact));
        } else if i == 4 {
            assert(ms[4].1 == opt_str_json(d.license));
        } else {
            assert(ms[5].1 == JsonV::Str(d.version));
        }
    }
    lemma_wf_members_from_index(ms);
}

proof fn lemma_desc_read(d: ServiceDescriptionV)
    ensures
        service_desc_of_json(service_desc_json(d)) == Some(d),
{
    let ms = service_desc_json(d)->Obj_0;
    assert(ms[0] == ("description"@, opt_str_json(d.description)));
    assert(ms[1] == ("externalDocumentation"@, opt_str_json(d.externalDocumentation)));
    assert(ms[2] == ("termsOfService"@, opt_str_json(d.termsOfService)));
    assert(ms[3] == ("contact"@, opt_str_json(d.contact)));
    assert(ms[4] == ("license"@, opt_str_json(d.license)));
    assert(ms[5] == ("version"@, JsonV::Str(d.version)));
    lemma_opt_str_read(d.description);
    lemma_opt_str_read(d.externalDocumentation);
    lemma_opt_str_read(d.termsOfService);
    lemma_opt_str_read(d.contact);
    lemma_opt_str_read(d.license);
    assert(d == (ServiceDescriptionV {
        description: d.description,
        externalDocumentation: d.externalDocumentation,
        termsOfService: d.termsOfService,
        contact: d.contact,
        license: d.license,
        version: d.version,
    }));
}

proof fn lemma_def_json_wf(d: ServiceDefinitionV)
    ensures
        wf_json(def_json(d)),
{
    let ms = def_json(d)->Obj_0;
    let mm = d.methods.map_values(|m: (Seq<char>, MethodDescriptionV)| (m.0, method_json(m.1)));
    let em = d.events.map_values(|e: (Seq<char>, EventDescriptionV)| (e.0, event_desc_json(e.1)));
    assert forall|i: int| 0 <= i < mm.len() implies wf_json(#[trigger] mm[i].1) by {
        assert(mm[i] == (d.methods[i].0, method_json(d.methods[i].1)));
        lemma_method_json_wf(d.methods[i].1);
    }
    lemma_wf_members_from_index(mm);
    assert forall|i: int| 0 <= i < em.len() implies wf_json(#[trigger] em[i].1) by {
        assert(em[i] == (d.events[i].0, event_desc_json(d.events[i].1)));
        lemma_event_desc_json_wf(d.events[i].1);
    }
    lemma_wf_members_from_index(em);
    assert forall|i: int| 0 <= i < ms.len() implies wf_json(#[trigger] ms[i].1) by {
        lemma_desc_json_wf(d.description);
        if i == 0 {
            assert(ms[0].1 == JsonV::Str(d.id));
        } else if i == 1 {
            assert(ms[1].1 == JsonV::Obj(mm));
        } else if i == 2 {
            assert(ms[2].1 == JsonV::Obj(em));
        } else {
            assert(ms[3].1 == service_desc_json(d.description));
        }
    }
    lemma_wf_members_from_index(ms);
}

proof fn lemma_def_read(d: ServiceDefinitionV)
    ensures
        def_of_json(def_json(d)) == Some(d),
{
    let ms = def_json(d)->Obj_0;
    let mm = d.methods.map_values(|m: (Seq<char>, MethodDescriptionV)| (m.0, method_json(m.1)));
    let em = d.events.map_values(|e: (Seq<char>, EventDescriptionV)| (e.0, event_desc_json(e.1)));
    assert(ms[0] == ("id"@, JsonV::Str(d.id)));
    assert(ms[1] == ("methods"@, JsonV::Obj(mm)));
    assert(ms[2] == ("events"@, JsonV::Obj(em)));
    assert(ms[3] == ("service"@, service_desc_json(d.description)));
    lemma_methods_read(d.methods);
    lemma_events_read(d.events);
    lemma_desc_read(d.description);
    assert(d == (ServiceDefinitionV {
        id: d.id,
        methods: d.methods,
        events: d.events,
        description: d.description,
    }));
}

/// The announce payload of any name and definition is well-formed.
pub proof fn lemma_announce_json_wf(name: Seq<char>, d: ServiceDefinitionV)
    ensures
        wf_json(announce_json(name, d)),
{
    let ms = announce_json(name, d)->Obj_0;
    assert forall|i: int| 0 <= i < ms.len() implies wf_json(#[trigger] ms[i].1) by {
        lemma_def_json_wf(d);
        assert(ms[0].1 == def_json(d));
    }
    lemma_wf_members_from_index(ms);
}

/// Serializing a service definition for announce and deserializing the
/// text reproduces the original: the text parses back to exactly the
/// announce document, and reading that document gives back the instance
/// name and the definition's methods, events, and description, field for
/// field.
pub proof fn lemma_announce_round_trip(name: Seq<char>, d: ServiceDefinitionV)
    ensures
        parse_json(announce_text(name, d)) == Some(announce_json(name, d)),
        announce_of_json(announce_json(name, d)) == Some((name, d)),
{
    lemma_announce_json_wf(name, d);
    lemma_json_round_trip(announce_json(name, d));
    let ms = announce_json(name, d)->Obj_0;
    assert(ms[0] == (name, def_json(d)));
    lemma_def_read(d);
}

} // verus!
