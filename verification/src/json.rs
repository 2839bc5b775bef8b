//! The JSON document model used on the wire, with its canonical text form.
//!
//! Every message of the protocol is one JSON document per datagram, so the
//! library models documents as a tree of plain values and owns the mapping
//! between trees and text.  A number the protocol itself produces is a
//! signed 64-bit integer; any other JSON number that arrives (a fraction,
//! an exponent, an integer out of range) is carried as its literal text
//! and written back verbatim, since the engine never computes on it.

use crate::text::push_char;
use crate::text::str_chars;
use vstd::prelude::*;
use vstd::string::StringExecFns;
use vstd::string::StringSliceAdditionalSpecFns;

verus! {

broadcast use vstd::std_specs::vec::group_vec_axioms, vstd::seq::group_seq_axioms;

/// A JSON document: the executable tree.  `Num` holds the literal text of
/// a number that is not a signed 64-bit integer; it is preserved verbatim.
#[derive(Debug)]
pub enum Json {
    Null,
    Bool(bool),
    Int(i64),
    Num(String),
    Str(String),
    Arr(Vec<Json>),
    Obj(Vec<(String, Json)>),
}

/// The mathematical model of a JSON document.
pub enum JsonV {
    Null,
    Bool(bool),
    Int(int),
    Num(Seq<char>),
    Str(Seq<char>),
    Arr(Seq<JsonV>),
    Obj(Seq<(Seq<char>, JsonV)>),
}

pub open spec fn json_view(j: Json) -> JsonV
    decreases j,
{
    match j {
        Json::Null => JsonV::Null,
        Json::Bool(b) => JsonV::Bool(b),
        Json::Int(i) => JsonV::Int(i as int),
        Json::Num(s) => JsonV::Num(s@),
        Json::Str(s) => JsonV::Str(s@),
        Json::Arr(items) => JsonV::Arr(json_seq_view(items@)),
        Json::Obj(members) => JsonV::Obj(json_obj_view(members@)),
    }
}

pub open spec fn json_seq_view(items: Seq<Json>) -> Seq<JsonV>
    decreases items,
{
    if items.len() == 0 {
        Seq::empty()
    } else {
        json_seq_view(items.drop_last()).push(json_view(items.last()))
    }
}

pub open spec fn json_obj_view(members: Seq<(String, Json)>) -> Seq<(Seq<char>, JsonV)>
    decreases members,
{
    if members.len() == 0 {
        Seq::empty()
    } else {
        json_obj_view(members.drop_last()).push(
            (members.last().0@, json_view(members.last().1)),
        )
    }
}

impl View for Json {
    type V = JsonV;

    open spec fn view(&self) -> JsonV {
        json_view(*self)
    }
}

/// The sixteen lowercase hexadecimal digits.
pub open spec fn hex_char(d: int) -> char {
    if d == 0 { '0' } else if d == 1 { '1' } else if d == 2 { '2' } else if d == 3 { '3' }
    else if d == 4 { '4' } else if d == 5 { '5' } else if d == 6 { '6' } else if d == 7 { '7' }
    else if d == 8 { '8' } else if d == 9 { '9' } else if d == 10 { 'a' } else if d == 11 { 'b' }
    else if d == 12 { 'c' } else if d == 13 { 'd' } else if d == 14 { 'e' } else { 'f' }
}

/// How one character appears inside a JSON string literal: the quote and the
/// backslash take a two-character escape, control characters take their named
/// escape or the six-character `\u00..` form, and every other character
/// stands as itself.
pub open spec fn esc_char(c: char) -> Seq<char> {
    if c == '"' {
        seq!['\\', '"']
    } else if c == '\\' {
        seq!['\\', '\\']
    } else if c == '\u{8}' {
        seq!['\\', 'b']
    } else if c == '\t' {
        seq!['\\', 't']
    } else if c == '\n' {
        seq!['\\', 'n']
    } else if c == '\u{c}' {
        seq!['\\', 'f']
    } else if c == '\r' {
        seq!['\\', 'r']
    } else if (c as u32) < 0x20 {
        seq!['\\', 'u', '0', '0', hex_char(c as u32 as int / 16), hex_char(c as u32 as int % 16)]
    } else {
        seq![c]
    }
}

/// The body of a JSON string literal: each character escaped in order.
pub open spec fn esc_str(s: Seq<char>) -> Seq<char>
    decreases s,
{
    if s.len() == 0 {
        Seq::empty()
    } else {
        esc_char(s.first()) + esc_str(s.drop_first())
    }
}

/// The decimal digits of a nonnegative integer, most significant first.
pub open spec fn dec_digits(n: int) -> Seq<char>
    recommends
        n >= 0,
    decreases n,
{
    if n < 10 {
        seq![hex_char(n)]
    } else {
        dec_digits(n / 10) + seq![hex_char(n % 10)]
    }
}

/// The canonical text of an integer: a minus sign for negative values,
/// then decimal digits without leading zeros.
pub open spec fn int_text(n: int) -> Seq<char> {
    if n < 0 {
        seq!['-'] + dec_digits(-n)
    } else {
        dec_digits(n)
    }
}

/// The canonical (compact, no whitespace) text of a JSON document.
pub open spec fn json_text(j: JsonV) -> Seq<char>
    decreases j,
{
    match j {
        JsonV::Null => seq!['n', 'u', 'l', 'l'],
        JsonV::Bool(b) => if b {
            seq!['t', 'r', 'u', 'e']
        } else {
            seq!['f', 'a', 'l', 's', 'e']
        },
        JsonV::Int(n) => int_text(n),
        JsonV::Num(s) => s,
        JsonV::Str(s) => seq!['"'] + esc_str(s) + seq!['"'],
        JsonV::Arr(items) => if items.len() == 0 {
            seq!['[', ']']
        } else {
            seq!['['] + items_text(items) + seq![']']
        },
        JsonV::Obj(members) => if members.len() == 0 {
            seq!['{', '}']
        } else {
            seq!['{'] + members_text(members) + seq!['}']
        },
    }
}

/// The comma-separated texts of the elements of a nonempty array.
pub open spec fn items_text(items: Seq<JsonV>) -> Seq<char>
    recommends
        items.len() > 0,
    decreases items,
{
    if items.len() == 0 {
        Seq::empty()
    } else if items.len() == 1 {
        json_text(items.first())
    } else {
        json_text(items.first()) + seq![','] + items_text(items.drop_first())
    }
}

/// The text of one object member: quoted key, colon, value.
pub open spec fn member_text(m: (Seq<char>, JsonV)) -> Seq<char>
    decreases m,
{
    seq!['"'] + esc_str(m.0) + seq!['"', ':'] + json_text(m.1)
}

/// The comma-separated texts of the members of a nonempty object.
pub open spec fn members_text(members: Seq<(Seq<char>, JsonV)>) -> Seq<char>
    recommends
        members.len() > 0,
    decreases members,
{
    if members.len() == 0 {
        Seq::empty()
    } else if members.len() == 1 {
        member_text(members.first())
    } else {
        member_text(members.first()) + seq![','] + members_text(members.drop_first())
    }
}

pub proof fn lemma_json_seq_view_len(items: Seq<Json>)
    ensures
        json_seq_view(items).len() == items.len(),
    decreases items,
{
    if items.len() > 0 {
        lemma_json_seq_view_len(items.drop_last());
    }
}

pub proof fn lemma_json_obj_view_len(members: Seq<(String, Json)>)
    ensures
        json_obj_view(members).len() == members.len(),
    decreases members,
{
    if members.len() > 0 {
        lemma_json_obj_view_len(members.drop_last());
    }
}

pub proof fn lemma_json_seq_view_cons(v: Json, t: Seq<Json>)
    ensures
        json_seq_view(seq![v] + t) == seq![json_view(v)] + json_seq_view(t),
    decreases t,
{
    if t.len() == 0 {
        assert(seq![v] + t =~= seq![v]);
        assert(seq![v].drop_last() =~= Seq::<Json>::empty());
        assert(seq![v].last() == v);
        assert(json_seq_view(Seq::<Json>::empty()) == Seq::<JsonV>::empty());
        assert(json_seq_view(seq![v] + t) =~= seq![json_view(v)] + json_seq_view(t));
    } else {
        assert((seq![v] + t).drop_last() =~= seq![v] + t.drop_last());
        assert((seq![v] + t).last() == t.last());
        lemma_json_seq_view_cons(v, t.drop_last());
        assert(json_seq_view(t) == json_seq_view(t.drop_last()).push(json_view(t.last())));
        assert(json_seq_view(seq![v] + t) =~= seq![json_view(v)] + json_seq_view(t));
    }
}

pub proof fn lemma_json_obj_view_cons(m: (String, Json), t: Seq<(String, Json)>)
    ensures
        json_obj_view(seq![m] + t) == seq![(m.0@, json_view(m.1))] + json_obj_view(t),
    decreases t,
{
    if t.len() == 0 {
        assert(seq![m] + t =~= seq![m]);
        assert(seq![m].drop_last() =~= Seq::<(String, Json)>::empty());
        assert(seq![m].last() == m);
        assert(json_obj_view(Seq::<(String, Json)>::empty()) == Seq::<(Seq<char>, JsonV)>::empty());
        assert(json_obj_view(seq![m] + t) =~= seq![(m.0@, json_view(m.1))] + json_obj_view(t));
    } else {
        assert((seq![m] + t).drop_last() =~= seq![m] + t.drop_last());
        assert((seq![m] + t).last() == t.last());
        lemma_json_obj_view_cons(m, t.drop_last());
        assert(json_obj_view(t) == json_obj_view(t.drop_last()).push((t.last().0@, json_view(t.last().1))));
        assert(json_obj_view(seq![m] + t) =~= seq![(m.0@, json_view(m.1))] + json_obj_view(t));
    }
}

proof fn lemma_json_seq_view_take_step(items: Seq<Json>, i: int)
    requires
        0 <= i < items.len(),
    ensures
        json_seq_view(items.take(i + 1)) == json_seq_view(items.take(i)).push(
            json_view(items[i]),
        ),
{
    assert(items.take(i + 1).drop_last() =~= items.take(i));
    assert(items.take(i + 1).last() == items[i]);
}

proof fn lemma_json_obj_view_take_step(members: Seq<(String, Json)>, i: int)
    requires
        0 <= i < members.len(),
    ensures
        json_obj_view(members.take(i + 1)) == json_obj_view(members.take(i)).push(
            (members[i].0@, json_view(members[i].1)),
        ),
{
    assert(members.take(i + 1).drop_last() =~= members.take(i));
    assert(members.take(i + 1).last() == members[i]);
}

proof fn lemma_items_text_push(es: Seq<JsonV>, v: JsonV)
    requires
        es.len() >= 1,
    ensures
        items_text(es.push(v)) == items_text(es) + seq![','] + json_text(v),
    decreases es,
{
    if es.len() == 1 {
        assert(es.push(v).drop_first() =~= seq![v]);
        assert(items_text(seq![v]) == json_text(v));
        assert(items_text(es.push(v)) =~= items_text(es) + seq![','] + json_text(v));
    } else {
        assert(es.push(v).drop_first() =~= es.drop_first().push(v));
        lemma_items_text_push(es.drop_first(), v);
        assert(items_text(es.push(v)) =~= items_text(es) + seq![','] + json_text(v));
    }
}

proof fn lemma_members_text_push(ms: Seq<(Seq<char>, JsonV)>, m: (Seq<char>, JsonV))
    requires
        ms.len() >= 1,
    ensures
        members_text(ms.push(m)) == members_text(ms) + seq![','] + member_text(m),
    decreases ms,
{
    if ms.len() == 1 {
        assert(ms.push(m).drop_first() =~= seq![m]);
        assert(members_text(seq![m]) == member_text(m));
        assert(members_text(ms.push(m)) =~= members_text(ms) + seq![','] + member_text(m));
    } else {
        assert(ms.push(m).drop_first() =~= ms.drop_first().push(m));
        lemma_members_text_push(ms.drop_first(), m);
        assert(members_text(ms.push(m)) =~= members_text(ms) + seq![','] + member_text(m));
    }
}

proof fn lemma_esc_str_push(s: Seq<char>, c: char)
    ensures
        esc_str(s.push(c)) == esc_str(s) + esc_char(c),
    decreases s,
{
    if s.len() == 0 {
        assert(s.push(c).drop_first() =~= Seq::<char>::empty());
        assert(s.push(c).first() == c);
        assert(esc_str(s) == Seq::<char>::empty());
        assert(esc_str(s.push(c)) == esc_char(c) + esc_str(s.push(c).drop_first()));
        assert(esc_str(s.push(c).drop_first()) == Seq::<char>::empty());
        assert(esc_char(c) + Seq::<char>::empty() =~= esc_char(c));
        assert(Seq::<char>::empty() + esc_char(c) =~= esc_char(c));
        assert(esc_str(s.push(c)) =~= esc_str(s) + esc_char(c));
    } else {
        assert(s.push(c).drop_first() =~= s.drop_first().push(c));
        lemma_esc_str_push(s.drop_first(), c);
        assert(esc_str(s.push(c)) =~= esc_str(s) + esc_char(c));
    }
}

fn hex_char_exec(d: u8) -> (c: char)
    requires
        d < 16,
    ensures
        c == hex_char(d as int),
{
    if d == 0 { '0' } else if d == 1 { '1' } else if d == 2 { '2' } else if d == 3 { '3' }
    else if d == 4 { '4' } else if d == 5 { '5' } else if d == 6 { '6' } else if d == 7 { '7' }
    else if d == 8 { '8' } else if d == 9 { '9' } else if d == 10 { 'a' } else if d == 11 { 'b' }
    else if d == 12 { 'c' } else if d == 13 { 'd' } else if d == 14 { 'e' } else { 'f' }
}

fn push_esc_char(c: char, out: &mut String)
    ensures
        final(out)@ == old(out)@ + esc_char(c),
{
    if c == '"' {
        push_char(out, '\\');
        push_char(out, '"');
        assert(out@ =~= old(out)@ + esc_char(c));
    } else if c == '\\' {
        push_char(out, '\\');
        push_char(out, '\\');
        assert(out@ =~= old(out)@ + esc_char(c));
    } else if c == '\u{8}' {
        push_char(out, '\\');
        push_char(out, 'b');
        assert(out@ =~= old(out)@ + esc_char(c));
    } else if c == '\t' {
        push_char(out, '\\');
        push_char(out, 't');
        assert(out@ =~= old(out)@ + esc_char(c));
    } else if c == '\n' {
        push_char(out, '\\');
        push_char(out, 'n');
        assert(out@ =~= old(out)@ + esc_char(c));
    } else if c == '\u{c}' {
        push_char(out, '\\');
        push_char(out, 'f');
        assert(out@ =~= old(out)@ + esc_char(c));
    } else if c == '\r' {
        push_char(out, '\\');
        push_char(out, 'r');
        assert(out@ =~= old(out)@ + esc_char(c));
    } else {
        let u = c as u32;
        if u < 0x20 {
            push_char(out, '\\');
            push_char(out, 'u');
            push_char(out, '0');
            push_char(out, '0');
            push_char(out, hex_char_exec((u / 16) as u8));
            push_char(out, hex_char_exec((u % 16) as u8));
            assert(out@ =~= old(out)@ + esc_char(c));
        } else {
            push_char(out, c);
            assert(out@ =~= old(out)@ + esc_char(c));
        }
    }
}

fn write_str_body(s: &str, out: &mut String)
    ensures
        final(out)@ == old(out)@ + esc_str(s@),
{
    let cs = str_chars(s);
    let ghost base = out@;
    let mut i: usize = 0;
    while i < cs.len()
        invariant
            i <= cs.len(),
            cs@ == s@,
            out@ == base + esc_str(cs@.take(i as int)),
        decreases cs.len() - i,
    {
        push_esc_char(cs[i], out);
        proof {
            assert(cs@.take(i + 1) =~= cs@.take(i as int).push(cs@[i as int]));
            lemma_esc_str_push(cs@.take(i as int), cs@[i as int]);
        }
        i += 1;
    }
    proof {
        assert(cs@.take(cs@.len() as int) =~= cs@);
    }
}

fn write_digits(n: u64, out: &mut String)
    ensures
        final(out)@ == old(out)@ + dec_digits(n as int),
    decreases n,
{
    if n >= 10 {
        write_digits(n / 10, out);
    }
    push_char(out, hex_char_exec((n % 10) as u8));
    assert(out@ =~= old(out)@ + dec_digits(n as int));
}

fn write_int(n: i64, out: &mut String)
    ensures
        final(out)@ == old(out)@ + int_text(n as int),
{
    if n < 0 {
        push_char(out, '-');
        let m: u64 = (-(n as i128)) as u64;
        assert(m as int == -(n as int));
        write_digits(m, out);
        assert(out@ =~= old(out)@ + int_text(n as int));
    } else {
        write_digits(n as u64, out);
    }
}

/// Appends the canonical JSON text of `j` to `out`.
pub fn write_json(j: &Json, out: &mut String)
    ensures
        final(out)@ == old(out)@ + json_text(j@),
    decreases j,
{
    match j {
        Json::Null => {
            push_char(out, 'n');
            push_char(out, 'u');
            push_char(out, 'l');
            push_char(out, 'l');
            assert(out@ =~= old(out)@ + json_text(j@));
        },
        Json::Bool(b) => {
            if *b {
                push_char(out, 't');
                push_char(out, 'r');
                push_char(out, 'u');
                push_char(out, 'e');
            } else {
                push_char(out, 'f');
                push_char(out, 'a');
                push_char(out, 'l');
                push_char(out, 's');
                push_char(out, 'e');
            }
            assert(out@ =~= old(out)@ + json_text(j@));
        },
        Json::Int(n) => {
            write_int(*n, out);
        },
        Json::Num(s) => {
            out.append(s.as_str());
        },
        Json::Str(s) => {
            push_char(out, '"');
            write_str_body(s.as_str(), out);
            push_char(out, '"');
            assert(out@ =~= old(out)@ + json_text(j@));
        },
        Json::Arr(items) => {
            push_char(out, '[');
            let ghost base = out@;
            let mut i: usize = 0;
            while i < items.len()
                invariant
                    i <= items.len(),
                    *j == Json::Arr(*items),
                    out@ == base + items_text(json_seq_view(items@.take(i as int))),
                decreases items.len() - i,
            {
                if i > 0 {
                    push_char(out, ',');
                }
                proof {
                    assert(decreases_to!(*j => j->Arr_0));
                    assert(j->Arr_0 == *items);
                    assert(decreases_to!(*items => items@[i as int]));
                }
                write_json(&items[i], out);
                proof {
                    lemma_json_seq_view_len(items@.take(i as int));
                    assert(items@.take(i + 1) =~= items@.take(i as int).push(
                        items@[i as int],
                    ));
                    lemma_json_seq_view_take_step(items@, i as int);
                    if i > 0 {
                        lemma_items_text_push(
                            json_seq_view(items@.take(i as int)),
                            json_view(items@[i as int]),
                        );
                        assert(out@ =~= base + items_text(
                            json_seq_view(items@.take(i + 1)),
                        ));
                    } else {
                        let ghost v = json_view(items@[0]);
                        assert(json_seq_view(items@.take(1)) =~= seq![v]);
                        assert(seq![v].first() == v);
                        assert(items_text(seq![v]) == json_text(v));
                        assert(out@ =~= base + items_text(
                            json_seq_view(items@.take(1)),
                        ));
                    }
                }
                i += 1;
            }
            push_char(out, ']');
            proof {
                assert(items@.take(items@.len() as int) =~= items@);
                lemma_json_seq_view_len(items@);
                assert(out@ =~= old(out)@ + json_text(j@));
            }
        },
        Json::Obj(members) => {
            push_char(out, '{');
            let ghost base = out@;
            let mut i: usize = 0;
            while i < members.len()
                invariant
                    i <= members.len(),
                    *j == Json::Obj(*members),
                    out@ == base + members_text(json_obj_view(members@.take(i as int))),
                decreases members.len() - i,
            {
                if i > 0 {
                    push_char(out, ',');
                }
                push_char(out, '"');
                write_str_body(members[i].0.as_str(), out);
                push_char(out, '"');
                push_char(out, ':');
                proof {
                    assert(decreases_to!(*j => j->Obj_0));
                    assert(j->Obj_0 == *members);
                    assert(decreases_to!(*members => members@[i as int]));
                    assert(decreases_to!(members@[i as int] => members@[i as int].1));
                }
                write_json(&members[i].1, out);
                proof {
                    lemma_json_obj_view_len(members@.take(i as int));
                    assert(members@.take(i + 1) =~= members@.take(i as int).push(
                        members@[i as int],
                    ));
                    lemma_json_obj_view_take_step(members@, i as int);
                    let ghost m = (members@[i as int].0@, json_view(members@[i as int].1));
                    if i > 0 {
                        lemma_members_text_push(json_obj_view(members@.take(i as int)), m);
                        assert(out@ =~= base + members_text(
                            json_obj_view(members@.take(i + 1)),
                        ));
                    } else {
                        assert(json_obj_view(members@.take(1)) =~= seq![m]);
                        assert(seq![m].first() == m);
                        assert(members_text(seq![m]) == member_text(m));
                        assert(out@ =~= base + members_text(
                            json_obj_view(members@.take(1)),
                        ));
                    }
                }
                i += 1;
            }
            push_char(out, '}');
            proof {
                assert(members@.take(members@.len() as int) =~= members@);
                lemma_json_obj_view_len(members@);
                assert(out@ =~= old(out)@ + json_text(j@));
            }
        },
    }
}

/// Whether two strings hold the same characters.
pub fn str_eq(a: &str, b: &str) -> (r: bool)
    ensures
        r == (a@ == b@),
{
    let ab = a.as_bytes();
    let bb = b.as_bytes();
    if ab.len() != bb.len() {
        proof {
            if a@ == b@ {
                assert(a.spec_bytes() == b.spec_bytes());
            }
        }
        return false;
    }
    let mut i: usize = 0;
    while i < ab.len()
        invariant
            i <= ab@.len(),
            ab@.len() == bb@.len(),
            forall|m: int| 0 <= m < i ==> ab@[m] == bb@[m],
            ab@ == a.spec_bytes(),
            bb@ == b.spec_bytes(),
        decreases ab@.len() - i,
    {
        if ab[i] != bb[i] {
            proof {
                if a@ == b@ {
                    assert(ab@ == bb@);
                }
            }
            return false;
        }
        i += 1;
    }
    proof {
        assert(ab@ =~= bb@);
        vstd::utf8::encode_utf8_decode_utf8(a@);
        vstd::utf8::encode_utf8_decode_utf8(b@);
    }
    true
}

/// The value under the first binding of a key in an object's member list.
pub open spec fn obj_get(ms: Seq<(Seq<char>, JsonV)>, k: Seq<char>) -> Option<JsonV>
    decreases ms.len(),
{
    if ms.len() == 0 {
        None
    } else if ms.first().0 == k {
        Some(ms.first().1)
    } else {
        obj_get(ms.drop_first(), k)
    }
}

/// The elements of a viewed member list, pointwise.
pub proof fn lemma_json_obj_view_elts(ms: Seq<(String, Json)>)
    ensures
        json_obj_view(ms).len() == ms.len(),
        forall|i: int|
            0 <= i < ms.len() ==> #[trigger] json_obj_view(ms)[i] == (
                ms[i].0@,
                json_view(ms[i].1),
            ),
    decreases ms,
{
    if ms.len() > 0 {
        lemma_json_obj_view_elts(ms.drop_last());
        assert forall|i: int|
            0 <= i < ms.len() implies #[trigger] json_obj_view(ms)[i] == (
            ms[i].0@,
            json_view(ms[i].1),
        ) by {
            if i < ms.len() - 1 {
                assert(ms.drop_last()[i] == ms[i]);
                assert(json_obj_view(ms)[i] == json_obj_view(ms.drop_last())[i]);
            }
        }
    }
}

/// The elements of a viewed element list, pointwise.
pub proof fn lemma_json_seq_view_elts(items: Seq<Json>)
    ensures
        json_seq_view(items).len() == items.len(),
        forall|i: int|
            0 <= i < items.len() ==> #[trigger] json_seq_view(items)[i] == json_view(items[i]),
    decreases items,
{
    if items.len() > 0 {
        lemma_json_seq_view_elts(items.drop_last());
        assert forall|i: int|
            0 <= i < items.len() implies #[trigger] json_seq_view(items)[i] == json_view(
            items[i],
        ) by {
            if i < items.len() - 1 {
                assert(items.drop_last()[i] == items[i]);
                assert(json_seq_view(items)[i] == json_seq_view(items.drop_last())[i]);
            }
        }
    }
}

pub proof fn lemma_json_seq_view_push(s: Seq<Json>, v: Json)
    ensures
        json_seq_view(s.push(v)) == json_seq_view(s).push(json_view(v)),
{
    assert(s.push(v).drop_last() =~= s);
    assert(s.push(v).last() == v);
}

pub proof fn lemma_json_obj_view_push(s: Seq<(String, Json)>, m: (String, Json))
    ensures
        json_obj_view(s.push(m)) == json_obj_view(s).push((m.0@, json_view(m.1))),
{
    assert(s.push(m).drop_last() =~= s);
    assert(s.push(m).last() == m);
}

impl Json {
    /// A deep copy of this document.
    pub fn duplicate(&self) -> (r: Json)
        ensures
            r@ == self@,
        decreases self,
    {
        match self {
            Json::Null => Json::Null,
            Json::Bool(b) => Json::Bool(*b),
            Json::Int(i) => Json::Int(*i),
            Json::Num(s) => Json::Num(s.clone()),
            Json::Str(s) => Json::Str(s.clone()),
            Json::Arr(items) => {
                let mut out: Vec<Json> = Vec::new();
                let mut i: usize = 0;
                while i < items.len()
                    invariant
                        i <= items.len(),
                        *self == Json::Arr(*items),
                        json_seq_view(out@) == json_seq_view(items@.take(i as int)),
                    decreases items.len() - i,
                {
                    proof {
                        assert(decreases_to!(*self => self->Arr_0));
                        assert(self->Arr_0 == *items);
                        assert(decreases_to!(*items => items@[i as int]));
                    }
                    let d = items[i].duplicate();
                    let ghost out0 = out@;
                    out.push(d);
                    proof {
                        lemma_json_seq_view_push(out0, d);
                        assert(items@.take(i + 1) =~= items@.take(i as int).push(
                            items@[i as int],
                        ));
                        lemma_json_seq_view_push(items@.take(i as int), items@[i as int]);
                    }
                    i += 1;
                }
                proof {
                    assert(items@.take(items@.len() as int) =~= items@);
                }
                Json::Arr(out)
            },
            Json::Obj(members) => {
                let mut out: Vec<(String, Json)> = Vec::new();
                let mut i: usize = 0;
                while i < members.len()
                    invariant
                        i <= members.len(),
                        *self == Json::Obj(*members),
                        json_obj_view(out@) == json_obj_view(members@.take(i as int)),
                    decreases members.len() - i,
                {
                    proof {
                        assert(decreases_to!(*self => self->Obj_0));
                        assert(self->Obj_0 == *members);
                        assert(decreases_to!(*members => members@[i as int]));
                        assert(decreases_to!(members@[i as int] => members@[i as int].1));
                    }
                    let k = members[i].0.clone();
                    let d = members[i].1.duplicate();
                    let ghost out0 = out@;
                    out.push((k, d));
                    proof {
                        lemma_json_obj_view_push(out0, (k, d));
                        assert(members@.take(i + 1) =~= members@.take(i as int).push(
                            members@[i as int],
                        ));
                        lemma_json_obj_view_push(members@.take(i as int), members@[i as int]);
                    }
                    i += 1;
                }
                proof {
                    assert(members@.take(members@.len() as int) =~= members@);
                }
                Json::Obj(out)
            },
        }
    }

    /// The value under the first binding of a key among an object's members,
    /// or nothing if this document is not an object or lacks the key.
    pub fn get<'a>(&'a self, key: &str) -> (r: Option<&'a Json>)
        ensures
            match (r, self@) {
                (Some(v), JsonV::Obj(ms)) => obj_get(ms, key@) == Some(v@),
                (None, JsonV::Obj(ms)) => obj_get(ms, key@) is None,
                (Some(v), _) => false,
                (None, _) => !(self@ is Obj),
            },
    {
        match self {
            Json::Obj(members) => {
                proof {
                    lemma_json_obj_view_elts(members@);
                    assert(json_obj_view(members@).skip(0) =~= json_obj_view(members@));
                }
                let mut i: usize = 0;
                while i < members.len()
                    invariant
                        i <= members.len(),
                        *self == Json::Obj(*members),
                        obj_get(json_obj_view(members@), key@) == obj_get(
                            json_obj_view(members@).skip(i as int),
                            key@,
                        ),
                        json_obj_view(members@).len() == members@.len(),
                        forall|m: int|
                            0 <= m < members@.len() ==> #[trigger] json_obj_view(members@)[m]
                                == (members@[m].0@, json_view(members@[m].1)),
                    decreases members.len() - i,
                {
                    let ghost mv = json_obj_view(members@);
                    proof {
                        assert(mv.skip(i as int).first() == mv[i as int]);
                        assert(mv.skip(i as int).drop_first() =~= mv.skip(i + 1));
                    }
                    if str_eq(members[i].0.as_str(), key) {
                        return Some(&members[i].1);
                    }
                    i += 1;
                }
                proof {
                    assert(json_obj_view(members@).skip(members@.len() as int).len() == 0);
                }
                None
            },
            _ => None,
        }
    }
}

impl Json {
    /// The canonical JSON text of this document.
    pub fn to_text(&self) -> (r: String)
        ensures
            r@ == json_text(self@),
    {
        let mut out = String::new();
        write_json(self, &mut out);
        proof {
            assert(Seq::<char>::empty() + json_text(json_view(*self)) =~= json_text(
                json_view(*self),
            ));
        }
        out
    }
}

} // verus!
