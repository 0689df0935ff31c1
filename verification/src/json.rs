//! The JSON value model and the text codec for the wire format.
//!
//! Frames travel as JSON text. The crate keeps its own value type so that
//! the framing rules can be stated and proved over a mathematical model:
//! a number is kept as its raw lexeme, so no floating point arithmetic is
//! ever performed, and printing a value reproduces the lexeme verbatim.

use vstd::prelude::*;

verus! {

/// A JSON value. Numbers hold their raw lexeme so that a decoded value
/// prints back to the exact text it came from.
#[derive(Debug, PartialEq, Eq)]
pub enum JsonValue {
    Null,
    Bool(bool),
    /// The raw number lexeme, e.g. `-12.5e3`.
    Num(String),
    Str(String),
    Arr(Vec<JsonValue>),
    /// Members in insertion order; printing preserves the order.
    Obj(Vec<(String, JsonValue)>),
}

/// The mathematical model of a JSON value.
#[verifier::ext_equal]
pub enum Json {
    Null,
    Bool(bool),
    Num(Seq<char>),
    Str(Seq<char>),
    Arr(Seq<Json>),
    Obj(Seq<(Seq<char>, Json)>),
}

/// The model of a value: the same tree over sequences of characters.
pub open spec fn json_view(v: JsonValue) -> Json
    decreases v, 0int,
{
    match v {
        JsonValue::Null => Json::Null,
        JsonValue::Bool(b) => Json::Bool(b),
        JsonValue::Num(s) => Json::Num(s@),
        JsonValue::Str(s) => Json::Str(s@),
        JsonValue::Arr(elems) => Json::Arr(json_view_seq(elems@)),
        JsonValue::Obj(members) => Json::Obj(json_view_members(members@)),
    }
}

pub open spec fn json_view_seq(s: Seq<JsonValue>) -> Seq<Json>
    decreases s, 1int,
{
    if s.len() == 0 {
        Seq::empty()
    } else {
        seq![json_view(s[0])] + json_view_seq(s.drop_first())
    }
}

pub open spec fn json_view_members(s: Seq<(String, JsonValue)>) -> Seq<(Seq<char>, Json)>
    decreases s, 1int,
{
    if s.len() == 0 {
        Seq::empty()
    } else {
        seq![(s[0].0@, json_view(s[0].1))] + json_view_members(s.drop_first())
    }
}

impl View for JsonValue {
    type V = Json;

    open spec fn view(&self) -> Json {
        json_view(*self)
    }
}

/// The element models line up with the elements: `json_view_seq` is the
/// pointwise model of a sequence of values.
pub proof fn lemma_json_view_seq(s: Seq<JsonValue>)
    ensures
        json_view_seq(s).len() == s.len(),
        forall|i: int| 0 <= i < s.len() ==> json_view_seq(s)[i] == json_view(s[i]),
    decreases s.len(),
{
    if s.len() > 0 {
        lemma_json_view_seq(s.drop_first());
    }
}

/// The member models line up with the members: `json_view_members` is the
/// pointwise model of a sequence of key/value pairs.
pub proof fn lemma_json_view_members(s: Seq<(String, JsonValue)>)
    ensures
        json_view_members(s).len() == s.len(),
        forall|i: int| 0 <= i < s.len() ==> json_view_members(s)[i] == (
            s[i].0@,
            json_view(s[i].1),
        ),
    decreases s.len(),
{
    if s.len() > 0 {
        lemma_json_view_members(s.drop_first());
    }
}

impl Clone for JsonValue {
    fn clone(&self) -> (res: Self)
        ensures
            res@ == self@,
        decreases self,
    {
        match self {
            JsonValue::Null => JsonValue::Null,
            JsonValue::Bool(b) => JsonValue::Bool(*b),
            JsonValue::Num(s) => JsonValue::Num(s.clone()),
            JsonValue::Str(s) => JsonValue::Str(s.clone()),
            JsonValue::Arr(elems) => {
                let mut out: Vec<JsonValue> = Vec::new();
                let mut i: usize = 0;
                while i < elems.len()
                    invariant
                        *self == JsonValue::Arr(*elems),
                        i <= elems.len(),
                        out@.len() == i,
                        forall|j: int| 0 <= j < i ==> out@[j]@ == elems@[j]@,
                    decreases elems.len() - i,
                {
                    proof {
                        assert(decreases_to!(*self => self->Arr_0));
                        assert(self->Arr_0 == *elems);
                        assert(decreases_to!(*elems => elems@));
                        assert(decreases_to!(elems@ => elems@[i as int]));
                    }
                    out.push(elems[i].clone());
                    i = i + 1;
                }
                let res = JsonValue::Arr(out);
                proof {
                    lemma_json_view_seq(out@);
                    lemma_json_view_seq(elems@);
                    assert(json_view_seq(out@) =~= json_view_seq(elems@));
                }
                res
            },
            JsonValue::Obj(members) => {
                let mut out: Vec<(String, JsonValue)> = Vec::new();
                let mut i: usize = 0;
                while i < members.len()
                    invariant
                        *self == JsonValue::Obj(*members),
                        i <= members.len(),
                        out@.len() == i,
                        forall|j: int| 0 <= j < i ==> out@[j].0@ == members@[j].0@
                            && out@[j].1@ == members@[j].1@,
                    decreases members.len() - i,
                {
                    proof {
                        assert(decreases_to!(*self => self->Obj_0));
                        assert(self->Obj_0 == *members);
                        assert(decreases_to!(*members => members@));
                        assert(decreases_to!(members@ => members@[i as int]));
                        assert(decreases_to!(members@[i as int] => members@[i as int].1));
                    }
                    let key = members[i].0.clone();
                    let val = members[i].1.clone();
                    out.push((key, val));
                    i = i + 1;
                }
                let res = JsonValue::Obj(out);
                proof {
                    lemma_json_view_members(out@);
                    lemma_json_view_members(members@);
                    assert(json_view_members(out@) =~= json_view_members(members@));
                }
                res
            },
        }
    }
}

// ---------------------------------------------------------------------------
// Character classes
// ---------------------------------------------------------------------------

pub open spec fn is_digit(c: char) -> bool {
    48 <= (c as u32) && (c as u32) <= 57
}

pub open spec fn is_ws(c: char) -> bool {
    c == ' ' || c == '\t' || c == '\n' || c == '\r'
}

/// The characters that may occur in a number lexeme.
pub open spec fn is_num_char(c: char) -> bool {
    is_digit(c) || c == '-' || c == '+' || c == '.' || c == 'e' || c == 'E'
}

/// The lower-case hex digit for a value below 16.
pub open spec fn hex_digit(n: int) -> char {
    if n == 0 { '0' } else if n == 1 { '1' } else if n == 2 { '2' } else if n == 3 { '3' }
    else if n == 4 { '4' } else if n == 5 { '5' } else if n == 6 { '6' } else if n == 7 { '7' }
    else if n == 8 { '8' } else if n == 9 { '9' } else if n == 10 { 'a' } else if n == 11 { 'b' }
    else if n == 12 { 'c' } else if n == 13 { 'd' } else if n == 14 { 'e' } else { 'f' }
}

/// The value of a hex digit, or 16 for any other character.
pub open spec fn hex_value(c: char) -> int {
    if 48 <= (c as u32) && (c as u32) <= 57 {
        (c as u32) - 48
    } else if 97 <= (c as u32) && (c as u32) <= 102 {
        (c as u32) - 87
    } else if 65 <= (c as u32) && (c as u32) <= 70 {
        (c as u32) - 55
    } else {
        16
    }
}

// ---------------------------------------------------------------------------
// The number grammar
// ---------------------------------------------------------------------------

/// The length of the longest run of decimal digits at the head of `s`.
pub open spec fn digits_len(s: Seq<char>) -> int
    decreases s.len(),
{
    if s.len() > 0 && is_digit(s[0]) {
        1 + digits_len(s.drop_first())
    } else {
        0
    }
}

/// The length of the longest run of number characters at the head of `s`.
pub open spec fn num_run(s: Seq<char>) -> int
    decreases s.len(),
{
    if s.len() > 0 && is_num_char(s[0]) {
        1 + num_run(s.drop_first())
    } else {
        0
    }
}

/// What may follow the integer part: an optional fraction, then an
/// optional exponent, then the end of the lexeme.
pub open spec fn number_tail(u: Seq<char>) -> bool {
    if u.len() == 0 {
        true
    } else if u[0] == '.' {
        let fl = digits_len(u.skip(1));
        fl >= 1 && exp_tail(u.skip(1 + fl))
    } else {
        exp_tail(u)
    }
}

/// What may end a lexeme after the fraction: an exponent or nothing.
pub open spec fn exp_tail(u: Seq<char>) -> bool {
    if u.len() == 0 {
        true
    } else if u[0] == 'e' || u[0] == 'E' {
        let v = if u.len() > 1 && (u[1] == '+' || u[1] == '-') {
            u.skip(2)
        } else {
            u.skip(1)
        };
        let el = digits_len(v);
        el >= 1 && v.skip(el).len() == 0
    } else {
        false
    }
}

/// The JSON number grammar: `-? int frac? exp?`, where a leading zero is
/// not followed by further integer digits.
pub open spec fn is_number_lexeme(s: Seq<char>) -> bool {
    let t = if s.len() > 0 && s[0] == '-' {
        s.drop_first()
    } else {
        s
    };
    t.len() > 0 && is_digit(t[0]) && {
        let ilen: int = if t[0] == '0' { 1 } else { digits_len(t) };
        number_tail(t.skip(ilen))
    }
}

// ---------------------------------------------------------------------------
// Printing
// ---------------------------------------------------------------------------

/// How one character is written inside a JSON string.
pub open spec fn esc_char(c: char) -> Seq<char> {
    if c == '"' {
        seq!['\\', '"']
    } else if c == '\\' {
        seq!['\\', '\\']
    } else if c == '\n' {
        seq!['\\', 'n']
    } else if c == '\r' {
        seq!['\\', 'r']
    } else if c == '\t' {
        seq!['\\', 't']
    } else if (c as u32) < 32 {
        seq!['\\', 'u', '0', '0', hex_digit((c as u32) as int / 16), hex_digit((c as u32) as int % 16)]
    } else {
        seq![c]
    }
}

/// How a whole string body is written, character by character.
pub open spec fn esc_string(s: Seq<char>) -> Seq<char>
    decreases s.len(),
{
    if s.len() == 0 {
        Seq::empty()
    } else {
        esc_char(s[0]) + esc_string(s.drop_first())
    }
}

/// The canonical text of a JSON value: no whitespace, object members in
/// their stored order, number lexemes verbatim.
pub open spec fn print_json(j: Json) -> Seq<char>
    decreases j, 0int,
{
    match j {
        Json::Null => seq!['n', 'u', 'l', 'l'],
        Json::Bool(b) => if b {
            seq!['t', 'r', 'u', 'e']
        } else {
            seq!['f', 'a', 'l', 's', 'e']
        },
        Json::Num(lex) => lex,
        Json::Str(s) => seq!['"'] + esc_string(s) + seq!['"'],
        Json::Arr(es) => seq!['['] + print_items(es) + seq![']'],
        Json::Obj(ms) => seq!['{'] + print_members(ms) + seq!['}'],
    }
}

pub open spec fn print_items(es: Seq<Json>) -> Seq<char>
    decreases es, 1int,
{
    if es.len() == 0 {
        Seq::empty()
    } else if es.len() == 1 {
        print_json(es[0])
    } else {
        print_json(es[0]) + seq![','] + print_items(es.drop_first())
    }
}

pub open spec fn print_members(ms: Seq<(Seq<char>, Json)>) -> Seq<char>
    decreases ms, 1int,
{
    if ms.len() == 0 {
        Seq::empty()
    } else {
        let head = seq!['"'] + esc_string(ms[0].0) + seq!['"', ':'] + print_json(ms[0].1);
        if ms.len() == 1 {
            head
        } else {
            head + seq![','] + print_members(ms.drop_first())
        }
    }
}

/// A value whose number lexemes all satisfy the number grammar. Only such
/// values print to valid JSON text.
pub open spec fn wf_json(j: Json) -> bool
    decreases j,
{
    match j {
        Json::Null => true,
        Json::Bool(_) => true,
        Json::Num(lex) => is_number_lexeme(lex),
        Json::Str(_) => true,
        Json::Arr(es) => forall|i: int| 0 <= i < es.len() ==> wf_json(#[trigger] es[i]),
        Json::Obj(ms) => forall|i: int| 0 <= i < ms.len() ==> wf_json(#[trigger] ms[i].1),
    }
}

// ---------------------------------------------------------------------------
// Parsing
// ---------------------------------------------------------------------------

pub open spec fn is_hex(c: char) -> bool {
    hex_value(c) < 16
}

/// `s` without its leading whitespace.
pub open spec fn skip_ws(s: Seq<char>) -> Seq<char>
    decreases s.len(),
{
    if s.len() > 0 && is_ws(s[0]) {
        skip_ws(s.drop_first())
    } else {
        s
    }
}

/// Skipping whitespace only shortens the text, and what remains starts
/// with a non-whitespace character.
pub proof fn lemma_skip_ws(s: Seq<char>)
    ensures
        skip_ws(s).len() <= s.len(),
        skip_ws(s).len() > 0 ==> !is_ws(skip_ws(s)[0]),
        s.len() > 0 && !is_ws(s[0]) ==> skip_ws(s) == s,
    decreases s.len(),
{
    if s.len() > 0 && is_ws(s[0]) {
        lemma_skip_ws(s.drop_first());
    }
}

pub open spec fn cons_str(c: char, r: Option<(Seq<char>, Seq<char>)>) -> Option<
    (Seq<char>, Seq<char>),
> {
    match r {
        Some((body, rest)) => Some((seq![c] + body, rest)),
        None => None,
    }
}

/// The body of a string literal after its opening quote: the decoded
/// characters and the text after the closing quote.
pub open spec fn parse_string_body(s: Seq<char>) -> Option<(Seq<char>, Seq<char>)>
    decreases s.len(),
{
    if s.len() == 0 {
        None
    } else if s[0] == '"' {
        Some((Seq::empty(), s.skip(1)))
    } else if s[0] == '\\' {
        if s.len() >= 2 {
            let c = s[1];
            if c == '"' || c == '\\' || c == '/' {
                cons_str(c, parse_string_body(s.skip(2)))
            } else if c == 'b' {
                cons_str(8u32 as char, parse_string_body(s.skip(2)))
            } else if c == 'f' {
                cons_str(12u32 as char, parse_string_body(s.skip(2)))
            } else if c == 'n' {
                cons_str('\n', parse_string_body(s.skip(2)))
            } else if c == 'r' {
                cons_str('\r', parse_string_body(s.skip(2)))
            } else if c == 't' {
                cons_str('\t', parse_string_body(s.skip(2)))
            } else if c == 'u' {
                if s.len() >= 6 && is_hex(s[2]) && is_hex(s[3]) && is_hex(s[4]) && is_hex(s[5]) {
                    let code = hex_value(s[2]) * 4096 + hex_value(s[3]) * 256 + hex_value(s[4])
                        * 16 + hex_value(s[5]);
                    if 0xD800 <= code < 0xDC00 {
                        if s.len() >= 12 && s[6] == '\\' && s[7] == 'u' && is_hex(s[8]) && is_hex(
                            s[9],
                        ) && is_hex(s[10]) && is_hex(s[11]) {
                            let low = hex_value(s[8]) * 4096 + hex_value(s[9]) * 256 + hex_value(
                                s[10],
                            ) * 16 + hex_value(s[11]);
                            if 0xDC00 <= low < 0xE000 {
                                let sc = 0x10000 + (code - 0xD800) * 1024 + (low - 0xDC00);
                                cons_str((sc as u32) as char, parse_string_body(s.skip(12)))
                            } else {
                                None
                            }
                        } else {
                            None
                        }
                    } else if 0xDC00 <= code < 0xE000 {
                        None
                    } else {
                        cons_str((code as u32) as char, parse_string_body(s.skip(6)))
                    }
                } else {
                    None
                }
            } else {
                None
            }
        } else {
            None
        }
    } else {
        cons_str(s[0], parse_string_body(s.skip(1)))
    }
}

/// A JSON value read off the head of `s`, and the remaining text.
pub open spec fn parse_value(s: Seq<char>) -> Option<(Json, Seq<char>)>
    decreases s.len(), 0int,
    via parse_value_decreases
{
    let t = skip_ws(s);
    if t.len() == 0 {
        None
    } else if t[0] == 'n' {
        if t.len() >= 4 && t[1] == 'u' && t[2] == 'l' && t[3] == 'l' {
            Some((Json::Null, t.skip(4)))
        } else {
            None
        }
    } else if t[0] == 't' {
        if t.len() >= 4 && t[1] == 'r' && t[2] == 'u' && t[3] == 'e' {
            Some((Json::Bool(true), t.skip(4)))
        } else {
            None
        }
    } else if t[0] == 'f' {
        if t.len() >= 5 && t[1] == 'a' && t[2] == 'l' && t[3] == 's' && t[4] == 'e' {
            Some((Json::Bool(false), t.skip(5)))
        } else {
            None
        }
    } else if t[0] == '"' {
        match parse_string_body(t.skip(1)) {
            Some((body, rest)) => Some((Json::Str(body), rest)),
            None => None,
        }
    } else if t[0] == '[' {
        let u = skip_ws(t.skip(1));
        if u.len() > 0 && u[0] == ']' {
            Some((Json::Arr(Seq::empty()), u.skip(1)))
        } else {
            match parse_items(t.skip(1)) {
                Some((es, rest)) => Some((Json::Arr(es), rest)),
                None => None,
            }
        }
    } else if t[0] == '{' {
        let u = skip_ws(t.skip(1));
        if u.len() > 0 && u[0] == '}' {
            Some((Json::Obj(Seq::empty()), u.skip(1)))
        } else {
            match parse_members(t.skip(1)) {
                Some((ms, rest)) => Some((Json::Obj(ms), rest)),
                None => None,
            }
        }
    } else {
        let nl = num_run(t);
        if nl > 0 && is_number_lexeme(t.take(nl)) {
            Some((Json::Num(t.take(nl)), t.skip(nl)))
        } else {
            None
        }
    }
}

#[via_fn]
proof fn parse_value_decreases(s: Seq<char>) {
    assert forall|r: Seq<char>| (#[trigger] skip_ws(r)).len() <= r.len() by {
        lemma_skip_ws(r);
    }
}

/// One or more comma-separated array items followed by `]`.
pub open spec fn parse_items(s: Seq<char>) -> Option<(Seq<Json>, Seq<char>)>
    decreases s.len(), 1int,
    via parse_items_decreases
{
    match parse_value(s) {
        Some((v, r)) => if r.len() < s.len() {
            let u = skip_ws(r);
            if u.len() > 0 && u[0] == ',' {
                match parse_items(u.skip(1)) {
                    Some((vs, rest)) => Some((seq![v] + vs, rest)),
                    None => None,
                }
            } else if u.len() > 0 && u[0] == ']' {
                Some((seq![v], u.skip(1)))
            } else {
                None
            }
        } else {
            None
        },
        None => None,
    }
}

#[via_fn]
proof fn parse_items_decreases(s: Seq<char>) {
    assert forall|r: Seq<char>| (#[trigger] skip_ws(r)).len() <= r.len() by {
        lemma_skip_ws(r);
    }
}

/// One or more comma-separated `"key":value` members followed by `}`.
pub open spec fn parse_members(s: Seq<char>) -> Option<(Seq<(Seq<char>, Json)>, Seq<char>)>
    decreases s.len(), 1int,
    via parse_members_decreases
{
    let t = skip_ws(s);
    if t.len() > 0 && t[0] == '"' {
        match parse_string_body(t.skip(1)) {
            Some((key, r1)) => if r1.len() < s.len() {
                let r2 = skip_ws(r1);
                if r2.len() > 0 && r2[0] == ':' {
                    match parse_value(r2.skip(1)) {
                        Some((v, r3)) => if r3.len() < r2.len() {
                            let u = skip_ws(r3);
                            if u.len() > 0 && u[0] == ',' {
                                match parse_members(u.skip(1)) {
                                    Some((ms, rest)) => Some((seq![(key, v)] + ms, rest)),
                                    None => None,
                                }
                            } else if u.len() > 0 && u[0] == '}' {
                                Some((seq![(key, v)], u.skip(1)))
                            } else {
                                None
                            }
                        } else {
                            None
                        },
                        None => None,
                    }
                } else {
                    None
                }
            } else {
                None
            },
            None => None,
        }
    } else {
        None
    }
}

#[via_fn]
proof fn parse_members_decreases(s: Seq<char>) {
    assert forall|r: Seq<char>| (#[trigger] skip_ws(r)).len() <= r.len() by {
        lemma_skip_ws(r);
    }
}

/// A whole JSON document: one value with nothing but whitespace around it.
pub open spec fn parse_json(s: Seq<char>) -> Option<Json> {
    match parse_value(s) {
        Some((v, rest)) => if skip_ws(rest).len() == 0 {
            Some(v)
        } else {
            None
        },
        None => None,
    }
}

// ---------------------------------------------------------------------------
// The executable printer
// ---------------------------------------------------------------------------

/// The characters of a string slice, in order.
pub fn str_chars(s: &str) -> (r: Vec<char>)
    ensures
        r@ == s@,
{
    let mut r: Vec<char> = Vec::new();
    for c in it: s.chars()
        invariant
            r@ == it.seq().take(it.index() as int),
    {
        r.push(c);
    }
    proof {
        assert(r@ =~= s@);
    }
    r
}

fn hex_digit_exec(n: u32) -> (r: char)
    requires
        n < 16,
    ensures
        r == hex_digit(n as int),
{
    match n {
        0 => '0',
        1 => '1',
        2 => '2',
        3 => '3',
        4 => '4',
        5 => '5',
        6 => '6',
        7 => '7',
        8 => '8',
        9 => '9',
        10 => 'a',
        11 => 'b',
        12 => 'c',
        13 => 'd',
        14 => 'e',
        _ => 'f',
    }
}

/// Escaping a longer string extends the escaped text one character at a
/// time.
proof fn lemma_esc_push(s: Seq<char>, i: int)
    requires
        0 <= i < s.len(),
    ensures
        esc_string(s.take(i + 1)) == esc_string(s.take(i)) + esc_char(s[i]),
    decreases i,
{
    if i == 0 {
        assert(s.take(1) =~= seq![s[0]]);
        assert(s.take(0) =~= Seq::<char>::empty());
        assert(seq![s[0]].drop_first() =~= Seq::<char>::empty());
        assert(esc_string(seq![s[0]]) == esc_char(s[0]) + esc_string(seq![s[0]].drop_first()));
        assert(esc_string(s.take(1)) =~= esc_string(s.take(0)) + esc_char(s[0]));
    } else {
        let t = s.drop_first();
        lemma_esc_push(t, i - 1);
        assert(s.take(i + 1).drop_first() =~= t.take(i));
        assert(s.take(i).drop_first() =~= t.take(i - 1));
        assert(esc_string(s.take(i + 1)) == esc_char(s[0]) + esc_string(t.take(i)));
        assert(esc_string(s.take(i)) == esc_char(s[0]) + esc_string(t.take(i - 1)));
        assert(esc_string(s.take(i + 1)) =~= esc_string(s.take(i)) + esc_char(s[i]));
    }
}

/// Printing a longer item list extends the printed text by one item and,
/// after the first, a separating comma.
proof fn lemma_print_items_push(es: Seq<Json>, e: Json)
    ensures
        print_items(es.push(e)) == if es.len() == 0 {
            print_json(e)
        } else {
            print_items(es) + seq![','] + print_json(e)
        },
    decreases es.len(),
{
    if es.len() == 0 {
        assert(es.push(e) =~= seq![e]);
        assert(print_items(seq![e]) == print_json(seq![e][0]));
    } else {
        lemma_print_items_push(es.drop_first(), e);
        assert(es.push(e).drop_first() =~= es.drop_first().push(e));
        assert(es.push(e)[0] == es[0]);
        if es.len() == 1 {
            assert(es.drop_first().len() == 0);
            assert(print_items(es.push(e)) == print_json(es[0]) + seq![','] + print_items(
                es.drop_first().push(e),
            ));
            assert(print_items(es.push(e)) =~= print_items(es) + seq![','] + print_json(e));
        } else {
            assert(print_items(es.push(e)) == print_json(es[0]) + seq![','] + print_items(
                es.drop_first().push(e),
            ));
            assert(print_items(es.push(e)) =~= print_items(es) + seq![','] + print_json(e));
        }
    }
}

/// The same, for object members.
proof fn lemma_print_members_push(ms: Seq<(Seq<char>, Json)>, m: (Seq<char>, Json))
    ensures
        print_members(ms.push(m)) == if ms.len() == 0 {
            seq!['"'] + esc_string(m.0) + seq!['"', ':'] + print_json(m.1)
        } else {
            print_members(ms) + seq![','] + (seq!['"'] + esc_string(m.0) + seq!['"', ':']
                + print_json(m.1))
        },
    decreases ms.len(),
{
    if ms.len() == 0 {
        assert(ms.push(m) =~= seq![m]);
        assert(print_members(seq![m]) == seq!['"'] + esc_string(seq![m][0].0) + seq!['"', ':']
            + print_json(seq![m][0].1));
    } else {
        lemma_print_members_push(ms.drop_first(), m);
        assert(ms.push(m).drop_first() =~= ms.drop_first().push(m));
        assert(ms.push(m)[0] == ms[0]);
        let head = seq!['"'] + esc_string(ms[0].0) + seq!['"', ':'] + print_json(ms[0].1);
        if ms.len() == 1 {
            assert(ms.drop_first().len() == 0);
            assert(print_members(ms.push(m)) == head + seq![','] + print_members(
                ms.drop_first().push(m),
            ));
            assert(print_members(ms.push(m)) =~= print_members(ms) + seq![','] + (seq!['"']
                + esc_string(m.0) + seq!['"', ':'] + print_json(m.1)));
        } else {
            assert(print_members(ms.push(m)) == head + seq![','] + print_members(
                ms.drop_first().push(m),
            ));
            assert(print_members(ms.push(m)) =~= print_members(ms) + seq![','] + (seq!['"']
                + esc_string(m.0) + seq!['"', ':'] + print_json(m.1)));
        }
    }
}

/// Writes one string character into `out` in its escaped form.
fn write_escaped_char(c: char, out: &mut Vec<char>)
    ensures
        final(out)@ == old(out)@ + esc_char(c),
{
    if c == '"' {
        out.push('\\');
        out.push('"');
    } else if c == '\\' {
        out.push('\\');
        out.push('\\');
    } else if c == '\n' {
        out.push('\\');
        out.push('n');
    } else if c == '\r' {
        out.push('\\');
        out.push('r');
    } else if c == '\t' {
        out.push('\\');
        out.push('t');
    } else if (c as u32) < 32 {
        let u = c as u32;
        out.push('\\');
        out.push('u');
        out.push('0');
        out.push('0');
        out.push(hex_digit_exec(u / 16));
        out.push(hex_digit_exec(u % 16));
    } else {
        out.push(c);
    }
    proof {
        assert(out@ =~= old(out)@ + esc_char(c));
    }
}

/// Writes the escaped body of a string, without the surrounding quotes.
fn write_escaped(s: &String, out: &mut Vec<char>)
    ensures
        final(out)@ == old(out)@ + esc_string(s@),
{
    let chars = str_chars(s.as_str());
    let mut i: usize = 0;
    while i < chars.len()
        invariant
            i <= chars.len(),
            chars@ == s@,
            out@ == old(out)@ + esc_string(s@.take(i as int)),
        decreases chars.len() - i,
    {
        proof {
            lemma_esc_push(s@, i as int);
        }
        write_escaped_char(chars[i], out);
        i = i + 1;
    }
    proof {
        assert(s@.take(s@.len() as int) =~= s@);
    }
}

impl JsonValue {
    /// Appends the canonical text of this value to `out`.
    pub fn write_text(&self, out: &mut Vec<char>)
        ensures
            final(out)@ == old(out)@ + print_json(self@),
        decreases self,
    {
        match self {
            JsonValue::Null => {
                out.push('n');
                out.push('u');
                out.push('l');
                out.push('l');
                proof {
                    assert(out@ =~= old(out)@ + print_json(self@));
                }
            },
            JsonValue::Bool(b) => {
                if *b {
                    out.push('t');
                    out.push('r');
                    out.push('u');
                    out.push('e');
                } else {
                    out.push('f');
                    out.push('a');
                    out.push('l');
                    out.push('s');
                    out.push('e');
                }
                proof {
                    assert(out@ =~= old(out)@ + print_json(self@));
                }
            },
            JsonValue::Num(s) => {
                let mut chars = str_chars(s.as_str());
                out.append(&mut chars);
                proof {
                    assert(out@ =~= old(out)@ + print_json(self@));
                }
            },
            JsonValue::Str(s) => {
                out.push('"');
                write_escaped(s, out);
                out.push('"');
                proof {
                    assert(out@ =~= old(out)@ + print_json(self@));
                }
            },
            JsonValue::Arr(elems) => {
                let ghost model: Seq<Json> = json_view_seq(elems@);
                proof {
                    lemma_json_view_seq(elems@);
                }
                out.push('[');
                let mut i: usize = 0;
                while i < elems.len()
                    invariant
                        *self == JsonValue::Arr(*elems),
                        model == json_view_seq(elems@),
                        model.len() == elems@.len(),
                        forall|j: int| 0 <= j < elems@.len() ==> model[j] == json_view(elems@[j]),
                        i <= elems.len(),
                        out@ == old(out)@ + seq!['['] + print_items(model.take(i as int)),
                    decreases elems.len() - i,
                {
                    proof {
                        assert(decreases_to!(*self => self->Arr_0));
                        assert(self->Arr_0 == *elems);
                        assert(decreases_to!(*elems => elems@));
                        assert(decreases_to!(elems@ => elems@[i as int]));
                        lemma_print_items_push(model.take(i as int), model[i as int]);
                        assert(model.take(i as int).push(model[i as int]) =~= model.take(
                            i as int + 1,
                        ));
                    }
                    if i > 0 {
                        out.push(',');
                    }
                    elems[i].write_text(out);
                    proof {
                        assert(out@ =~= old(out)@ + seq!['['] + print_items(
                            model.take(i as int + 1),
                        ));
                    }
                    i = i + 1;
                }
                out.push(']');
                proof {
                    assert(model.take(model.len() as int) =~= model);
                    assert(out@ =~= old(out)@ + print_json(self@));
                }
            },
            JsonValue::Obj(members) => {
                let ghost model: Seq<(Seq<char>, Json)> = json_view_members(members@);
                proof {
                    lemma_json_view_members(members@);
                }
                out.push('{');
                let mut i: usize = 0;
                while i < members.len()
                    invariant
                        *self == JsonValue::Obj(*members),
                        model == json_view_members(members@),
                        model.len() == members@.len(),
                        forall|j: int| 0 <= j < members@.len() ==> model[j] == (
                            members@[j].0@,
                            json_view(members@[j].1),
                        ),
                        i <= members.len(),
                        out@ == old(out)@ + seq!['{'] + print_members(model.take(i as int)),
                    decreases members.len() - i,
                {
                    proof {
                        assert(decreases_to!(*self => self->Obj_0));
                        assert(self->Obj_0 == *members);
                        assert(decreases_to!(*members => members@));
                        assert(decreases_to!(members@ => members@[i as int]));
                        assert(decreases_to!(members@[i as int] => members@[i as int].1));
                        lemma_print_members_push(model.take(i as int), model[i as int]);
                        assert(model.take(i as int).push(model[i as int]) =~= model.take(
                            i as int + 1,
                        ));
                    }
                    if i > 0 {
                        out.push(',');
                    }
                    out.push('"');
                    write_escaped(&members[i].0, out);
                    out.push('"');
                    out.push(':');
                    members[i].1.write_text(out);
                    proof {
                        assert(out@ =~= old(out)@ + seq!['{'] + print_members(
                            model.take(i as int + 1),
                        ));
                    }
                    i = i + 1;
                }
                out.push('}');
                proof {
                    assert(model.take(model.len() as int) =~= model);
                    assert(out@ =~= old(out)@ + print_json(self@));
                }
            },
        }
    }

    /// The canonical text of this value.
    pub fn to_text(&self) -> (r: String)
        ensures
            r@ == print_json(self@),
    {
        let mut out: Vec<char> = Vec::new();
        self.write_text(&mut out);
        crate::external::chars_to_string(&out)
    }
}

// ---------------------------------------------------------------------------
// The executable parser
// ---------------------------------------------------------------------------

fn is_ws_exec(c: char) -> (r: bool)
    ensures
        r == is_ws(c),
{
    c == ' ' || c == '\t' || c == '\n' || c == '\r'
}

fn is_digit_exec(c: char) -> (r: bool)
    ensures
        r == is_digit(c),
{
    let u = c as u32;
    48 <= u && u <= 57
}

fn is_num_char_exec(c: char) -> (r: bool)
    ensures
        r == is_num_char(c),
{
    is_digit_exec(c) || c == '-' || c == '+' || c == '.' || c == 'e' || c == 'E'
}

fn hex_value_exec(c: char) -> (r: u32)
    ensures
        r as int == hex_value(c),
{
    let u = c as u32;
    if 48 <= u && u <= 57 {
        u - 48
    } else if 97 <= u && u <= 102 {
        u - 87
    } else if 65 <= u && u <= 70 {
        u - 55
    } else {
        16
    }
}

proof fn lemma_skip_ws_index(s: Seq<char>, i: int)
    requires
        0 <= i <= s.len(),
        forall|j: int| 0 <= j < i ==> is_ws(s[j]),
        i == s.len() || !is_ws(s[i]),
    ensures
        skip_ws(s) == s.skip(i),
    decreases i,
{
    if i == 0 {
        assert(s.skip(0) =~= s);
    } else {
        lemma_skip_ws_index(s.drop_first(), i - 1);
        assert(s.drop_first().skip(i - 1) =~= s.skip(i));
    }
}

proof fn lemma_digits_len_index(s: Seq<char>, i: int)
    requires
        0 <= i <= s.len(),
        forall|j: int| 0 <= j < i ==> is_digit(s[j]),
        i == s.len() || !is_digit(s[i]),
    ensures
        digits_len(s) == i,
    decreases i,
{
    if i > 0 {
        lemma_digits_len_index(s.drop_first(), i - 1);
    }
}

proof fn lemma_num_run_index(s: Seq<char>, i: int)
    requires
        0 <= i <= s.len(),
        forall|j: int| 0 <= j < i ==> is_num_char(s[j]),
        i == s.len() || !is_num_char(s[i]),
    ensures
        num_run(s) == i,
    decreases i,
{
    if i > 0 {
        lemma_num_run_index(s.drop_first(), i - 1);
    }
}

/// A digit run never exceeds the text it is read from.
proof fn lemma_digits_len_bounds(s: Seq<char>)
    ensures
        0 <= digits_len(s) <= s.len(),
    decreases s.len(),
{
    if s.len() > 0 && is_digit(s[0]) {
        lemma_digits_len_bounds(s.drop_first());
    }
}

fn skip_ws_slice<'a>(s: &'a [char]) -> (r: &'a [char])
    ensures
        r@ == skip_ws(s@),
{
    let mut i: usize = 0;
    while i < s.len() && is_ws_exec(s[i])
        invariant
            i <= s@.len(),
            forall|j: int| 0 <= j < i ==> is_ws(s@[j]),
        decreases s@.len() - i,
    {
        i = i + 1;
    }
    proof {
        lemma_skip_ws_index(s@, i as int);
    }
    let r = &s[i..s.len()];
    proof {
        assert(s@.subrange(i as int, s@.len() as int) =~= s@.skip(i as int));
    }
    r
}

fn digits_run(s: &[char]) -> (n: usize)
    ensures
        n as int == digits_len(s@),
        n <= s@.len(),
{
    let mut i: usize = 0;
    while i < s.len() && is_digit_exec(s[i])
        invariant
            i <= s@.len(),
            forall|j: int| 0 <= j < i ==> is_digit(s@[j]),
        decreases s@.len() - i,
    {
        i = i + 1;
    }
    proof {
        lemma_digits_len_index(s@, i as int);
    }
    i
}

fn num_run_exec(s: &[char]) -> (n: usize)
    ensures
        n as int == num_run(s@),
        n <= s@.len(),
{
    let mut i: usize = 0;
    while i < s.len() && is_num_char_exec(s[i])
        invariant
            i <= s@.len(),
            forall|j: int| 0 <= j < i ==> is_num_char(s@[j]),
        decreases s@.len() - i,
    {
        i = i + 1;
    }
    proof {
        lemma_num_run_index(s@, i as int);
    }
    i
}

fn exp_tail_exec(u: &[char]) -> (r: bool)
    ensures
        r == exp_tail(u@),
{
    if u.len() == 0 {
        true
    } else if u[0] == 'e' || u[0] == 'E' {
        let start: usize = if u.len() > 1 && (u[1] == '+' || u[1] == '-') {
            2
        } else {
            1
        };
        let v = &u[start..u.len()];
        proof {
            assert(u@.subrange(start as int, u@.len() as int) =~= u@.skip(start as int));
        }
        let el = digits_run(v);
        el >= 1 && v.len() == el
    } else {
        false
    }
}

fn number_tail_exec(u: &[char]) -> (r: bool)
    ensures
        r == number_tail(u@),
{
    if u.len() == 0 {
        true
    } else if u[0] == '.' {
        let v = &u[1..u.len()];
        proof {
            assert(u@.subrange(1, u@.len() as int) =~= u@.skip(1));
        }
        let fl = digits_run(v);
        if fl >= 1 {
            let w = &u[1 + fl..u.len()];
            proof {
                assert(u@.subrange(1 + fl as int, u@.len() as int) =~= u@.skip(1 + fl as int));
            }
            exp_tail_exec(w)
        } else {
            false
        }
    } else {
        exp_tail_exec(u)
    }
}

fn is_number_lexeme_exec(s: &[char]) -> (r: bool)
    ensures
        r == is_number_lexeme(s@),
{
    let t: &[char] = if s.len() > 0 && s[0] == '-' {
        let t = &s[1..s.len()];
        proof {
            assert(s@.subrange(1, s@.len() as int) =~= s@.drop_first());
        }
        t
    } else {
        s
    };
    if t.len() > 0 && is_digit_exec(t[0]) {
        let ilen: usize = if t[0] == '0' {
            1
        } else {
            digits_run(t)
        };
        proof {
            lemma_digits_len_bounds(t@);
            if t@[0] != '0' {
                lemma_digits_len_bounds(t@.drop_first());
                assert(digits_len(t@) >= 1);
            }
        }
        let w = &t[ilen..t.len()];
        proof {
            assert(t@.subrange(ilen as int, t@.len() as int) =~= t@.skip(ilen as int));
        }
        number_tail_exec(w)
    } else {
        false
    }
}

/// Copies a slice of characters into a fresh vector.
fn slice_to_vec(s: &[char]) -> (r: Vec<char>)
    ensures
        r@ == s@,
{
    let mut r: Vec<char> = Vec::new();
    let mut i: usize = 0;
    while i < s.len()
        invariant
            i <= s@.len(),
            r@ == s@.take(i as int),
        decreases s@.len() - i,
    {
        proof {
            assert(s@.take(i as int).push(s@[i as int]) =~= s@.take(i as int + 1));
        }
        r.push(s[i]);
        i = i + 1;
    }
    proof {
        assert(s@.take(s@.len() as int) =~= s@);
    }
    r
}

/// A parse result with `prefix` prepended to the decoded body.
pub open spec fn prepend_body(prefix: Seq<char>, r: Option<(Seq<char>, Seq<char>)>) -> Option<
    (Seq<char>, Seq<char>),
> {
    match r {
        Some((b, rest)) => Some((prefix + b, rest)),
        None => None,
    }
}

proof fn lemma_prepend_cons(prefix: Seq<char>, d: char, r: Option<(Seq<char>, Seq<char>)>)
    ensures
        prepend_body(prefix, cons_str(d, r)) == prepend_body(prefix.push(d), r),
{
    match r {
        Some((b, rest)) => {
            assert(prefix + (seq![d] + b) =~= prefix.push(d) + b);
        },
        None => {},
    }
}

/// Reads a string body, decoding escapes, up to the closing quote.
fn parse_string_chars<'a>(s: &'a [char]) -> (r: Option<(Vec<char>, &'a [char])>)
    ensures
        r is Some <==> parse_string_body(s@) is Some,
        r is Some ==> parse_string_body(s@) == Some(
            (r->Some_0.0@, r->Some_0.1@),
        ),
{
    let mut cur: &'a [char] = s;
    let mut acc: Vec<char> = Vec::new();
    proof {
        assert(parse_string_body(s@) == prepend_body(acc@, parse_string_body(cur@))) by {
            match parse_string_body(s@) {
                Some((b, rest)) => {
                    assert(acc@ + b =~= b);
                },
                None => {},
            }
        }
    }
    loop
        invariant
            parse_string_body(s@) == prepend_body(acc@, parse_string_body(cur@)),
        decreases cur@.len(),
    {
        if cur.len() == 0 {
            return None;
        }
        let c0 = cur[0];
        if c0 == '"' {
            let rest = &cur[1..cur.len()];
            proof {
                assert(cur@.subrange(1, cur@.len() as int) =~= cur@.skip(1));
                assert(parse_string_body(cur@) == Some((Seq::<char>::empty(), cur@.skip(1))));
                assert(acc@ + Seq::<char>::empty() =~= acc@);
            }
            return Some((acc, rest));
        } else if c0 == '\\' {
            if cur.len() < 2 {
                return None;
            }
            let c = cur[1];
            let decoded: char;
            let consumed: usize;
            if c == '"' || c == '\\' || c == '/' {
                decoded = c;
                consumed = 2;
            } else if c == 'b' {
                decoded = '\u{8}';
                consumed = 2;
                proof {
                    assert('\u{8}' as u32 == 8);
                    vstd::utf8::char_u32_cast('\u{8}', 8u32);
                }
            } else if c == 'f' {
                decoded = '\u{c}';
                consumed = 2;
                proof {
                    assert('\u{c}' as u32 == 12);
                    vstd::utf8::char_u32_cast('\u{c}', 12u32);
                }
            } else if c == 'n' {
                decoded = '\n';
                consumed = 2;
            } else if c == 'r' {
                decoded = '\r';
                consumed = 2;
            } else if c == 't' {
                decoded = '\t';
                consumed = 2;
            } else if c == 'u' {
                if !(cur.len() >= 6 && hex_value_exec(cur[2]) < 16 && hex_value_exec(cur[3]) < 16
                    && hex_value_exec(cur[4]) < 16 && hex_value_exec(cur[5]) < 16) {
                    return None;
                }
                let code: u32 = hex_value_exec(cur[2]) * 4096 + hex_value_exec(cur[3]) * 256
                    + hex_value_exec(cur[4]) * 16 + hex_value_exec(cur[5]);
                if 0xD800 <= code && code < 0xDC00 {
                    if !(cur.len() >= 12 && cur[6] == '\\' && cur[7] == 'u' && hex_value_exec(
                        cur[8],
                    ) < 16 && hex_value_exec(cur[9]) < 16 && hex_value_exec(cur[10]) < 16
                        && hex_value_exec(cur[11]) < 16) {
                        return None;
                    }
                    let low: u32 = hex_value_exec(cur[8]) * 4096 + hex_value_exec(cur[9]) * 256
                        + hex_value_exec(cur[10]) * 16 + hex_value_exec(cur[11]);
                    if !(0xDC00 <= low && low < 0xE000) {
                        return None;
                    }
                    let sc: u32 = 0x10000 + (code - 0xD800) * 1024 + (low - 0xDC00);
                    match char::from_u32(sc) {
                        Some(d) => {
                            decoded = d;
                            consumed = 12;
                        },
                        None => {
                            proof {
                                assert(false);
                            }
                            return None;
                        },
                    }
                } else if 0xDC00 <= code && code < 0xE000 {
                    return None;
                } else {
                    match char::from_u32(code) {
                        Some(d) => {
                            decoded = d;
                            consumed = 6;
                        },
                        None => {
                            proof {
                                assert(false);
                            }
                            return None;
                        },
                    }
                }
            } else {
                return None;
            }
            let next = &cur[consumed..cur.len()];
            proof {
                assert(cur@.subrange(consumed as int, cur@.len() as int) =~= cur@.skip(
                    consumed as int,
                ));
                assert(parse_string_body(cur@) == cons_str(decoded, parse_string_body(next@)));
                lemma_prepend_cons(acc@, decoded, parse_string_body(next@));
            }
            acc.push(decoded);
            cur = next;
        } else {
            let next = &cur[1..cur.len()];
            proof {
                assert(cur@.subrange(1, cur@.len() as int) =~= cur@.skip(1));
                assert(parse_string_body(cur@) == cons_str(c0, parse_string_body(next@)));
                lemma_prepend_cons(acc@, c0, parse_string_body(next@));
            }
            acc.push(c0);
            cur = next;
        }
    }
}

/// Reads one JSON value off the head of `s`.
fn parse_value_chars<'a>(s: &'a [char]) -> (r: Option<(JsonValue, &'a [char])>)
    ensures
        r is Some <==> parse_value(s@) is Some,
        r is Some ==> parse_value(s@) == Some(
            (r->Some_0.0@, r->Some_0.1@),
        ),
    decreases s@.len(), 0int,
{
    proof {
        lemma_skip_ws(s@);
    }
    let t = skip_ws_slice(s);
    if t.len() == 0 {
        return None;
    }
    let c = t[0];
    if c == 'n' {
        if t.len() >= 4 && t[1] == 'u' && t[2] == 'l' && t[3] == 'l' {
            let rest = &t[4..t.len()];
            proof {
                assert(t@.subrange(4, t@.len() as int) =~= t@.skip(4));
            }
            Some((JsonValue::Null, rest))
        } else {
            None
        }
    } else if c == 't' {
        if t.len() >= 4 && t[1] == 'r' && t[2] == 'u' && t[3] == 'e' {
            let rest = &t[4..t.len()];
            proof {
                assert(t@.subrange(4, t@.len() as int) =~= t@.skip(4));
            }
            Some((JsonValue::Bool(true), rest))
        } else {
            None
        }
    } else if c == 'f' {
        if t.len() >= 5 && t[1] == 'a' && t[2] == 'l' && t[3] == 's' && t[4] == 'e' {
            let rest = &t[5..t.len()];
            proof {
                assert(t@.subrange(5, t@.len() as int) =~= t@.skip(5));
            }
            Some((JsonValue::Bool(false), rest))
        } else {
            None
        }
    } else if c == '"' {
        let body = &t[1..t.len()];
        proof {
            assert(t@.subrange(1, t@.len() as int) =~= t@.skip(1));
        }
        match parse_string_chars(body) {
            Some((chars, rest)) => {
                let string = crate::external::chars_to_string(&chars);
                Some((JsonValue::Str(string), rest))
            },
            None => None,
        }
    } else if c == '[' {
        let inner = &t[1..t.len()];
        proof {
            assert(t@.subrange(1, t@.len() as int) =~= t@.skip(1));
            lemma_skip_ws(inner@);
        }
        let u = skip_ws_slice(inner);
        if u.len() > 0 && u[0] == ']' {
            let rest = &u[1..u.len()];
            proof {
                assert(u@.subrange(1, u@.len() as int) =~= u@.skip(1));
                lemma_json_view_seq(Seq::<JsonValue>::empty());
                assert(json_view_seq(Seq::<JsonValue>::empty()) =~= Seq::<Json>::empty());
            }
            let empty: Vec<JsonValue> = Vec::new();
            let out = JsonValue::Arr(empty);
            proof {
                assert(out@ == Json::Arr(Seq::<Json>::empty()));
            }
            Some((out, rest))
        } else {
            match parse_items_chars(inner) {
                Some((items, rest)) => Some((JsonValue::Arr(items), rest)),
                None => None,
            }
        }
    } else if c == '{' {
        let inner = &t[1..t.len()];
        proof {
            assert(t@.subrange(1, t@.len() as int) =~= t@.skip(1));
            lemma_skip_ws(inner@);
        }
        let u = skip_ws_slice(inner);
        if u.len() > 0 && u[0] == '}' {
            let rest = &u[1..u.len()];
            proof {
                assert(u@.subrange(1, u@.len() as int) =~= u@.skip(1));
                lemma_json_view_members(Seq::<(String, JsonValue)>::empty());
                assert(json_view_members(Seq::<(String, JsonValue)>::empty()) =~= Seq::<
                    (Seq<char>, Json),
                >::empty());
            }
            let empty: Vec<(String, JsonValue)> = Vec::new();
            let out = JsonValue::Obj(empty);
            proof {
                assert(out@ == Json::Obj(Seq::<(Seq<char>, Json)>::empty()));
            }
            Some((out, rest))
        } else {
            match parse_members_chars(inner) {
                Some((members, rest)) => Some((JsonValue::Obj(members), rest)),
                None => None,
            }
        }
    } else {
        let nl = num_run_exec(t);
        let lexeme = &t[0..nl];
        proof {
            assert(t@.subrange(0, nl as int) =~= t@.take(nl as int));
        }
        if nl > 0 && is_number_lexeme_exec(lexeme) {
            let chars = slice_to_vec(lexeme);
            let string = crate::external::chars_to_string(&chars);
            let rest = &t[nl..t.len()];
            proof {
                assert(t@.subrange(nl as int, t@.len() as int) =~= t@.skip(nl as int));
            }
            Some((JsonValue::Num(string), rest))
        } else {
            None
        }
    }
}

/// Reads one or more comma-separated items followed by `]`.
fn parse_items_chars<'a>(s: &'a [char]) -> (r: Option<(Vec<JsonValue>, &'a [char])>)
    ensures
        r is Some <==> parse_items(s@) is Some,
        r is Some ==> parse_items(s@) == Some(
            (json_view_seq(r->Some_0.0@), r->Some_0.1@),
        ),
    decreases s@.len(), 1int,
{
    match parse_value_chars(s) {
        Some((v, rem)) => {
            if rem.len() < s.len() {
                proof {
                    lemma_skip_ws(rem@);
                }
                let u = skip_ws_slice(rem);
                if u.len() > 0 && u[0] == ',' {
                    let after = &u[1..u.len()];
                    proof {
                        assert(u@.subrange(1, u@.len() as int) =~= u@.skip(1));
                    }
                    match parse_items_chars(after) {
                        Some((mut items, rest)) => {
                            proof {
                                lemma_json_view_seq(items@);
                                lemma_json_view_seq(items@.insert(0, v));
                                assert(json_view_seq(items@.insert(0, v)) =~= seq![v@]
                                    + json_view_seq(items@));
                            }
                            items.insert(0, v);
                            Some((items, rest))
                        },
                        None => None,
                    }
                } else if u.len() > 0 && u[0] == ']' {
                    let rest = &u[1..u.len()];
                    proof {
                        assert(u@.subrange(1, u@.len() as int) =~= u@.skip(1));
                    }
                    let mut items: Vec<JsonValue> = Vec::new();
                    items.push(v);
                    proof {
                        lemma_json_view_seq(items@);
                        assert(json_view_seq(items@) =~= seq![v@]);
                    }
                    Some((items, rest))
                } else {
                    None
                }
            } else {
                None
            }
        },
        None => None,
    }
}

/// Reads one or more comma-separated `"key":value` members followed by `}`.
fn parse_members_chars<'a>(s: &'a [char]) -> (r: Option<(Vec<(String, JsonValue)>, &'a [char])>)
    ensures
        r is Some <==> parse_members(s@) is Some,
        r is Some ==> parse_members(s@) == Some(
            (json_view_members(r->Some_0.0@), r->Some_0.1@),
        ),
    decreases s@.len(), 1int,
{
    proof {
        lemma_skip_ws(s@);
    }
    let t = skip_ws_slice(s);
    if t.len() > 0 && t[0] == '"' {
        let body = &t[1..t.len()];
        proof {
            assert(t@.subrange(1, t@.len() as int) =~= t@.skip(1));
        }
        match parse_string_chars(body) {
            Some((key_chars, r1)) => {
                if r1.len() < s.len() {
                    let key = crate::external::chars_to_string(&key_chars);
                    proof {
                        lemma_skip_ws(r1@);
                    }
                    let r2 = skip_ws_slice(r1);
                    if r2.len() > 0 && r2[0] == ':' {
                        let after_colon = &r2[1..r2.len()];
                        proof {
                            assert(r2@.subrange(1, r2@.len() as int) =~= r2@.skip(1));
                        }
                        match parse_value_chars(after_colon) {
                            Some((v, r3)) => {
                                if r3.len() < r2.len() {
                                    proof {
                                        lemma_skip_ws(r3@);
                                    }
                                    let u = skip_ws_slice(r3);
                                    if u.len() > 0 && u[0] == ',' {
                                        let after = &u[1..u.len()];
                                        proof {
                                            assert(u@.subrange(1, u@.len() as int) =~= u@.skip(1));
                                        }
                                        match parse_members_chars(after) {
                                            Some((mut members, rest)) => {
                                                proof {
                                                    lemma_json_view_members(members@);
                                                    lemma_json_view_members(
                                                        members@.insert(0, (key, v)),
                                                    );
                                                    assert(json_view_members(
                                                        members@.insert(0, (key, v)),
                                                    ) =~= seq![(key@, v@)] + json_view_members(
                                                        members@,
                                                    ));
                                                }
                                                members.insert(0, (key, v));
                                                Some((members, rest))
                                            },
                                            None => None,
                                        }
                                    } else if u.len() > 0 && u[0] == '}' {
                                        let rest = &u[1..u.len()];
                                        proof {
                                            assert(u@.subrange(1, u@.len() as int) =~= u@.skip(1));
                                        }
                                        let mut members: Vec<(String, JsonValue)> = Vec::new();
                                        members.push((key, v));
                                        proof {
                                            lemma_json_view_members(members@);
                                            assert(json_view_members(members@) =~= seq![
                                                (key@, v@),
                                            ]);
                                        }
                                        Some((members, rest))
                                    } else {
                                        None
                                    }
                                } else {
                                    None
                                }
                            },
                            None => None,
                        }
                    } else {
                        None
                    }
                } else {
                    None
                }
            },
            None => None,
        }
    } else {
        None
    }
}

// ---------------------------------------------------------------------------
// The round trip: parsing printed text gives the value back
// ---------------------------------------------------------------------------

/// Every character in a digit run is a digit.
proof fn lemma_digits_are_digits(s: Seq<char>)
    ensures
        forall|j: int| 0 <= j < digits_len(s) ==> is_digit(s[j]),
    decreases s.len(),
{
    lemma_digits_len_bounds(s);
    if s.len() > 0 && is_digit(s[0]) {
        lemma_digits_are_digits(s.drop_first());
        lemma_digits_len_bounds(s.drop_first());
        assert forall|j: int| 0 <= j < digits_len(s) implies is_digit(s[j]) by {
            if j > 0 {
                assert(s[j] == s.drop_first()[j - 1]);
            }
        }
    }
}

/// Every character of text accepted by `exp_tail` is a number character.
proof fn lemma_exp_tail_chars(u: Seq<char>)
    requires
        exp_tail(u),
    ensures
        forall|i: int| 0 <= i < u.len() ==> is_num_char(u[i]),
{
    if u.len() > 0 {
        let off: int = if u.len() > 1 && (u[1] == '+' || u[1] == '-') {
            2
        } else {
            1
        };
        let v = u.skip(off);
        lemma_digits_are_digits(v);
        lemma_digits_len_bounds(v);
        assert(digits_len(v) == v.len());
        assert forall|i: int| 0 <= i < u.len() implies is_num_char(u[i]) by {
            if i >= off {
                assert(u[i] == v[i - off]);
            }
        }
    }
}

/// Every character of text accepted by `number_tail` is a number
/// character.
proof fn lemma_number_tail_chars(u: Seq<char>)
    requires
        number_tail(u),
    ensures
        forall|i: int| 0 <= i < u.len() ==> is_num_char(u[i]),
{
    if u.len() > 0 {
        if u[0] == '.' {
            let fl = digits_len(u.skip(1));
            lemma_digits_are_digits(u.skip(1));
            lemma_digits_len_bounds(u.skip(1));
            lemma_exp_tail_chars(u.skip(1 + fl));
            assert forall|i: int| 0 <= i < u.len() implies is_num_char(u[i]) by {
                if 1 <= i < 1 + fl {
                    assert(u[i] == u.skip(1)[i - 1]);
                } else if i >= 1 + fl {
                    assert(u[i] == u.skip(1 + fl)[i - 1 - fl]);
                }
            }
        } else {
            lemma_exp_tail_chars(u);
        }
    }
}

/// A number lexeme is non-empty, starts with a sign or digit, and holds
/// only number characters.
proof fn lemma_lexeme_chars(lex: Seq<char>)
    requires
        is_number_lexeme(lex),
    ensures
        lex.len() > 0,
        lex[0] == '-' || is_digit(lex[0]),
        forall|i: int| 0 <= i < lex.len() ==> is_num_char(lex[i]),
{
    let signed = lex.len() > 0 && lex[0] == '-';
    let t = if signed {
        lex.drop_first()
    } else {
        lex
    };
    let ilen: int = if t[0] == '0' {
        1
    } else {
        digits_len(t)
    };
    lemma_digits_are_digits(t);
    lemma_digits_len_bounds(t);
    if t[0] != '0' {
        assert(digits_len(t) >= 1);
    }
    lemma_number_tail_chars(t.skip(ilen));
    let off: int = if signed {
        1
    } else {
        0
    };
    assert forall|i: int| 0 <= i < lex.len() implies is_num_char(lex[i]) by {
        if i >= off {
            assert(lex[i] == t[i - off]);
            if i - off >= ilen {
                assert(t[i - off] == t.skip(ilen)[i - off - ilen]);
            }
        }
    }
}

/// At the head of `lex + rest`, the number run is exactly the lexeme.
proof fn lemma_num_prefix(lex: Seq<char>, rest: Seq<char>)
    requires
        is_number_lexeme(lex),
        rest.len() == 0 || !is_num_char(rest[0]),
    ensures
        num_run(lex + rest) == lex.len(),
        (lex + rest).take(lex.len() as int) == lex,
        (lex + rest).skip(lex.len() as int) == rest,
{
    lemma_lexeme_chars(lex);
    lemma_num_run_index(lex + rest, lex.len() as int);
    assert((lex + rest).take(lex.len() as int) =~= lex);
    assert((lex + rest).skip(lex.len() as int) =~= rest);
}

/// Reading back the hex digit of a value below 16 gives the value.
proof fn lemma_hex_round(n: int)
    requires
        0 <= n < 16,
    ensures
        hex_value(hex_digit(n)) == n,
{
}

/// Printed text is never empty, and its first character is never
/// whitespace nor a closing delimiter.
proof fn lemma_print_head(j: Json)
    requires
        wf_json(j),
    ensures
        print_json(j).len() >= 1,
        !is_ws(print_json(j)[0]),
        print_json(j)[0] != ']',
        print_json(j)[0] != '}',
        print_json(j)[0] != ',',
        print_json(j)[0] != ':',
{
    match j {
        Json::Num(lex) => {
            lemma_lexeme_chars(lex);
        },
        _ => {},
    }
}

/// Parsing an escaped string body gives back the original characters.
#[verifier::rlimit(100)]
#[verifier::spinoff_prover]
proof fn lemma_parse_string_esc(s: Seq<char>, rest: Seq<char>)
    ensures
        parse_string_body(esc_string(s) + seq!['"'] + rest) == Some((s, rest)),
    decreases s.len(),
{
    let input = esc_string(s) + seq!['"'] + rest;
    if s.len() == 0 {
        assert(esc_string(s) =~= Seq::<char>::empty());
        assert(input =~= seq!['"'] + rest);
        assert(input[0] == '"');
        assert(input.skip(1) =~= rest);
        assert(s =~= Seq::<char>::empty());
    } else {
        let c = s[0];
        let s1 = s.drop_first();
        let tail_input = esc_string(s1) + seq!['"'] + rest;
        lemma_parse_string_esc(s1, rest);
        assert(esc_string(s) == esc_char(c) + esc_string(s1));
        assert(input =~= esc_char(c) + tail_input);
        assert(seq![c] + s1 =~= s);
        if c == '"' || c == '\\' {
            assert(input[0] == '\\');
            assert(input[1] == c);
            assert(input.skip(2) =~= tail_input);
            assert(parse_string_body(input) == cons_str(c, parse_string_body(tail_input)));
        } else if c == '\n' {
            assert(input[0] == '\\');
            assert(input[1] == 'n');
            assert(input.skip(2) =~= tail_input);
            assert(parse_string_body(input) == cons_str(c, parse_string_body(tail_input)));
        } else if c == '\r' {
            assert(input[0] == '\\');
            assert(input[1] == 'r');
            assert(input.skip(2) =~= tail_input);
            assert(parse_string_body(input) == cons_str(c, parse_string_body(tail_input)));
        } else if c == '\t' {
            assert(input[0] == '\\');
            assert(input[1] == 't');
            assert(input.skip(2) =~= tail_input);
            assert(parse_string_body(input) == cons_str(c, parse_string_body(tail_input)));
        } else if (c as u32) < 32 {
            let cu = (c as u32) as int;
            assert(input[0] == '\\');
            assert(input[1] == 'u');
            assert(input[2] == '0');
            assert(input[3] == '0');
            assert(input[4] == hex_digit(cu / 16));
            assert(input[5] == hex_digit(cu % 16));
            lemma_hex_round(cu / 16);
            lemma_hex_round(cu % 16);
            assert(hex_value('0') == 0);
            let code = hex_value(input[2]) * 4096 + hex_value(input[3]) * 256 + hex_value(input[4])
                * 16 + hex_value(input[5]);
            assert(code == cu);
            assert(0 <= code < 32);
            vstd::utf8::char_u32_cast(c, c as u32);
            assert((code as u32) as char == c);
            assert(input.skip(6) =~= tail_input);
            assert(parse_string_body(input) == cons_str(c, parse_string_body(tail_input)));
        } else {
            assert(esc_char(c) =~= seq![c]);
            assert(input[0] == c);
            assert(input.skip(1) =~= tail_input);
            assert(parse_string_body(input) == cons_str(c, parse_string_body(tail_input)));
        }
    }
}

/// The leaf cases of the round trip: null, booleans, numbers, strings.
#[verifier::rlimit(100)]
#[verifier::spinoff_prover]
proof fn lemma_parse_print_atom(j: Json, rest: Seq<char>)
    requires
        wf_json(j),
        !(j is Arr),
        !(j is Obj),
        rest.len() == 0 || rest[0] == ',' || rest[0] == ']' || rest[0] == '}',
    ensures
        parse_value(print_json(j) + rest) == Some((j, rest)),
{
    let input = print_json(j) + rest;
    lemma_print_head(j);
    assert(input[0] == print_json(j)[0]);
    lemma_skip_ws(input);
    assert(skip_ws(input) == input);
    match j {
        Json::Null => {
            assert(input[0] == 'n' && input[1] == 'u' && input[2] == 'l' && input[3] == 'l');
            assert(input.skip(4) =~= rest);
        },
        Json::Bool(b) => {
            if b {
                assert(input[0] == 't' && input[1] == 'r' && input[2] == 'u' && input[3] == 'e');
                assert(input.skip(4) =~= rest);
            } else {
                assert(input[0] == 'f' && input[1] == 'a' && input[2] == 'l' && input[3] == 's'
                    && input[4] == 'e');
                assert(input.skip(5) =~= rest);
            }
        },
        Json::Num(lex) => {
            lemma_lexeme_chars(lex);
            assert(input =~= lex + rest);
            assert(rest.len() == 0 || !is_num_char(rest[0]));
            lemma_num_prefix(lex, rest);
            assert(input[0] != 'n' && input[0] != 't' && input[0] != 'f' && input[0] != '"'
                && input[0] != '[' && input[0] != '{');
        },
        Json::Str(body) => {
            assert(input[0] == '"');
            assert(input.skip(1) =~= esc_string(body) + seq!['"'] + rest);
            lemma_parse_string_esc(body, rest);
        },
        _ => {},
    }
}

/// Parsing the printed text of a well-formed value, followed by any text
/// that starts with a delimiter, gives back exactly that value.
#[verifier::rlimit(100)]
#[verifier::spinoff_prover]
pub proof fn lemma_parse_print(j: Json, rest: Seq<char>)
    requires
        wf_json(j),
        rest.len() == 0 || rest[0] == ',' || rest[0] == ']' || rest[0] == '}',
    ensures
        parse_value(print_json(j) + rest) == Some((j, rest)),
    decreases j, 0int,
{
    let input = print_json(j) + rest;
    lemma_print_head(j);
    assert(input[0] == print_json(j)[0]);
    lemma_skip_ws(input);
    assert(skip_ws(input) == input);
    match j {
        Json::Arr(es) => {
            assert(input[0] == '[');
            let inner = input.skip(1);
            if es.len() == 0 {
                assert(es =~= Seq::<Json>::empty());
                assert(print_items(es) =~= Seq::<char>::empty());
                assert(inner =~= seq![']'] + rest);
                lemma_skip_ws(inner);
                assert(skip_ws(inner) == inner);
                assert(inner[0] == ']');
                assert(inner.skip(1) =~= rest);
            } else {
                assert(inner =~= print_items(es) + seq![']'] + rest);
                let e0 = es[0];
                assert(wf_json(e0));
                lemma_print_head(e0);
                assert(print_items(es)[0] == print_json(e0)[0]);
                assert(inner[0] == print_json(e0)[0]);
                lemma_skip_ws(inner);
                assert(skip_ws(inner) == inner);
                assert(inner[0] != ']');
                assert(decreases_to!(j => j->Arr_0));
                lemma_parse_items_print(es, rest);
            }
        },
        Json::Obj(ms) => {
            assert(input[0] == '{');
            let inner = input.skip(1);
            if ms.len() == 0 {
                assert(ms =~= Seq::<(Seq<char>, Json)>::empty());
                assert(print_members(ms) =~= Seq::<char>::empty());
                assert(inner =~= seq!['}'] + rest);
                lemma_skip_ws(inner);
                assert(skip_ws(inner) == inner);
                assert(inner[0] == '}');
                assert(inner.skip(1) =~= rest);
            } else {
                assert(inner =~= print_members(ms) + seq!['}'] + rest);
                assert(print_members(ms)[0] == '"');
                assert(inner[0] == '"');
                lemma_skip_ws(inner);
                assert(skip_ws(inner) == inner);
                assert(decreases_to!(j => j->Obj_0));
                lemma_parse_members_print(ms, rest);
            }
        },
        _ => {
            lemma_parse_print_atom(j, rest);
        },
    }
}

/// Parsing the printed items of a non-empty array, followed by `]`, gives
/// back exactly those items.
#[verifier::rlimit(100)]
#[verifier::spinoff_prover]
proof fn lemma_parse_items_print(es: Seq<Json>, rest: Seq<char>)
    requires
        es.len() >= 1,
        forall|i: int| 0 <= i < es.len() ==> wf_json(#[trigger] es[i]),
        rest.len() == 0 || rest[0] == ',' || rest[0] == ']' || rest[0] == '}',
    ensures
        parse_items(print_items(es) + seq![']'] + rest) == Some((es, rest)),
    decreases es, 1int,
{
    let input = print_items(es) + seq![']'] + rest;
    let e0 = es[0];
    assert(wf_json(e0));
    lemma_print_head(e0);
    assert(decreases_to!(es => es[0]));
    if es.len() == 1 {
        assert(print_items(es) == print_json(e0));
        let rest0 = seq![']'] + rest;
        lemma_parse_print(e0, rest0);
        assert(print_json(e0) + rest0 =~= input);
        assert(parse_value(input) == Some((e0, rest0)));
        assert(rest0.len() < input.len());
        lemma_skip_ws(rest0);
        assert(skip_ws(rest0) == rest0);
        assert(rest0[0] == ']');
        assert(rest0.skip(1) =~= rest);
        assert(seq![e0] =~= es);
    } else {
        let es1 = es.drop_first();
        assert(es1.len() >= 1);
        assert(forall|i: int| 0 <= i < es1.len() ==> wf_json(#[trigger] es1[i])) by {
            assert forall|i: int| 0 <= i < es1.len() implies wf_json(#[trigger] es1[i]) by {
                assert(es1[i] == es[i + 1]);
            }
        }
        assert(print_items(es) == print_json(e0) + seq![','] + print_items(es1));
        let rest0 = seq![','] + print_items(es1) + seq![']'] + rest;
        lemma_parse_print(e0, rest0);
        assert(print_json(e0) + rest0 =~= input);
        assert(parse_value(input) == Some((e0, rest0)));
        assert(rest0.len() < input.len());
        lemma_skip_ws(rest0);
        assert(skip_ws(rest0) == rest0);
        assert(rest0[0] == ',');
        assert(rest0.skip(1) =~= print_items(es1) + seq![']'] + rest);
        assert(decreases_to!(es => es1));
        lemma_parse_items_print(es1, rest);
        assert(seq![e0] + es1 =~= es);
    }
}

/// Parsing a printed `"key":` prefix yields the key and leaves the rest.
#[verifier::rlimit(100)]
#[verifier::spinoff_prover]
proof fn lemma_parse_member_key(key: Seq<char>, after: Seq<char>)
    ensures
        parse_string_body((seq!['"'] + esc_string(key) + seq!['"', ':'] + after).skip(1)) == Some(
            (key, seq![':'] + after),
        ),
{
    let input = seq!['"'] + esc_string(key) + seq!['"', ':'] + after;
    assert(input.skip(1) =~= esc_string(key) + seq!['"'] + (seq![':'] + after));
    lemma_parse_string_esc(key, seq![':'] + after);
}

/// Parsing the printed members of a non-empty object, followed by `}`,
/// gives back exactly those members.
#[verifier::rlimit(100)]
#[verifier::spinoff_prover]
proof fn lemma_parse_members_print(ms: Seq<(Seq<char>, Json)>, rest: Seq<char>)
    requires
        ms.len() >= 1,
        forall|i: int| 0 <= i < ms.len() ==> wf_json(#[trigger] ms[i].1),
        rest.len() == 0 || rest[0] == ',' || rest[0] == ']' || rest[0] == '}',
    ensures
        parse_members(print_members(ms) + seq!['}'] + rest) == Some((ms, rest)),
    decreases ms, 1int,
{
    let input = print_members(ms) + seq!['}'] + rest;
    let key = ms[0].0;
    let v = ms[0].1;
    assert(wf_json(v));
    lemma_print_head(v);
    assert(decreases_to!(ms => ms[0]));
    assert(decreases_to!(ms[0] => ms[0].1));
    let tail: Seq<char> = if ms.len() == 1 {
        seq!['}'] + rest
    } else {
        seq![','] + print_members(ms.drop_first()) + seq!['}'] + rest
    };
    let after = print_json(v) + tail;
    assert(input =~= seq!['"'] + esc_string(key) + seq!['"', ':'] + after);
    assert(input[0] == '"');
    lemma_skip_ws(input);
    assert(skip_ws(input) == input);
    lemma_parse_member_key(key, after);
    let r1 = seq![':'] + after;
    assert(parse_string_body(input.skip(1)) == Some((key, r1)));
    assert(r1.len() < input.len());
    lemma_skip_ws(r1);
    assert(skip_ws(r1) == r1);
    assert(r1[0] == ':');
    assert(tail[0] == ',' || tail[0] == '}');
    lemma_parse_print(v, tail);
    assert(r1.skip(1) =~= print_json(v) + tail);
    assert(parse_value(r1.skip(1)) == Some((v, tail)));
    assert(tail.len() < r1.len());
    lemma_skip_ws(tail);
    assert(skip_ws(tail) == tail);
    if ms.len() == 1 {
        assert(tail[0] == '}');
        assert(tail.skip(1) =~= rest);
        assert(seq![(key, v)] =~= ms);
    } else {
        let ms1 = ms.drop_first();
        assert(ms1.len() >= 1);
        assert(forall|i: int| 0 <= i < ms1.len() ==> wf_json(#[trigger] ms1[i].1)) by {
            assert forall|i: int| 0 <= i < ms1.len() implies wf_json(#[trigger] ms1[i].1) by {
                assert(ms1[i] == ms[i + 1]);
            }
        }
        assert(tail[0] == ',');
        assert(tail.skip(1) =~= print_members(ms1) + seq!['}'] + rest);
        assert(decreases_to!(ms => ms1));
        lemma_parse_members_print(ms1, rest);
        assert(seq![(key, v)] + ms1 =~= ms);
    }
}

/// The round trip: a well-formed value, printed and parsed, is itself.
pub proof fn lemma_json_round_trip(j: Json)
    requires
        wf_json(j),
    ensures
        parse_json(print_json(j)) == Some(j),
{
    lemma_parse_print(j, Seq::<char>::empty());
    assert(print_json(j) + Seq::<char>::empty() =~= print_json(j));
    assert(skip_ws(Seq::<char>::empty()).len() == 0);
}

impl JsonValue {
    /// Parses a whole JSON document: one value with nothing but
    /// whitespace around it.
    pub fn parse_text(s: &str) -> (r: Option<JsonValue>)
        ensures
            r is Some <==> parse_json(s@) is Some,
            r is Some ==> parse_json(s@) == Some(r->Some_0@),
    {
        let chars = str_chars(s);
        match parse_value_chars(chars.as_slice()) {
            Some((v, rest)) => {
                proof {
                    lemma_skip_ws(rest@);
                }
                let tail = skip_ws_slice(rest);
                if tail.len() == 0 {
                    Some(v)
                } else {
                    None
                }
            },
            None => None,
        }
    }
}

impl JsonValue {
    /// The empty JSON object `{}`.
    pub fn empty_object() -> (r: JsonValue)
        ensures
            r@ == Json::Obj(Seq::<(Seq<char>, Json)>::empty()),
    {
        JsonValue::Obj(Vec::new())
    }

    /// Whether the value is JSON `null`.
    pub fn is_null(&self) -> (r: bool)
        ensures
            r == (self@ is Null),
    {
        match self {
            JsonValue::Null => true,
            _ => false,
        }
    }
}

} // verus!
