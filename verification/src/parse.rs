//! Best-effort JSON parsing of payload text. `parse_text` is the
//! specification of what a text means; the executable parser is proved to
//! compute it. The grammar covers objects, arrays, strings with the common
//! escapes, integer numbers, booleans and null; anything else is rejected
//! (a rejected payload degrades to a null value, it never aborts a dispatch).

use vstd::prelude::*;
use crate::json::Json;
use crate::json::JsonModel;
use crate::json::deep_fields;
use crate::json::deep_items;
use crate::json::lemma_deep_fields_prepend;
use crate::json::lemma_deep_items_prepend;
use crate::json::lemma_deep_items_len;
use crate::json::lemma_deep_items_index;
use crate::json::lemma_deep_fields_len;
use crate::json::lemma_deep_fields_index;
use crate::text::str_chars;
use crate::text::chars_string;

verus! {

/// JSON whitespace.
pub open spec fn is_ws(c: char) -> bool {
    c == ' ' || c == '\n' || c == '\t' || c == '\r'
}

/// A decimal digit character.
pub open spec fn is_digit(c: char) -> bool {
    c == '0' || c == '1' || c == '2' || c == '3' || c == '4' || c == '5' || c == '6' || c == '7'
        || c == '8' || c == '9'
}

/// The value of a decimal digit character.
pub open spec fn digit_val(c: char) -> nat {
    if c == '0' {
        0
    } else if c == '1' {
        1
    } else if c == '2' {
        2
    } else if c == '3' {
        3
    } else if c == '4' {
        4
    } else if c == '5' {
        5
    } else if c == '6' {
        6
    } else if c == '7' {
        7
    } else if c == '8' {
        8
    } else {
        9
    }
}

/// The first position at or after `i` holding no whitespace.
pub open spec fn skip_ws(s: Seq<char>, i: int) -> int
    decreases s.len() - i,
        when 0 <= i <= s.len()
{
    if 0 <= i < s.len() && is_ws(s[i]) {
        skip_ws(s, i + 1)
    } else {
        i
    }
}

/// Skipping whitespace never moves backwards nor past the end.
pub proof fn lemma_skip_ws(s: Seq<char>, i: int)
    requires
        0 <= i <= s.len(),
    ensures
        i <= skip_ws(s, i) <= s.len(),
    decreases s.len() - i,
{
    if i < s.len() && is_ws(s[i]) {
        lemma_skip_ws(s, i + 1);
    }
}

/// Reads the maximal digit run from `i`, folding the digits onto `acc`;
/// yields the folded value and the position after the run.
pub open spec fn read_digits(s: Seq<char>, i: int, acc: nat) -> (nat, int)
    decreases s.len() - i,
        when 0 <= i <= s.len()
{
    if 0 <= i < s.len() && is_digit(s[i]) {
        read_digits(s, i + 1, acc * 10 + digit_val(s[i]))
    } else {
        (acc, i)
    }
}

/// The body of a string literal starting at `i` (right after the opening
/// quote): the decoded characters and the position after the closing quote.
pub open spec fn parse_string_body(s: Seq<char>, i: int) -> Option<(Seq<char>, int)>
    decreases s.len() - i,
        when 0 <= i <= s.len()
{
    if !(0 <= i < s.len()) {
        None
    } else if s[i] == '"' {
        Some((Seq::empty(), i + 1))
    } else if s[i] == '\\' {
        if i + 1 < s.len() && (s[i + 1] == '"' || s[i + 1] == '\\' || s[i + 1] == '/' || s[i + 1]
            == 'n' || s[i + 1] == 't' || s[i + 1] == 'r') {
            let c = if s[i + 1] == 'n' {
                '\n'
            } else if s[i + 1] == 't' {
                '\t'
            } else if s[i + 1] == 'r' {
                '\r'
            } else {
                s[i + 1]
            };
            match parse_string_body(s, i + 2) {
                Some((rest, j)) => Some((seq![c] + rest, j)),
                None => None,
            }
        } else {
            None
        }
    } else {
        match parse_string_body(s, i + 1) {
            Some((rest, j)) => Some((seq![s[i]] + rest, j)),
            None => None,
        }
    }
}

/// The largest magnitude a parsed number may carry: the magnitude of the
/// most negative 64-bit integer.
pub open spec fn max_neg_magnitude() -> nat {
    9223372036854775808
}

/// A number starting at `i` (a minus sign or a digit): its value and the
/// position after its digits. Out-of-range values are rejected.
pub open spec fn parse_number(s: Seq<char>, i: int) -> Option<(JsonModel, int)> {
    if !(0 <= i < s.len()) {
        None
    } else {
        let neg = s[i] == '-';
        let ds = if neg {
            i + 1
        } else {
            i
        };
        if 0 <= ds < s.len() && is_digit(s[ds]) {
            let (n, j) = read_digits(s, ds, 0);
            if neg {
                if n > max_neg_magnitude() {
                    None
                } else {
                    Some((JsonModel::Int(-(n as int)), j))
                }
            } else {
                if n > max_neg_magnitude() - 1 {
                    None
                } else {
                    Some((JsonModel::Int(n as int), j))
                }
            }
        } else {
            None
        }
    }
}

/// A JSON value starting at or after `i` (leading whitespace allowed): the
/// value and the position right after its text.
pub open spec fn parse_value(s: Seq<char>, i: int) -> Option<(JsonModel, int)>
    decreases s.len() - i, 0int,
        when 0 <= i <= s.len()
{
    let j = skip_ws(s, i);
    proof {
        lemma_skip_ws(s, i);
    }
    if !(0 <= j < s.len()) {
        None
    } else if s[j] == 'n' {
        if j + 4 <= s.len() && s[j + 1] == 'u' && s[j + 2] == 'l' && s[j + 3] == 'l' {
            Some((JsonModel::Null, j + 4))
        } else {
            None
        }
    } else if s[j] == 't' {
        if j + 4 <= s.len() && s[j + 1] == 'r' && s[j + 2] == 'u' && s[j + 3] == 'e' {
            Some((JsonModel::Bool(true), j + 4))
        } else {
            None
        }
    } else if s[j] == 'f' {
        if j + 5 <= s.len() && s[j + 1] == 'a' && s[j + 2] == 'l' && s[j + 3] == 's' && s[j + 4]
            == 'e' {
            Some((JsonModel::Bool(false), j + 5))
        } else {
            None
        }
    } else if s[j] == '"' {
        match parse_string_body(s, j + 1) {
            Some((cs, k)) => Some((JsonModel::Str(cs), k)),
            None => None,
        }
    } else if s[j] == '[' {
        let k = skip_ws(s, j + 1);
        proof {
            lemma_skip_ws(s, j + 1);
        }
        if 0 <= k < s.len() && s[k] == ']' {
            Some((JsonModel::Arr(Seq::empty()), k + 1))
        } else {
            match parse_arr_items(s, j + 1) {
                Some((items, m)) => Some((JsonModel::Arr(items), m)),
                None => None,
            }
        }
    } else if s[j] == '{' {
        let k = skip_ws(s, j + 1);
        proof {
            lemma_skip_ws(s, j + 1);
        }
        if 0 <= k < s.len() && s[k] == '}' {
            Some((JsonModel::Obj(Seq::empty()), k + 1))
        } else {
            match parse_obj_items(s, j + 1) {
                Some((fields, m)) => Some((JsonModel::Obj(fields), m)),
                None => None,
            }
        }
    } else if s[j] == '-' || is_digit(s[j]) {
        parse_number(s, j)
    } else {
        None
    }
}

/// One or more comma-separated array elements starting at `i`, up to and
/// including the closing bracket.
pub open spec fn parse_arr_items(s: Seq<char>, i: int) -> Option<(Seq<JsonModel>, int)>
    decreases s.len() - i, 1int,
        when 0 <= i <= s.len()
{
    match parse_value(s, i) {
        None => None,
        Some((v, j)) => {
            if !(0 <= j <= s.len()) {
                None
            } else {
                let k = skip_ws(s, j);
                proof {
                    lemma_skip_ws(s, j);
                }
                if 0 <= k < s.len() && s[k] == ']' {
                    Some((seq![v], k + 1))
                } else if 0 <= k < s.len() && s[k] == ',' && k + 1 > i {
                    match parse_arr_items(s, k + 1) {
                        Some((rest, m)) => Some((seq![v] + rest, m)),
                        None => None,
                    }
                } else {
                    None
                }
            }
        },
    }
}

/// One or more comma-separated object fields starting at `i`, up to and
/// including the closing brace.
pub open spec fn parse_obj_items(s: Seq<char>, i: int) -> Option<
    (Seq<(Seq<char>, JsonModel)>, int),
>
    decreases s.len() - i, 1int,
        when 0 <= i <= s.len()
{
    let k0 = skip_ws(s, i);
    proof {
        lemma_skip_ws(s, i);
    }
    if !(0 <= k0 < s.len() && s[k0] == '"') {
        None
    } else {
        match parse_string_body(s, k0 + 1) {
            None => None,
            Some((key, j1)) => {
                if !(0 <= j1 <= s.len()) {
                    None
                } else {
                    let c = skip_ws(s, j1);
                    proof {
                        lemma_skip_ws(s, j1);
                    }
                    if 0 <= c < s.len() && s[c] == ':' && c + 1 > i {
                        match parse_value(s, c + 1) {
                            None => None,
                            Some((v, j2)) => {
                                if !(0 <= j2 <= s.len()) {
                                    None
                                } else {
                                    let k = skip_ws(s, j2);
                                    proof {
                                        lemma_skip_ws(s, j2);
                                    }
                                    if 0 <= k < s.len() && s[k] == '}' {
                                        Some((seq![(key, v)], k + 1))
                                    } else if 0 <= k < s.len() && s[k] == ',' && k + 1 > i {
                                        match parse_obj_items(s, k + 1) {
                                            Some((rest, m)) => Some((seq![(key, v)] + rest, m)),
                                            None => None,
                                        }
                                    } else {
                                        None
                                    }
                                }
                            },
                        }
                    } else {
                        None
                    }
                }
            },
        }
    }
}

/// The meaning of a whole text: its one JSON value, with whitespace allowed
/// around it, or nothing where the text is not JSON this parser accepts.
pub open spec fn parse_text(s: Seq<char>) -> Option<JsonModel> {
    match parse_value(s, 0) {
        None => None,
        Some((v, j)) => {
            if 0 <= j <= s.len() && skip_ws(s, j) == s.len() {
                Some(v)
            } else {
                None
            }
        },
    }
}

/// Whether a character is a decimal digit.
fn is_digit_exec(c: char) -> (r: bool)
    ensures
        r == is_digit(c),
{
    c == '0' || c == '1' || c == '2' || c == '3' || c == '4' || c == '5' || c == '6' || c == '7'
        || c == '8' || c == '9'
}

/// The value of a decimal digit character.
fn digit_val_exec(c: char) -> (r: u64)
    requires
        is_digit(c),
    ensures
        r as nat == digit_val(c),
        r < 10,
{
    if c == '0' {
        0
    } else if c == '1' {
        1
    } else if c == '2' {
        2
    } else if c == '3' {
        3
    } else if c == '4' {
        4
    } else if c == '5' {
        5
    } else if c == '6' {
        6
    } else if c == '7' {
        7
    } else if c == '8' {
        8
    } else {
        9
    }
}

/// Advances past whitespace.
fn skip_ws_exec(s: &Vec<char>, i: usize) -> (r: usize)
    requires
        i <= s@.len(),
    ensures
        r as int == skip_ws(s@, i as int),
        i <= r <= s@.len(),
{
    let mut p = i;
    while p < s.len() && (s[p] == ' ' || s[p] == '\n' || s[p] == '\t' || s[p] == '\r')
        invariant
            i <= p <= s@.len(),
            skip_ws(s@, i as int) == skip_ws(s@, p as int),
        decreases s@.len() - p,
    {
        p += 1;
    }
    p
}

/// Parses a string literal body; see `parse_string_body`.
fn parse_string_body_exec(s: &Vec<char>, i: usize) -> (r: Option<(Vec<char>, usize)>)
    requires
        i <= s@.len(),
    ensures
        match r {
            Some(p) => parse_string_body(s@, i as int) == Some((p.0@, p.1 as int)) && i < p.1
                <= s@.len(),
            None => parse_string_body(s@, i as int) is None,
        },
    decreases s@.len() - i,
{
    if i >= s.len() {
        return None;
    }
    let c = s[i];
    if c == '"' {
        let empty: Vec<char> = Vec::new();
        return Some((empty, i + 1));
    }
    if c == '\\' {
        if i + 1 < s.len() {
            let e = s[i + 1];
            if e == '"' || e == '\\' || e == '/' || e == 'n' || e == 't' || e == 'r' {
                let dec = if e == 'n' {
                    '\n'
                } else if e == 't' {
                    '\t'
                } else if e == 'r' {
                    '\r'
                } else {
                    e
                };
                match parse_string_body_exec(s, i + 2) {
                    Some(p) => {
                        let (rest, j) = p;
                        let mut out = rest;
                        out.insert(0, dec);
                        proof {
                            assert(out@ =~= seq![dec] + out@.skip(1));
                        }
                        Some((out, j))
                    },
                    None => None,
                }
            } else {
                None
            }
        } else {
            None
        }
    } else {
        match parse_string_body_exec(s, i + 1) {
            Some(p) => {
                let (rest, j) = p;
                let mut out = rest;
                out.insert(0, c);
                proof {
                    assert(out@ =~= seq![c] + out@.skip(1));
                }
                Some((out, j))
            },
            None => None,
        }
    }
}

/// Parses a number; see `parse_number`.
fn parse_number_exec(s: &Vec<char>, i: usize) -> (r: Option<(Json, usize)>)
    requires
        i <= s@.len(),
    ensures
        match r {
            Some(p) => parse_number(s@, i as int) == Some((p.0@, p.1 as int)) && i <= p.1
                <= s@.len(),
            None => parse_number(s@, i as int) is None,
        },
{
    if i >= s.len() {
        return None;
    }
    let neg = s[i] == '-';
    let ds = if neg {
        i + 1
    } else {
        i
    };
    if !(ds < s.len() && is_digit_exec(s[ds])) {
        return None;
    }
    let mut p = ds;
    let mut acc: u128 = 0;
    let ghost mut exact: nat = 0;
    let mut over = false;
    while p < s.len() && is_digit_exec(s[p])
        invariant
            ds <= p <= s@.len(),
            read_digits(s@, ds as int, 0) == read_digits(s@, p as int, exact),
            !over ==> acc as nat == exact && exact <= max_neg_magnitude(),
            over ==> exact > max_neg_magnitude(),
        decreases s@.len() - p,
    {
        let d = digit_val_exec(s[p]);
        proof {
            exact = exact * 10 + digit_val(s@[p as int]);
        }
        if !over {
            acc = acc * 10 + (d as u128);
            if acc > 9223372036854775808u128 {
                over = true;
            }
        }
        p += 1;
    }
    proof {
        assert(read_digits(s@, p as int, exact) == (exact, p as int));
    }
    if neg {
        if over {
            return None;
        }
        let v: i64 = if acc == 9223372036854775808u128 {
            i64::MIN
        } else {
            -((acc as u64) as i64)
        };
        Some((Json::Int(v), p))
    } else {
        if over || acc > 9223372036854775807u128 {
            return None;
        }
        Some((Json::Int((acc as u64) as i64), p))
    }
}

/// Parses one JSON value; see `parse_value`.
fn parse_value_exec(s: &Vec<char>, i: usize) -> (r: Option<(Json, usize)>)
    requires
        i <= s@.len(),
    ensures
        match r {
            Some(p) => parse_value(s@, i as int) == Some((p.0@, p.1 as int)) && i <= p.1
                <= s@.len(),
            None => parse_value(s@, i as int) is None,
        },
    decreases s@.len() - i, 0int,
{
    let j = skip_ws_exec(s, i);
    if j >= s.len() {
        return None;
    }
    let c = s[j];
    if c == 'n' {
        if s.len() - j >= 4 && s[j + 1] == 'u' && s[j + 2] == 'l' && s[j + 3] == 'l' {
            Some((Json::Null, j + 4))
        } else {
            None
        }
    } else if c == 't' {
        if s.len() - j >= 4 && s[j + 1] == 'r' && s[j + 2] == 'u' && s[j + 3] == 'e' {
            Some((Json::Bool(true), j + 4))
        } else {
            None
        }
    } else if c == 'f' {
        if s.len() - j >= 5 && s[j + 1] == 'a' && s[j + 2] == 'l' && s[j + 3] == 's' && s[j + 4]
            == 'e' {
            Some((Json::Bool(false), j + 5))
        } else {
            None
        }
    } else if c == '"' {
        match parse_string_body_exec(s, j + 1) {
            Some(p) => {
                let (cs, k) = p;
                let text = chars_string(&cs);
                Some((Json::Str(text), k))
            },
            None => None,
        }
    } else if c == '[' {
        let k = skip_ws_exec(s, j + 1);
        if k < s.len() && s[k] == ']' {
            let empty: Vec<Json> = Vec::new();
            proof {
                lemma_deep_items_len(empty@);
                assert(deep_items(empty@) =~= Seq::<JsonModel>::empty());
            }
            Some((Json::Arr(empty), k + 1))
        } else {
            match parse_arr_items_exec(s, j + 1) {
                Some(p) => {
                    let (items, m) = p;
                    Some((Json::Arr(items), m))
                },
                None => None,
            }
        }
    } else if c == '{' {
        let k = skip_ws_exec(s, j + 1);
        if k < s.len() && s[k] == '}' {
            let empty: Vec<(String, Json)> = Vec::new();
            proof {
                lemma_deep_fields_len(empty@);
                assert(deep_fields(empty@) =~= Seq::<(Seq<char>, JsonModel)>::empty());
            }
            Some((Json::Obj(empty), k + 1))
        } else {
            match parse_obj_items_exec(s, j + 1) {
                Some(p) => {
                    let (fields, m) = p;
                    Some((Json::Obj(fields), m))
                },
                None => None,
            }
        }
    } else if c == '-' || is_digit_exec(c) {
        parse_number_exec(s, j)
    } else {
        None
    }
}

/// Parses array elements; see `parse_arr_items`.
fn parse_arr_items_exec(s: &Vec<char>, i: usize) -> (r: Option<(Vec<Json>, usize)>)
    requires
        i <= s@.len(),
    ensures
        match r {
            Some(p) => parse_arr_items(s@, i as int) == Some((deep_items(p.0@), p.1 as int)) && i
                <= p.1 <= s@.len(),
            None => parse_arr_items(s@, i as int) is None,
        },
    decreases s@.len() - i, 1int,
{
    match parse_value_exec(s, i) {
        None => None,
        Some(p0) => {
            let (v, j) = p0;
            let k = skip_ws_exec(s, j);
            if k < s.len() && s[k] == ']' {
                let mut out: Vec<Json> = Vec::new();
                out.push(v);
                proof {
                    lemma_deep_items_len(out@);
                    lemma_deep_items_index(out@, 0);
                    assert(deep_items(out@) =~= seq![out@[0]@]);
                }
                Some((out, k + 1))
            } else if k < s.len() && s[k] == ',' && k + 1 > i {
                match parse_arr_items_exec(s, k + 1) {
                    Some(p1) => {
                        let (rest, m) = p1;
                        let ghost rv = rest@;
                        let mut out = rest;
                        out.insert(0, v);
                        proof {
                            assert(out@ =~= rv.insert(0, v));
                            lemma_deep_items_prepend(rv, v);
                        }
                        Some((out, m))
                    },
                    None => None,
                }
            } else {
                None
            }
        },
    }
}

/// Parses object fields; see `parse_obj_items`.
fn parse_obj_items_exec(s: &Vec<char>, i: usize) -> (r: Option<(Vec<(String, Json)>, usize)>)
    requires
        i <= s@.len(),
    ensures
        match r {
            Some(p) => parse_obj_items(s@, i as int) == Some((deep_fields(p.0@), p.1 as int)) && i
                <= p.1 <= s@.len(),
            None => parse_obj_items(s@, i as int) is None,
        },
    decreases s@.len() - i, 1int,
{
    let k0 = skip_ws_exec(s, i);
    if !(k0 < s.len() && s[k0] == '"') {
        return None;
    }
    match parse_string_body_exec(s, k0 + 1) {
        None => None,
        Some(p0) => {
            let (key_chars, j1) = p0;
            let key = chars_string(&key_chars);
            let c = skip_ws_exec(s, j1);
            if c < s.len() && s[c] == ':' && c + 1 > i {
                match parse_value_exec(s, c + 1) {
                    None => None,
                    Some(p1) => {
                        let (v, j2) = p1;
                        let k = skip_ws_exec(s, j2);
                        if k < s.len() && s[k] == '}' {
                            let mut out: Vec<(String, Json)> = Vec::new();
                            out.push((key, v));
                            proof {
                                lemma_deep_fields_len(out@);
                                lemma_deep_fields_index(out@, 0);
                                assert(deep_fields(out@) =~= seq![(out@[0].0@, out@[0].1@)]);
                            }
                            Some((out, k + 1))
                        } else if k < s.len() && s[k] == ',' && k + 1 > i {
                            match parse_obj_items_exec(s, k + 1) {
                                Some(p2) => {
                                    let (rest, m) = p2;
                                    let ghost rv = rest@;
                                    let mut out = rest;
                                    out.insert(0, (key, v));
                                    proof {
                                        assert(out@ =~= rv.insert(0, out@[0]));
                                        lemma_deep_fields_prepend(rv, out@[0]);
                                    }
                                    Some((out, m))
                                },
                                None => None,
                            }
                        } else {
                            None
                        }
                    },
                }
            } else {
                None
            }
        },
    }
}

/// Parses a whole text as one JSON value; the result is exactly
/// `parse_text` of the text.
pub fn parse_json(s: &str) -> (r: Option<Json>)
    ensures
        match r {
            Some(v) => parse_text(s@) == Some(v@),
            None => parse_text(s@) is None,
        },
{
    let cs = str_chars(s);
    match parse_value_exec(&cs, 0) {
        None => None,
        Some(p) => {
            let (v, j) = p;
            let k = skip_ws_exec(&cs, j);
            if k == cs.len() {
                Some(v)
            } else {
                None
            }
        },
    }
}

} // verus!
