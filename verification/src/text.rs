//! Serialization of JSON values to text. `text_of` is the specification of
//! the exact character sequence the container returns from a dispatch; the
//! executable writer is proved to produce it.

use vstd::prelude::*;
use crate::json::Json;
use crate::json::JsonModel;
use crate::json::deep_fields;
use crate::json::deep_items;
use crate::json::lemma_deep_fields_index;
use crate::json::lemma_deep_fields_len;
use crate::json::lemma_deep_items_index;
use crate::json::lemma_deep_items_len;

verus! {

/// The character for one decimal digit.
pub open spec fn digit_char(d: int) -> char {
    if d == 0 {
        '0'
    } else if d == 1 {
        '1'
    } else if d == 2 {
        '2'
    } else if d == 3 {
        '3'
    } else if d == 4 {
        '4'
    } else if d == 5 {
        '5'
    } else if d == 6 {
        '6'
    } else if d == 7 {
        '7'
    } else if d == 8 {
        '8'
    } else {
        '9'
    }
}

/// The decimal digits of a natural number, most significant first.
pub open spec fn dec_digits(n: nat) -> Seq<char>
    decreases n,
{
    if n < 10 {
        seq![digit_char(n as int)]
    } else {
        dec_digits(n / 10).push(digit_char((n % 10) as int))
    }
}

/// The canonical text of an integer: a minus sign for negative values,
/// then the decimal digits of the magnitude.
pub open spec fn int_text(i: int) -> Seq<char> {
    if i < 0 {
        seq!['-'] + dec_digits((-i) as nat)
    } else {
        dec_digits(i as nat)
    }
}

/// How one character appears inside a JSON string literal: quotes,
/// backslashes, newlines, tabs and carriage returns are escaped, every
/// other character stands as itself.
pub open spec fn esc_char(c: char) -> Seq<char> {
    if c == '"' {
        seq!['\\', '"']
    } else if c == '\\' {
        seq!['\\', '\\']
    } else if c == '\n' {
        seq!['\\', 'n']
    } else if c == '\t' {
        seq!['\\', 't']
    } else if c == '\r' {
        seq!['\\', 'r']
    } else {
        seq![c]
    }
}

/// The body of a JSON string literal (without the surrounding quotes).
pub open spec fn str_text(s: Seq<char>) -> Seq<char>
    decreases s.len(),
{
    if s.len() == 0 {
        Seq::empty()
    } else {
        esc_char(s[0]) + str_text(s.skip(1))
    }
}

/// The canonical serialized text of a JSON value: compact form, no
/// whitespace, fields in model order.
pub open spec fn text_of(v: JsonModel) -> Seq<char>
    decreases v,
{
    match v {
        JsonModel::Null => seq!['n', 'u', 'l', 'l'],
        JsonModel::Bool(b) => if b {
            seq!['t', 'r', 'u', 'e']
        } else {
            seq!['f', 'a', 'l', 's', 'e']
        },
        JsonModel::Int(i) => int_text(i),
        JsonModel::Str(s) => seq!['"'] + str_text(s) + seq!['"'],
        JsonModel::Arr(items) => {
            proof {
                assert(decreases_to!(v => v->Arr_0));
            }
            seq!['['] + arr_text(items) + seq![']']
        },
        JsonModel::Obj(fields) => {
            proof {
                assert(decreases_to!(v => v->Obj_0));
            }
            seq!['{'] + obj_text(fields) + seq!['}']
        },
    }
}

/// The comma-separated texts of the elements of an array.
pub open spec fn arr_text(items: Seq<JsonModel>) -> Seq<char>
    decreases items,
{
    if items.len() == 0 {
        Seq::empty()
    } else if items.len() == 1 {
        text_of(items[0])
    } else {
        arr_text(items.drop_last()) + seq![','] + text_of(items.last())
    }
}

/// The comma-separated `"key":value` texts of the fields of an object.
pub open spec fn obj_text(fields: Seq<(Seq<char>, JsonModel)>) -> Seq<char>
    decreases fields,
{
    if fields.len() == 0 {
        Seq::empty()
    } else {
        let head = if fields.len() == 1 {
            Seq::<char>::empty()
        } else {
            obj_text(fields.drop_last()) + seq![',']
        };
        proof {
            assert(decreases_to!(fields => fields[fields.len() - 1]));
            assert(decreases_to!(fields[fields.len() - 1] => fields[fields.len() - 1].1));
        }
        head + seq!['"'] + str_text(fields.last().0) + seq!['"', ':'] + text_of(fields.last().1)
    }
}

/// Appends one character to a `String`.
/// Relies on `String::push`: it appends the given character to the end.
#[verifier::external_body]
fn push_char(s: &mut String, c: char)
    ensures
        final(s)@ == old(s)@ + seq![c],
{
    s.push(c);
}

/// The characters of a string slice, in order.
/// Relies on `str::chars`: it yields the characters of the slice, first to
/// last, and collecting them gives exactly that sequence.
#[verifier::external_body]
pub(crate) fn str_chars(s: &str) -> (r: Vec<char>)
    ensures
        r@ == s@,
{
    s.chars().collect()
}

/// A `String` holding exactly the given characters.
pub fn chars_string(v: &Vec<char>) -> (r: String)
    ensures
        r@ == v@,
{
    let mut s = String::new();
    let mut i: usize = 0;
    while i < v.len()
        invariant
            i <= v.len(),
            s@ == v@.take(i as int),
        decreases v.len() - i,
    {
        push_char(&mut s, v[i]);
        proof {
            assert(v@.take(i as int) + seq![v@[i as int]] =~= v@.take(i + 1 as int));
        }
        i += 1;
    }
    proof {
        assert(v@.take(v@.len() as int) =~= v@);
    }
    s
}

/// Writes one decimal digit.
fn push_digit_char(d: u64, out: &mut Vec<char>)
    requires
        d < 10,
    ensures
        final(out)@ == old(out)@ + seq![digit_char(d as int)],
{
    let c = if d == 0 {
        '0'
    } else if d == 1 {
        '1'
    } else if d == 2 {
        '2'
    } else if d == 3 {
        '3'
    } else if d == 4 {
        '4'
    } else if d == 5 {
        '5'
    } else if d == 6 {
        '6'
    } else if d == 7 {
        '7'
    } else if d == 8 {
        '8'
    } else {
        '9'
    };
    out.push(c);
}

/// Writes the decimal digits of `n`, most significant first.
fn push_digits(n: u64, out: &mut Vec<char>)
    ensures
        final(out)@ == old(out)@ + dec_digits(n as nat),
    decreases n,
{
    if n >= 10 {
        push_digits(n / 10, out);
    }
    push_digit_char(n % 10, out);
    proof {
        if n < 10 {
            assert(old(out)@ + seq![digit_char((n % 10) as int)] =~= old(out)@ + dec_digits(
                n as nat,
            ));
        } else {
            assert((old(out)@ + dec_digits((n / 10) as nat)) + seq![digit_char((n % 10) as int)]
                =~= old(out)@ + dec_digits(n as nat));
        }
    }
}

/// Writes the canonical text of an integer.
fn push_int(v: i64, out: &mut Vec<char>)
    ensures
        final(out)@ == old(out)@ + int_text(v as int),
{
    if v < 0 {
        out.push('-');
        let mag: u64 = if v == i64::MIN {
            9223372036854775808u64
        } else {
            (-v) as u64
        };
        assert(mag as nat == (-(v as int)) as nat);
        push_digits(mag, out);
        proof {
            assert((old(out)@ + seq!['-']) + dec_digits(mag as nat) =~= old(out)@ + int_text(
                v as int,
            ));
        }
    } else {
        push_digits(v as u64, out);
    }
}

/// Writes the body of a JSON string literal, escaping as `esc_char` says.
#[verifier::loop_isolation(false)]
fn push_escaped(cs: &Vec<char>, out: &mut Vec<char>)
    ensures
        final(out)@ == old(out)@ + str_text(cs@),
{
    let mut i: usize = 0;
    while i < cs.len()
        invariant
            i <= cs.len(),
            out@ == old(out)@ + str_text(cs@.take(i as int)),
        decreases cs.len() - i,
    {
        let c = cs[i];
        if c == '"' {
            out.push('\\');
            out.push('"');
        } else if c == '\\' {
            out.push('\\');
            out.push('\\');
        } else if c == '\n' {
            out.push('\\');
            out.push('n');
        } else if c == '\t' {
            out.push('\\');
            out.push('t');
        } else if c == '\r' {
            out.push('\\');
            out.push('r');
        } else {
            out.push(c);
        }
        proof {
            lemma_str_text_snoc(cs@.take(i as int), cs@[i as int]);
            assert(cs@.take(i as int).push(cs@[i as int]) =~= cs@.take(i + 1 as int));
        }
        i += 1;
    }
    proof {
        assert(cs@.take(cs@.len() as int) =~= cs@);
    }
}

/// Appending one character to a string appends its escaped form to the
/// string literal body.
proof fn lemma_str_text_snoc(s: Seq<char>, c: char)
    ensures
        str_text(s.push(c)) == str_text(s) + esc_char(c),
    decreases s.len(),
{
    if s.len() == 0 {
        assert(s.push(c).skip(1) =~= Seq::<char>::empty());
        assert(str_text(Seq::<char>::empty()) == Seq::<char>::empty());
        assert(str_text(s.push(c)) == esc_char(c) + str_text(Seq::<char>::empty()));
        assert(str_text(s.push(c)) =~= str_text(s) + esc_char(c));
    } else {
        assert(s.push(c).skip(1) =~= s.skip(1).push(c));
        lemma_str_text_snoc(s.skip(1), c);
        assert(str_text(s.push(c)) =~= str_text(s) + esc_char(c));
    }
}

/// Writes the fields of an object, without the surrounding braces.
#[verifier::loop_isolation(false)]
fn write_obj_fields(fields: &Vec<(String, Json)>, out: &mut Vec<char>)
    ensures
        final(out)@ == old(out)@ + obj_text(deep_fields(fields@)),
    decreases fields,
{
    let mut i: usize = 0;
    while i < fields.len()
        invariant
            i <= fields.len(),
            out@ == old(out)@ + obj_text(deep_fields(fields@).take(i as int)),
        decreases fields.len() - i,
    {
        proof {
            lemma_deep_fields_len(fields@);
            lemma_deep_fields_index(fields@, i as int);
        }
        if i > 0 {
            out.push(',');
        }
        out.push('"');
        let key_chars = str_chars(fields[i].0.as_str());
        push_escaped(&key_chars, out);
        out.push('"');
        out.push(':');
        proof {
            assert(decreases_to!(fields => fields@));
            assert(decreases_to!(fields@ => fields@[i as int]));
            assert(decreases_to!(fields@[i as int] => fields@[i as int].1));
        }
        write_json(&fields[i].1, out);
        proof {
            let df = deep_fields(fields@);
            assert(df.take(i + 1 as int).drop_last() =~= df.take(i as int));
            assert(df.take(i + 1 as int).last() == df[i as int]);
            assert(out@ =~= old(out)@ + obj_text(df.take(i + 1 as int)));
        }
        i += 1;
    }
    proof {
        lemma_deep_fields_len(fields@);
        assert(deep_fields(fields@).take(fields@.len() as int) =~= deep_fields(fields@));
    }
}

/// Writes the canonical serialized text of a JSON value.
#[verifier::loop_isolation(false)]
pub fn write_json(v: &Json, out: &mut Vec<char>)
    ensures
        final(out)@ == old(out)@ + text_of(v@),
    decreases v,
{
    match v {
        Json::Null => {
            out.push('n');
            out.push('u');
            out.push('l');
            out.push('l');
            proof {
                assert(out@ =~= old(out)@ + text_of(v@));
            }
        },
        Json::Bool(b) => {
            if *b {
                out.push('t');
                out.push('r');
                out.push('u');
                out.push('e');
            } else {
                out.push('f');
                out.push('a');
                out.push('l');
                out.push('s');
                out.push('e');
            }
            proof {
                assert(out@ =~= old(out)@ + text_of(v@));
            }
        },
        Json::Int(i) => {
            push_int(*i, out);
        },
        Json::Str(s) => {
            out.push('"');
            let cs = str_chars(s.as_str());
            push_escaped(&cs, out);
            out.push('"');
            proof {
                assert(out@ =~= old(out)@ + text_of(v@));
            }
        },
        Json::Arr(items) => {
            out.push('[');
            let mut i: usize = 0;
            while i < items.len()
                invariant
                    i <= items.len(),
                    out@ == old(out)@ + seq!['['] + arr_text(deep_items(items@).take(i as int)),
                decreases items.len() - i,
            {
                proof {
                    lemma_deep_items_len(items@);
                    lemma_deep_items_index(items@, i as int);
                }
                if i > 0 {
                    out.push(',');
                }
                proof {
                    assert(decreases_to!(v => v->Arr_0));
                    assert(decreases_to!(v->Arr_0 => v->Arr_0@));
                    assert(decreases_to!(v->Arr_0@ => v->Arr_0@[i as int]));
                }
                write_json(&items[i], out);
                proof {
                    let di = deep_items(items@);
                    assert(di.take(i + 1 as int).drop_last() =~= di.take(i as int));
                    assert(di.take(i + 1 as int).last() == di[i as int]);
                    assert(out@ =~= old(out)@ + seq!['['] + arr_text(di.take(i + 1 as int)));
                }
                i += 1;
            }
            out.push(']');
            proof {
                lemma_deep_items_len(items@);
                assert(deep_items(items@).take(items@.len() as int) =~= deep_items(items@));
                assert(out@ =~= old(out)@ + text_of(v@));
            }
        },
        Json::Obj(fields) => {
            out.push('{');
            write_obj_fields(fields, out);
            out.push('}');
            proof {
                assert(out@ =~= old(out)@ + text_of(v@));
            }
        },
    }
}

/// The canonical serialized text of a JSON value, as a `String`.
pub fn json_text(v: &Json) -> (r: String)
    ensures
        r@ == text_of(v@),
{
    let mut out: Vec<char> = Vec::new();
    write_json(v, &mut out);
    proof {
        assert(Seq::<char>::empty() + text_of(v@) =~= text_of(v@));
    }
    chars_string(&out)
}

/// The serialized text of a whole state map, as the object whose fields are
/// the map's entries in order.
pub fn obj_string(fields: &Vec<(String, Json)>) -> (r: String)
    ensures
        r@ == text_of(JsonModel::Obj(deep_fields(fields@))),
{
    let mut out: Vec<char> = Vec::new();
    out.push('{');
    write_obj_fields(fields, &mut out);
    out.push('}');
    proof {
        assert(out@ =~= text_of(JsonModel::Obj(deep_fields(fields@))));
    }
    chars_string(&out)
}

} // verus!
