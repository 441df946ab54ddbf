//! The serialization round trip: parsing the canonical text of any JSON
//! value this library can hold yields that value back, exactly. In
//! particular the text a dispatch returns re-parses to the state map it
//! serialized.

use vstd::prelude::*;
use crate::json::Json;
use crate::json::JsonModel;
use crate::json::deep_fields;
use crate::json::deep_items;
use crate::json::lemma_deep_fields_index;
use crate::json::lemma_deep_fields_len;
use crate::json::lemma_deep_items_index;
use crate::json::lemma_deep_items_len;
use crate::parse::is_digit;
use crate::parse::digit_val;
use crate::parse::parse_arr_items;
use crate::parse::parse_number;
use crate::parse::parse_obj_items;
use crate::parse::parse_string_body;
use crate::parse::parse_text;
use crate::parse::parse_value;
use crate::parse::read_digits;
use crate::parse::skip_ws;
use crate::text::arr_text;
use crate::text::dec_digits;
use crate::text::digit_char;
use crate::text::esc_char;
use crate::text::int_text;
use crate::text::obj_text;
use crate::text::str_text;
use crate::text::text_of;

verus! {

/// A value every part of which fits this library's 64-bit integers. The
/// view of every executable `Json` value is valid.
pub open spec fn valid_model(v: JsonModel) -> bool
    decreases v,
{
    match v {
        JsonModel::Int(i) => -9223372036854775808 <= i <= 9223372036854775807,
        JsonModel::Arr(items) => {
            proof {
                assert(decreases_to!(v => v->Arr_0));
            }
            valid_items(items)
        },
        JsonModel::Obj(fields) => {
            proof {
                assert(decreases_to!(v => v->Obj_0));
            }
            valid_fields(fields)
        },
        _ => true,
    }
}

/// Validity of every element of an array.
pub open spec fn valid_items(items: Seq<JsonModel>) -> bool
    decreases items,
{
    items.len() == 0 || (valid_model(items[0]) && valid_items(items.skip(1)))
}

/// Validity of every field value of an object.
pub open spec fn valid_fields(fields: Seq<(Seq<char>, JsonModel)>) -> bool
    decreases fields,
{
    fields.len() == 0 || (valid_model(fields[0].1) && valid_fields(fields.skip(1)))
}

/// An array is valid exactly when each element is.
proof fn lemma_valid_items_iff(items: Seq<JsonModel>)
    ensures
        valid_items(items) <==> (forall|k: int| 0 <= k < items.len() ==> valid_model(
            #[trigger] items[k],
        )),
    decreases items.len(),
{
    if items.len() > 0 {
        lemma_valid_items_iff(items.skip(1));
        if valid_model(items[0]) && valid_items(items.skip(1)) {
            assert forall|k: int| 0 <= k < items.len() implies valid_model(#[trigger] items[k]) by {
                if k > 0 {
                    assert(items[k] == items.skip(1)[k - 1]);
                }
            }
        }
        if forall|k: int| 0 <= k < items.len() ==> valid_model(#[trigger] items[k]) {
            assert forall|k: int| 0 <= k < items.skip(1).len() implies valid_model(
                #[trigger] items.skip(1)[k],
            ) by {
                assert(items.skip(1)[k] == items[k + 1]);
            }
        }
    }
}

/// An object is valid exactly when each field value is.
proof fn lemma_valid_fields_iff(fields: Seq<(Seq<char>, JsonModel)>)
    ensures
        valid_fields(fields) <==> (forall|k: int| 0 <= k < fields.len() ==> valid_model(
            (#[trigger] fields[k]).1,
        )),
    decreases fields.len(),
{
    if fields.len() > 0 {
        lemma_valid_fields_iff(fields.skip(1));
        if valid_model(fields[0].1) && valid_fields(fields.skip(1)) {
            assert forall|k: int| 0 <= k < fields.len() implies valid_model(
                (#[trigger] fields[k]).1,
            ) by {
                if k > 0 {
                    assert(fields[k] == fields.skip(1)[k - 1]);
                }
            }
        }
        if forall|k: int| 0 <= k < fields.len() ==> valid_model((#[trigger] fields[k]).1) {
            assert forall|k: int| 0 <= k < fields.skip(1).len() implies valid_model(
                (#[trigger] fields.skip(1)[k]).1,
            ) by {
                assert(fields.skip(1)[k] == fields[k + 1]);
            }
        }
    }
}

/// The view of every executable JSON value is valid.
pub proof fn lemma_json_valid(j: Json)
    ensures
        valid_model(j@),
    decreases j,
{
    match j {
        Json::Arr(items) => {
            assert forall|k: int| 0 <= k < deep_items(items@).len() implies valid_model(
                #[trigger] deep_items(items@)[k],
            ) by {
                lemma_deep_items_len(items@);
                lemma_deep_items_index(items@, k);
                assert(decreases_to!(j => j->Arr_0));
                assert(decreases_to!(j->Arr_0 => j->Arr_0@));
                assert(decreases_to!(j->Arr_0@ => j->Arr_0@[k]));
                lemma_json_valid(items@[k]);
            }
            lemma_valid_items_iff(deep_items(items@));
        },
        Json::Obj(fields) => {
            assert forall|k: int| 0 <= k < deep_fields(fields@).len() implies valid_model(
                (#[trigger] deep_fields(fields@)[k]).1,
            ) by {
                lemma_deep_fields_len(fields@);
                lemma_deep_fields_index(fields@, k);
                assert(decreases_to!(j => j->Obj_0));
                assert(decreases_to!(j->Obj_0 => j->Obj_0@));
                assert(decreases_to!(j->Obj_0@ => j->Obj_0@[k]));
                assert(decreases_to!(j->Obj_0@[k] => j->Obj_0@[k].1));
                lemma_json_valid(fields@[k].1);
            }
            lemma_valid_fields_iff(deep_fields(fields@));
        },
        _ => {},
    }
}

/// The view of a whole state map is valid.
pub proof fn lemma_state_valid(data: Seq<(String, Json)>)
    ensures
        valid_model(JsonModel::Obj(deep_fields(data))),
{
    assert forall|k: int| 0 <= k < deep_fields(data).len() implies valid_model(
        (#[trigger] deep_fields(data)[k]).1,
    ) by {
        lemma_deep_fields_len(data);
        lemma_deep_fields_index(data, k);
        lemma_json_valid(data[k].1);
    }
    lemma_valid_fields_iff(deep_fields(data));
}

/// The decimal digits of a number: at least one, all digit characters, and
/// folding them back yields the number.
proof fn lemma_dec_digits(n: nat)
    ensures
        dec_digits(n).len() >= 1,
        forall|k: int| 0 <= k < dec_digits(n).len() ==> is_digit(#[trigger] dec_digits(n)[k]),
        digits_val(dec_digits(n), 0) == n,
    decreases n,
{
    if n < 10 {
        let ds = dec_digits(n);
        assert(ds =~= seq![digit_char(n as int)]);
        assert(ds.skip(1) =~= Seq::<char>::empty());
        assert(digits_val(ds.skip(1), digit_val(ds[0])) == digit_val(ds[0]));
        assert(digit_val(digit_char(n as int)) == n);
    } else {
        lemma_dec_digits(n / 10);
        lemma_digits_val_snoc(dec_digits(n / 10), digit_char((n % 10) as int), 0);
        let prev = dec_digits(n / 10);
        let c = digit_char((n % 10) as int);
        assert(digit_val(c) == n % 10);
        assert(digits_val(prev.push(c), 0) == (n / 10) * 10 + n % 10);
        assert forall|k: int| 0 <= k < prev.push(c).len() implies is_digit(
            #[trigger] prev.push(c)[k],
        ) by {
            if k < prev.len() {
                assert(prev.push(c)[k] == prev[k]);
            }
        }
    }
}

/// The value of a digit character sequence, folded front to back onto `acc`.
spec fn digits_val(ds: Seq<char>, acc: nat) -> nat
    decreases ds.len(),
{
    if ds.len() == 0 {
        acc
    } else {
        digits_val(ds.skip(1), acc * 10 + digit_val(ds[0]))
    }
}

/// Folding one more digit at the back multiplies by ten and adds it.
proof fn lemma_digits_val_snoc(ds: Seq<char>, c: char, acc: nat)
    ensures
        digits_val(ds.push(c), acc) == digits_val(ds, acc) * 10 + digit_val(c),
    decreases ds.len(),
{
    if ds.len() == 0 {
        assert(ds.push(c).skip(1) =~= Seq::<char>::empty());
        assert(digits_val(ds.push(c), acc) == digits_val(
            Seq::<char>::empty(),
            acc * 10 + digit_val(c),
        ));
        assert(digits_val(Seq::<char>::empty(), acc * 10 + digit_val(c)) == acc * 10 + digit_val(
            c,
        ));
    } else {
        assert(ds.push(c).skip(1) =~= ds.skip(1).push(c));
        lemma_digits_val_snoc(ds.skip(1), c, acc * 10 + digit_val(ds[0]));
        assert(ds.push(c)[0] == ds[0]);
        assert(digits_val(ds.push(c), acc) == digits_val(ds.skip(1).push(c), acc * 10 + digit_val(
            ds[0],
        )));
    }
}

/// Reading a maximal digit run folds exactly that run.
proof fn lemma_read_digits_run(s: Seq<char>, i: int, j: int, acc: nat)
    requires
        0 <= i <= j <= s.len(),
        forall|k: int| i <= k < j ==> is_digit(#[trigger] s[k]),
        j == s.len() || !is_digit(s[j]),
    ensures
        read_digits(s, i, acc) == (digits_val(s.subrange(i, j), acc), j),
    decreases j - i,
{
    if i == j {
        assert(s.subrange(i, j) =~= Seq::<char>::empty());
    } else {
        lemma_read_digits_run(s, i + 1, j, acc * 10 + digit_val(s[i]));
        assert(s.subrange(i, j).skip(1) =~= s.subrange(i + 1, j));
        assert(s.subrange(i, j)[0] == s[i]);
    }
}

/// The characters a serialized value can start with.
pub open spec fn is_value_start(c: char) -> bool {
    c == 'n' || c == 't' || c == 'f' || c == '"' || c == '[' || c == '{' || c == '-' || is_digit(c)
}

/// A serialized value is never empty, and starts with a value character:
/// never whitespace, a comma, a colon or a closing bracket.
proof fn lemma_text_first(v: JsonModel)
    ensures
        text_of(v).len() >= 1,
        is_value_start(text_of(v)[0]),
{
    match v {
        JsonModel::Int(i) => {
            if i < 0 {
                lemma_dec_digits((-i) as nat);
            } else {
                lemma_dec_digits(i as nat);
            }
        },
        _ => {},
    }
}

/// Parsing a serialized string literal body yields the string back.
proof fn lemma_string_of_text(content: Seq<char>, s: Seq<char>, i: int)
    requires
        0 <= i,
        i + str_text(content).len() + 1 <= s.len(),
        s.subrange(i, i + str_text(content).len()) == str_text(content),
        s[i + str_text(content).len()] == '"',
    ensures
        parse_string_body(s, i) == Some((content, i + str_text(content).len() + 1)),
    decreases content.len(),
{
    if content.len() == 0 {
        assert(s[i] == '"');
    } else {
        let c = content[0];
        let e = esc_char(c);
        let rest = content.skip(1);
        let rest_text = str_text(rest);
        assert(str_text(content) == e + rest_text);
        assert(s[i] == str_text(content)[0]);
        assert(str_text(content)[0] == e[0]);
        if e.len() == 2 {
            assert(s[i + 1] == str_text(content)[1]);
            assert(str_text(content)[1] == e[1]);
            assert(s[i] == '\\');
            assert forall|k: int| 0 <= k < rest_text.len() implies s.subrange(
                i + 2,
                i + 2 + rest_text.len(),
            )[k] == rest_text[k] by {
                assert(s.subrange(i, i + str_text(content).len())[2 + k] == str_text(content)[2
                    + k]);
            }
            assert(s.subrange(i + 2, i + 2 + rest_text.len()) =~= rest_text);
            assert(s[i + 2 + rest_text.len()] == '"');
            lemma_string_of_text(rest, s, i + 2);
            assert(seq![c] + rest =~= content);
        } else {
            assert(s[i] == c);
            assert(c != '"' && c != '\\');
            assert forall|k: int| 0 <= k < rest_text.len() implies s.subrange(
                i + 1,
                i + 1 + rest_text.len(),
            )[k] == rest_text[k] by {
                assert(s.subrange(i, i + str_text(content).len())[1 + k] == str_text(content)[1
                    + k]);
            }
            assert(s.subrange(i + 1, i + 1 + rest_text.len()) =~= rest_text);
            assert(s[i + 1 + rest_text.len()] == '"');
            lemma_string_of_text(rest, s, i + 1);
            assert(seq![c] + rest =~= content);
        }
    }
}

/// Parsing a serialized 64-bit integer yields it back.
proof fn lemma_number_of_text(iv: int, s: Seq<char>, i: int)
    requires
        -9223372036854775808 <= iv <= 9223372036854775807,
        0 <= i,
        i + int_text(iv).len() <= s.len(),
        s.subrange(i, i + int_text(iv).len()) == int_text(iv),
        i + int_text(iv).len() == s.len() || !is_digit(s[i + int_text(iv).len()]),
    ensures
        parse_number(s, i) == Some((JsonModel::Int(iv), i + int_text(iv).len())),
{
    let e = i + int_text(iv).len();
    if iv < 0 {
        let mag = (-iv) as nat;
        lemma_dec_digits(mag);
        assert(s[i] == int_text(iv)[0]);
        assert(int_text(iv)[0] == '-');
        assert forall|k: int| 0 <= k < dec_digits(mag).len() implies s.subrange(i + 1, e)[k]
            == dec_digits(mag)[k] by {
            assert(s.subrange(i, e)[1 + k] == int_text(iv)[1 + k]);
        }
        assert(s.subrange(i + 1, e) =~= dec_digits(mag));
        assert forall|k: int| i + 1 <= k < e implies is_digit(#[trigger] s[k]) by {
            assert(s[k] == dec_digits(mag)[k - (i + 1)]);
        }
        lemma_read_digits_run(s, i + 1, e, 0);
        assert(read_digits(s, i + 1, 0) == (mag, e));
        assert(s[i + 1] == dec_digits(mag)[0]);
    } else {
        let mag = iv as nat;
        lemma_dec_digits(mag);
        assert(s.subrange(i, e) =~= dec_digits(mag));
        assert forall|k: int| i <= k < e implies is_digit(#[trigger] s[k]) by {
            assert(s[k] == dec_digits(mag)[k - i]);
        }
        lemma_read_digits_run(s, i, e, 0);
        assert(read_digits(s, i, 0) == (mag, e));
        assert(s[i] == dec_digits(mag)[0]);
        assert(is_digit(s[i]));
        assert(s[i] != '-');
    }
}

/// The front decomposition of an array's text: the first element's text,
/// then a comma and the remaining elements' text.
proof fn lemma_arr_text_front(items: Seq<JsonModel>)
    requires
        items.len() >= 1,
    ensures
        arr_text(items) == text_of(items[0]) + (if items.len() == 1 {
            Seq::<char>::empty()
        } else {
            seq![','] + arr_text(items.skip(1))
        }),
    decreases items.len(),
{
    if items.len() == 1 {
        assert(arr_text(items) =~= text_of(items[0]) + Seq::<char>::empty());
    } else {
        let prev = items.drop_last();
        lemma_arr_text_front(prev);
        assert(items.skip(1).drop_last() =~= prev.skip(1));
        assert(items.skip(1).last() == items.last());
        if items.len() == 2 {
            assert(prev[0] == items[0]);
            assert(items.skip(1)[0] == items[1]);
            assert(arr_text(items) =~= text_of(items[0]) + (seq![','] + arr_text(items.skip(1))));
        } else {
            assert(prev[0] == items[0]);
            assert(arr_text(items.skip(1)) == arr_text(prev.skip(1)) + seq![','] + text_of(
                items.last(),
            ));
            assert(arr_text(items) =~= text_of(items[0]) + (seq![','] + arr_text(items.skip(1))));
        }
    }
}

/// The front decomposition of an object's text: the first field's text,
/// then a comma and the remaining fields' text.
proof fn lemma_obj_text_front(fields: Seq<(Seq<char>, JsonModel)>)
    requires
        fields.len() >= 1,
    ensures
        obj_text(fields) == seq!['"'] + str_text(fields[0].0) + seq!['"', ':'] + text_of(
            fields[0].1,
        ) + (if fields.len() == 1 {
            Seq::<char>::empty()
        } else {
            seq![','] + obj_text(fields.skip(1))
        }),
    decreases fields.len(),
{
    if fields.len() == 1 {
        assert(obj_text(fields) =~= seq!['"'] + str_text(fields[0].0) + seq!['"', ':'] + text_of(
            fields[0].1,
        ) + Seq::<char>::empty());
    } else {
        let prev = fields.drop_last();
        lemma_obj_text_front(prev);
        assert(fields.skip(1).drop_last() =~= prev.skip(1));
        assert(fields.skip(1).last() == fields.last());
        if fields.len() == 2 {
            assert(prev[0] == fields[0]);
            assert(fields.skip(1)[0] == fields[1]);
            assert(obj_text(fields) =~= seq!['"'] + str_text(fields[0].0) + seq!['"', ':']
                + text_of(fields[0].1) + (seq![','] + obj_text(fields.skip(1))));
        } else {
            assert(prev[0] == fields[0]);
            assert(obj_text(fields.skip(1)) == (obj_text(fields.skip(1).drop_last()) + seq![','])
                + seq!['"'] + str_text(fields.skip(1).last().0) + seq!['"', ':'] + text_of(
                fields.skip(1).last().1,
            ));
            assert(obj_text(fields) =~= seq!['"'] + str_text(fields[0].0) + seq!['"', ':']
                + text_of(fields[0].1) + (seq![','] + obj_text(fields.skip(1))));
        }
    }
}

/// Parsing the serialized text of a valid value, standing at `i` and
/// followed by the end of the text or by a delimiter, yields the value and
/// the position after its text.
proof fn lemma_value_of_text(v: JsonModel, s: Seq<char>, i: int)
    requires
        valid_model(v),
        0 <= i,
        i + text_of(v).len() <= s.len(),
        s.subrange(i, i + text_of(v).len()) == text_of(v),
        i + text_of(v).len() == s.len() || s[i + text_of(v).len()] == ',' || s[i + text_of(v).len()]
            == ']' || s[i + text_of(v).len()] == '}',
    ensures
        parse_value(s, i) == Some((v, i + text_of(v).len())),
    decreases v,
{
    let t = text_of(v);
    let e = i + t.len();
    lemma_text_first(v);
    assert forall|k: int| 0 <= k < t.len() implies s[i + k] == t[k] by {
        assert(s.subrange(i, e)[k] == t[k]);
    }
    assert(s[i] == t[0]);
    assert(skip_ws(s, i) == i);
    match v {
        JsonModel::Null => {},
        JsonModel::Bool(b) => {},
        JsonModel::Int(iv) => {
            lemma_number_of_text(iv, s, i);
        },
        JsonModel::Str(content) => {
            let stl = str_text(content).len();
            assert forall|k: int| 0 <= k < stl implies s.subrange(i + 1, i + 1 + stl)[k]
                == str_text(content)[k] by {
                assert(s[i + 1 + k] == t[1 + k]);
            }
            assert(s.subrange(i + 1, i + 1 + stl) =~= str_text(content));
            assert(s[i + 1 + stl as int] == t[1 + stl as int]);
            lemma_string_of_text(content, s, i + 1);
        },
        JsonModel::Arr(items) => {
            assert(s[i] == '[');
            if items.len() == 0 {
                assert(s[i + 1] == t[1]);
                assert(t[1] == ']');
                assert(skip_ws(s, i + 1) == i + 1);
                assert(items =~= Seq::<JsonModel>::empty());
            } else {
                assert(decreases_to!(v => v->Arr_0));
                let al = arr_text(items).len();
                lemma_arr_text_front(items);
                lemma_text_first(items[0]);
                assert(arr_text(items)[0] == text_of(items[0])[0]);
                assert(s[i + 1] == t[1]);
                assert(t[1] == arr_text(items)[0]);
                assert(is_value_start(s[i + 1]));
                assert(skip_ws(s, i + 1) == i + 1);
                assert(s[i + 1] != ']');
                assert forall|k: int| 0 <= k < al implies s.subrange(i + 1, i + 1 + al)[k]
                    == arr_text(items)[k] by {
                    assert(s[i + 1 + k] == t[1 + k]);
                }
                assert(s.subrange(i + 1, i + 1 + al) =~= arr_text(items));
                assert(s[i + 1 + al as int] == t[1 + al as int]);
                assert(t[1 + al as int] == ']');
                lemma_arr_items_of_text(items, s, i + 1);
            }
        },
        JsonModel::Obj(fields) => {
            assert(s[i] == '{');
            if fields.len() == 0 {
                assert(s[i + 1] == t[1]);
                assert(t[1] == '}');
                assert(skip_ws(s, i + 1) == i + 1);
                assert(fields =~= Seq::<(Seq<char>, JsonModel)>::empty());
            } else {
                assert(decreases_to!(v => v->Obj_0));
                let ol = obj_text(fields).len();
                lemma_obj_text_front(fields);
                assert(obj_text(fields)[0] == '"');
                assert(s[i + 1] == t[1]);
                assert(t[1] == '"');
                assert(skip_ws(s, i + 1) == i + 1);
                assert forall|k: int| 0 <= k < ol implies s.subrange(i + 1, i + 1 + ol)[k]
                    == obj_text(fields)[k] by {
                    assert(s[i + 1 + k] == t[1 + k]);
                }
                assert(s.subrange(i + 1, i + 1 + ol) =~= obj_text(fields));
                assert(s[i + 1 + ol as int] == t[1 + ol as int]);
                assert(t[1 + ol as int] == '}');
                lemma_obj_items_of_text(fields, s, i + 1);
            }
        },
    }
}

/// Parsing the serialized elements of a nonempty array, standing at `i` and
/// followed by the closing bracket, yields the elements and the position
/// after the bracket.
proof fn lemma_arr_items_of_text(items: Seq<JsonModel>, s: Seq<char>, i: int)
    requires
        valid_items(items),
        items.len() >= 1,
        0 <= i,
        i + arr_text(items).len() + 1 <= s.len(),
        s.subrange(i, i + arr_text(items).len()) == arr_text(items),
        s[i + arr_text(items).len()] == ']',
    ensures
        parse_arr_items(s, i) == Some((items, i + arr_text(items).len() + 1)),
    decreases items,
{
    let at = arr_text(items);
    lemma_arr_text_front(items);
    let t0 = text_of(items[0]);
    lemma_text_first(items[0]);
    assert forall|k: int| 0 <= k < at.len() implies s[i + k] == at[k] by {
        assert(s.subrange(i, i + at.len())[k] == at[k]);
    }
    assert forall|k: int| 0 <= k < t0.len() implies s.subrange(i, i + t0.len())[k] == t0[k] by {
        assert(s[i + k] == at[k]);
        assert(at[k] == t0[k]);
    }
    assert(s.subrange(i, i + t0.len()) =~= t0);
    let j = i + t0.len();
    if items.len() == 1 {
        assert(s[j] == ']');
        assert(decreases_to!(items => items[0]));
        lemma_value_of_text(items[0], s, i);
        assert(skip_ws(s, j) == j);
        assert(seq![items[0]] =~= items);
    } else {
        assert(s[j] == at[t0.len() as int]);
        assert(at[t0.len() as int] == ',');
        assert(decreases_to!(items => items[0]));
        lemma_value_of_text(items[0], s, i);
        assert(skip_ws(s, j) == j);
        let rest = items.skip(1);
        let rl = arr_text(rest).len();
        assert(at.len() == t0.len() + 1 + rl);
        assert forall|k: int| 0 <= k < rl implies s.subrange(j + 1, j + 1 + rl)[k] == arr_text(
            rest,
        )[k] by {
            assert(s[j + 1 + k] == at[t0.len() + 1 + k]);
            assert(at[t0.len() + 1 + k] == arr_text(rest)[k]);
        }
        assert(s.subrange(j + 1, j + 1 + rl) =~= arr_text(rest));
        assert(s[j + 1 + rl as int] == ']');
        lemma_arr_items_of_text(rest, s, j + 1);
        assert(seq![items[0]] + rest =~= items);
    }
}

/// Parsing the serialized fields of a nonempty object, standing at `i` and
/// followed by the closing brace, yields the fields and the position after
/// the brace.
proof fn lemma_obj_items_of_text(fields: Seq<(Seq<char>, JsonModel)>, s: Seq<char>, i: int)
    requires
        valid_fields(fields),
        fields.len() >= 1,
        0 <= i,
        i + obj_text(fields).len() + 1 <= s.len(),
        s.subrange(i, i + obj_text(fields).len()) == obj_text(fields),
        s[i + obj_text(fields).len()] == '}',
    ensures
        parse_obj_items(s, i) == Some((fields, i + obj_text(fields).len() + 1)),
    decreases fields,
{
    let ot = obj_text(fields);
    lemma_obj_text_front(fields);
    let key = fields[0].0;
    let v0 = fields[0].1;
    let kt = str_text(key);
    let t0 = text_of(v0);
    lemma_text_first(v0);
    assert forall|k: int| 0 <= k < ot.len() implies s[i + k] == ot[k] by {
        assert(s.subrange(i, i + ot.len())[k] == ot[k]);
    }
    assert(s[i] == ot[0]);
    assert(ot[0] == '"');
    assert(skip_ws(s, i) == i);
    // the key string: "key"
    assert forall|k: int| 0 <= k < kt.len() implies s.subrange(i + 1, i + 1 + kt.len())[k] == kt[k]
        by {
        assert(s[i + 1 + k] == ot[1 + k]);
        assert(ot[1 + k] == kt[k]);
    }
    assert(s.subrange(i + 1, i + 1 + kt.len()) =~= kt);
    assert(s[i + 1 + kt.len() as int] == ot[1 + kt.len() as int]);
    assert(ot[1 + kt.len() as int] == '"');
    lemma_string_of_text(key, s, i + 1);
    let j1 = i + 1 + kt.len() + 1;
    // the colon
    assert(s[j1] == ot[j1 - i]);
    assert(ot[j1 - i] == ':');
    assert(skip_ws(s, j1) == j1);
    // the value
    let j2 = j1 + 1;
    assert forall|k: int| 0 <= k < t0.len() implies s.subrange(j2, j2 + t0.len())[k] == t0[k] by {
        assert(s[j2 + k] == ot[j2 - i + k]);
        assert(ot[j2 - i + k] == t0[k]);
    }
    assert(s.subrange(j2, j2 + t0.len()) =~= t0);
    let j3 = j2 + t0.len();
    assert(decreases_to!(fields => fields[0]));
    assert(decreases_to!(fields[0] => fields[0].1));
    if fields.len() == 1 {
        assert(j3 == i + ot.len());
        assert(s[j3] == '}');
        lemma_value_of_text(v0, s, j2);
        assert(skip_ws(s, j3) == j3);
        assert(seq![(key, v0)] =~= fields);
    } else {
        assert(s[j3] == ot[j3 - i]);
        assert(ot[j3 - i] == ',');
        lemma_value_of_text(v0, s, j2);
        assert(skip_ws(s, j3) == j3);
        let rest = fields.skip(1);
        let rl = obj_text(rest).len();
        assert(ot.len() == (j3 - i) + 1 + rl);
        assert forall|k: int| 0 <= k < rl implies s.subrange(j3 + 1, j3 + 1 + rl)[k] == obj_text(
            rest,
        )[k] by {
            assert(s[j3 + 1 + k] == ot[j3 - i + 1 + k]);
            assert(ot[j3 - i + 1 + k] == obj_text(rest)[k]);
        }
        assert(s.subrange(j3 + 1, j3 + 1 + rl) =~= obj_text(rest));
        assert(s[j3 + 1 + rl as int] == '}');
        lemma_obj_items_of_text(rest, s, j3 + 1);
        assert(seq![(key, v0)] + rest =~= fields);
    }
}

/// The serialization round trip: parsing the canonical text of any valid
/// JSON value yields exactly that value, so re-serializing the parse gives
/// the same text. Every value an executable `Json` denotes is valid.
pub proof fn lemma_text_round_trip(v: JsonModel)
    requires
        valid_model(v),
    ensures
        parse_text(text_of(v)) == Some(v),
{
    let s = text_of(v);
    lemma_text_first(v);
    assert(s.subrange(0, s.len() as int) =~= s);
    lemma_value_of_text(v, s, 0);
    assert(skip_ws(s, s.len() as int) == s.len());
}

/// The round trip applied to what a dispatch returns: the JSON text of a
/// state map re-parses to exactly the mapping that was serialized.
pub proof fn lemma_state_text_round_trip(data: Seq<(String, Json)>)
    ensures
        parse_text(text_of(JsonModel::Obj(deep_fields(data)))) == Some(
            JsonModel::Obj(deep_fields(data)),
        ),
{
    lemma_state_valid(data);
    lemma_text_round_trip(JsonModel::Obj(deep_fields(data)));
}

} // verus!
