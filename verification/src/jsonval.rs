//! A plain model of JSON values, with a verified serializer. Numbers
//! carry their decimal text, so no floating point is involved; the
//! boundary that produces values preserves the source text.

use vstd::prelude::*;
use crate::query::{join_strings, spec_join, strs_view};

verus! {

/// A JSON value. A number holds its literal text.
#[derive(Debug)]
pub enum JsonVal {
    Null,
    Bool(bool),
    Num(String),
    Str(String),
    Arr(Vec<JsonVal>),
    Obj(Vec<(String, JsonVal)>),
}

/// Mathematical model of a JSON value.
pub enum JsonV {
    NullV,
    BoolV(bool),
    NumV(Seq<char>),
    StrV(Seq<char>),
    ArrV(Seq<JsonV>),
    ObjV(Seq<(Seq<char>, JsonV)>),
}

/// Model of one JSON value.
pub open spec fn json_view(v: JsonVal) -> JsonV
    decreases v,
{
    match v {
        JsonVal::Null => JsonV::NullV,
        JsonVal::Bool(b) => JsonV::BoolV(b),
        JsonVal::Num(n) => JsonV::NumV(n@),
        JsonVal::Str(s) => JsonV::StrV(s@),
        JsonVal::Arr(items) => JsonV::ArrV(jsons_view(items@)),
        JsonVal::Obj(pairs) => JsonV::ObjV(obj_view(pairs@)),
    }
}

/// Model of a sequence of JSON values.
pub open spec fn jsons_view(s: Seq<JsonVal>) -> Seq<JsonV>
    decreases s,
{
    if s.len() == 0 {
        Seq::empty()
    } else {
        seq![json_view(s[0])] + jsons_view(s.subrange(1, s.len() as int))
    }
}

/// Model of a key-value list.
pub open spec fn obj_view(s: Seq<(String, JsonVal)>) -> Seq<(Seq<char>, JsonV)>
    decreases s,
{
    if s.len() == 0 {
        Seq::empty()
    } else {
        seq![(s[0].0@, json_view(s[0].1))] + obj_view(s.subrange(1, s.len() as int))
    }
}

impl View for JsonVal {
    type V = JsonV;

    open spec fn view(&self) -> JsonV {
        json_view(*self)
    }
}

pub open spec fn hex_char(d: int) -> char {
    if d < 10 {
        crate::num::digit_char(d)
    } else if d == 10 {
        'a'
    } else if d == 11 {
        'b'
    } else if d == 12 {
        'c'
    } else if d == 13 {
        'd'
    } else if d == 14 {
        'e'
    } else {
        'f'
    }
}

fn hex_char_str(d: u32) -> (r: &'static str)
    requires
        d < 16,
    ensures
        r@ == seq![hex_char(d as int)],
{
    proof {
        reveal_strlit("a");
        reveal_strlit("b");
        reveal_strlit("c");
        reveal_strlit("d");
        reveal_strlit("e");
        reveal_strlit("f");
    }
    if d < 10 {
        let r = crate::num::u64_to_string(d as u64);
        let boxed: &'static str = match d {
            0 => "0",
            1 => "1",
            2 => "2",
            3 => "3",
            4 => "4",
            5 => "5",
            6 => "6",
            7 => "7",
            8 => "8",
            _ => "9",
        };
        proof {
            reveal_strlit("0");
            reveal_strlit("1");
            reveal_strlit("2");
            reveal_strlit("3");
            reveal_strlit("4");
            reveal_strlit("5");
            reveal_strlit("6");
            reveal_strlit("7");
            reveal_strlit("8");
            reveal_strlit("9");
            assert(boxed@ =~= seq![hex_char(d as int)]);
        }
        boxed
    } else {
        let boxed: &'static str = match d {
            10 => "a",
            11 => "b",
            12 => "c",
            13 => "d",
            14 => "e",
            _ => "f",
        };
        proof {
            assert(boxed@ =~= seq![hex_char(d as int)]);
        }
        boxed
    }
}

/// The JSON escape of one character inside a quoted string.
pub open spec fn spec_escape_json_char(c: char) -> Seq<char> {
    if c == '"' {
        "\\\""@
    } else if c == '\\' {
        "\\\\"@
    } else if c == '\n' {
        "\\n"@
    } else if c == '\r' {
        "\\r"@
    } else if c == '\t' {
        "\\t"@
    } else if c as u32 == 8 {
        "\\b"@
    } else if c as u32 == 12 {
        "\\f"@
    } else if (c as u32) < 32 {
        "\\u00"@.push(hex_char((c as u32) as int / 16)).push(hex_char((c as u32) as int % 16))
    } else {
        seq![c]
    }
}

/// The body of a quoted JSON string.
pub open spec fn spec_escape_json(s: Seq<char>) -> Seq<char>
    decreases s.len(),
{
    if s.len() == 0 {
        Seq::empty()
    } else {
        spec_escape_json_char(s[0]) + spec_escape_json(s.subrange(1, s.len() as int))
    }
}

/// A quoted JSON string literal.
pub open spec fn spec_json_quote(s: Seq<char>) -> Seq<char> {
    "\""@ + spec_escape_json(s) + "\""@
}

/// Escapes and quotes a string as a JSON string literal.
pub fn json_quote(s: &str) -> (r: String)
    ensures
        r@ == spec_json_quote(s@),
{
    let sl = s.unicode_len();
    let mut out = String::new();
    out.append("\"");
    let mut i: usize = 0;
    proof {
        assert(s@.subrange(0, sl as int) =~= s@);
        assert(out@ + spec_escape_json(s@) =~= "\""@ + spec_escape_json(s@));
    }
    while i < sl
        invariant
            sl == s@.len(),
            i <= sl,
            "\""@ + spec_escape_json(s@) == out@ + spec_escape_json(
                s@.subrange(i as int, sl as int),
            ),
        decreases sl - i,
    {
        let ghost rest = s@.subrange(i as int, sl as int);
        proof {
            assert(rest[0] == s@[i as int]);
            assert(rest.subrange(1, rest.len() as int) =~= s@.subrange(i + 1, sl as int));
        }
        let c = s.get_char(i);
        let code = c as u32;
        let ghost prev = out@;
        if c == '"' {
            out.append("\\\"");
        } else if c == '\\' {
            out.append("\\\\");
        } else if c == '\n' {
            out.append("\\n");
        } else if c == '\r' {
            out.append("\\r");
        } else if c == '\t' {
            out.append("\\t");
        } else if code == 8 {
            out.append("\\b");
        } else if code == 12 {
            out.append("\\f");
        } else if code < 32 {
            out.append("\\u00");
            let hi = hex_char_str(code / 16);
            out.append(hi);
            let lo = hex_char_str(code % 16);
            out.append(lo);
            proof {
                assert(out@ =~= prev + spec_escape_json_char(s@[i as int]));
            }
        } else {
            let tmp = s.substring_char(i, i + 1);
            out.append(tmp);
            proof {
                assert(s@.subrange(i as int, i + 1) =~= seq![s@[i as int]]);
            }
        }
        proof {
            assert(out@ =~= prev + spec_escape_json_char(s@[i as int]));
            assert(out@ + spec_escape_json(s@.subrange(i + 1, sl as int)) =~= prev
                + spec_escape_json(rest));
        }
        i += 1;
    }
    proof {
        assert(s@.subrange(sl as int, sl as int) =~= Seq::<char>::empty());
        assert(out@ + Seq::<char>::empty() =~= out@);
    }
    out.append("\"");
    proof {
        assert(out@ =~= spec_json_quote(s@));
    }
    out
}

/// The compact textual form of a JSON value.
pub open spec fn spec_json_str(v: JsonV) -> Seq<char>
    decreases v, 0int,
{
    match v {
        JsonV::NullV => "null"@,
        JsonV::BoolV(b) => if b {
            "true"@
        } else {
            "false"@
        },
        JsonV::NumV(n) => n,
        JsonV::StrV(s) => spec_json_quote(s),
        JsonV::ArrV(items) => "["@ + spec_join(spec_json_items(items), ","@) + "]"@,
        JsonV::ObjV(pairs) => "{"@ + spec_join(spec_json_pairs(pairs), ","@) + "}"@,
    }
}

/// The textual forms of the elements of a JSON array.
pub open spec fn spec_json_items(s: Seq<JsonV>) -> Seq<Seq<char>>
    decreases s, s.len(),
{
    if s.len() == 0 {
        Seq::empty()
    } else {
        seq![spec_json_str(s[0])] + spec_json_items(s.subrange(1, s.len() as int))
    }
}

/// The textual forms of the members of a JSON object.
pub open spec fn spec_json_pairs(s: Seq<(Seq<char>, JsonV)>) -> Seq<Seq<char>>
    decreases s, s.len(),
{
    if s.len() == 0 {
        Seq::empty()
    } else {
        seq![spec_json_quote(s[0].0) + ":"@ + spec_json_str(s[0].1)] + spec_json_pairs(
            s.subrange(1, s.len() as int),
        )
    }
}

/// Serializes a JSON value in compact form.
pub fn json_to_string(v: &JsonVal) -> (r: String)
    ensures
        r@ == spec_json_str(v@),
    decreases *v,
{
    match v {
        JsonVal::Null => "null".to_owned(),
        JsonVal::Bool(b) => {
            if *b {
                "true".to_owned()
            } else {
                "false".to_owned()
            }
        },
        JsonVal::Num(n) => n.clone(),
        JsonVal::Str(s) => json_quote(s.as_str()),
        JsonVal::Arr(items) => {
            let ghost iv = jsons_view(items@);
            let mut parts: Vec<String> = Vec::new();
            let mut i: usize = 0;
            proof {
                lemma_jsons_view_index(items@);
                assert(iv.subrange(0, iv.len() as int) =~= iv);
                assert(strs_view(parts@) + spec_json_items(iv.subrange(0, iv.len() as int))
                    =~= spec_json_items(iv));
            }
            while i < items.len()
                invariant
                    *v == JsonVal::Arr(*items),
                    iv == jsons_view(items@),
                    iv.len() == items@.len(),
                    forall|k: int| 0 <= k < iv.len() ==> iv[k] == json_view(items@[k]),
                    i <= items@.len(),
                    spec_json_items(iv) == strs_view(parts@) + spec_json_items(
                        iv.subrange(i as int, iv.len() as int),
                    ),
                decreases items@.len() - i,
            {
                let ghost rest = iv.subrange(i as int, iv.len() as int);
                proof {
                    assert(rest[0] == iv[i as int]);
                    assert(rest.subrange(1, rest.len() as int) =~= iv.subrange(
                        i + 1,
                        iv.len() as int,
                    ));
                }
                proof {
                    assert(*v == JsonVal::Arr(*items));
                    assert(decreases_to!(*v => v->Arr_0));
                    assert(decreases_to!(*items => items@[i as int]));
                }
                let piece = json_to_string(&items[i]);
                let ghost prev = parts@;
                let ghost pv = piece@;
                parts.push(piece);
                proof {
                    assert(strs_view(parts@) =~= strs_view(prev).push(pv));
                    assert((strs_view(prev) + seq![pv]) + spec_json_items(
                        iv.subrange(i + 1, iv.len() as int),
                    ) =~= strs_view(prev) + (seq![pv] + spec_json_items(
                        iv.subrange(i + 1, iv.len() as int),
                    )));
                }
                i += 1;
            }
            proof {
                assert(iv.subrange(i as int, iv.len() as int) =~= Seq::<JsonV>::empty());
                assert(strs_view(parts@) + Seq::<Seq<char>>::empty() =~= strs_view(parts@));
            }
            let joined = join_strings(&parts, ",");
            let mut out = String::new();
            out.append("[");
            out.append(joined.as_str());
            out.append("]");
            proof {
                assert(out@ =~= spec_json_str(v@));
            }
            out
        },
        JsonVal::Obj(pairs) => {
            let ghost pvw = obj_view(pairs@);
            let mut parts: Vec<String> = Vec::new();
            let mut i: usize = 0;
            proof {
                lemma_obj_view_index(pairs@);
                assert(pvw.subrange(0, pvw.len() as int) =~= pvw);
                assert(strs_view(parts@) + spec_json_pairs(pvw.subrange(0, pvw.len() as int))
                    =~= spec_json_pairs(pvw));
            }
            while i < pairs.len()
                invariant
                    *v == JsonVal::Obj(*pairs),
                    pvw == obj_view(pairs@),
                    pvw.len() == pairs@.len(),
                    forall|k: int|
                        0 <= k < pvw.len() ==> pvw[k] == (pairs@[k].0@, json_view(pairs@[k].1)),
                    i <= pairs@.len(),
                    spec_json_pairs(pvw) == strs_view(parts@) + spec_json_pairs(
                        pvw.subrange(i as int, pvw.len() as int),
                    ),
                decreases pairs@.len() - i,
            {
                let ghost rest = pvw.subrange(i as int, pvw.len() as int);
                proof {
                    assert(rest[0] == pvw[i as int]);
                    assert(rest.subrange(1, rest.len() as int) =~= pvw.subrange(
                        i + 1,
                        pvw.len() as int,
                    ));
                }
                proof {
                    assert(*v == JsonVal::Obj(*pairs));
                    assert(decreases_to!(*v => v->Obj_0));
                    assert(decreases_to!(*pairs => pairs@[i as int]));
                    assert(decreases_to!(pairs@[i as int] => pairs@[i as int].1));
                }
                let mut piece = json_quote(pairs[i].0.as_str());
                piece.append(":");
                let val_str = json_to_string(&pairs[i].1);
                piece.append(val_str.as_str());
                let ghost prev = parts@;
                let ghost pv = piece@;
                parts.push(piece);
                proof {
                    assert(pv =~= spec_json_quote(pvw[i as int].0) + ":"@ + spec_json_str(
                        pvw[i as int].1,
                    ));
                    assert(strs_view(parts@) =~= strs_view(prev).push(pv));
                    assert((strs_view(prev) + seq![pv]) + spec_json_pairs(
                        pvw.subrange(i + 1, pvw.len() as int),
                    ) =~= strs_view(prev) + (seq![pv] + spec_json_pairs(
                        pvw.subrange(i + 1, pvw.len() as int),
                    )));
                }
                i += 1;
            }
            proof {
                assert(pvw.subrange(i as int, pvw.len() as int) =~= Seq::<
                    (Seq<char>, JsonV),
                >::empty());
                assert(strs_view(parts@) + Seq::<Seq<char>>::empty() =~= strs_view(parts@));
            }
            let joined = join_strings(&parts, ",");
            let mut out = String::new();
            out.append("{");
            out.append(joined.as_str());
            out.append("}");
            proof {
                assert(out@ =~= spec_json_str(v@));
            }
            out
        },
    }
}

/// The views of a value sequence are its values' views, elementwise.
pub proof fn lemma_jsons_view_index(s: Seq<JsonVal>)
    ensures
        jsons_view(s).len() == s.len(),
        forall|k: int| 0 <= k < s.len() ==> jsons_view(s)[k] == json_view(s[k]),
    decreases s,
{
    if s.len() > 0 {
        lemma_jsons_view_index(s.subrange(1, s.len() as int));
        assert forall|k: int| 0 <= k < s.len() implies jsons_view(s)[k] == json_view(s[k]) by {
            if k > 0 {
                assert(s.subrange(1, s.len() as int)[k - 1] == s[k]);
            }
        }
    }
}

/// The views of a pair sequence are its pairs' views, elementwise.
pub proof fn lemma_obj_view_index(s: Seq<(String, JsonVal)>)
    ensures
        obj_view(s).len() == s.len(),
        forall|k: int| 0 <= k < s.len() ==> obj_view(s)[k] == (s[k].0@, json_view(s[k].1)),
    decreases s,
{
    if s.len() > 0 {
        lemma_obj_view_index(s.subrange(1, s.len() as int));
        assert forall|k: int| 0 <= k < s.len() implies obj_view(s)[k] == (
        s[k].0@,
        json_view(s[k].1),
        ) by {
            if k > 0 {
                assert(s.subrange(1, s.len() as int)[k - 1] == s[k]);
            }
        }
    }
}

/// A field-for-field copy of a JSON value.
pub fn json_dup(v: &JsonVal) -> (r: JsonVal)
    ensures
        r@ == v@,
    decreases *v,
{
    match v {
        JsonVal::Null => JsonVal::Null,
        JsonVal::Bool(b) => JsonVal::Bool(*b),
        JsonVal::Num(n) => JsonVal::Num(n.clone()),
        JsonVal::Str(s) => JsonVal::Str(s.clone()),
        JsonVal::Arr(items) => {
            let mut out: Vec<JsonVal> = Vec::new();
            let mut i: usize = 0;
            proof {
                lemma_jsons_view_index(items@);
            }
            while i < items.len()
                invariant
                    *v == JsonVal::Arr(*items),
                    i <= items@.len(),
                    out@.len() == i,
                    forall|k: int| 0 <= k < i ==> json_view(out@[k]) == json_view(items@[k]),
                decreases items@.len() - i,
            {
                proof {
                    assert(*v == JsonVal::Arr(*items));
                    assert(decreases_to!(*v => v->Arr_0));
                    assert(decreases_to!(*items => items@[i as int]));
                }
                let d = json_dup(&items[i]);
                out.push(d);
                i += 1;
            }
            proof {
                lemma_jsons_view_index(out@);
                assert(jsons_view(out@) =~= jsons_view(items@)) by {
                    lemma_jsons_view_index(items@);
                }
            }
            JsonVal::Arr(out)
        },
        JsonVal::Obj(pairs) => {
            let mut out: Vec<(String, JsonVal)> = Vec::new();
            let mut i: usize = 0;
            proof {
                lemma_obj_view_index(pairs@);
            }
            while i < pairs.len()
                invariant
                    *v == JsonVal::Obj(*pairs),
                    i <= pairs@.len(),
                    out@.len() == i,
                    forall|k: int|
                        0 <= k < i ==> out@[k].0@ == pairs@[k].0@ && json_view(out@[k].1)
                            == json_view(pairs@[k].1),
                decreases pairs@.len() - i,
            {
                proof {
                    assert(*v == JsonVal::Obj(*pairs));
                    assert(decreases_to!(*v => v->Obj_0));
                    assert(decreases_to!(*pairs => pairs@[i as int]));
                    assert(decreases_to!(pairs@[i as int] => pairs@[i as int].1));
                }
                let key = pairs[i].0.clone();
                let d = json_dup(&pairs[i].1);
                out.push((key, d));
                i += 1;
            }
            proof {
                lemma_obj_view_index(out@);
                lemma_obj_view_index(pairs@);
                assert(obj_view(out@) =~= obj_view(pairs@));
            }
            JsonVal::Obj(out)
        },
    }
}

/// The value under `key` in an object's pair list: the first match.
pub open spec fn spec_obj_get(pairs: Seq<(Seq<char>, JsonV)>, key: Seq<char>) -> Option<JsonV>
    decreases pairs.len(),
{
    if pairs.len() == 0 {
        None
    } else if pairs[0].0 == key {
        Some(pairs[0].1)
    } else {
        spec_obj_get(pairs.subrange(1, pairs.len() as int), key)
    }
}

/// Looks up a key in a key-value list; the first match wins.
pub fn obj_get<'a>(pairs: &'a Vec<(String, JsonVal)>, key: &str) -> (r: Option<&'a JsonVal>)
    ensures
        match r {
            Some(v) => spec_obj_get(obj_view(pairs@), key@) == Some(v@),
            None => spec_obj_get(obj_view(pairs@), key@) is None,
        },
{
    let ghost pv = obj_view(pairs@);
    proof {
        lemma_obj_view_index(pairs@);
    }
    let mut i: usize = 0;
    while i < pairs.len()
        invariant
            pv == obj_view(pairs@),
            pv.len() == pairs@.len(),
            forall|k: int| 0 <= k < pv.len() ==> pv[k] == (pairs@[k].0@, json_view(pairs@[k].1)),
            i <= pairs@.len(),
            forall|j: int| 0 <= j < i ==> pv[j].0 != key@,
        decreases pairs.len() - i,
    {
        if crate::text::str_eq(pairs[i].0.as_str(), key) {
            let r = &pairs[i].1;
            proof {
                lemma_obj_get_found(pv, key@, i as int);
            }
            return Some(r);
        }
        i += 1;
    }
    proof {
        lemma_obj_get_none(pv, key@);
    }
    None
}

proof fn lemma_obj_get_found(pairs: Seq<(Seq<char>, JsonV)>, key: Seq<char>, w: int)
    requires
        0 <= w < pairs.len(),
        pairs[w].0 == key,
        forall|j: int| 0 <= j < w ==> pairs[j].0 != key,
    ensures
        spec_obj_get(pairs, key) == Some(pairs[w].1),
    decreases w,
{
    if w > 0 {
        let tail = pairs.subrange(1, pairs.len() as int);
        assert(tail[w - 1] == pairs[w]);
        assert forall|j: int| 0 <= j < w - 1 implies tail[j].0 != key by {
            assert(tail[j] == pairs[j + 1]);
        }
        lemma_obj_get_found(tail, key, w - 1);
    }
}

proof fn lemma_obj_get_none(pairs: Seq<(Seq<char>, JsonV)>, key: Seq<char>)
    requires
        forall|j: int| 0 <= j < pairs.len() ==> pairs[j].0 != key,
    ensures
        spec_obj_get(pairs, key) is None,
    decreases pairs.len(),
{
    if pairs.len() > 0 {
        let tail = pairs.subrange(1, pairs.len() as int);
        assert forall|j: int| 0 <= j < tail.len() implies tail[j].0 != key by {
            assert(tail[j] == pairs[j + 1]);
        }
        lemma_obj_get_none(tail, key);
    }
}

} // verus!
