//! Change-feed subscription bookkeeping: the client protocol messages,
//! the subscription registry, per-subscription event filtering, and the
//! shaping of change records.

use vstd::prelude::*;
use crate::filters::{self, Filter, FilterOp, FilterV, FilterValue, ValueV};
use crate::jsonval::{JsonVal, JsonV, json_view, json_to_string, obj_view, spec_json_str, lemma_obj_view_index};
use crate::handlers::{Row, RowV};
use crate::schema::{SchemaCache, TableV};
use crate::text;

verus! {

/// A change-feed operation.
#[derive(Debug, Clone, Copy, PartialEq, Eq, Structural)]
pub enum ChangeOp {
    Insert,
    Update,
    Delete,
}

/// A message a subscriber sends.
#[derive(Debug)]
pub enum ClientMessage {
    Subscribe { id: String, table: String, filter: Option<String>, events: Option<Vec<String>> },
    Unsubscribe { id: String },
    Ping,
}

/// One live subscription.
#[derive(Debug)]
pub struct Subscription {
    pub client: u128,
    pub id: String,
    pub table_key: String,
    pub filters: Option<Vec<Filter>>,
    pub events: Vec<ChangeOp>,
}

/// The operation name `INSERT`, `UPDATE` or `DELETE` turned into a
/// change operation; anything else reads as an insert.
pub open spec fn spec_event_of(s: Seq<char>) -> ChangeOp {
    if text::eq_ci(s, "INSERT"@) {
        ChangeOp::Insert
    } else if text::eq_ci(s, "UPDATE"@) {
        ChangeOp::Update
    } else if text::eq_ci(s, "DELETE"@) {
        ChangeOp::Delete
    } else {
        ChangeOp::Insert
    }
}

/// The event set of a subscription: the named operations, or all three
/// when none are named.
pub open spec fn spec_events(events: Option<Seq<Seq<char>>>) -> Seq<ChangeOp> {
    match events {
        Some(names) => Seq::new(names.len(), |i: int| spec_event_of(names[i])),
        None => seq![ChangeOp::Insert, ChangeOp::Update, ChangeOp::Delete],
    }
}

/// Parses the requested event names into a change-operation list.
pub fn parse_events(events: Option<&Vec<String>>) -> (r: Vec<ChangeOp>)
    ensures
        r@ == spec_events(match events {
            Some(names) => Some(crate::query::strs_view(names@)),
            None => None,
        }),
{
    match events {
        Some(names) => {
            let mut out: Vec<ChangeOp> = Vec::new();
            let mut i: usize = 0;
            while i < names.len()
                invariant
                    i <= names@.len(),
                    out@.len() == i,
                    forall|j: int| 0 <= j < i ==> out@[j] == spec_event_of(names@[j]@),
                decreases names.len() - i,
            {
                let op = if text::eq_ignore_case(names[i].as_str(), "INSERT") {
                    ChangeOp::Insert
                } else if text::eq_ignore_case(names[i].as_str(), "UPDATE") {
                    ChangeOp::Update
                } else if text::eq_ignore_case(names[i].as_str(), "DELETE") {
                    ChangeOp::Delete
                } else {
                    ChangeOp::Insert
                };
                out.push(op);
                i += 1;
            }
            proof {
                assert(out@ =~= spec_events(Some(crate::query::strs_view(names@))));
            }
            out
        },
        None => {
            let mut out: Vec<ChangeOp> = Vec::new();
            out.push(ChangeOp::Insert);
            out.push(ChangeOp::Update);
            out.push(ChangeOp::Delete);
            proof {
                assert(out@ =~= seq![ChangeOp::Insert, ChangeOp::Update, ChangeOp::Delete]);
            }
            out
        },
    }
}

/// The schema-qualified key a subscription watches: a dotted name keeps
/// its explicit schema, a bare name takes the default.
pub open spec fn spec_table_parts(table: Seq<char>, default_schema: Seq<char>) -> (
    Seq<char>,
    Seq<char>,
) {
    if text::has_char(table, '.') {
        let d = text::first_index(table, '.');
        (table.subrange(0, d), table.subrange(d + 1, table.len() as int))
    } else {
        (default_schema, table)
    }
}

/// Splits a watched table name into schema and table.
pub fn table_parts(table: &str, default_schema: &str) -> (r: (String, String))
    ensures
        (r.0@, r.1@) == spec_table_parts(table@, default_schema@),
{
    let ul = table.unicode_len();
    match text::find_char(table, '.') {
        Some(d) => {
            proof {
                text::lemma_first_index_agrees(table@, '.', d as int);
                assert(d < ul);
            }
            let s = table.substring_char(0, d).to_owned();
            let t = text::suffix_from(table, d + 1);
            (s, t)
        },
        None => {
            proof {
                assert(!text::has_char(table@, '.'));
            }
            (default_schema.to_owned(), table.to_owned())
        },
    }
}

/// Textual value a change record offers a filter: raw text for
/// strings, the literal for numbers, `true`/`false`/`null`, and the
/// JSON form for nested values.
pub open spec fn spec_value_text(v: JsonV) -> Seq<char> {
    match v {
        JsonV::StrV(s) => s,
        JsonV::NumV(n) => n,
        JsonV::BoolV(b) => if b {
            "true"@
        } else {
            "false"@
        },
        JsonV::NullV => "null"@,
        other => spec_json_str(other),
    }
}

/// Strict lexicographic order on character sequences, by code point.
pub open spec fn lex_less(a: Seq<char>, b: Seq<char>) -> bool
    decreases a.len(),
{
    if b.len() == 0 {
        false
    } else if a.len() == 0 {
        true
    } else if (a[0] as u32) < (b[0] as u32) {
        true
    } else if a[0] != b[0] {
        false
    } else {
        lex_less(a.subrange(1, a.len() as int), b.subrange(1, b.len() as int))
    }
}

/// Compares two strings lexicographically by code point.
pub fn str_less(a: &str, b: &str) -> (r: bool)
    ensures
        r == lex_less(a@, b@),
{
    let al = a.unicode_len();
    let bl = b.unicode_len();
    let mut i: usize = 0;
    proof {
        assert(a@.subrange(0, al as int) =~= a@);
        assert(b@.subrange(0, bl as int) =~= b@);
    }
    while i < al && i < bl
        invariant
            al == a@.len(),
            bl == b@.len(),
            i <= al,
            i <= bl,
            lex_less(a@, b@) == lex_less(
                a@.subrange(i as int, al as int),
                b@.subrange(i as int, bl as int),
            ),
            forall|j: int| 0 <= j < i ==> a@[j] == b@[j],
        decreases al - i,
    {
        let ca = a.get_char(i);
        let cb = b.get_char(i);
        proof {
            let ra = a@.subrange(i as int, al as int);
            let rb = b@.subrange(i as int, bl as int);
            assert(ra[0] == a@[i as int]);
            assert(rb[0] == b@[i as int]);
            assert(ra.subrange(1, ra.len() as int) =~= a@.subrange(i + 1, al as int));
            assert(rb.subrange(1, rb.len() as int) =~= b@.subrange(i + 1, bl as int));
        }
        if (ca as u32) < (cb as u32) {
            return true;
        }
        if ca != cb {
            return false;
        }
        i += 1;
    }
    proof {
        let ra = a@.subrange(i as int, al as int);
        let rb = b@.subrange(i as int, bl as int);
        assert(ra.len() == 0 || rb.len() == 0);
    }
    i < bl
}

/// How two record texts stand to one another under the ordering the
/// feed filters use.
#[derive(Debug, Clone, Copy, PartialEq, Eq, Structural)]
pub enum ValueOrder {
    Below,
    Same,
    Above,
}

/// Every character is a decimal digit.
pub open spec fn all_digits(s: Seq<char>) -> bool {
    forall|i: int| 0 <= i < s.len() ==> crate::num::is_digit(s[i])
}

/// Every character is the zero digit.
pub open spec fn all_zero_digits(s: Seq<char>) -> bool {
    forall|i: int| 0 <= i < s.len() ==> s[i] == '0'
}

/// The sign, integer digits and fraction digits of a decimal literal
/// such as `-12.50`; `None` when the text is not of that shape.
pub open spec fn dec_parts(s: Seq<char>) -> Option<(bool, Seq<char>, Seq<char>)> {
    let neg = s.len() > 0 && s[0] == '-';
    let body = if neg {
        s.subrange(1, s.len() as int)
    } else {
        s
    };
    if text::has_char(body, '.') {
        let d = text::first_index(body, '.');
        let ip = body.subrange(0, d);
        let fp = body.subrange(d + 1, body.len() as int);
        if ip.len() >= 1 && all_digits(ip) && all_digits(fp) {
            Some((neg, ip, fp))
        } else {
            None
        }
    } else {
        if body.len() >= 1 && all_digits(body) {
            Some((neg, body, Seq::empty()))
        } else {
            None
        }
    }
}

/// The digits of a magnitude, aligned for character comparison: the
/// integer part padded with leading zeros to `ip_width`, then the
/// fraction padded with trailing zeros to `fp_width`. On equal widths,
/// character order is numeric order.
pub open spec fn spec_dec_key(
    ip: Seq<char>,
    fp: Seq<char>,
    ip_width: int,
    fp_width: int,
) -> Seq<char> {
    crate::types::spec_zeros(ip_width - ip.len()) + ip + fp + crate::types::spec_zeros(
        fp_width - fp.len(),
    )
}

/// The character order of two texts, as an ordering value.
pub open spec fn lex_order(a: Seq<char>, b: Seq<char>) -> ValueOrder {
    if lex_less(a, b) {
        ValueOrder::Below
    } else if lex_less(b, a) {
        ValueOrder::Above
    } else {
        ValueOrder::Same
    }
}

/// The feed's value ordering: exact decimal order when both texts are
/// decimal literals (signs first, zero equal to minus zero, magnitudes
/// by aligned digits), code-point order of the texts otherwise.
pub open spec fn spec_value_order(a: Seq<char>, b: Seq<char>) -> ValueOrder {
    match (dec_parts(a), dec_parts(b)) {
        (Some((na, ia, fa)), Some((nb, ib, fb))) => {
            if all_zero_digits(ia) && all_zero_digits(fa) && all_zero_digits(ib)
                && all_zero_digits(fb) {
                ValueOrder::Same
            } else if na && !nb {
                ValueOrder::Below
            } else if !na && nb {
                ValueOrder::Above
            } else {
                let iw = if ia.len() >= ib.len() {
                    ia.len() as int
                } else {
                    ib.len() as int
                };
                let fw = if fa.len() >= fb.len() {
                    fa.len() as int
                } else {
                    fb.len() as int
                };
                let m = lex_order(spec_dec_key(ia, fa, iw, fw), spec_dec_key(ib, fb, iw, fw));
                if na {
                    flip_order(m)
                } else {
                    m
                }
            }
        },
        _ => lex_order(a, b),
    }
}

/// The ordering with below and above exchanged.
pub open spec fn flip_order(m: ValueOrder) -> ValueOrder {
    match m {
        ValueOrder::Below => ValueOrder::Above,
        ValueOrder::Above => ValueOrder::Below,
        other => other,
    }
}

/// Splits a text into the parts of a decimal literal, when it is one.
fn dec_parts_exec(s: &str) -> (r: Option<(bool, String, String)>)
    ensures
        match r {
            Some(p) => dec_parts(s@) == Some((p.0, p.1@, p.2@)),
            None => dec_parts(s@) is None,
        },
{
    let sl = s.unicode_len();
    let neg = sl > 0 && s.get_char(0) == '-';
    let body: String = if neg {
        text::suffix_from(s, 1)
    } else {
        s.to_owned()
    };
    let bs = body.as_str();
    let bl = bs.unicode_len();
    match text::find_char(bs, '.') {
        Some(d) => {
            proof {
                text::lemma_first_index_agrees(body@, '.', d as int);
            }
            let ip = bs.substring_char(0, d).to_owned();
            let fp = text::suffix_from(bs, d + 1);
            if ip.as_str().unicode_len() >= 1 && all_digits_exec(ip.as_str()) && all_digits_exec(
                fp.as_str(),
            ) {
                Some((neg, ip, fp))
            } else {
                None
            }
        },
        None => {
            proof {
                assert(!text::has_char(body@, '.'));
            }
            if bl >= 1 && all_digits_exec(bs) {
                Some((neg, body, String::new()))
            } else {
                None
            }
        },
    }
}

fn all_digits_exec(s: &str) -> (r: bool)
    ensures
        r == all_digits(s@),
{
    let sl = s.unicode_len();
    let mut i: usize = 0;
    while i < sl
        invariant
            sl == s@.len(),
            i <= sl,
            forall|j: int| 0 <= j < i ==> crate::num::is_digit(s@[j]),
        decreases sl - i,
    {
        let c = s.get_char(i) as u32;
        if c < 48 || c > 57 {
            return false;
        }
        i += 1;
    }
    true
}

fn all_zero_exec(s: &str) -> (r: bool)
    ensures
        r == all_zero_digits(s@),
{
    let sl = s.unicode_len();
    let mut i: usize = 0;
    while i < sl
        invariant
            sl == s@.len(),
            i <= sl,
            forall|j: int| 0 <= j < i ==> s@[j] == '0',
        decreases sl - i,
    {
        if s.get_char(i) != '0' {
            return false;
        }
        i += 1;
    }
    true
}

/// Builds the aligned digit key of a magnitude.
fn dec_key(ip: &str, fp: &str, ip_width: usize, fp_width: usize) -> (r: String)
    requires
        ip@.len() <= ip_width,
        fp@.len() <= fp_width,
    ensures
        r@ == spec_dec_key(ip@, fp@, ip_width as int, fp_width as int),
{
    let mut out = String::new();
    let lead = ip_width - ip.unicode_len();
    let mut z: usize = 0;
    proof {
        assert(out@ =~= crate::types::spec_zeros(0));
    }
    while z < lead
        invariant
            z <= lead,
            out@ == crate::types::spec_zeros(z as int),
        decreases lead - z,
    {
        out.append("0");
        proof {
            reveal_strlit("0");
            crate::types::lemma_zeros_snoc(z as int + 1);
            assert(out@ =~= crate::types::spec_zeros(z + 1));
        }
        z += 1;
    }
    out.append(ip);
    out.append(fp);
    let ghost mid = out@;
    let tail = fp_width - fp.unicode_len();
    let mut t: usize = 0;
    proof {
        assert(out@ =~= mid + crate::types::spec_zeros(0));
    }
    while t < tail
        invariant
            t <= tail,
            out@ == mid + crate::types::spec_zeros(t as int),
        decreases tail - t,
    {
        out.append("0");
        proof {
            reveal_strlit("0");
            crate::types::lemma_zeros_snoc(t as int + 1);
            assert(out@ =~= mid + crate::types::spec_zeros(t + 1));
        }
        t += 1;
    }
    proof {
        assert(out@ =~= spec_dec_key(ip@, fp@, ip_width as int, fp_width as int));
    }
    out
}

fn lex_order_exec(a: &str, b: &str) -> (r: ValueOrder)
    ensures
        r == lex_order(a@, b@),
{
    if str_less(a, b) {
        ValueOrder::Below
    } else if str_less(b, a) {
        ValueOrder::Above
    } else {
        ValueOrder::Same
    }
}

/// Compares two record texts under the feed's value ordering: exact
/// decimal order when both are decimal literals, code-point order
/// otherwise.
pub fn compare_value_text(a: &str, b: &str) -> (r: ValueOrder)
    ensures
        r == spec_value_order(a@, b@),
{
    let pa = dec_parts_exec(a);
    let pb = dec_parts_exec(b);
    match (pa, pb) {
        (Some((na, ia, fa)), Some((nb, ib, fb))) => {
            if all_zero_exec(ia.as_str()) && all_zero_exec(fa.as_str()) && all_zero_exec(
                ib.as_str(),
            ) && all_zero_exec(fb.as_str()) {
                ValueOrder::Same
            } else if na && !nb {
                ValueOrder::Below
            } else if !na && nb {
                ValueOrder::Above
            } else {
                let ia_len = ia.as_str().unicode_len();
                let ib_len = ib.as_str().unicode_len();
                let fa_len = fa.as_str().unicode_len();
                let fb_len = fb.as_str().unicode_len();
                let iw = if ia_len >= ib_len {
                    ia_len
                } else {
                    ib_len
                };
                let fw = if fa_len >= fb_len {
                    fa_len
                } else {
                    fb_len
                };
                let ka = dec_key(ia.as_str(), fa.as_str(), iw, fw);
                let kb = dec_key(ib.as_str(), fb.as_str(), iw, fw);
                let m = lex_order_exec(ka.as_str(), kb.as_str());
                if na {
                    match m {
                        ValueOrder::Below => ValueOrder::Above,
                        ValueOrder::Above => ValueOrder::Below,
                        other => other,
                    }
                } else {
                    m
                }
            }
        },
        _ => lex_order_exec(a, b),
    }
}

/// Whether the comparison operator accepts `a` against `b`, under the
/// feed's value ordering.
pub open spec fn spec_compare(op: FilterOp, a: Seq<char>, b: Seq<char>) -> bool {
    match spec_value_order(a, b) {
        ValueOrder::Below => op == FilterOp::Lt || op == FilterOp::Lte,
        ValueOrder::Same => op == FilterOp::Gte || op == FilterOp::Lte,
        ValueOrder::Above => op == FilterOp::Gt || op == FilterOp::Gte,
    }
}

/// Whether a list of literals contains the given text.
pub open spec fn spec_list_contains(items: Seq<Seq<char>>, t: Seq<char>) -> bool {
    exists|i: int| 0 <= i < items.len() && items[i] == t
}

/// Whether one condition accepts a record value, before negation.
pub open spec fn spec_filter_base(f: FilterV, v: JsonV) -> bool {
    let t = spec_value_text(v);
    match f.operator {
        FilterOp::Eq => match f.value {
            ValueV::SingleV(expected) => t == expected,
            _ => true,
        },
        FilterOp::Neq => match f.value {
            ValueV::SingleV(expected) => t != expected,
            _ => true,
        },
        FilterOp::In => match f.value {
            ValueV::ListV(items) => spec_list_contains(items, t),
            _ => true,
        },
        FilterOp::Is => match f.value {
            ValueV::SingleV(expected) => {
                if text::eq_ci(expected, "null"@) {
                    v is NullV
                } else if text::eq_ci(expected, "true"@) {
                    v == JsonV::BoolV(true)
                } else if text::eq_ci(expected, "false"@) {
                    v == JsonV::BoolV(false)
                } else {
                    true
                }
            },
            _ => true,
        },
        FilterOp::Gt | FilterOp::Gte | FilterOp::Lt | FilterOp::Lte => match f.value {
            ValueV::SingleV(expected) => spec_compare(f.operator, t, expected),
            _ => true,
        },
        _ => true,
    }
}

/// Whether one condition accepts a record value.
pub open spec fn spec_filter_matches(f: FilterV, v: JsonV) -> bool {
    if f.negated {
        !spec_filter_base(f, v)
    } else {
        spec_filter_base(f, v)
    }
}

/// A negated condition accepts a record value exactly when the plain
/// condition rejects it.
pub proof fn lemma_negation_flips(f: FilterV, v: JsonV)
    ensures
        spec_filter_matches(FilterV { negated: !f.negated, ..f }, v) == !spec_filter_matches(f, v),
{
}

/// Evaluates one condition against a record value.
#[verifier::rlimit(100)]
pub fn filter_matches(filter: &Filter, value: &JsonVal) -> (r: bool)
    ensures
        r == spec_filter_matches(filter@, value@),
{
    let val_str: String = match value {
        JsonVal::Str(s) => s.clone(),
        JsonVal::Num(n) => n.clone(),
        JsonVal::Bool(b) => if *b {
            "true".to_owned()
        } else {
            "false".to_owned()
        },
        JsonVal::Null => "null".to_owned(),
        other => json_to_string(other),
    };
    let result: bool = match filter.operator {
        FilterOp::Eq => match &filter.value {
            FilterValue::Single(expected) => text::str_eq(val_str.as_str(), expected.as_str()),
            _ => true,
        },
        FilterOp::Neq => match &filter.value {
            FilterValue::Single(expected) => !text::str_eq(val_str.as_str(), expected.as_str()),
            _ => true,
        },
        FilterOp::In => match &filter.value {
            FilterValue::List(items) => {
                let mut found = false;
                let mut i: usize = 0;
                let ghost iv = filter@.value->ListV_0;
                proof {
                    assert(iv.len() == items@.len());
                    assert(forall|k: int| 0 <= k < items@.len() ==> iv[k] == items@[k]@);
                }
                while i < items.len()
                    invariant
                        iv.len() == items@.len(),
                        forall|k: int| 0 <= k < items@.len() ==> iv[k] == items@[k]@,
                        i <= items@.len(),
                        found == exists|k: int| 0 <= k < i && iv[k] == val_str@,
                    decreases items.len() - i,
                {
                    if text::str_eq(items[i].as_str(), val_str.as_str()) {
                        proof {
                            assert(iv[i as int] == val_str@);
                        }
                        found = true;
                    }
                    i += 1;
                }
                found
            },
            _ => true,
        },
        FilterOp::Is => match &filter.value {
            FilterValue::Single(expected) => {
                if text::eq_ignore_case(expected.as_str(), "null") {
                    matches!(value, JsonVal::Null)
                } else if text::eq_ignore_case(expected.as_str(), "true") {
                    matches!(value, JsonVal::Bool(true))
                } else if text::eq_ignore_case(expected.as_str(), "false") {
                    matches!(value, JsonVal::Bool(false))
                } else {
                    true
                }
            },
            _ => true,
        },
        FilterOp::Gt | FilterOp::Gte | FilterOp::Lt | FilterOp::Lte => match &filter.value {
            FilterValue::Single(expected) => {
                let ord = compare_value_text(val_str.as_str(), expected.as_str());
                match ord {
                    ValueOrder::Below => matches!(filter.operator, FilterOp::Lt | FilterOp::Lte),
                    ValueOrder::Same => matches!(filter.operator, FilterOp::Gte | FilterOp::Lte),
                    ValueOrder::Above => matches!(filter.operator, FilterOp::Gt | FilterOp::Gte),
                }
            },
            _ => true,
        },
        _ => true,
    };
    if filter.negated {
        !result
    } else {
        result
    }
}

/// Whether every condition of a subscription accepts the record:
/// conditions on columns the record lacks are passed over.
pub open spec fn spec_filters_accept(fs: Seq<FilterV>, record: RowV) -> bool {
    forall|i: int|
        0 <= i < fs.len() ==> (match crate::jsonval::spec_obj_get(record, (#[trigger] fs[i]).column) {
            Some(v) => spec_filter_matches(fs[i], v),
            None => true,
        })
}

/// Evaluates a subscription's conditions against a change record.
pub fn filters_accept(fs: &Vec<Filter>, record: &Row) -> (r: bool)
    ensures
        r == spec_filters_accept(fs@.map_values(|f: Filter| f@), obj_view(record@)),
{
    let ghost fv = fs@.map_values(|f: Filter| f@);
    let mut i: usize = 0;
    while i < fs.len()
        invariant
            fv == fs@.map_values(|f: Filter| f@),
            fv.len() == fs@.len(),
            forall|k: int| 0 <= k < fv.len() ==> fv[k] == fs@[k]@,
            i <= fs@.len(),
            forall|k: int|
                0 <= k < i ==> (match crate::jsonval::spec_obj_get(
                    obj_view(record@),
                    (#[trigger] fv[k]).column,
                ) {
                    Some(v) => spec_filter_matches(fv[k], v),
                    None => true,
                }),
        decreases fs.len() - i,
    {
        match crate::jsonval::obj_get(record, fs[i].column.as_str()) {
            Some(v) => {
                if !filter_matches(&fs[i], v) {
                    proof {
                        assert(fv[i as int] == fs@[i as int]@);
                        assert(!(match crate::jsonval::spec_obj_get(
                            obj_view(record@),
                            fv[i as int].column,
                        ) {
                            Some(w) => spec_filter_matches(fv[i as int], w),
                            None => true,
                        }));
                    }
                    return false;
                }
            },
            None => {
            },
        }
        i += 1;
    }
    true
}

/// The parsed conditions of a subscription filter string: each
/// `&`-separated piece with an `=` is a `column=expression` condition;
/// pieces without one are passed over. `None` stands for a grammar
/// error in some condition.
pub open spec fn spec_sub_filters(pieces: Seq<Seq<char>>) -> Option<Seq<FilterV>>
    decreases pieces.len(),
{
    if pieces.len() == 0 {
        Some(Seq::empty())
    } else {
        let p = pieces[0];
        let rest = spec_sub_filters(pieces.subrange(1, pieces.len() as int));
        if text::has_char(p, '=') {
            let d = text::first_index(p, '=');
            match filters::spec_parse_filter(p.subrange(0, d), p.subrange(d + 1, p.len() as int)) {
                Some(f) => match rest {
                    Some(tail) => Some(seq![f] + tail),
                    None => None,
                },
                None => None,
            }
        } else {
            rest
        }
    }
}

/// The registry of live subscriptions, in subscription order.
pub struct SubscriptionRegistry {
    pub subs: Vec<Subscription>,
}

impl SubscriptionRegistry {
    /// An empty registry.
    pub fn new() -> (r: SubscriptionRegistry)
        ensures
            r.subs@.len() == 0,
    {
        SubscriptionRegistry { subs: Vec::new() }
    }

    /// Registers a subscription after validating the watched table and
    /// parsing its filters. Returns the schema-qualified table key.
    /// Fails, leaving the registry unchanged, when the table is
    /// unknown, change tracking is off, or a filter is ungrammatical.
    pub fn subscribe(
        &mut self,
        client: u128,
        sub_id: String,
        table: &str,
        filter_str: Option<&str>,
        events: Option<&Vec<String>>,
        schema: &SchemaCache,
        default_schema: &str,
    ) -> (r: Result<String, String>)
        ensures
            ({
                let news = final(self).subs@;
                let olds = old(self).subs@;
                let parts = spec_table_parts(table@, default_schema@);
                let table_ok = match crate::schema::spec_first_ci_table(
                    crate::schema::tables_view(schema.tables@),
                    parts.0,
                    parts.1,
                ) {
                    Some(t) => t.change_tracking_enabled,
                    None => false,
                };
                let filters_ok = match filter_str {
                    Some(f) => spec_sub_filters(text::spec_split(f@, '&')) is Some,
                    None => true,
                };
                match r {
                    Ok(key) => table_ok && filters_ok && news.len() == olds.len() + 1
                        && news.subrange(0, olds.len() as int) == olds && ({
                        let sub = news[olds.len() as int];
                        sub.client == client && sub.id@ == sub_id@ && key@ == parts.0 + "."@
                            + parts.1 && sub.table_key@ == key@ && sub.events@ == spec_events(
                            match events {
                                Some(names) => Some(crate::query::strs_view(names@)),
                                None => None,
                            },
                        ) && (match (filter_str, &sub.filters) {
                            (Some(f), Some(fs)) => spec_sub_filters(text::spec_split(f@, '&'))
                                == Some(fs@.map_values(|x: Filter| x@)),
                            (None, None) => true,
                            _ => false,
                        })
                    }),
                    Err(_) => news == olds && !(table_ok && filters_ok),
                }
            }),
    {
        let ghost tv = crate::schema::tables_view(schema.tables@);
        let (schema_name, table_name) = table_parts(table, default_schema);
        let mut table_key = schema_name.clone();
        table_key.append(".");
        table_key.append(table_name.as_str());
        let info = match schema.get_table(schema_name.as_str(), table_name.as_str()) {
            Some(t) => t,
            None => {
                proof {
                    crate::schema::lemma_first_ci_none(tv, schema_name@, table_name@);
                }
                let mut m = String::new();
                m.append("Table not found: ");
                m.append(table_key.as_str());
                return Err(m);
            },
        };
        proof {
            if exists|i: int|
                0 <= i < tv.len() && info@ == tv[i] && crate::schema::table_key_eq(
                    tv[i],
                    schema_name@,
                    table_name@,
                ) && forall|j: int|
                    0 <= j < i ==> !crate::schema::table_key_eq(tv[j], schema_name@, table_name@) {
                let w = choose|i: int|
                    0 <= i < tv.len() && info@ == tv[i] && crate::schema::table_key_eq(
                        tv[i],
                        schema_name@,
                        table_name@,
                    ) && forall|j: int|
                        0 <= j < i ==> !crate::schema::table_key_eq(
                            tv[j],
                            schema_name@,
                            table_name@,
                        );
                crate::schema::lemma_first_ci_of_exact(tv, schema_name@, table_name@, w);
            } else {
                let w = choose|i: int|
                    0 <= i < tv.len() && info@ == tv[i] && crate::schema::table_key_ci(
                        tv[i],
                        schema_name@,
                        table_name@,
                    ) && forall|j: int|
                        0 <= j < i ==> !crate::schema::table_key_ci(
                            tv[j],
                            schema_name@,
                            table_name@,
                        );
                crate::schema::lemma_first_ci_of_ci(tv, schema_name@, table_name@, w);
            }
            assert(crate::schema::spec_first_ci_table(tv, schema_name@, table_name@) == Some(
                info@,
            ));
        }
        if !info.change_tracking_enabled {
            let mut m = String::new();
            m.append("Change tracking not enabled on ");
            m.append(table_key.as_str());
            return Err(m);
        }
        let parsed: Option<Vec<Filter>> = match filter_str {
            Some(f) => {
                let mut fv: Vec<Filter> = Vec::new();
                let parts = text::split_char(f, '&');
                let ghost pieces = text::spec_split(f@, '&');
                let mut i: usize = 0;
                proof {
                    assert(pieces.subrange(0, pieces.len() as int) =~= pieces);
                    assert(fv@.map_values(|x: Filter| x@) =~= Seq::<FilterV>::empty());
                }
                while i < parts.len()
                    invariant
                        filter_str matches Some(ff) && ff@ == f@,
                        pieces == text::spec_split(f@, '&'),
                        parts@.map_values(|p: String| p@) == pieces,
                        i <= parts.len(),
                        match spec_sub_filters(pieces.subrange(i as int, pieces.len() as int)) {
                            Some(tail) => spec_sub_filters(pieces) == Some(
                                fv@.map_values(|x: Filter| x@) + tail,
                            ),
                            None => spec_sub_filters(pieces) is None,
                        },
                    decreases parts.len() - i,
                {
                    let ghost rest = pieces.subrange(i as int, pieces.len() as int);
                    proof {
                        assert(rest[0] == pieces[i as int]);
                        assert(pieces[i as int] == parts@.map_values(|p: String| p@)[i as int]);
                        assert(rest.subrange(1, rest.len() as int) =~= pieces.subrange(
                            i + 1,
                            pieces.len() as int,
                        ));
                    }
                    let piece = parts[i].as_str();
                    let pl = piece.unicode_len();
                    match text::find_char(piece, '=') {
                        Some(eq) => {
                            proof {
                                assert(eq < pl);
                                text::lemma_first_index_agrees(piece@, '=', eq as int);
                            }
                            let key = piece.substring_char(0, eq);
                            let val = text::suffix_from(piece, eq + 1);
                            match filters::parse_filter(key, val.as_str()) {
                                Ok(filter) => {
                                    let ghost prev = fv@;
                                    let ghost fvv = filter@;
                                    fv.push(filter);
                                    proof {
                                        assert(fv@.map_values(|x: Filter| x@) =~= prev.map_values(
                                            |x: Filter| x@,
                                        ) + seq![fvv]);
                                        match spec_sub_filters(
                                            pieces.subrange(i + 1, pieces.len() as int),
                                        ) {
                                            Some(tail) => {
                                                assert((prev.map_values(|x: Filter| x@) + seq![fvv])
                                                    + tail =~= prev.map_values(|x: Filter| x@) + (
                                                seq![fvv] + tail));
                                            },
                                            None => {},
                                        }
                                    }
                                },
                                Err(e) => {
                                    proof {
                                        assert(spec_sub_filters(rest) is None);
                                    }
                                    let mut m = String::new();
                                    m.append("Invalid filter: ");
                                    let em = e.message();
                                    m.append(em.as_str());
                                    return Err(m);
                                },
                            }
                        },
                        None => {
                            proof {
                                assert(!text::has_char(rest[0], '='));
                            }
                        },
                    }
                    i += 1;
                }
                proof {
                    assert(pieces.subrange(i as int, pieces.len() as int) =~= Seq::<
                        Seq<char>,
                    >::empty());
                    assert(fv@.map_values(|x: Filter| x@) + Seq::<FilterV>::empty()
                        =~= fv@.map_values(|x: Filter| x@));
                }
                Some(fv)
            },
            None => None,
        };
        let event_set = parse_events(events);
        let ghost prev = self.subs@;
        let sub = Subscription {
            client,
            id: sub_id,
            table_key: table_key.clone(),
            filters: parsed,
            events: event_set,
        };
        self.subs.push(sub);
        proof {
            assert(self.subs@.subrange(0, prev.len() as int) =~= prev);
        }
        Ok(table_key)
    }

    /// Drops the first subscription of the client with the given id,
    /// if any.
    pub fn unsubscribe(&mut self, client: u128, sub_id: &str)
        ensures
            ({
                let subs = old(self).subs@;
                if exists|i: int|
                    0 <= i < subs.len() && (#[trigger] subs[i]).client == client && subs[i].id@
                        == sub_id@ {
                    final(self).subs@ == subs.remove(
                        choose|i: int|
                            0 <= i < subs.len() && (#[trigger] subs[i]).client == client
                                && subs[i].id@ == sub_id@ && forall|j: int|
                                0 <= j < i ==> !((#[trigger] subs[j]).client == client && subs[j].id@
                                    == sub_id@),
                    )
                } else {
                    final(self).subs@ == subs
                }
            }),
    {
        let ghost subs0 = self.subs@;
        let mut i: usize = 0;
        while i < self.subs.len()
            invariant
                subs0 == old(self).subs@,
                self.subs@ == subs0,
                i <= subs0.len(),
                forall|j: int|
                    0 <= j < i ==> !((#[trigger] subs0[j]).client == client && subs0[j].id@
                        == sub_id@),
            decreases self.subs.len() - i,
        {
            if self.subs[i].client == client && text::str_eq(self.subs[i].id.as_str(), sub_id) {
                let ghost w = i as int;
                proof {
                    assert(subs0[w].client == client && subs0[w].id@ == sub_id@);
                    let c = choose|k: int|
                        0 <= k < subs0.len() && (#[trigger] subs0[k]).client == client
                            && subs0[k].id@ == sub_id@ && forall|j: int|
                            0 <= j < k ==> !((#[trigger] subs0[j]).client == client && subs0[j].id@
                                == sub_id@);
                    if c < w {
                        assert(!(subs0[c].client == client && subs0[c].id@ == sub_id@));
                    } else if w < c {
                        assert(!(subs0[w].client == client && subs0[w].id@ == sub_id@));
                    }
                }
                self.subs.remove(i);
                return ;
            }
            i += 1;
        }
    }

    /// Drops every subscription of the client.
    pub fn remove_client(&mut self, client: u128)
        ensures
            final(self).subs@ == old(self).subs@.filter(|s: Subscription| s.client != client),
    {
        let ghost subs0 = self.subs@;
        let mut kept: Vec<Subscription> = Vec::new();
        let ghost mut n: int = 0;
        proof {
            reveal(Seq::filter);
            assert(subs0.take(0) =~= Seq::<Subscription>::empty());
            assert(subs0.skip(0) =~= subs0);
            assert(kept@ =~= subs0.take(0).filter(|s: Subscription| s.client != client));
        }
        while self.subs.len() > 0
            invariant
                subs0 == old(self).subs@,
                0 <= n,
                n + self.subs@.len() == subs0.len(),
                self.subs@ == subs0.skip(n),
                kept@ == subs0.take(n).filter(|s: Subscription| s.client != client),
            decreases self.subs@.len(),
        {
            let s = self.subs.remove(0);
            proof {
                assert(subs0.skip(n)[0] == subs0[n]);
                assert(subs0.skip(n).remove(0) =~= subs0.skip(n + 1));
                reveal(Seq::filter);
                let pred = |s: Subscription| s.client != client;
                let t1 = subs0.take(n + 1);
                assert(t1.drop_last() =~= subs0.take(n));
                assert(t1.last() == subs0[n]);
                assert(t1.filter(pred) == (if pred(t1.last()) {
                    t1.drop_last().filter(pred).push(t1.last())
                } else {
                    t1.drop_last().filter(pred)
                }));
            }
            if s.client != client {
                kept.push(s);
            }
            proof {
                n = n + 1;
            }
        }
        proof {
            assert(subs0.take(n) =~= subs0);
        }
        self.subs = kept;
    }
}

/// A message the feed engine sends to a subscriber.
#[derive(Debug)]
pub enum ServerMessage {
    Subscribed { id: String, table: String },
    Unsubscribed { id: String },
    ProtocolError { message: String },
    Pong,
    Change { op: ChangeOp, id: String, table: String, record: Row },
}

/// The wire name of an operation.
pub open spec fn spec_op_name(op: ChangeOp) -> Seq<char> {
    match op {
        ChangeOp::Insert => "INSERT"@,
        ChangeOp::Update => "UPDATE"@,
        ChangeOp::Delete => "DELETE"@,
    }
}

/// The JSON text of a server message, members in wire order.
pub open spec fn spec_server_message(m: &ServerMessage) -> Seq<char> {
    match m {
        ServerMessage::Subscribed { id, table } => spec_json_str(
            JsonV::ObjV(
                seq![
                    ("type"@, JsonV::StrV("subscribed"@)),
                    ("id"@, JsonV::StrV(id@)),
                    ("table"@, JsonV::StrV(table@)),
                ],
            ),
        ),
        ServerMessage::Unsubscribed { id } => spec_json_str(
            JsonV::ObjV(
                seq![("type"@, JsonV::StrV("unsubscribed"@)), ("id"@, JsonV::StrV(id@))],
            ),
        ),
        ServerMessage::ProtocolError { message } => spec_json_str(
            JsonV::ObjV(
                seq![("type"@, JsonV::StrV("error"@)), ("message"@, JsonV::StrV(message@))],
            ),
        ),
        ServerMessage::Pong => spec_json_str(
            JsonV::ObjV(seq![("type"@, JsonV::StrV("pong"@))]),
        ),
        ServerMessage::Change { op, id, table, record } => spec_json_str(
            JsonV::ObjV(
                seq![
                    ("type"@, JsonV::StrV(spec_op_name(*op))),
                    ("id"@, JsonV::StrV(id@)),
                    ("table"@, JsonV::StrV(table@)),
                    ("record"@, JsonV::ObjV(obj_view(record@))),
                ],
            ),
        ),
    }
}

/// Renders the wire name of an operation.
pub fn op_name(op: ChangeOp) -> (r: &'static str)
    ensures
        r@ == spec_op_name(op),
{
    match op {
        ChangeOp::Insert => "INSERT",
        ChangeOp::Update => "UPDATE",
        ChangeOp::Delete => "DELETE",
    }
}

/// Serializes a server message as a JSON text frame.
pub fn server_message_json(m: &ServerMessage) -> (r: String)
    ensures
        r@ == spec_server_message(m),
{
    let v: JsonVal = match m {
        ServerMessage::Subscribed { id, table } => {
            let mut pairs: Row = Vec::new();
            pairs.push(("type".to_owned(), JsonVal::Str("subscribed".to_owned())));
            pairs.push(("id".to_owned(), JsonVal::Str(id.clone())));
            pairs.push(("table".to_owned(), JsonVal::Str(table.clone())));
            proof {
                lemma_obj_view_index(pairs@);
                assert(obj_view(pairs@) =~= seq![
                    ("type"@, JsonV::StrV("subscribed"@)),
                    ("id"@, JsonV::StrV(id@)),
                    ("table"@, JsonV::StrV(table@)),
                ]);
            }
            JsonVal::Obj(pairs)
        },
        ServerMessage::Unsubscribed { id } => {
            let mut pairs: Row = Vec::new();
            pairs.push(("type".to_owned(), JsonVal::Str("unsubscribed".to_owned())));
            pairs.push(("id".to_owned(), JsonVal::Str(id.clone())));
            proof {
                lemma_obj_view_index(pairs@);
                assert(obj_view(pairs@) =~= seq![
                    ("type"@, JsonV::StrV("unsubscribed"@)),
                    ("id"@, JsonV::StrV(id@)),
                ]);
            }
            JsonVal::Obj(pairs)
        },
        ServerMessage::ProtocolError { message } => {
            let mut pairs: Row = Vec::new();
            pairs.push(("type".to_owned(), JsonVal::Str("error".to_owned())));
            pairs.push(("message".to_owned(), JsonVal::Str(message.clone())));
            proof {
                lemma_obj_view_index(pairs@);
                assert(obj_view(pairs@) =~= seq![
                    ("type"@, JsonV::StrV("error"@)),
                    ("message"@, JsonV::StrV(message@)),
                ]);
            }
            JsonVal::Obj(pairs)
        },
        ServerMessage::Pong => {
            let mut pairs: Row = Vec::new();
            pairs.push(("type".to_owned(), JsonVal::Str("pong".to_owned())));
            proof {
                lemma_obj_view_index(pairs@);
                assert(obj_view(pairs@) =~= seq![("type"@, JsonV::StrV("pong"@))]);
            }
            JsonVal::Obj(pairs)
        },
        ServerMessage::Change { op, id, table, record } => {
            let mut pairs: Row = Vec::new();
            pairs.push(("type".to_owned(), JsonVal::Str(op_name(*op).to_owned())));
            pairs.push(("id".to_owned(), JsonVal::Str(id.clone())));
            pairs.push(("table".to_owned(), JsonVal::Str(table.clone())));
            let rec = crate::handlers::row_dup(record);
            pairs.push(("record".to_owned(), JsonVal::Obj(rec)));
            proof {
                lemma_obj_view_index(pairs@);
                assert(obj_view(pairs@) =~= seq![
                    ("type"@, JsonV::StrV(spec_op_name(*op))),
                    ("id"@, JsonV::StrV(id@)),
                    ("table"@, JsonV::StrV(table@)),
                    ("record"@, JsonV::ObjV(obj_view(record@))),
                ]);
            }
            JsonVal::Obj(pairs)
        },
    };
    json_to_string(&v)
}

/// The record a change row publishes. For deletes, the tracked key
/// columns (under their `__ct_` names, stripped); otherwise every
/// column that is not feed bookkeeping.
pub open spec fn spec_change_record(op: ChangeOp, row: RowV) -> RowV
    decreases row.len(),
{
    if row.len() == 0 {
        Seq::empty()
    } else {
        let rest = spec_change_record(op, row.subrange(1, row.len() as int));
        let k = row[0].0;
        if op == ChangeOp::Delete {
            if text::is_prefix("__ct_"@, k) {
                seq![(k.subrange(5, k.len() as int), row[0].1)] + rest
            } else {
                rest
            }
        } else {
            if !text::is_prefix("SYS_CHANGE_"@, k) && !text::is_prefix("__ct_"@, k) {
                seq![(k, row[0].1)] + rest
            } else {
                rest
            }
        }
    }
}

/// Shapes the record published for one change row.
pub fn change_record(op: ChangeOp, row: &Row) -> (r: Row)
    ensures
        obj_view(r@) == spec_change_record(op, obj_view(row@)),
{
    proof {
        reveal_strlit("__ct_");
        reveal_strlit("SYS_CHANGE_");
        lemma_obj_view_index(row@);
    }
    let ghost rv = obj_view(row@);
    let mut out: Row = Vec::new();
    let mut i: usize = 0;
    proof {
        assert(rv.subrange(0, rv.len() as int) =~= rv);
        assert(obj_view(out@) + spec_change_record(op, rv) =~= spec_change_record(op, rv));
    }
    while i < row.len()
        invariant
            rv == obj_view(row@),
            rv.len() == row@.len(),
            forall|k: int| 0 <= k < rv.len() ==> rv[k] == (row@[k].0@, json_view(row@[k].1)),
            i <= row@.len(),
            spec_change_record(op, rv) == obj_view(out@) + spec_change_record(
                op,
                rv.subrange(i as int, rv.len() as int),
            ),
        decreases row.len() - i,
    {
        proof {
            reveal_strlit("__ct_");
            reveal_strlit("SYS_CHANGE_");
        }
        let ghost rest = rv.subrange(i as int, rv.len() as int);
        proof {
            assert(rest[0] == rv[i as int]);
            assert(rest.subrange(1, rest.len() as int) =~= rv.subrange(i + 1, rv.len() as int));
        }
        let key = row[i].0.as_str();
        if op == ChangeOp::Delete {
            if text::has_prefix(key, "__ct_") {
                let stripped = text::suffix_from(key, 5);
                let v = crate::jsonval::json_dup(&row[i].1);
                let ghost prev = out@;
                out.push((stripped, v));
                proof {
                    lemma_obj_view_index(out@);
                    lemma_obj_view_index(prev);
                    assert(obj_view(out@) =~= obj_view(prev) + seq![
                        (rv[i as int].0.subrange(5, rv[i as int].0.len() as int), rv[i as int].1),
                    ]);
                    assert((obj_view(prev) + seq![
                        (rv[i as int].0.subrange(5, rv[i as int].0.len() as int), rv[i as int].1),
                    ]) + spec_change_record(op, rv.subrange(i + 1, rv.len() as int))
                        =~= obj_view(prev) + (seq![
                        (rv[i as int].0.subrange(5, rv[i as int].0.len() as int), rv[i as int].1),
                    ] + spec_change_record(op, rv.subrange(i + 1, rv.len() as int))));
                }
            }
        } else {
            if !text::has_prefix(key, "SYS_CHANGE_") && !text::has_prefix(key, "__ct_") {
                let k2 = row[i].0.clone();
                let v = crate::jsonval::json_dup(&row[i].1);
                let ghost prev = out@;
                out.push((k2, v));
                proof {
                    lemma_obj_view_index(out@);
                    lemma_obj_view_index(prev);
                    assert(obj_view(out@) =~= obj_view(prev) + seq![
                        (rv[i as int].0, rv[i as int].1),
                    ]);
                    assert((obj_view(prev) + seq![(rv[i as int].0, rv[i as int].1)])
                        + spec_change_record(op, rv.subrange(i + 1, rv.len() as int))
                        =~= obj_view(prev) + (seq![(rv[i as int].0, rv[i as int].1)]
                        + spec_change_record(op, rv.subrange(i + 1, rv.len() as int))));
                }
            }
        }
        i += 1;
    }
    proof {
        assert(rv.subrange(i as int, rv.len() as int) =~= Seq::<(Seq<char>, JsonV)>::empty());
        assert(obj_view(out@) + Seq::<(Seq<char>, JsonV)>::empty() =~= obj_view(out@));
    }
    out
}

/// Which subscriptions a change fans out to: every subscription on the
/// table whose event set has the operation and whose conditions all
/// accept the record, as `(client, id)` pairs in subscription order.
pub open spec fn spec_sub_accepts(
    s: Subscription,
    table_key: Seq<char>,
    op: ChangeOp,
    record: RowV,
) -> bool {
    s.table_key@ == table_key && s.events@.contains(op) && (match s.filters {
        Some(fs) => spec_filters_accept(fs@.map_values(|f: Filter| f@), record),
        None => true,
    })
}

impl SubscriptionRegistry {
    /// The subscribers a change is delivered to.
    pub fn matching_subscriptions(&self, table_key: &str, op: ChangeOp, record: &Row) -> (r: Vec<
        (u128, String),
    >)
        ensures
            r@.map_values(|p: (u128, String)| (p.0, p.1@)) == spec_matching(
                self.subs@,
                table_key@,
                op,
                obj_view(record@),
            ),
    {
        let ghost sv = self.subs@;
        let mut out: Vec<(u128, String)> = Vec::new();
        let mut i: usize = 0;
        proof {
            assert(sv.subrange(0, sv.len() as int) =~= sv);
            assert(out@.map_values(|p: (u128, String)| (p.0, p.1@)) + spec_matching(
                sv,
                table_key@,
                op,
                obj_view(record@),
            ) =~= spec_matching(sv, table_key@, op, obj_view(record@)));
        }
        while i < self.subs.len()
            invariant
                sv == self.subs@,
                i <= sv.len(),
                spec_matching(sv, table_key@, op, obj_view(record@)) == out@.map_values(
                    |p: (u128, String)| (p.0, p.1@),
                ) + spec_matching(
                    sv.subrange(i as int, sv.len() as int),
                    table_key@,
                    op,
                    obj_view(record@),
                ),
            decreases self.subs.len() - i,
        {
            let ghost rest = sv.subrange(i as int, sv.len() as int);
            proof {
                assert(rest[0] == sv[i as int]);
                assert(rest.subrange(1, rest.len() as int) =~= sv.subrange(
                    i + 1,
                    sv.len() as int,
                ));
            }
            let sub = &self.subs[i];
            let mut ok = text::str_eq(sub.table_key.as_str(), table_key);
            if ok {
                let mut has_event = false;
                let mut e: usize = 0;
                while e < sub.events.len()
                    invariant
                        i < sv.len(),
                        sub == &sv[i as int],
                        e <= sub.events@.len(),
                        has_event == exists|k: int| 0 <= k < e && sub.events@[k] == op,
                    decreases sub.events.len() - e,
                {
                    if sub.events[e] == op {
                        has_event = true;
                    }
                    e += 1;
                }
                proof {
                    assert(has_event == sub.events@.contains(op));
                }
                ok = has_event;
            }
            if ok {
                match &sub.filters {
                    Some(fs) => {
                        if !filters_accept(fs, record) {
                            ok = false;
                        }
                    },
                    None => {
                    },
                }
            }
            proof {
                assert(ok == spec_sub_accepts(sv[i as int], table_key@, op, obj_view(record@)));
            }
            if ok {
                let ghost prev = out@;
                let entry = (sub.client, sub.id.clone());
                let ghost ev = (entry.0, entry.1@);
                out.push(entry);
                proof {
                    assert(out@.map_values(|p: (u128, String)| (p.0, p.1@)) =~= prev.map_values(
                        |p: (u128, String)| (p.0, p.1@),
                    ) + seq![ev]);
                    assert((prev.map_values(|p: (u128, String)| (p.0, p.1@)) + seq![ev])
                        + spec_matching(
                        sv.subrange(i + 1, sv.len() as int),
                        table_key@,
                        op,
                        obj_view(record@),
                    ) =~= prev.map_values(|p: (u128, String)| (p.0, p.1@)) + (seq![ev]
                        + spec_matching(
                        sv.subrange(i + 1, sv.len() as int),
                        table_key@,
                        op,
                        obj_view(record@),
                    )));
                }
            }
            i += 1;
        }
        proof {
            assert(sv.subrange(i as int, sv.len() as int) =~= Seq::<Subscription>::empty());
            assert(out@.map_values(|p: (u128, String)| (p.0, p.1@)) + Seq::<
                (u128, Seq<char>),
            >::empty() =~= out@.map_values(|p: (u128, String)| (p.0, p.1@)));
        }
        out
    }
}

/// The `(client, id)` pairs of the subscriptions a change reaches.
pub open spec fn spec_matching(
    subs: Seq<Subscription>,
    table_key: Seq<char>,
    op: ChangeOp,
    record: RowV,
) -> Seq<(u128, Seq<char>)>
    decreases subs.len(),
{
    if subs.len() == 0 {
        Seq::empty()
    } else {
        let rest = spec_matching(subs.subrange(1, subs.len() as int), table_key, op, record);
        if spec_sub_accepts(subs[0], table_key, op, record) {
            seq![(subs[0].client, subs[0].id@)] + rest
        } else {
            rest
        }
    }
}

/// Mathematical model of a client message.
pub enum ClientMsgV {
    SubscribeV {
        id: Seq<char>,
        table: Seq<char>,
        filter: Option<Seq<char>>,
        events: Option<Seq<Seq<char>>>,
    },
    UnsubscribeV { id: Seq<char> },
    PingV,
}

/// The string elements of a JSON array, anything else passed over.
pub open spec fn spec_str_items(items: Seq<JsonV>) -> Seq<Seq<char>>
    decreases items.len(),
{
    if items.len() == 0 {
        Seq::empty()
    } else {
        let rest = spec_str_items(items.subrange(1, items.len() as int));
        match items[0] {
            JsonV::StrV(st) => seq![st] + rest,
            _ => rest,
        }
    }
}

/// The string a member holds, when it is a string.
pub open spec fn spec_str_member(pairs: Seq<(Seq<char>, JsonV)>, key: Seq<char>) -> Option<
    Seq<char>,
> {
    match crate::jsonval::spec_obj_get(pairs, key) {
        Some(JsonV::StrV(st)) => Some(st),
        _ => None,
    }
}

/// Model of `parse_client_message`: an object whose `type` member names
/// the message; a subscription reads its `id` and `table` strings, its
/// optional `filter` string, and the string elements of its optional
/// `events` array.
pub open spec fn spec_parse_client_message(v: JsonV) -> Option<ClientMsgV> {
    match v {
        JsonV::ObjV(pairs) => match spec_str_member(pairs, "type"@) {
            Some(t) => {
                if t == "subscribe"@ {
                    match (spec_str_member(pairs, "id"@), spec_str_member(pairs, "table"@)) {
                        (Some(id), Some(table)) => Some(
                            ClientMsgV::SubscribeV {
                                id,
                                table,
                                filter: spec_str_member(pairs, "filter"@),
                                events: match crate::jsonval::spec_obj_get(pairs, "events"@) {
                                    Some(JsonV::ArrV(items)) => Some(spec_str_items(items)),
                                    _ => None,
                                },
                            },
                        ),
                        _ => None,
                    }
                } else if t == "unsubscribe"@ {
                    match spec_str_member(pairs, "id"@) {
                        Some(id) => Some(ClientMsgV::UnsubscribeV { id }),
                        None => None,
                    }
                } else if t == "ping"@ {
                    Some(ClientMsgV::PingV)
                } else {
                    None
                }
            },
            None => None,
        },
        _ => None,
    }
}

/// Reads a string member of an object.
fn str_member<'a>(pairs: &'a Row, key: &str) -> (r: Option<&'a String>)
    ensures
        match r {
            Some(st) => spec_str_member(obj_view(pairs@), key@) == Some(st@),
            None => spec_str_member(obj_view(pairs@), key@) is None,
        },
{
    match crate::jsonval::obj_get(pairs, key) {
        Some(v) => match v {
            JsonVal::Str(st) => Some(st),
            _ => None,
        },
        None => None,
    }
}

/// Parses a protocol frame, already decoded as a JSON value, into a
/// client message. Anything malformed reads as nothing.
pub fn parse_client_message(v: &JsonVal) -> (r: Option<ClientMessage>)
    ensures
        match r {
            Some(m) => spec_parse_client_message(v@) == Some(client_msg_view(&m)),
            None => spec_parse_client_message(v@) is None,
        },
{
    proof {
        reveal_strlit("subscribe");
        reveal_strlit("unsubscribe");
        reveal_strlit("ping");
    }
    let pairs = match v {
        JsonVal::Obj(pairs) => pairs,
        _ => {
            return None;
        },
    };
    proof {
        assert(v@ == JsonV::ObjV(obj_view(pairs@)));
    }
    let t = match str_member(pairs, "type") {
        Some(t) => t,
        None => {
            return None;
        },
    };
    if text::str_eq(t.as_str(), "subscribe") {
        let id = match str_member(pairs, "id") {
            Some(id) => id.clone(),
            None => {
                return None;
            },
        };
        let table = match str_member(pairs, "table") {
            Some(table) => table.clone(),
            None => {
                return None;
            },
        };
        let filter: Option<String> = match str_member(pairs, "filter") {
            Some(f) => Some(f.clone()),
            None => None,
        };
        let events: Option<Vec<String>> = match crate::jsonval::obj_get(pairs, "events") {
            Some(ev) => match ev {
                JsonVal::Arr(items) => {
                    let ghost iv = crate::jsonval::jsons_view(items@);
                    let mut names: Vec<String> = Vec::new();
                    let mut i: usize = 0;
                    proof {
                        crate::jsonval::lemma_jsons_view_index(items@);
                        assert(iv.subrange(0, iv.len() as int) =~= iv);
                        assert(crate::query::strs_view(names@) + spec_str_items(iv)
                            =~= spec_str_items(iv));
                    }
                    while i < items.len()
                        invariant
                            iv == crate::jsonval::jsons_view(items@),
                            iv.len() == items@.len(),
                            forall|k: int| 0 <= k < iv.len() ==> iv[k] == json_view(items@[k]),
                            i <= items@.len(),
                            spec_str_items(iv) == crate::query::strs_view(names@)
                                + spec_str_items(iv.subrange(i as int, iv.len() as int)),
                        decreases items.len() - i,
                    {
                        let ghost rest = iv.subrange(i as int, iv.len() as int);
                        proof {
                            assert(rest[0] == iv[i as int]);
                            assert(rest.subrange(1, rest.len() as int) =~= iv.subrange(
                                i + 1,
                                iv.len() as int,
                            ));
                        }
                        match &items[i] {
                            JsonVal::Str(st) => {
                                let ghost prev = names@;
                                let ghost sv = st@;
                                names.push(st.clone());
                                proof {
                                    assert(crate::query::strs_view(names@)
                                        =~= crate::query::strs_view(prev) + seq![sv]);
                                    assert((crate::query::strs_view(prev) + seq![sv])
                                        + spec_str_items(iv.subrange(i + 1, iv.len() as int))
                                        =~= crate::query::strs_view(prev) + (seq![sv]
                                        + spec_str_items(iv.subrange(i + 1, iv.len() as int))));
                                }
                            },
                            _ => {
                            },
                        }
                        i += 1;
                    }
                    proof {
                        assert(iv.subrange(i as int, iv.len() as int) =~= Seq::<JsonV>::empty());
                        assert(crate::query::strs_view(names@) + Seq::<Seq<char>>::empty()
                            =~= crate::query::strs_view(names@));
                    }
                    Some(names)
                },
                _ => None,
            },
            None => None,
        };
        Some(ClientMessage::Subscribe { id, table, filter, events })
    } else if text::str_eq(t.as_str(), "unsubscribe") {
        let id = match str_member(pairs, "id") {
            Some(id) => id.clone(),
            None => {
                return None;
            },
        };
        Some(ClientMessage::Unsubscribe { id })
    } else if text::str_eq(t.as_str(), "ping") {
        Some(ClientMessage::Ping)
    } else {
        None
    }
}

/// Model of one client message.
pub open spec fn client_msg_view(m: &ClientMessage) -> ClientMsgV {
    match m {
        ClientMessage::Subscribe { id, table, filter, events } => ClientMsgV::SubscribeV {
            id: id@,
            table: table@,
            filter: match filter {
                Some(f) => Some(f@),
                None => None,
            },
            events: match events {
                Some(names) => Some(crate::query::strs_view(names@)),
                None => None,
            },
        },
        ClientMessage::Unsubscribe { id } => ClientMsgV::UnsubscribeV { id: id@ },
        ClientMessage::Ping => ClientMsgV::PingV,
    }
}

/// Model of the change-table batch query for one watched table: the
/// feed bookkeeping columns, the tracked key columns under `__ct_`
/// names, and every current column, keyed from the watermark parameter.
pub open spec fn spec_change_query(t: TableV, schema: Seq<char>, name: Seq<char>) -> Seq<char> {
    let pk_join = crate::query::spec_join(
        Seq::new(
            t.primary_key.len(),
            |i: int| "t."@ + crate::query::spec_bracket(t.primary_key[i]) + " = ct."@
                + crate::query::spec_bracket(t.primary_key[i]),
        ),
        " AND "@,
    );
    let all_cols = crate::query::spec_join(
        Seq::new(
            t.columns.len(),
            |i: int| "t."@ + crate::query::spec_bracket(t.columns[i].name),
        ),
        ", "@,
    );
    let ct_pk_cols = crate::query::spec_join(
        Seq::new(
            t.primary_key.len(),
            |i: int| "ct."@ + crate::query::spec_bracket(t.primary_key[i]) + " AS [__ct_"@
                + crate::query::spec_escape_ident(t.primary_key[i]) + "]"@,
        ),
        ", "@,
    );
    "SELECT ct.SYS_CHANGE_OPERATION, ct.SYS_CHANGE_VERSION, "@ + ct_pk_cols + ", "@ + all_cols
        + " FROM CHANGETABLE(CHANGES "@ + crate::query::spec_bracket(schema) + "."@
        + crate::query::spec_bracket(name) + ", @P1) AS ct LEFT JOIN "@
        + crate::query::spec_bracket(schema) + "."@ + crate::query::spec_bracket(name) + " t ON "@
        + pk_join
}

/// Builds the change-table batch query for one watched table; the one
/// parameter is the previous watermark.
pub fn build_change_query(table: &crate::schema::TableInfo, schema: &str, name: &str) -> (r:
    String)
    ensures
        r@ == spec_change_query(table@, schema@, name@),
{
    let mut pk_parts: Vec<String> = Vec::new();
    let mut i: usize = 0;
    while i < table.primary_key.len()
        invariant
            i <= table.primary_key@.len(),
            table@.primary_key.len() == table.primary_key@.len(),
            forall|k: int|
                0 <= k < table.primary_key@.len() ==> table@.primary_key[k]
                    == table.primary_key@[k]@,
            pk_parts@.len() == i,
            forall|j: int|
                0 <= j < i ==> crate::query::strs_view(pk_parts@)[j] == "t."@
                    + crate::query::spec_bracket(table@.primary_key[j]) + " = ct."@
                    + crate::query::spec_bracket(table@.primary_key[j]),
        decreases table.primary_key.len() - i,
    {
        let b = crate::query::bracket(table.primary_key[i].as_str());
        let mut part = String::new();
        part.append("t.");
        part.append(b.as_str());
        part.append(" = ct.");
        part.append(b.as_str());
        let ghost prev = pk_parts@;
        let ghost pv2 = part@;
        pk_parts.push(part);
        proof {
            assert(crate::query::strs_view(pk_parts@) =~= crate::query::strs_view(prev).push(pv2));
        }
        i += 1;
    }
    let pk_join = crate::query::join_strings(&pk_parts, " AND ");
    let mut col_parts: Vec<String> = Vec::new();
    let mut c: usize = 0;
    while c < table.columns.len()
        invariant
            c <= table.columns@.len(),
            table@.columns.len() == table.columns@.len(),
            forall|k: int|
                0 <= k < table.columns@.len() ==> table@.columns[k] == table.columns@[k]@,
            col_parts@.len() == c,
            forall|j: int|
                0 <= j < c ==> crate::query::strs_view(col_parts@)[j] == "t."@
                    + crate::query::spec_bracket(table@.columns[j].name),
        decreases table.columns.len() - c,
    {
        let b = crate::query::bracket(table.columns[c].name.as_str());
        let mut part = String::new();
        part.append("t.");
        part.append(b.as_str());
        let ghost prev = col_parts@;
        let ghost pv2 = part@;
        col_parts.push(part);
        proof {
            assert(crate::query::strs_view(col_parts@) =~= crate::query::strs_view(prev).push(
                pv2,
            ));
        }
        c += 1;
    }
    let all_cols = crate::query::join_strings(&col_parts, ", ");
    let mut ct_parts: Vec<String> = Vec::new();
    let mut k: usize = 0;
    while k < table.primary_key.len()
        invariant
            k <= table.primary_key@.len(),
            table@.primary_key.len() == table.primary_key@.len(),
            forall|j: int|
                0 <= j < table.primary_key@.len() ==> table@.primary_key[j]
                    == table.primary_key@[j]@,
            ct_parts@.len() == k,
            forall|j: int|
                0 <= j < k ==> crate::query::strs_view(ct_parts@)[j] == "ct."@
                    + crate::query::spec_bracket(table@.primary_key[j]) + " AS [__ct_"@
                    + crate::query::spec_escape_ident(table@.primary_key[j]) + "]"@,
        decreases table.primary_key.len() - k,
    {
        let b = crate::query::bracket(table.primary_key[k].as_str());
        let esc = crate::query::escape_ident(table.primary_key[k].as_str());
        let mut part = String::new();
        part.append("ct.");
        part.append(b.as_str());
        part.append(" AS [__ct_");
        part.append(esc.as_str());
        part.append("]");
        let ghost prev = ct_parts@;
        let ghost pv2 = part@;
        ct_parts.push(part);
        proof {
            assert(crate::query::strs_view(ct_parts@) =~= crate::query::strs_view(prev).push(pv2));
        }
        k += 1;
    }
    let ct_pk_cols = crate::query::join_strings(&ct_parts, ", ");
    let bs = crate::query::bracket(schema);
    let bn = crate::query::bracket(name);
    let mut sql = String::new();
    sql.append("SELECT ct.SYS_CHANGE_OPERATION, ct.SYS_CHANGE_VERSION, ");
    sql.append(ct_pk_cols.as_str());
    sql.append(", ");
    sql.append(all_cols.as_str());
    sql.append(" FROM CHANGETABLE(CHANGES ");
    sql.append(bs.as_str());
    sql.append(".");
    sql.append(bn.as_str());
    sql.append(", @P1) AS ct LEFT JOIN ");
    sql.append(bs.as_str());
    sql.append(".");
    sql.append(bn.as_str());
    sql.append(" t ON ");
    sql.append(pk_join.as_str());
    proof {
        assert(crate::query::strs_view(pk_parts@) =~= Seq::new(
            table@.primary_key.len(),
            |i: int| "t."@ + crate::query::spec_bracket(table@.primary_key[i]) + " = ct."@
                + crate::query::spec_bracket(table@.primary_key[i]),
        ));
        assert(crate::query::strs_view(col_parts@) =~= Seq::new(
            table@.columns.len(),
            |i: int| "t."@ + crate::query::spec_bracket(table@.columns[i].name),
        ));
        assert(crate::query::strs_view(ct_parts@) =~= Seq::new(
            table@.primary_key.len(),
            |i: int| "ct."@ + crate::query::spec_bracket(table@.primary_key[i]) + " AS [__ct_"@
                + crate::query::spec_escape_ident(table@.primary_key[i]) + "]"@,
        ));
        assert(sql@ =~= spec_change_query(table@, schema@, name@));
    }
    sql
}

} // verus!
