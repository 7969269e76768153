//! Request planning: path resolution, query-parameter filters, range
//! fallback, body-to-parameter conversion, the embed engine's pure
//! core, and mutation response shaping.

use vstd::prelude::*;
use crate::error::Error;
use crate::filters::{self, FilterNode, NodeV, node_view, nodes_view};
use crate::jsonval::{JsonVal, JsonV, json_view, json_to_string, json_dup, jsons_view, obj_view, obj_get, spec_json_str, spec_obj_get, lemma_obj_view_index};
use crate::num;
use crate::query::col_in_table;
use crate::response::{Preferences, PrefV, ResponseFormat, ReturnMode, rows_to_json};
use crate::schema::{EmbedJoinType, TableInfo, TableV};
use crate::text;

verus! {

/// A row, as a key-value list in column order.
pub type Row = Vec<(String, JsonVal)>;

/// Model of a row.
pub type RowV = Seq<(Seq<char>, JsonV)>;

/// The non-empty `/`-separated segments of a request path.
pub open spec fn spec_path_parts(parts: Seq<Seq<char>>) -> Seq<Seq<char>>
    decreases parts.len(),
{
    if parts.len() == 0 {
        Seq::empty()
    } else {
        let rest = spec_path_parts(parts.subrange(1, parts.len() as int));
        if parts[0].len() > 0 {
            seq![parts[0]] + rest
        } else {
            rest
        }
    }
}

/// Model of `resolve_table_path`: one segment names a table in the
/// default schema, two name schema and table, anything else is a bad
/// request.
pub open spec fn spec_resolve_table_path(path: Seq<char>, default_schema: Seq<char>) -> Option<
    (Seq<char>, Seq<char>),
> {
    let parts = spec_path_parts(text::spec_split(path, '/'));
    if parts.len() == 1 {
        Some((default_schema, parts[0]))
    } else if parts.len() == 2 {
        Some((parts[0], parts[1]))
    } else {
        None
    }
}

/// Resolves a request path into `(schema, table)`, applying the default
/// schema to single-segment paths. Fails with a bad-request error
/// exactly when the path has no or more than two segments.
pub fn resolve_table_path(path: &str, default_schema: &str) -> (r: Result<(String, String), Error>)
    ensures
        match r {
            Ok(p) => spec_resolve_table_path(path@, default_schema@) == Some((p.0@, p.1@)),
            Err(e) => spec_resolve_table_path(path@, default_schema@) is None && e is BadRequest,
        },
{
    let raw = text::split_char(path, '/');
    let ghost pieces = text::spec_split(path@, '/');
    let mut parts: Vec<String> = Vec::new();
    let mut i: usize = 0;
    proof {
        assert(pieces.subrange(0, pieces.len() as int) =~= pieces);
        assert(parts@.map_values(|p: String| p@) =~= Seq::<Seq<char>>::empty());
    }
    while i < raw.len()
        invariant
            raw@.map_values(|p: String| p@) == pieces,
            i <= raw.len(),
            spec_path_parts(pieces) == parts@.map_values(|p: String| p@) + spec_path_parts(
                pieces.subrange(i as int, pieces.len() as int),
            ),
        decreases raw.len() - i,
    {
        proof {
            let rest = pieces.subrange(i as int, pieces.len() as int);
            assert(rest[0] == pieces[i as int]);
            assert(pieces[i as int] == raw@.map_values(|p: String| p@)[i as int]);
            assert(rest.subrange(1, rest.len() as int) =~= pieces.subrange(
                i + 1,
                pieces.len() as int,
            ));
        }
        if !raw[i].as_str().is_empty() {
            let ghost prev = parts@;
            let piece = raw[i].clone();
            let ghost pcv = piece@;
            parts.push(piece);
            proof {
                assert(parts@.map_values(|p: String| p@) =~= prev.map_values(|p: String| p@)
                    + seq![pcv]);
            }
        }
        i += 1;
    }
    proof {
        assert(pieces.subrange(i as int, pieces.len() as int) =~= Seq::<Seq<char>>::empty());
        assert(parts@.map_values(|p: String| p@) + Seq::<Seq<char>>::empty() =~= parts@.map_values(
            |p: String| p@,
        ));
    }
    if parts.len() == 1 {
        let t = parts[0].clone();
        Ok((default_schema.to_owned(), t))
    } else if parts.len() == 2 {
        let s = parts[0].clone();
        let t = parts[1].clone();
        Ok((s, t))
    } else {
        let mut m = String::new();
        m.append("Invalid path: ");
        m.append(path);
        Err(Error::BadRequest(m))
    }
}

/// A query key that is taken by the read grammar rather than treated as
/// a column filter.
pub open spec fn is_reserved_key(k: Seq<char>) -> bool {
    k == "select"@ || k == "order"@ || k == "limit"@ || k == "offset"@
}

/// Model of `build_filters_from_params`: `or`/`and` keys open logic
/// groups; reserved keys, dotted (embed-filter) keys and unknown names
/// are passed over; a key naming a column becomes a condition.
pub open spec fn spec_params_filters(
    params: Seq<(Seq<char>, Seq<char>)>,
    t: TableV,
) -> Option<Seq<NodeV>>
    decreases params.len(),
{
    if params.len() == 0 {
        Some(Seq::empty())
    } else {
        let k = params[0].0;
        let v = params[0].1;
        let rest = spec_params_filters(params.subrange(1, params.len() as int), t);
        if k == "or"@ {
            match filters::spec_parse_group(v) {
                Ok(children) => match rest {
                    Some(tail) => Some(seq![NodeV::OrV(children)] + tail),
                    None => None,
                },
                Err(_) => None,
            }
        } else if k == "and"@ {
            match filters::spec_parse_group(v) {
                Ok(children) => match rest {
                    Some(tail) => Some(seq![NodeV::AndV(children)] + tail),
                    None => None,
                },
                Err(_) => None,
            }
        } else if is_reserved_key(k) {
            rest
        } else if text::has_char(k, '.') {
            rest
        } else if col_in_table(t.columns, k) {
            match filters::spec_parse_filter(k, v) {
                Some(f) => match rest {
                    Some(tail) => Some(seq![NodeV::CondV(f)] + tail),
                    None => None,
                },
                None => None,
            }
        } else {
            rest
        }
    }
}

/// The views of a key-value parameter list.
pub open spec fn params_view(params: Seq<(String, String)>) -> Seq<(Seq<char>, Seq<char>)> {
    params.map_values(|p: (String, String)| (p.0@, p.1@))
}

/// Builds the top-level filter nodes of a request from its query
/// parameters, in request order. Fails with a bad-request error
/// exactly when a group or filter expression is ungrammatical.
pub fn build_filters_from_params(params: &Vec<(String, String)>, table: &TableInfo) -> (r: Result<
    Vec<FilterNode>,
    Error,
>)
    ensures
        match r {
            Ok(nodes) => spec_params_filters(params_view(params@), table@) == Some(
                nodes_view(nodes@),
            ),
            Err(e) => spec_params_filters(params_view(params@), table@) is None
                && e is BadRequest,
        },
{
    let ghost pv = params_view(params@);
    let mut nodes: Vec<FilterNode> = Vec::new();
    let mut i: usize = 0;
    proof {
        assert(pv.subrange(0, pv.len() as int) =~= pv);
        assert(nodes_view(nodes@) =~= Seq::<NodeV>::empty());
    }
    while i < params.len()
        invariant
            pv == params_view(params@),
            pv.len() == params@.len(),
            forall|k: int| 0 <= k < pv.len() ==> pv[k] == (params@[k].0@, params@[k].1@),
            i <= params.len(),
            match spec_params_filters(pv.subrange(i as int, pv.len() as int), table@) {
                Some(tail) => spec_params_filters(pv, table@) == Some(nodes_view(nodes@) + tail),
                None => spec_params_filters(pv, table@) is None,
            },
        decreases params.len() - i,
    {
        let ghost rest = pv.subrange(i as int, pv.len() as int);
        proof {
            assert(rest[0] == pv[i as int]);
            assert(rest.subrange(1, rest.len() as int) =~= pv.subrange(i + 1, pv.len() as int));
        }
        let key = params[i].0.as_str();
        let value = params[i].1.as_str();
        let node: Option<FilterNode> = if text::str_eq(key, "or") {
            match filters::parse_logic_group(value) {
                Ok(children) => Some(FilterNode::Or(children)),
                Err(e) => {
                    proof {
                        assert(spec_params_filters(rest, table@) is None);
                    }
                    return Err(e);
                },
            }
        } else if text::str_eq(key, "and") {
            match filters::parse_logic_group(value) {
                Ok(children) => Some(FilterNode::And(children)),
                Err(e) => {
                    proof {
                        assert(spec_params_filters(rest, table@) is None);
                    }
                    return Err(e);
                },
            }
        } else if text::str_eq(key, "select") || text::str_eq(key, "order") || text::str_eq(
            key,
            "limit",
        ) || text::str_eq(key, "offset") {
            None
        } else {
            match text::find_char(key, '.') {
                Some(_) => {
                    proof {
                        assert(text::has_char(key@, '.'));
                    }
                    None
                },
                None => {
                    proof {
                        assert(!text::has_char(key@, '.'));
                    }
                    match table.column(key) {
                        Some(_) => {
                            proof {
                                assert(col_in_table(table@.columns, key@));
                            }
                            match filters::parse_filter(key, value) {
                                Ok(f) => Some(FilterNode::Condition(f)),
                                Err(e) => {
                                    proof {
                                        assert(spec_params_filters(rest, table@) is None);
                                    }
                                    return Err(e);
                                },
                            }
                        },
                        None => {
                            proof {
                                assert(!col_in_table(table@.columns, key@));
                            }
                            None
                        },
                    }
                },
            }
        };
        match node {
            Some(n) => {
                let ghost prev = nodes@;
                let ghost nv = node_view(n);
                nodes.push(n);
                proof {
                    crate::filters::lemma_nodes_view_push_pub(prev, nodes@[nodes@.len() - 1]);
                    assert(nodes@ == prev.push(nodes@[nodes@.len() - 1]));
                    match spec_params_filters(pv.subrange(i + 1, pv.len() as int), table@) {
                        Some(tail) => {
                            assert((nodes_view(prev) + seq![nv]) + tail =~= nodes_view(prev) + (
                            seq![nv] + tail));
                        },
                        None => {},
                    }
                }
            },
            None => {
            },
        }
        i += 1;
    }
    proof {
        assert(pv.subrange(i as int, pv.len() as int) =~= Seq::<(Seq<char>, Seq<char>)>::empty());
        assert(nodes_view(nodes@) + Seq::<NodeV>::empty() =~= nodes_view(nodes@));
    }
    Ok(nodes)
}

/// Model of the Range-header fallback: `a-b` yields offset `a` and
/// limit `b - a + 1`; anything else (or a limit that does not fit)
/// yields nothing.
pub open spec fn spec_range_header(s: Seq<char>) -> (Option<int>, Option<int>) {
    let parts = text::spec_split(s, '-');
    if parts.len() == 2 && num::is_int_literal(parts[0]) && num::is_int_literal(parts[1]) {
        let start = num::int_literal_val(parts[0]);
        let end = num::int_literal_val(parts[1]);
        if i64::MIN <= start <= i64::MAX && i64::MIN <= end <= i64::MAX && i64::MIN <= end - start
            + 1 <= i64::MAX {
            (Some(end - start + 1), Some(start))
        } else {
            (None, None)
        }
    } else {
        (None, None)
    }
}

/// Parses the Range header into `(limit, offset)`, as a fallback for
/// explicit query parameters.
pub fn parse_range_header(range: Option<&str>) -> (r: (Option<i64>, Option<i64>))
    ensures
        ({
            let sr = match range {
                Some(s) => spec_range_header(s@),
                None => (None, None),
            };
            sr == ((match r.0 {
                Some(l) => Some(l as int),
                None => None,
            }), (match r.1 {
                Some(o) => Some(o as int),
                None => None,
            }))
        }),
{
    let s = match range {
        Some(s) => s,
        None => {
            return (None, None);
        },
    };
    let parts = text::split_char(s, '-');
    let ghost pieces = text::spec_split(s@, '-');
    if parts.len() != 2 {
        return (None, None);
    }
    proof {
        assert(pieces[0] == parts@.map_values(|p: String| p@)[0]);
        assert(pieces[1] == parts@.map_values(|p: String| p@)[1]);
    }
    let start = match num::parse_i64(parts[0].as_str()) {
        Some(v) => v,
        None => {
            return (None, None);
        },
    };
    let end = match num::parse_i64(parts[1].as_str()) {
        Some(v) => v,
        None => {
            return (None, None);
        },
    };
    // end - start + 1, rejected when it cannot be represented
    let diff: i128 = (end as i128) - (start as i128) + 1;
    if diff < (i64::MIN as i128) || diff > (i64::MAX as i128) {
        return (None, None);
    }
    (Some(diff as i64), Some(start))
}

/// The parameter text a JSON value binds as: empty for null, `1`/`0`
/// for booleans, the literal for numbers, the raw text for strings,
/// the compact JSON form for arrays and objects.
pub open spec fn spec_sql_param_text(v: JsonV) -> Seq<char> {
    match v {
        JsonV::NullV => Seq::empty(),
        JsonV::BoolV(b) => if b {
            "1"@
        } else {
            "0"@
        },
        JsonV::NumV(n) => n,
        JsonV::StrV(s) => s,
        other => spec_json_str(other),
    }
}

/// Converts a JSON value into its SQL parameter text.
pub fn json_value_to_sql_string(val: &JsonVal) -> (r: String)
    ensures
        r@ == spec_sql_param_text(val@),
{
    match val {
        JsonVal::Null => String::new(),
        JsonVal::Bool(b) => {
            if *b {
                "1".to_owned()
            } else {
                "0".to_owned()
            }
        },
        JsonVal::Num(n) => n.clone(),
        JsonVal::Str(s) => s.clone(),
        other => json_to_string(other),
    }
}

/// The parameter text for a possibly missing object member: a missing
/// key binds like null.
pub open spec fn spec_cell_param(row: RowV, key: Seq<char>) -> Seq<char> {
    match spec_obj_get(row, key) {
        Some(v) => spec_sql_param_text(v),
        None => Seq::empty(),
    }
}

/// The row-major parameter texts of the given objects under the given
/// columns.
pub open spec fn spec_insert_params(rows: Seq<RowV>, cols: Seq<Seq<char>>) -> Seq<Seq<char>>
    decreases rows.len(),
{
    if rows.len() == 0 {
        Seq::empty()
    } else {
        Seq::new(cols.len(), |j: int| spec_cell_param(rows[0], cols[j])) + spec_insert_params(
            rows.subrange(1, rows.len() as int),
            cols,
        )
    }
}

/// The models of the body objects.
pub open spec fn objects_view(rows: Seq<Vec<(String, JsonVal)>>) -> Seq<RowV> {
    rows.map_values(|r: Vec<(String, JsonVal)>| obj_view(r@))
}

/// Collects the row-major parameter values of the body objects under
/// the given columns; a missing key binds like null.
pub fn collect_insert_params(objects: &Vec<Row>, columns: &Vec<String>) -> (r: Vec<String>)
    ensures
        crate::query::strs_view(r@) == spec_insert_params(
            objects_view(objects@),
            crate::query::strs_view(columns@),
        ),
{
    let ghost ov = objects_view(objects@);
    let ghost cv = crate::query::strs_view(columns@);
    let mut out: Vec<String> = Vec::new();
    let mut i: usize = 0;
    proof {
        assert(ov.subrange(0, ov.len() as int) =~= ov);
        assert(crate::query::strs_view(out@) + spec_insert_params(ov, cv) =~= spec_insert_params(
            ov,
            cv,
        ));
    }
    while i < objects.len()
        invariant
            ov == objects_view(objects@),
            ov.len() == objects@.len(),
            forall|k: int| 0 <= k < ov.len() ==> ov[k] == obj_view(objects@[k]@),
            cv == crate::query::strs_view(columns@),
            cv.len() == columns@.len(),
            forall|k: int| 0 <= k < cv.len() ==> cv[k] == columns@[k]@,
            i <= objects@.len(),
            spec_insert_params(ov, cv) == crate::query::strs_view(out@) + spec_insert_params(
                ov.subrange(i as int, ov.len() as int),
                cv,
            ),
        decreases objects.len() - i,
    {
        let ghost rest = ov.subrange(i as int, ov.len() as int);
        proof {
            assert(rest[0] == ov[i as int]);
            assert(rest.subrange(1, rest.len() as int) =~= ov.subrange(i + 1, ov.len() as int));
        }
        let ghost before = out@;
        let mut j: usize = 0;
        while j < columns.len()
            invariant
                ov == objects_view(objects@),
                ov.len() == objects@.len(),
                forall|k: int| 0 <= k < ov.len() ==> ov[k] == obj_view(objects@[k]@),
                cv == crate::query::strs_view(columns@),
                cv.len() == columns@.len(),
                forall|k: int| 0 <= k < cv.len() ==> cv[k] == columns@[k]@,
                i < objects@.len(),
                j <= columns@.len(),
                out@.len() == before.len() + j,
                crate::query::strs_view(out@) == crate::query::strs_view(before) + Seq::new(
                    j as nat,
                    |k: int| spec_cell_param(ov[i as int], cv[k]),
                ),
            decreases columns.len() - j,
        {
            let cell: String = match obj_get(&objects[i], columns[j].as_str()) {
                Some(v) => json_value_to_sql_string(v),
                None => String::new(),
            };
            let ghost prev = out@;
            let ghost cvv = cell@;
            out.push(cell);
            proof {
                assert(crate::query::strs_view(out@) =~= crate::query::strs_view(prev).push(cvv));
                assert(crate::query::strs_view(before) + Seq::new(
                    (j + 1) as nat,
                    |k: int| spec_cell_param(ov[i as int], cv[k]),
                ) =~= (crate::query::strs_view(before) + Seq::new(
                    j as nat,
                    |k: int| spec_cell_param(ov[i as int], cv[k]),
                )).push(cvv));
            }
            j += 1;
        }
        proof {
            assert(Seq::new(cv.len(), |k: int| spec_cell_param(ov[i as int], cv[k])) =~= Seq::new(
                j as nat,
                |k: int| spec_cell_param(ov[i as int], cv[k]),
            ));
            assert((crate::query::strs_view(before) + Seq::new(
                cv.len(),
                |k: int| spec_cell_param(ov[i as int], cv[k]),
            )) + spec_insert_params(ov.subrange(i + 1, ov.len() as int), cv)
                =~= crate::query::strs_view(before) + (Seq::new(
                cv.len(),
                |k: int| spec_cell_param(ov[i as int], cv[k]),
            ) + spec_insert_params(ov.subrange(i + 1, ov.len() as int), cv)));
        }
        i += 1;
    }
    proof {
        assert(ov.subrange(i as int, ov.len() as int) =~= Seq::<RowV>::empty());
        assert(crate::query::strs_view(out@) + Seq::<Seq<char>>::empty() =~= crate::query::strs_view(
            out@,
        ));
    }
    out
}

/// The keys of a body object, in member order.
pub fn object_columns(obj: &Row) -> (r: Vec<String>)
    ensures
        crate::query::strs_view(r@) == obj_view(obj@).map_values(|p: (Seq<char>, JsonV)| p.0),
{
    let mut out: Vec<String> = Vec::new();
    let mut i: usize = 0;
    proof {
        lemma_obj_view_index(obj@);
    }
    while i < obj.len()
        invariant
            i <= obj@.len(),
            obj_view(obj@).len() == obj@.len(),
            forall|k: int|
                0 <= k < obj@.len() ==> obj_view(obj@)[k] == (obj@[k].0@, json_view(obj@[k].1)),
            out@.len() == i,
            forall|j: int| 0 <= j < i ==> out@[j]@ == obj@[j].0@,
        decreases obj.len() - i,
    {
        out.push(obj[i].0.clone());
        i += 1;
    }
    proof {
        assert(crate::query::strs_view(out@) =~= obj_view(obj@).map_values(
            |p: (Seq<char>, JsonV)| p.0,
        ));
    }
    out
}

/// A field-for-field copy of a row.
pub fn row_dup(row: &Row) -> (r: Row)
    ensures
        obj_view(r@) == obj_view(row@),
{
    let mut out: Row = Vec::new();
    let mut i: usize = 0;
    proof {
        lemma_obj_view_index(row@);
    }
    while i < row.len()
        invariant
            i <= row@.len(),
            out@.len() == i,
            forall|k: int|
                0 <= k < i ==> out@[k].0@ == row@[k].0@ && json_view(out@[k].1) == json_view(
                    row@[k].1,
                ),
        decreases row.len() - i,
    {
        let key = row[i].0.clone();
        let v = json_dup(&row[i].1);
        out.push((key, v));
        i += 1;
    }
    proof {
        lemma_obj_view_index(out@);
        lemma_obj_view_index(row@);
        assert(obj_view(out@) =~= obj_view(row@));
    }
    out
}

/// The text a parent row joins on: its source-column value as text;
/// null or missing values join on the empty text.
pub open spec fn spec_row_key(row: RowV, src: Seq<char>) -> Seq<char> {
    match spec_obj_get(row, src) {
        None => Seq::empty(),
        Some(JsonV::NullV) => Seq::empty(),
        Some(JsonV::StrV(s)) => s,
        Some(other) => spec_json_str(other),
    }
}

/// The text a child row is grouped under: none when the target column
/// is missing or null.
pub open spec fn spec_child_key(row: RowV, tgt: Seq<char>) -> Option<Seq<char>> {
    match spec_obj_get(row, tgt) {
        None => None,
        Some(JsonV::NullV) => None,
        Some(JsonV::StrV(s)) => Some(s),
        Some(other) => Some(spec_json_str(other)),
    }
}

/// The children grouped under the given key text, in fetch order.
pub open spec fn spec_matching_children(children: Seq<RowV>, tgt: Seq<char>, key: Seq<char>) -> Seq<
    RowV,
>
    decreases children.len(),
{
    if children.len() == 0 {
        Seq::empty()
    } else {
        let rest = spec_matching_children(children.subrange(1, children.len() as int), tgt, key);
        if spec_child_key(children[0], tgt) == Some(key) {
            seq![children[0]] + rest
        } else {
            rest
        }
    }
}

/// The value a parent gains for the embed: the first matching child (or
/// null) for many-to-one, all matching children for one-to-many.
pub open spec fn spec_attached(
    row: RowV,
    children: Seq<RowV>,
    join_type: EmbedJoinType,
    src: Seq<char>,
    tgt: Seq<char>,
) -> JsonV {
    let matches = spec_matching_children(children, tgt, spec_row_key(row, src));
    match join_type {
        EmbedJoinType::ManyToOne => if matches.len() > 0 {
            JsonV::ObjV(matches[0])
        } else {
            JsonV::NullV
        },
        EmbedJoinType::OneToMany => JsonV::ArrV(
            Seq::new(matches.len(), |i: int| JsonV::ObjV(matches[i])),
        ),
    }
}

/// Computes the key text a row joins on.
fn row_key(row: &Row, src: &str) -> (r: String)
    ensures
        r@ == spec_row_key(obj_view(row@), src@),
{
    match obj_get(row, src) {
        None => String::new(),
        Some(v) => match v {
            JsonVal::Null => String::new(),
            JsonVal::Str(s) => s.clone(),
            other => json_to_string(other),
        },
    }
}

/// Attaches an embed to every parent row: each row gains exactly one
/// member, named after the embed, holding the related child rows (a
/// single object or null for many-to-one, an array for one-to-many).
/// The number and order of parents is unchanged.
pub fn attach_embed(
    rows: &Vec<Row>,
    embed_name: &String,
    join_type: EmbedJoinType,
    source_column: &String,
    target_column: &String,
    children: &Vec<Row>,
) -> (r: Vec<Row>)
    ensures
        r@.len() == rows@.len(),
        forall|i: int|
            0 <= i < rows@.len() ==> obj_view(#[trigger] r@[i]@) == obj_view(rows@[i]@).push(
                (
                    embed_name@,
                    spec_attached(
                        obj_view(rows@[i]@),
                        objects_view(children@),
                        join_type,
                        source_column@,
                        target_column@,
                    ),
                ),
            ),
{
    let ghost chv = objects_view(children@);
    let mut out: Vec<Row> = Vec::new();
    let mut i: usize = 0;
    while i < rows.len()
        invariant
            chv == objects_view(children@),
            chv.len() == children@.len(),
            forall|k: int| 0 <= k < chv.len() ==> chv[k] == obj_view(children@[k]@),
            i <= rows@.len(),
            out@.len() == i,
            forall|k: int|
                0 <= k < i ==> obj_view(#[trigger] out@[k]@) == obj_view(rows@[k]@).push(
                    (
                        embed_name@,
                        spec_attached(
                            obj_view(rows@[k]@),
                            chv,
                            join_type,
                            source_column@,
                            target_column@,
                        ),
                    ),
                ),
        decreases rows.len() - i,
    {
        let key = row_key(&rows[i], source_column.as_str());
        let ghost kv = key@;
        // collect matching children, in order
        let mut matches: Vec<Row> = Vec::new();
        let mut c: usize = 0;
        proof {
            assert(chv.subrange(0, chv.len() as int) =~= chv);
            assert(objects_view(matches@) + spec_matching_children(
                chv.subrange(0, chv.len() as int),
                target_column@,
                kv,
            ) =~= spec_matching_children(chv, target_column@, kv));
        }
        while c < children.len()
            invariant
                kv == key@,
                chv == objects_view(children@),
                chv.len() == children@.len(),
                forall|k: int| 0 <= k < chv.len() ==> chv[k] == obj_view(children@[k]@),
                c <= children@.len(),
                spec_matching_children(chv, target_column@, kv) == objects_view(matches@)
                    + spec_matching_children(
                    chv.subrange(c as int, chv.len() as int),
                    target_column@,
                    kv,
                ),
            decreases children.len() - c,
        {
            let ghost rest = chv.subrange(c as int, chv.len() as int);
            proof {
                assert(rest[0] == chv[c as int]);
                assert(rest.subrange(1, rest.len() as int) =~= chv.subrange(
                    c + 1,
                    chv.len() as int,
                ));
            }
            let child_matches: bool = match obj_get(&children[c], target_column.as_str()) {
                None => {
                    proof {
                        assert(spec_child_key(chv[c as int], target_column@) is None);
                    }
                    false
                },
                Some(v) => match v {
                    JsonVal::Null => {
                        proof {
                            assert(spec_child_key(chv[c as int], target_column@) is None);
                        }
                        false
                    },
                    JsonVal::Str(cs) => {
                        proof {
                            assert(v@ == JsonV::StrV(cs@));
                            assert(spec_child_key(chv[c as int], target_column@) == Some(cs@));
                        }
                        text::str_eq(cs.as_str(), key.as_str())
                    },
                    other => {
                        let ct = json_to_string(other);
                        proof {
                            assert(spec_child_key(chv[c as int], target_column@) == Some(ct@));
                        }
                        text::str_eq(ct.as_str(), key.as_str())
                    },
                },
            };
            proof {
                assert(child_matches == (spec_child_key(chv[c as int], target_column@) == Some(
                    kv,
                )));
            }
            if child_matches {
                let ghost prev = matches@;
                let d = row_dup(&children[c]);
                let ghost dv = obj_view(d@);
                matches.push(d);
                proof {
                    assert(objects_view(matches@) =~= objects_view(prev).push(dv));
                    assert((objects_view(prev) + seq![chv[c as int]]) + spec_matching_children(
                        chv.subrange(c + 1, chv.len() as int),
                        target_column@,
                        kv,
                    ) =~= objects_view(prev) + (seq![chv[c as int]] + spec_matching_children(
                        chv.subrange(c + 1, chv.len() as int),
                        target_column@,
                        kv,
                    )));
                }
            }
            c += 1;
        }
        proof {
            assert(chv.subrange(c as int, chv.len() as int) =~= Seq::<RowV>::empty());
            assert(objects_view(matches@) + Seq::<RowV>::empty() =~= objects_view(matches@));
        }
        let ghost mv = objects_view(matches@);
        let attached: JsonVal = match join_type {
            EmbedJoinType::ManyToOne => {
                if matches.len() > 0 {
                    let mut it = matches;
                    let first = it.remove(0);
                    JsonVal::Obj(first)
                } else {
                    JsonVal::Null
                }
            },
            EmbedJoinType::OneToMany => {
                let mut arr: Vec<JsonVal> = Vec::new();
                let mut m: usize = 0;
                proof {
                    assert(mv.len() == matches@.len());
                    assert(forall|k: int| 0 <= k < mv.len() ==> mv[k] == obj_view(matches@[k]@));
                }
                while m < matches.len()
                    invariant
                        mv.len() == matches@.len(),
                        forall|k: int| 0 <= k < mv.len() ==> mv[k] == obj_view(matches@[k]@),
                        m <= matches@.len(),
                        arr@.len() == m,
                        forall|k: int| 0 <= k < m ==> json_view(arr@[k]) == JsonV::ObjV(mv[k]),
                    decreases matches.len() - m,
                {
                    let d = row_dup(&matches[m]);
                    arr.push(JsonVal::Obj(d));
                    m += 1;
                }
                proof {
                    crate::jsonval::lemma_jsons_view_index(arr@);
                    assert(jsons_view(arr@) =~= Seq::new(mv.len(), |k: int| JsonV::ObjV(mv[k])));
                }
                JsonVal::Arr(arr)
            },
        };
        proof {
            assert(json_view(attached) == spec_attached(
                obj_view(rows@[i as int]@),
                chv,
                join_type,
                source_column@,
                target_column@,
            ));
        }
        let mut new_row = row_dup(&rows[i]);
        let ghost before_push = new_row@;
        new_row.push((embed_name.clone(), attached));
        proof {
            lemma_obj_view_index(new_row@);
            lemma_obj_view_index(before_push);
            lemma_obj_view_index(rows@[i as int]@);
            assert(obj_view(new_row@) =~= obj_view(rows@[i as int]@).push(
                (
                    embed_name@,
                    spec_attached(
                        obj_view(rows@[i as int]@),
                        chv,
                        join_type,
                        source_column@,
                        target_column@,
                    ),
                ),
            ));
        }
        out.push(new_row);
        i += 1;
    }
    out
}

/// The distinct join-key texts of the parent rows, in first-appearance
/// order; rows whose source value is null or missing contribute none.
pub open spec fn spec_embed_keys(rows: Seq<RowV>, src: Seq<char>, seen: Seq<Seq<char>>) -> Seq<
    Seq<char>,
>
    decreases rows.len(),
{
    if rows.len() == 0 {
        Seq::empty()
    } else {
        let k = spec_child_key(rows[0], src);
        match k {
            Some(key) => {
                if seen.contains(key) {
                    spec_embed_keys(rows.subrange(1, rows.len() as int), src, seen)
                } else {
                    seq![key] + spec_embed_keys(
                        rows.subrange(1, rows.len() as int),
                        src,
                        seen.push(key),
                    )
                }
            },
            None => spec_embed_keys(rows.subrange(1, rows.len() as int), src, seen),
        }
    }
}

/// Collects the distinct non-null join-key texts of the parent rows.
pub fn collect_embed_keys(rows: &Vec<Row>, source_column: &String) -> (r: Vec<String>)
    ensures
        crate::query::strs_view(r@) == spec_embed_keys(
            objects_view(rows@),
            source_column@,
            Seq::empty(),
        ),
{
    let ghost rv = objects_view(rows@);
    let mut out: Vec<String> = Vec::new();
    let mut i: usize = 0;
    proof {
        assert(rv.subrange(0, rv.len() as int) =~= rv);
        assert(crate::query::strs_view(out@) =~= Seq::<Seq<char>>::empty());
        assert(Seq::<Seq<char>>::empty() + spec_embed_keys(rv, source_column@, Seq::empty())
            =~= spec_embed_keys(rv, source_column@, Seq::empty()));
    }
    while i < rows.len()
        invariant
            rv == objects_view(rows@),
            rv.len() == rows@.len(),
            forall|k: int| 0 <= k < rv.len() ==> rv[k] == obj_view(rows@[k]@),
            i <= rows@.len(),
            spec_embed_keys(rv, source_column@, Seq::empty()) == crate::query::strs_view(out@)
                + spec_embed_keys(
                rv.subrange(i as int, rv.len() as int),
                source_column@,
                crate::query::strs_view(out@),
            ),
        decreases rows.len() - i,
    {
        let ghost rest = rv.subrange(i as int, rv.len() as int);
        proof {
            assert(rest[0] == rv[i as int]);
            assert(rest.subrange(1, rest.len() as int) =~= rv.subrange(i + 1, rv.len() as int));
        }
        let key_opt: Option<String> = match obj_get(&rows[i], source_column.as_str()) {
            None => None,
            Some(v) => match v {
                JsonVal::Null => None,
                JsonVal::Str(cs) => Some(cs.clone()),
                other => Some(json_to_string(other)),
            },
        };
        match key_opt {
            Some(key) => {
                proof {
                    assert(spec_child_key(rv[i as int], source_column@) == Some(key@));
                }
                // is it already collected?
                let mut seen = false;
                let mut j: usize = 0;
                while j < out.len()
                    invariant
                        j <= out@.len(),
                        seen == exists|k: int| 0 <= k < j && out@[k]@ == key@,
                    decreases out.len() - j,
                {
                    if text::str_eq(out[j].as_str(), key.as_str()) {
                        seen = true;
                    }
                    j += 1;
                }
                proof {
                    assert(seen == crate::query::strs_view(out@).contains(key@)) by {
                        if seen {
                            let k = choose|k: int| 0 <= k < out@.len() && out@[k]@ == key@;
                            assert(crate::query::strs_view(out@)[k] == key@);
                        } else {
                            if crate::query::strs_view(out@).contains(key@) {
                                let k = choose|k: int|
                                    0 <= k < crate::query::strs_view(out@).len()
                                        && crate::query::strs_view(out@)[k] == key@;
                                assert(out@[k]@ == key@);
                            }
                        }
                    }
                }
                if !seen {
                    let ghost prev = out@;
                    let ghost kvv = key@;
                    out.push(key);
                    proof {
                        assert(crate::query::strs_view(out@) =~= crate::query::strs_view(
                            prev,
                        ).push(kvv));
                        assert((crate::query::strs_view(prev) + seq![kvv]) + spec_embed_keys(
                            rv.subrange(i + 1, rv.len() as int),
                            source_column@,
                            crate::query::strs_view(prev).push(kvv),
                        ) =~= crate::query::strs_view(prev) + (seq![kvv] + spec_embed_keys(
                            rv.subrange(i + 1, rv.len() as int),
                            source_column@,
                            crate::query::strs_view(prev).push(kvv),
                        )));
                    }
                }
            },
            None => {
                proof {
                    assert(spec_child_key(rv[i as int], source_column@) is None);
                }
            },
        }
        i += 1;
    }
    proof {
        assert(rv.subrange(i as int, rv.len() as int) =~= Seq::<RowV>::empty());
        assert(crate::query::strs_view(out@) + Seq::<Seq<char>>::empty()
            =~= crate::query::strs_view(out@));
    }
    out
}

/// Model of the mutation response: status, content type, body, and the
/// Content-Range value, by return mode.
pub open spec fn spec_mutation_response(
    rows: Seq<JsonV>,
    prefer: PrefV,
    format: ResponseFormat,
    success_status: int,
) -> Option<(int, Seq<char>, Seq<char>, Option<Seq<char>>)> {
    match prefer.return_mode {
        ReturnMode::Minimal => Some((204, "application/json"@, Seq::empty(), None)),
        ReturnMode::HeadersOnly => Some(
            (
                success_status,
                "application/json"@,
                Seq::empty(),
                Some("*/*/"@ + num::dec_rep(rows.len() as int)),
            ),
        ),
        ReturnMode::Representation => {
            if format == ResponseFormat::SingleObjectJson {
                if rows.len() != 1 {
                    None
                } else {
                    Some(
                        (
                            success_status,
                            "application/vnd.pgrst.object+json; charset=utf-8"@,
                            spec_json_str(rows[0]),
                            None,
                        ),
                    )
                }
            } else {
                Some(
                    (
                        success_status,
                        "application/json; charset=utf-8"@,
                        spec_json_str(JsonV::ArrV(rows)),
                        None,
                    ),
                )
            }
        },
    }
}

/// Shapes a mutation's response from the returned rows and the stated
/// preferences: status code, content type, body, and Content-Range.
/// Fails with a single-object error exactly when one object was asked
/// for and the row count differs.
pub fn build_mutation_response(
    rows: &Vec<JsonVal>,
    prefer: &Preferences,
    format: ResponseFormat,
    success_status: u16,
) -> (r: Result<(u16, String, String, Option<String>), Error>)
    ensures
        match spec_mutation_response(jsons_view(rows@), prefer@, format, success_status as int) {
            Some(resp) => r matches Ok(x) && x.0 as int == resp.0 && x.1@ == resp.1 && x.2@
                == resp.2 && (match x.3 {
                Some(cr) => resp.3 == Some(cr@),
                None => resp.3 is None,
            }),
            None => r matches Err(e) && (e matches Error::SingleObjectExpected(n) && n
                == rows@.len()),
        },
{
    proof {
        crate::jsonval::lemma_jsons_view_index(rows@);
    }
    match prefer.return_mode {
        ReturnMode::Minimal => Ok((204, "application/json".to_owned(), String::new(), None)),
        ReturnMode::HeadersOnly => {
            let mut range = String::new();
            range.append("*/*/");
            let count = num::usize_to_string(rows.len());
            range.append(count.as_str());
            proof {
                assert(range@ =~= "*/*/"@ + num::dec_rep(rows@.len() as int));
            }
            Ok((success_status, "application/json".to_owned(), String::new(), Some(range)))
        },
        ReturnMode::Representation => {
            if format == ResponseFormat::SingleObjectJson {
                if rows.len() != 1 {
                    return Err(Error::SingleObjectExpected(rows.len()));
                }
                let body = json_to_string(&rows[0]);
                Ok(
                    (
                        success_status,
                        "application/vnd.pgrst.object+json; charset=utf-8".to_owned(),
                        body,
                        None,
                    ),
                )
            } else {
                let body = rows_to_json(rows);
                Ok((success_status, "application/json; charset=utf-8".to_owned(), body, None))
            }
        },
    }
}

/// The statements of the session prologue joined with the statement
/// body, newline-separated.
pub open spec fn spec_script(parts: Seq<Seq<char>>) -> Seq<char>
    decreases parts.len(),
{
    if parts.len() == 0 {
        Seq::empty()
    } else if parts.len() == 1 {
        parts[0]
    } else {
        parts[0] + "\n"@ + spec_script(parts.subrange(1, parts.len() as int))
    }
}

/// Model of a read script: `SET NOCOUNT ON;`, the session prologue,
/// then the statement.
pub open spec fn spec_read_script(ctx: Seq<Seq<char>>, sql: Seq<char>) -> Seq<char> {
    spec_script(seq!["SET NOCOUNT ON;"@] + ctx + seq![sql])
}

/// Model of a mutation script: the read prologue, then the statement
/// bracketed in a transaction that commits or rolls back as preferred.
pub open spec fn spec_dml_script(
    ctx: Seq<Seq<char>>,
    sql: Seq<char>,
    tx: crate::response::TxPreference,
) -> Seq<char> {
    let tail = if tx == crate::response::TxPreference::Rollback {
        "ROLLBACK TRANSACTION;"@
    } else {
        "COMMIT TRANSACTION;"@
    };
    spec_script(
        seq!["SET NOCOUNT ON;"@] + ctx + seq!["BEGIN TRANSACTION;"@] + seq![sql] + seq![tail],
    )
}

/// Joins script statements with newlines.
pub fn join_script(parts: &Vec<String>) -> (r: String)
    ensures
        r@ == spec_script(crate::query::strs_view(parts@)),
{
    let ghost pv = crate::query::strs_view(parts@);
    if parts.len() == 0 {
        return String::new();
    }
    let mut i: usize = parts.len() - 1;
    let mut out: String = parts[i].clone();
    proof {
        assert(pv.subrange(i as int, pv.len() as int) =~= seq![pv[i as int]]);
    }
    while i > 0
        invariant
            pv == crate::query::strs_view(parts@),
            pv.len() == parts@.len(),
            forall|k: int| 0 <= k < pv.len() ==> pv[k] == parts@[k]@,
            i < parts@.len(),
            out@ == spec_script(pv.subrange(i as int, pv.len() as int)),
        decreases i,
    {
        i -= 1;
        let mut next: String = parts[i].clone();
        next.append("\n");
        next.append(out.as_str());
        out = next;
        proof {
            let cur = pv.subrange(i as int, pv.len() as int);
            assert(cur[0] == pv[i as int]);
            assert(cur.subrange(1, cur.len() as int) =~= pv.subrange(i + 1, pv.len() as int));
            assert(cur.len() >= 2);
            assert(out@ =~= spec_script(cur));
        }
    }
    proof {
        assert(pv.subrange(0, pv.len() as int) =~= pv);
    }
    out
}

/// Builds the full script of a read: `SET NOCOUNT ON;`, the session
/// prologue, then the statement.
pub fn build_read_script(ctx_stmts: &Vec<String>, sql: &str) -> (r: String)
    ensures
        r@ == spec_read_script(crate::query::strs_view(ctx_stmts@), sql@),
{
    let mut parts: Vec<String> = Vec::new();
    parts.push("SET NOCOUNT ON;".to_owned());
    let mut i: usize = 0;
    while i < ctx_stmts.len()
        invariant
            i <= ctx_stmts@.len(),
            parts@.len() == i + 1,
            parts@[0]@ == "SET NOCOUNT ON;"@,
            forall|k: int| 0 <= k < i ==> parts@[k + 1]@ == ctx_stmts@[k]@,
        decreases ctx_stmts.len() - i,
    {
        parts.push(ctx_stmts[i].clone());
        proof {
            assert forall|k: int| 0 <= k < i + 1 implies parts@[k + 1]@ == ctx_stmts@[k]@ by {
                if k < i {
                    assert(parts@[k + 1] == parts@.drop_last()[k + 1]);
                }
            }
        }
        i += 1;
    }
    parts.push(sql.to_owned());
    proof {
        assert(crate::query::strs_view(parts@) =~= seq!["SET NOCOUNT ON;"@]
            + crate::query::strs_view(ctx_stmts@) + seq![sql@]);
    }
    join_script(&parts)
}

/// Builds the full script of a mutation: the read prologue, then the
/// statement bracketed in a transaction. With `tx=rollback` the
/// transaction is rolled back, so the database state is left as it
/// was; otherwise it commits.
pub fn build_dml_script(
    ctx_stmts: &Vec<String>,
    sql: &str,
    tx: crate::response::TxPreference,
) -> (r: String)
    ensures
        r@ == spec_dml_script(crate::query::strs_view(ctx_stmts@), sql@, tx),
{
    let mut parts: Vec<String> = Vec::new();
    parts.push("SET NOCOUNT ON;".to_owned());
    let mut i: usize = 0;
    while i < ctx_stmts.len()
        invariant
            i <= ctx_stmts@.len(),
            parts@.len() == i + 1,
            parts@[0]@ == "SET NOCOUNT ON;"@,
            forall|k: int| 0 <= k < i ==> parts@[k + 1]@ == ctx_stmts@[k]@,
        decreases ctx_stmts.len() - i,
    {
        parts.push(ctx_stmts[i].clone());
        proof {
            assert forall|k: int| 0 <= k < i + 1 implies parts@[k + 1]@ == ctx_stmts@[k]@ by {
                if k < i {
                    assert(parts@[k + 1] == parts@.drop_last()[k + 1]);
                }
            }
        }
        i += 1;
    }
    parts.push("BEGIN TRANSACTION;".to_owned());
    parts.push(sql.to_owned());
    if tx == crate::response::TxPreference::Rollback {
        parts.push("ROLLBACK TRANSACTION;".to_owned());
    } else {
        parts.push("COMMIT TRANSACTION;".to_owned());
    }
    proof {
        let tail = if tx == crate::response::TxPreference::Rollback {
            "ROLLBACK TRANSACTION;"@
        } else {
            "COMMIT TRANSACTION;"@
        };
        assert(crate::query::strs_view(parts@) =~= seq!["SET NOCOUNT ON;"@]
            + crate::query::strs_view(ctx_stmts@) + seq!["BEGIN TRANSACTION;"@] + seq![sql@]
            + seq![tail]);
    }
    join_script(&parts)
}

/// Resolves an embed against the catalog, or reports it as a bad
/// request naming the embed. Succeeds exactly when a relationship
/// exists.
pub fn resolve_embed(
    schema: &crate::schema::SchemaCache,
    source_schema: &str,
    source_table: &str,
    embed_name: &str,
    fk_hint: Option<&str>,
) -> (r: Result<crate::schema::EmbedInfo, Error>)
    ensures
        ({
            let hint = match fk_hint {
                Some(h) => Some(h@),
                None => None,
            };
            let model = crate::schema::spec_find_embed(
                crate::schema::tables_view(schema.tables@),
                source_schema@,
                source_table@,
                embed_name@,
                hint,
            );
            match r {
                Ok(e) => model == Some(e@),
                Err(err) => model is None && (err matches Error::BadRequest(m) && m@
                    == "No relationship found for embed: "@ + embed_name@),
            }
        }),
{
    match schema.find_embed(source_schema, source_table, embed_name, fk_hint) {
        Some(e) => Ok(e),
        None => {
            let mut m = String::new();
            m.append("No relationship found for embed: ");
            m.append(embed_name);
            Err(Error::BadRequest(m))
        },
    }
}

/// The projected column list of an embed query: the full catalog list
/// when a star (or nothing) is selected, the explicit columns
/// otherwise.
pub open spec fn spec_embed_column_list(
    t: TableV,
    sels: Seq<crate::select::SelV>,
    target_column: Seq<char>,
) -> Seq<char> {
    let explicit = crate::select::spec_select_columns(sels);
    if sels.len() == 0 || crate::select::spec_has_star(sels) {
        crate::query::spec_join(
            crate::query::spec_prefixed_cols(t.columns, Seq::empty()),
            ", "@,
        )
    } else {
        if explicit.len() == 0 {
            "*"@
        } else {
            let with_key = if exists|i: int|
                0 <= i < explicit.len() && text::eq_ci(#[trigger] explicit[i], target_column) {
                explicit
            } else {
                explicit.push(target_column)
            };
            crate::query::spec_join(crate::query::spec_brackets_of(with_key), ", "@)
        }
    }
}

/// Builds the projected column list for an embed's batch query,
/// appending the join key when the projection does not already name it.
pub fn build_embed_column_list(
    table: &TableInfo,
    nodes: &Vec<crate::select::SelectNode>,
    target_column: &str,
) -> (r: String)
    ensures
        r@ == spec_embed_column_list(table@, crate::select::sels_view(nodes@), target_column@),
{
    proof {
        crate::select::lemma_sels_view_len(nodes@);
        reveal_strlit("");
    }
    let explicit = crate::select::select_columns(nodes);
    if nodes.len() == 0 || crate::select::has_star(nodes) {
        let parts = crate::query::prefixed_cols_pub(table, "");
        proof {
            assert(""@ =~= Seq::<char>::empty());
            assert(crate::query::spec_prefixed_cols(table@.columns, ""@)
                =~= crate::query::spec_prefixed_cols(table@.columns, Seq::empty()));
        }
        crate::query::join_strings(&parts, ", ")
    } else {
        if explicit.len() == 0 {
            return "*".to_owned();
        }
        let ghost expl = crate::query::strs_view(explicit@);
        let mut has_key = false;
        let mut i: usize = 0;
        while i < explicit.len()
            invariant
                expl == crate::query::strs_view(explicit@),
                expl.len() == explicit@.len(),
                forall|k: int| 0 <= k < expl.len() ==> expl[k] == explicit@[k]@,
                i <= explicit@.len(),
                has_key == exists|k: int|
                    0 <= k < i && text::eq_ci(#[trigger] expl[k], target_column@),
            decreases explicit.len() - i,
        {
            if text::eq_ignore_case(explicit[i].as_str(), target_column) {
                proof {
                    assert(text::eq_ci(expl[i as int], target_column@));
                }
                has_key = true;
            }
            i += 1;
        }
        let mut named = explicit;
        if !has_key {
            let ghost prev = crate::query::strs_view(named@);
            named.push(target_column.to_owned());
            proof {
                assert(crate::query::strs_view(named@) =~= prev.push(target_column@));
            }
        }
        let parts = crate::query::bracket_names_pub(&named);
        crate::query::join_strings(&parts, ", ")
    }
}

/// Model of an embed's batch query: the projection from the target
/// table, keyed on the join column with one placeholder per distinct
/// parent key.
pub open spec fn spec_embed_query(
    t: TableV,
    sels: Seq<crate::select::SelV>,
    target_column: Seq<char>,
    key_count: int,
) -> Seq<char> {
    "SELECT "@ + spec_embed_column_list(t, sels, target_column) + " FROM "@
        + crate::schema::spec_full_name(t)
        + " WHERE "@ + crate::query::spec_bracket(target_column) + " IN ("@
        + crate::query::spec_join(crate::query::spec_placeholders(0, key_count), ", "@) + ")"@
}

/// Builds the batch query that fetches an embed's child rows.
pub fn build_embed_query(
    table: &TableInfo,
    nodes: &Vec<crate::select::SelectNode>,
    target_column: &str,
    key_count: usize,
) -> (r: String)
    ensures
        r@ == spec_embed_query(
            table@,
            crate::select::sels_view(nodes@),
            target_column@,
            key_count as int,
        ),
{
    let cols = build_embed_column_list(table, nodes, target_column);
    let mut placeholders: Vec<String> = Vec::new();
    let mut k: usize = 0;
    proof {
        assert(crate::query::strs_view(placeholders@) =~= crate::query::spec_placeholders(0, 0));
    }
    while k < key_count
        invariant
            k <= key_count,
            placeholders@.len() == k,
            crate::query::strs_view(placeholders@) == crate::query::spec_placeholders(
                0,
                k as int,
            ),
        decreases key_count - k,
    {
        let ghost prev = placeholders@;
        let ph = crate::query::param_str(k + 1);
        placeholders.push(ph);
        proof {
            assert(crate::query::strs_view(placeholders@) =~= crate::query::strs_view(prev).push(
                crate::query::spec_param(k + 1),
            ));
            crate::query::lemma_placeholders_push_pub(0, k as int);
        }
        k += 1;
    }
    let joined = crate::query::join_strings(&placeholders, ", ");
    let mut sql = String::new();
    sql.append("SELECT ");
    sql.append(cols.as_str());
    sql.append(" FROM ");
    let full = table.full_name();
    sql.append(full.as_str());
    sql.append(" WHERE ");
    let b = crate::query::bracket(target_column);
    sql.append(b.as_str());
    sql.append(" IN (");
    sql.append(joined.as_str());
    sql.append(")");
    proof {
        assert(sql@ =~= spec_embed_query(
            table@,
            crate::select::sels_view(nodes@),
            target_column@,
            key_count as int,
        ));
    }
    sql
}

} // verus!
