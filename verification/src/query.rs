//! Parameterized SQL generation: SELECT with projection, filtering,
//! ordering and pagination; INSERT, MERGE (upsert), UPDATE and DELETE
//! with OUTPUT clauses. Every user-supplied literal becomes an ordinal
//! parameter `@P1, @P2, ...`; identifiers are bracket-quoted.

use vstd::prelude::*;
use crate::error::Error;
use crate::filters::{Filter, FilterNode, FilterOp, FilterValue, FilterV, NodeV, ValueV, node_view, nodes_view};
use crate::num;
use crate::schema::{TableInfo, TableV, ColV};
use crate::select::{SelectNode, SelV, sels_view};
use crate::text;

verus! {

/// A built SQL statement with its parameter values, in ordinal order.
#[derive(Debug)]
pub struct BuiltQuery {
    pub sql: String,
    pub params: Vec<String>,
}

/// Sort direction.
#[derive(Debug, Clone, Copy, PartialEq, Eq, Structural)]
pub enum OrderDir {
    Asc,
    Desc,
}

/// Null placement for a sort key.
#[derive(Debug, Clone, Copy, PartialEq, Eq, Structural)]
pub enum NullsOrder {
    First,
    Last,
}

/// One ordering segment.
#[derive(Debug, Clone)]
pub struct OrderSpec {
    pub column: String,
    pub direction: OrderDir,
    pub nulls: Option<NullsOrder>,
}

/// Mathematical model of an ordering segment.
pub struct OrderV {
    pub column: Seq<char>,
    pub direction: OrderDir,
    pub nulls: Option<NullsOrder>,
}

impl View for OrderSpec {
    type V = OrderV;

    open spec fn view(&self) -> OrderV {
        OrderV {
            column: self.column@,
            direction: self.direction,
            nulls: match self.nulls {
                Some(n) => Some(n),
                None => None,
            },
        }
    }
}

/// The views of a string vector.
pub open spec fn strs_view(v: Seq<String>) -> Seq<Seq<char>> {
    v.map_values(|s: String| s@)
}

/// An identifier with every closing bracket doubled.
pub open spec fn spec_escape_ident(s: Seq<char>) -> Seq<char>
    decreases s.len(),
{
    if s.len() == 0 {
        Seq::empty()
    } else {
        (if s[0] == ']' {
            seq![']', ']']
        } else {
            seq![s[0]]
        }) + spec_escape_ident(s.subrange(1, s.len() as int))
    }
}

/// Doubles every `]` so the result can stand between brackets.
pub fn escape_ident(name: &str) -> (r: String)
    ensures
        r@ == spec_escape_ident(name@),
{
    let sl = name.unicode_len();
    let mut out = String::new();
    let mut i: usize = 0;
    proof {
        assert(name@.subrange(0, sl as int) =~= name@);
        assert(out@ + spec_escape_ident(name@) =~= spec_escape_ident(name@));
    }
    while i < sl
        invariant
            sl == name@.len(),
            i <= sl,
            spec_escape_ident(name@) == out@ + spec_escape_ident(
                name@.subrange(i as int, sl as int),
            ),
        decreases sl - i,
    {
        let ghost rest = name@.subrange(i as int, sl as int);
        proof {
            assert(rest[0] == name@[i as int]);
            assert(rest.subrange(1, rest.len() as int) =~= name@.subrange(i + 1, sl as int));
        }
        let c = name.get_char(i);
        let ghost prev = out@;
        if c == ']' {
            out.append("]]");
            proof {
                reveal_strlit("]]");
                assert(out@ =~= prev + seq![']', ']']);
                assert(out@ + spec_escape_ident(name@.subrange(i + 1, sl as int))
                    =~= prev + spec_escape_ident(rest));
            }
        } else {
            let tmp = name.substring_char(i, i + 1);
            out.append(tmp);
            proof {
                assert(name@.subrange(i as int, i + 1) =~= seq![name@[i as int]]);
                assert(out@ + spec_escape_ident(name@.subrange(i + 1, sl as int))
                    =~= prev + spec_escape_ident(rest));
            }
        }
        i += 1;
    }
    proof {
        assert(name@.subrange(sl as int, sl as int) =~= Seq::<char>::empty());
        assert(out@ + Seq::<char>::empty() =~= out@);
    }
    out
}

/// A bracket-quoted identifier.
pub open spec fn spec_bracket(s: Seq<char>) -> Seq<char> {
    "["@ + spec_escape_ident(s) + "]"@
}

/// Wraps an identifier in brackets, with escaping.
pub fn bracket(name: &str) -> (r: String)
    ensures
        r@ == spec_bracket(name@),
{
    let mut out = String::new();
    out.append("[");
    let esc = escape_ident(name);
    out.append(esc.as_str());
    out.append("]");
    proof {
        assert(out@ =~= spec_bracket(name@));
    }
    out
}

/// The ordinal parameter placeholder `@P{i}`.
pub open spec fn spec_param(i: int) -> Seq<char> {
    "@P"@ + num::dec_rep(i)
}

/// Renders the placeholder for parameter `i`.
pub fn param_str(i: usize) -> (r: String)
    ensures
        r@ == spec_param(i as int),
{
    let mut out = String::new();
    out.append("@P");
    let digits = num::usize_to_string(i);
    out.append(digits.as_str());
    out
}

/// The pieces joined with the separator between them.
pub open spec fn spec_join(parts: Seq<Seq<char>>, sep: Seq<char>) -> Seq<char>
    decreases parts.len(),
{
    if parts.len() == 0 {
        Seq::empty()
    } else if parts.len() == 1 {
        parts[0]
    } else {
        parts[0] + sep + spec_join(parts.subrange(1, parts.len() as int), sep)
    }
}

/// Joins the pieces with the separator between them.
pub fn join_strings(parts: &Vec<String>, sep: &str) -> (r: String)
    ensures
        r@ == spec_join(strs_view(parts@), sep@),
{
    let ghost pv = strs_view(parts@);
    if parts.len() == 0 {
        return String::new();
    }
    let mut i: usize = parts.len() - 1;
    let mut out: String = parts[i].clone();
    proof {
        assert(pv.subrange(i as int, pv.len() as int) =~= seq![pv[i as int]]);
    }
    while i > 0
        invariant
            pv == strs_view(parts@),
            pv.len() == parts@.len(),
            forall|k: int| 0 <= k < pv.len() ==> pv[k] == parts@[k]@,
            i < parts@.len(),
            out@ == spec_join(pv.subrange(i as int, pv.len() as int), sep@),
        decreases i,
    {
        i -= 1;
        let mut next: String = parts[i].clone();
        next.append(sep);
        next.append(out.as_str());
        out = next;
        proof {
            let cur = pv.subrange(i as int, pv.len() as int);
            assert(cur[0] == pv[i as int]);
            assert(cur.subrange(1, cur.len() as int) =~= pv.subrange(i + 1, pv.len() as int));
            assert(cur.len() >= 2);
            assert(out@ =~= spec_join(cur, sep@));
        }
    }
    proof {
        assert(pv.subrange(0, pv.len() as int) =~= pv);
    }
    out
}

/// The single literal of a filter value: a one-element list counts.
pub open spec fn single_value(v: ValueV) -> Option<Seq<char>> {
    match v {
        ValueV::SingleV(s) => Some(s),
        ValueV::ListV(l) => if l.len() == 1 {
            Some(l[0])
        } else {
            None
        },
    }
}

/// Extracts the single literal of a filter value.
fn filter_value_single(val: &FilterValue) -> (r: Result<String, Error>)
    ensures
        match r {
            Ok(s) => single_value(val@) == Some(s@),
            Err(e) => single_value(val@) is None && e is BadRequest,
        },
{
    match val {
        FilterValue::Single(s) => Ok(s.clone()),
        FilterValue::List(items) => {
            if items.len() == 1 {
                proof {
                    assert(val@->ListV_0[0] == items@[0]@);
                }
                Ok(items[0].clone())
            } else {
                Err(Error::BadRequest("Expected single value, got list".to_owned()))
            }
        },
    }
}

/// `NOT ` when the condition is negated, nothing otherwise.
pub open spec fn not_prefix(negated: bool) -> Seq<char> {
    if negated {
        "NOT "@
    } else {
        ""@
    }
}

/// The comparison predicate `{NOT }([col] <op> @P{idx})`.
pub open spec fn binop_sql(negated: bool, col: Seq<char>, op: Seq<char>, idx: int) -> Seq<char> {
    not_prefix(negated) + "("@ + spec_bracket(col) + " "@ + op + " @P"@ + num::dec_rep(idx)
        + ")"@
}

/// The placeholders `@P{base+1} ... @P{base+count}`.
pub open spec fn spec_placeholders(base: int, count: int) -> Seq<Seq<char>>
    decreases count,
{
    if count <= 0 {
        Seq::empty()
    } else {
        seq![spec_param(base + 1)] + spec_placeholders(base + 1, count - 1)
    }
}

/// SQL and parameters of one condition, with `base` parameters already
/// bound before it. `None` stands for a grammar error.
pub open spec fn spec_cond_sql(f: FilterV, base: int) -> Option<(Seq<char>, Seq<Seq<char>>)> {
    let col = spec_bracket(f.column);
    match f.operator {
        FilterOp::Eq => match single_value(f.value) {
            Some(v) => Some((binop_sql(f.negated, f.column, "="@, base + 1), seq![v])),
            None => None,
        },
        FilterOp::Neq => match single_value(f.value) {
            Some(v) => Some((binop_sql(f.negated, f.column, "<>"@, base + 1), seq![v])),
            None => None,
        },
        FilterOp::Gt => match single_value(f.value) {
            Some(v) => Some((binop_sql(f.negated, f.column, ">"@, base + 1), seq![v])),
            None => None,
        },
        FilterOp::Gte => match single_value(f.value) {
            Some(v) => Some((binop_sql(f.negated, f.column, ">="@, base + 1), seq![v])),
            None => None,
        },
        FilterOp::Lt => match single_value(f.value) {
            Some(v) => Some((binop_sql(f.negated, f.column, "<"@, base + 1), seq![v])),
            None => None,
        },
        FilterOp::Lte => match single_value(f.value) {
            Some(v) => Some((binop_sql(f.negated, f.column, "<="@, base + 1), seq![v])),
            None => None,
        },
        FilterOp::Like => match single_value(f.value) {
            Some(v) => Some((binop_sql(f.negated, f.column, "LIKE"@, base + 1), seq![v])),
            None => None,
        },
        FilterOp::Ilike => match single_value(f.value) {
            Some(v) => Some((binop_sql(f.negated, f.column, "LIKE"@, base + 1), seq![v])),
            None => None,
        },
        FilterOp::In => match f.value {
            ValueV::ListV(items) => {
                if items.len() == 0 {
                    Some((not_prefix(f.negated) + "(1=0)"@, Seq::empty()))
                } else {
                    Some(
                        (
                            not_prefix(f.negated) + "("@ + col + " IN ("@ + spec_join(
                                spec_placeholders(base, items.len() as int),
                                ", "@,
                            ) + "))"@,
                            items,
                        ),
                    )
                }
            },
            ValueV::SingleV(_) => None,
        },
        FilterOp::Is => match single_value(f.value) {
            Some(v) => {
                if text::eq_ci(v, "null"@) {
                    if f.negated {
                        Some((col + " IS NOT NULL"@, Seq::empty()))
                    } else {
                        Some((col + " IS NULL"@, Seq::empty()))
                    }
                } else if text::eq_ci(v, "true"@) {
                    if f.negated {
                        Some((col + " <> 1"@, Seq::empty()))
                    } else {
                        Some((col + " = 1"@, Seq::empty()))
                    }
                } else if text::eq_ci(v, "false"@) {
                    if f.negated {
                        Some((col + " <> 0"@, Seq::empty()))
                    } else {
                        Some((col + " = 0"@, Seq::empty()))
                    }
                } else {
                    None
                }
            },
            None => None,
        },
        FilterOp::Fts => match single_value(f.value) {
            Some(v) => Some(
                (
                    not_prefix(f.negated) + "CONTAINS("@ + col + ", @P"@ + num::dec_rep(base + 1)
                        + ")"@,
                    seq![v],
                ),
            ),
            None => None,
        },
    }
}

/// How many parameters a condition binds.
pub open spec fn cond_param_count(f: FilterV) -> int {
    match f.operator {
        FilterOp::In => match f.value {
            ValueV::ListV(items) => items.len() as int,
            ValueV::SingleV(_) => 0,
        },
        FilterOp::Is => 0,
        _ => 1,
    }
}

/// How many parameters a filter node binds: one per literal leaf.
pub open spec fn node_param_count(n: NodeV) -> int
    decreases n,
{
    match n {
        NodeV::CondV(f) => cond_param_count(f),
        NodeV::AndV(children) => nodes_param_count(children),
        NodeV::OrV(children) => nodes_param_count(children),
    }
}

/// Total parameters bound by a sequence of filter nodes.
pub open spec fn nodes_param_count(s: Seq<NodeV>) -> int
    decreases s, s.len(),
{
    if s.len() == 0 {
        0int
    } else {
        node_param_count(s[0]) + nodes_param_count(s.subrange(1, s.len() as int))
    }
}

pub proof fn lemma_node_count_nonneg(n: NodeV)
    ensures
        node_param_count(n) >= 0,
    decreases n, 0int,
{
    match n {
        NodeV::CondV(f) => {},
        NodeV::AndV(children) => lemma_nodes_count_nonneg(children),
        NodeV::OrV(children) => lemma_nodes_count_nonneg(children),
    }
}

pub proof fn lemma_nodes_count_nonneg(s: Seq<NodeV>)
    ensures
        nodes_param_count(s) >= 0,
    decreases s, s.len(),
{
    if s.len() > 0 {
        lemma_node_count_nonneg(s[0]);
        lemma_nodes_count_nonneg(s.subrange(1, s.len() as int));
    }
}

/// SQL and parameters of one filter node. A group yields its non-empty
/// member clauses parenthesized and joined with its connective; a group
/// with no non-empty member yields the empty clause.
pub open spec fn spec_node_sql(n: NodeV, base: int) -> Option<(Seq<char>, Seq<Seq<char>>)>
    decreases n, 0int,
{
    match n {
        NodeV::CondV(f) => spec_cond_sql(f, base),
        NodeV::AndV(children) => match spec_nodes_sql(children, base) {
            Some((clauses, params)) => if clauses.len() == 0 {
                Some((Seq::empty(), params))
            } else {
                Some(("("@ + spec_join(clauses, " AND "@) + ")"@, params))
            },
            None => None,
        },
        NodeV::OrV(children) => match spec_nodes_sql(children, base) {
            Some((clauses, params)) => if clauses.len() == 0 {
                Some((Seq::empty(), params))
            } else {
                Some(("("@ + spec_join(clauses, " OR "@) + ")"@, params))
            },
            None => None,
        },
    }
}

/// The non-empty clauses and all parameters of a node sequence, bound
/// left to right.
pub open spec fn spec_nodes_sql(s: Seq<NodeV>, base: int) -> Option<
    (Seq<Seq<char>>, Seq<Seq<char>>),
>
    decreases s, s.len(),
{
    if s.len() == 0 {
        Some((Seq::empty(), Seq::empty()))
    } else {
        match spec_node_sql(s[0], base) {
            Some((sql, params)) => match spec_nodes_sql(
                s.subrange(1, s.len() as int),
                base + params.len(),
            ) {
                Some((clauses, rest_params)) => Some(
                    (
                        (if sql.len() == 0 {
                            clauses
                        } else {
                            seq![sql] + clauses
                        }),
                        params + rest_params,
                    ),
                ),
                None => None,
            },
            None => None,
        }
    }
}

/// Every parameter bound by a node is a literal leaf of it: a node's
/// parameter list has exactly `node_param_count` entries.
pub proof fn lemma_node_sql_params(n: NodeV, base: int)
    ensures
        match spec_node_sql(n, base) {
            Some(pair) => pair.1.len() == node_param_count(n),
            None => true,
        },
    decreases n, 0int,
{
    match n {
        NodeV::CondV(f) => {},
        NodeV::AndV(children) => lemma_nodes_sql_params(children, base),
        NodeV::OrV(children) => lemma_nodes_sql_params(children, base),
    }
}

/// The parameter list a node sequence yields has exactly one entry
/// per literal leaf.
pub proof fn lemma_nodes_sql_params_pub(s: Seq<NodeV>, base: int)
    ensures
        match spec_nodes_sql(s, base) {
            Some(pair) => pair.1.len() == nodes_param_count(s),
            None => true,
        },
{
    lemma_nodes_sql_params(s, base);
}

pub proof fn lemma_nodes_sql_params(s: Seq<NodeV>, base: int)
    ensures
        match spec_nodes_sql(s, base) {
            Some(pair) => pair.1.len() == nodes_param_count(s),
            None => true,
        },
    decreases s, s.len(),
{
    if s.len() > 0 {
        lemma_node_sql_params(s[0], base);
        match spec_node_sql(s[0], base) {
            Some(pair) => {
                lemma_nodes_sql_params(s.subrange(1, s.len() as int), base + pair.1.len());
            },
            None => {},
        }
    }
}

/// Builds the SQL for one condition, appending its parameter values.
/// Parameter ordinals continue from `params.len() + offset`.
fn build_single_filter(filter: &Filter, params: &mut Vec<String>, offset: usize) -> (r: Result<
    String,
    Error,
>)
    requires
        old(params)@.len() + offset + cond_param_count(filter@) <= usize::MAX,
    ensures
        match spec_cond_sql(filter@, old(params)@.len() + offset as int) {
            Some(pair) => r matches Ok(sql) && sql@ == pair.0 && strs_view(final(params)@)
                == strs_view(old(params)@) + pair.1,
            None => r is Err && final(params)@ == old(params)@ && (r matches Err(e)
                && e is BadRequest),
        },
{
    let ghost base = old(params)@.len() + offset as int;
    let col = bracket(filter.column.as_str());
    let np: &'static str = if filter.negated {
        "NOT "
    } else {
        ""
    };
    proof {
        assert(np@ == not_prefix(filter@.negated));
    }
    match filter.operator {
        FilterOp::In => {
            match &filter.value {
                FilterValue::List(items) => {
                    if items.len() == 0 {
                        let mut sql = np.to_owned();
                        sql.append("(1=0)");
                        proof {
                            assert(strs_view(params@) =~= strs_view(old(params)@)
                                + Seq::<Seq<char>>::empty());
                        }
                        return Ok(sql);
                    }
                    let mut placeholders: Vec<String> = Vec::new();
                    let mut k: usize = 0;
                    let ghost items_v = filter@.value->ListV_0;
                    proof {
                        assert(items_v.len() == items@.len());
                        assert(forall|j: int|
                            0 <= j < items@.len() ==> items_v[j] == items@[j]@);
                    }
                    while k < items.len()
                        invariant
                            items_v == filter@.value->ListV_0,
                            items_v.len() == items@.len(),
                            forall|j: int| 0 <= j < items@.len() ==> items_v[j] == items@[j]@,
                            k <= items@.len(),
                            base == old(params)@.len() + offset as int,
                            base + items_v.len() <= usize::MAX,
                            params@.len() == old(params)@.len() + k,
                            strs_view(params@) == strs_view(old(params)@) + items_v.subrange(
                                0,
                                k as int,
                            ),
                            strs_view(placeholders@) == spec_placeholders(base, k as int),
                            cond_param_count(filter@) == items_v.len(),
                        decreases items@.len() - k,
                    {
                        let ghost prev_params = params@;
                        let ghost prev_ph = placeholders@;
                        params.push(items[k].clone());
                        let idx = params.len() + offset;
                        let ph = param_str(idx);
                        placeholders.push(ph);
                        proof {
                            assert(strs_view(params@) =~= strs_view(prev_params) + seq![
                                items_v[k as int],
                            ]);
                            assert(strs_view(old(params)@) + items_v.subrange(0, k as int)
                                + seq![items_v[k as int]] =~= strs_view(old(params)@)
                                + items_v.subrange(0, k + 1));
                            assert(strs_view(placeholders@) =~= strs_view(prev_ph) + seq![
                                spec_param(base + k + 1),
                            ]);
                            lemma_placeholders_push(base, k as int);
                        }
                        k += 1;
                    }
                    proof {
                        assert(items_v.subrange(0, items_v.len() as int) =~= items_v);
                    }
                    let joined = join_strings(&placeholders, ", ");
                    let mut sql = np.to_owned();
                    sql.append("(");
                    sql.append(col.as_str());
                    sql.append(" IN (");
                    sql.append(joined.as_str());
                    sql.append("))");
                    proof {
                        assert(sql@ =~= not_prefix(filter@.negated) + "("@ + spec_bracket(
                            filter@.column,
                        ) + " IN ("@ + spec_join(
                            spec_placeholders(base, items_v.len() as int),
                            ", "@,
                        ) + "))"@);
                    }
                    Ok(sql)
                },
                FilterValue::Single(_) => {
                    Err(Error::BadRequest("IN requires a list value".to_owned()))
                },
            }
        },
        FilterOp::Is => {
            let v = match filter_value_single(&filter.value) {
                Ok(v) => v,
                Err(e) => {
                    return Err(e);
                },
            };
            proof {
                reveal_strlit("null");
                reveal_strlit("true");
                reveal_strlit("false");
            }
            if text::eq_ignore_case(v.as_str(), "null") {
                let mut sql = col;
                if filter.negated {
                    sql.append(" IS NOT NULL");
                } else {
                    sql.append(" IS NULL");
                }
                proof {
                    assert(strs_view(params@) =~= strs_view(old(params)@)
                        + Seq::<Seq<char>>::empty());
                }
                Ok(sql)
            } else if text::eq_ignore_case(v.as_str(), "true") {
                let mut sql = col;
                if filter.negated {
                    sql.append(" <> 1");
                } else {
                    sql.append(" = 1");
                }
                proof {
                    assert(strs_view(params@) =~= strs_view(old(params)@)
                        + Seq::<Seq<char>>::empty());
                }
                Ok(sql)
            } else if text::eq_ignore_case(v.as_str(), "false") {
                let mut sql = col;
                if filter.negated {
                    sql.append(" <> 0");
                } else {
                    sql.append(" = 0");
                }
                proof {
                    assert(strs_view(params@) =~= strs_view(old(params)@)
                        + Seq::<Seq<char>>::empty());
                }
                Ok(sql)
            } else {
                let mut m = String::new();
                m.append("IS only supports null, true, false; got: ");
                m.append(v.as_str());
                Err(Error::BadRequest(m))
            }
        },
        FilterOp::Fts => {
            let v = match filter_value_single(&filter.value) {
                Ok(v) => v,
                Err(e) => {
                    return Err(e);
                },
            };
            let ghost prev_params = params@;
            params.push(v);
            let idx = params.len() + offset;
            let num_str = num::usize_to_string(idx);
            let mut sql = np.to_owned();
            sql.append("CONTAINS(");
            sql.append(col.as_str());
            sql.append(", @P");
            sql.append(num_str.as_str());
            sql.append(")");
            proof {
                assert(strs_view(params@) =~= strs_view(prev_params) + seq![
                    single_value(filter@.value)->0,
                ]);
                assert(sql@ =~= not_prefix(filter@.negated) + "CONTAINS("@ + spec_bracket(
                    filter@.column,
                ) + ", @P"@ + num::dec_rep(base + 1) + ")"@);
            }
            Ok(sql)
        },
        _ => {
            let op: &'static str = match filter.operator {
                FilterOp::Eq => "=",
                FilterOp::Neq => "<>",
                FilterOp::Gt => ">",
                FilterOp::Gte => ">=",
                FilterOp::Lt => "<",
                FilterOp::Lte => "<=",
                FilterOp::Like => "LIKE",
                FilterOp::Ilike => "LIKE",
                _ => "=",
            };
            let v = match filter_value_single(&filter.value) {
                Ok(v) => v,
                Err(e) => {
                    return Err(e);
                },
            };
            let ghost prev_params = params@;
            params.push(v);
            let idx = params.len() + offset;
            let num_str = num::usize_to_string(idx);
            let mut sql = np.to_owned();
            sql.append("(");
            sql.append(col.as_str());
            sql.append(" ");
            sql.append(op);
            sql.append(" @P");
            sql.append(num_str.as_str());
            sql.append(")");
            proof {
                assert(strs_view(params@) =~= strs_view(prev_params) + seq![
                    single_value(filter@.value)->0,
                ]);
                assert(sql@ =~= binop_sql(filter@.negated, filter@.column, op@, base + 1));
            }
            Ok(sql)
        },
    }
}

/// Extending a placeholder run appends the next ordinal.
pub proof fn lemma_placeholders_push_pub(base: int, k: int)
    requires
        k >= 0,
    ensures
        spec_placeholders(base, k + 1) == spec_placeholders(base, k).push(spec_param(base + k + 1)),
{
    lemma_placeholders_push(base, k);
}

proof fn lemma_placeholders_push(base: int, k: int)
    requires
        k >= 0,
    ensures
        spec_placeholders(base, k + 1) == spec_placeholders(base, k).push(spec_param(base + k + 1)),
    decreases k,
{
    if k == 0 {
        assert(spec_placeholders(base + 1, 0) =~= Seq::<Seq<char>>::empty());
        assert(spec_placeholders(base, 1) =~= seq![spec_param(base + 1)]);
        assert(spec_placeholders(base, 0).push(spec_param(base + 1)) =~= seq![
            spec_param(base + 1),
        ]);
    } else {
        lemma_placeholders_push(base + 1, k - 1);
        assert(spec_placeholders(base, k + 1) =~= spec_placeholders(base, k).push(
            spec_param(base + k + 1),
        ));
    }
}

/// Builds the SQL for one filter node, appending its parameter values.
fn build_filter_node(node: &FilterNode, params: &mut Vec<String>, offset: usize) -> (r: Result<
    String,
    Error,
>)
    requires
        old(params)@.len() + offset + node_param_count(node_view(*node)) <= usize::MAX,
    ensures
        match spec_node_sql(node_view(*node), old(params)@.len() + offset as int) {
            Some(pair) => r matches Ok(sql) && sql@ == pair.0 && strs_view(final(params)@)
                == strs_view(old(params)@) + pair.1,
            None => r is Err && (r matches Err(e) && e is BadRequest),
        },
    decreases *node,
{
    let ghost base = old(params)@.len() + offset as int;
    match node {
        FilterNode::Condition(f) => {
            proof {
                assert(node_view(*node) == NodeV::CondV(f@));
            }
            build_single_filter(f, params, offset)
        },
        FilterNode::And(children) => {
            let ghost cv = nodes_view(children@);
            proof {
                assert(node_view(*node) == NodeV::AndV(cv));
            }
            match build_group_clauses(children, params, offset) {
                Ok(parts) => {
                    if parts.len() == 0 {
                        proof {
                            assert(spec_node_sql(node_view(*node), base)->Some_0.0
                                =~= Seq::<char>::empty());
                        }
                        Ok(String::new())
                    } else {
                        let joined = join_strings(&parts, " AND ");
                        let mut sql = String::new();
                        sql.append("(");
                        sql.append(joined.as_str());
                        sql.append(")");
                        proof {
                            assert(sql@ =~= "("@ + spec_join(strs_view(parts@), " AND "@) + ")"@);
                        }
                        Ok(sql)
                    }
                },
                Err(e) => Err(e),
            }
        },
        FilterNode::Or(children) => {
            let ghost cv = nodes_view(children@);
            proof {
                assert(node_view(*node) == NodeV::OrV(cv));
            }
            match build_group_clauses(children, params, offset) {
                Ok(parts) => {
                    if parts.len() == 0 {
                        proof {
                            assert(spec_node_sql(node_view(*node), base)->Some_0.0
                                =~= Seq::<char>::empty());
                        }
                        Ok(String::new())
                    } else {
                        let joined = join_strings(&parts, " OR ");
                        let mut sql = String::new();
                        sql.append("(");
                        sql.append(joined.as_str());
                        sql.append(")");
                        proof {
                            assert(sql@ =~= "("@ + spec_join(strs_view(parts@), " OR "@) + ")"@);
                        }
                        Ok(sql)
                    }
                },
                Err(e) => Err(e),
            }
        },
    }
}

/// Builds the non-empty clauses of a node sequence, appending all their
/// parameter values.
#[verifier::rlimit(100)]
fn build_group_clauses(children: &Vec<FilterNode>, params: &mut Vec<String>, offset: usize) -> (r:
    Result<Vec<String>, Error>)
    requires
        old(params)@.len() + offset + nodes_param_count(nodes_view(children@)) <= usize::MAX,
    ensures
        match spec_nodes_sql(nodes_view(children@), old(params)@.len() + offset as int) {
            Some(pair) => r matches Ok(parts) && strs_view(parts@) == pair.0 && strs_view(
                final(params)@,
            ) == strs_view(old(params)@) + pair.1,
            None => r is Err && (r matches Err(e) && e is BadRequest),
        },
    decreases children@,
{
    let ghost base = old(params)@.len() + offset as int;
    let ghost all = nodes_view(children@);
    let mut parts: Vec<String> = Vec::new();
    let mut i: usize = 0;
    proof {
        lemma_nodes_view_index(children@);
        assert(all.subrange(0, all.len() as int) =~= all);
        assert(strs_view(parts@) =~= Seq::<Seq<char>>::empty());
        assert(strs_view(params@) =~= strs_view(old(params)@) + Seq::<Seq<char>>::empty());
        lemma_nodes_split_count(all, 0);
    }
    while i < children.len()
        invariant
            all == nodes_view(children@),
            all.len() == children@.len(),
            forall|k: int| 0 <= k < all.len() ==> all[k] == node_view(children@[k]),
            i <= children@.len(),
            base == old(params)@.len() + offset as int,
            params@.len() >= old(params)@.len(),
            params@.len() + offset + nodes_param_count(
                all.subrange(i as int, all.len() as int),
            ) <= usize::MAX,
            params@.len() + offset as int == base + strs_view(params@).len() - strs_view(
                old(params)@,
            ).len(),
            match spec_nodes_sql(all.subrange(i as int, all.len() as int), params@.len() + offset as int) {
                Some(pair) => (match spec_nodes_sql(all, base) {
                    Some(whole) => whole.0 == strs_view(parts@) + pair.0 && strs_view(params@)
                        + pair.1 == strs_view(old(params)@) + whole.1,
                    None => false,
                }),
                None => spec_nodes_sql(all, base) is None,
            },
        decreases children@.len() - i,
    {
        let ghost rest = all.subrange(i as int, all.len() as int);
        let ghost cur_base = params@.len() + offset as int;
        proof {
            assert(rest[0] == all[i as int]);
            assert(rest.subrange(1, rest.len() as int) =~= all.subrange(i + 1, all.len() as int));
            lemma_node_count_nonneg(rest[0]);
            lemma_nodes_count_nonneg(rest.subrange(1, rest.len() as int));
        }
        let ghost params_before = params@;
        let clause = match build_filter_node(&children[i], params, offset) {
            Ok(c) => c,
            Err(e) => {
                return Err(e);
            },
        };
        proof {
            lemma_node_sql_params(all[i as int], cur_base);
            match spec_node_sql(all[i as int], cur_base) {
                Some(head) => {
                    assert(strs_view(params@).len() == strs_view(params_before).len()
                        + head.1.len());
                    assert(params@.len() == params_before.len() + head.1.len());
                    assert(head.1.len() == node_param_count(all[i as int]));
                },
                None => {},
            }
            assert(nodes_param_count(rest) == node_param_count(rest[0]) + nodes_param_count(
                rest.subrange(1, rest.len() as int),
            ));
        }
        if !clause.as_str().is_empty() {
            let ghost prev_parts = parts@;
            let ghost clv = clause@;
            parts.push(clause);
            proof {
                assert(strs_view(parts@) =~= strs_view(prev_parts) + seq![clv]);
            }
        } else {
            proof {
                assert(clause@ =~= Seq::<char>::empty());
            }
        }
        proof {
            match spec_nodes_sql(all.subrange(i + 1, all.len() as int), params@.len() + offset as int) {
                Some(pair) => {
                    match spec_node_sql(all[i as int], cur_base) {
                        Some(head) => {
                            if head.0.len() == 0 {
                                assert(strs_view(parts@) + pair.0 =~= strs_view(parts@) + pair.0);
                            } else {
                                assert((strs_view(parts@.subrange(0, parts@.len() - 1)) + seq![
                                    head.0,
                                ]) + pair.0 =~= strs_view(parts@.subrange(0, parts@.len() - 1)) + (
                                seq![head.0] + pair.0));
                            }
                            assert((strs_view(params_before) + head.1) + pair.1 =~= strs_view(
                                params_before,
                            ) + (head.1 + pair.1));
                        },
                        None => {},
                    }
                },
                None => {},
            }
        }
        i += 1;
    }
    proof {
        assert(all.subrange(i as int, all.len() as int) =~= Seq::<NodeV>::empty());
        assert(strs_view(parts@) + Seq::<Seq<char>>::empty() =~= strs_view(parts@));
        assert(strs_view(params@) + Seq::<Seq<char>>::empty() =~= strs_view(params@));
    }
    Ok(parts)
}

/// The views of a node sequence are its nodes' views, elementwise.
pub proof fn lemma_nodes_view_index(s: Seq<FilterNode>)
    ensures
        nodes_view(s).len() == s.len(),
        forall|k: int| 0 <= k < s.len() ==> nodes_view(s)[k] == node_view(s[k]),
    decreases s,
{
    if s.len() > 0 {
        lemma_nodes_view_index(s.subrange(1, s.len() as int));
        assert forall|k: int| 0 <= k < s.len() implies nodes_view(s)[k] == node_view(s[k]) by {
            if k > 0 {
                assert(s.subrange(1, s.len() as int)[k - 1] == s[k]);
            }
        }
    }
}

/// A split of a node sequence splits its parameter count.
proof fn lemma_nodes_split_count(s: Seq<NodeV>, i: int)
    requires
        0 <= i <= s.len(),
    ensures
        nodes_param_count(s) == nodes_param_count(s.subrange(0, i)) + nodes_param_count(
            s.subrange(i, s.len() as int),
        ),
    decreases i,
{
    if i == 0 {
        assert(s.subrange(0, 0) =~= Seq::<NodeV>::empty());
        assert(s.subrange(0, s.len() as int) =~= s);
    } else {
        let tail = s.subrange(1, s.len() as int);
        lemma_nodes_split_count(tail, i - 1);
        assert(s.subrange(0, i).subrange(1, i) =~= tail.subrange(0, i - 1));
        assert(s.subrange(0, i)[0] == s[0]);
        assert(s.subrange(i, s.len() as int) =~= tail.subrange(i - 1, tail.len() as int));
    }
}

/// Model of one `order` segment: `column[.dir[.nulls]]`, direction
/// defaulting to ascending.
pub open spec fn spec_order_item(t: Seq<char>) -> OrderV {
    let segments = text::spec_split(t, '.');
    OrderV {
        column: segments[0],
        direction: if segments.len() > 1 && text::eq_ci(segments[1], "desc"@) {
            OrderDir::Desc
        } else {
            OrderDir::Asc
        },
        nulls: if segments.len() > 2 {
            if text::eq_ci(segments[2], "nullsfirst"@) {
                Some(NullsOrder::First)
            } else if text::eq_ci(segments[2], "nullslast"@) {
                Some(NullsOrder::Last)
            } else {
                None
            }
        } else {
            None
        },
    }
}

/// The ordering segments of the comma-separated pieces, trimmed, empty
/// pieces dropped.
pub open spec fn spec_order_items(parts: Seq<Seq<char>>) -> Seq<OrderV>
    decreases parts.len(),
{
    if parts.len() == 0 {
        Seq::empty()
    } else {
        let t = text::spec_trim(parts[0]);
        let rest = spec_order_items(parts.subrange(1, parts.len() as int));
        if t.len() > 0 {
            seq![spec_order_item(t)] + rest
        } else {
            rest
        }
    }
}

/// Model of `parse_order`.
pub open spec fn spec_parse_order(s: Seq<char>) -> Seq<OrderV> {
    spec_order_items(text::spec_split(s, ','))
}

/// The views of an order vector.
pub open spec fn orders_view(v: Seq<OrderSpec>) -> Seq<OrderV> {
    v.map_values(|o: OrderSpec| o@)
}

/// Parses an ordering such as `name.asc,age.desc.nullsfirst`.
pub fn parse_order(order_str: &str) -> (r: Result<Vec<OrderSpec>, Error>)
    ensures
        r matches Ok(specs) && orders_view(specs@) == spec_parse_order(order_str@),
{
    let parts = text::split_char(order_str, ',');
    let ghost pieces = text::spec_split(order_str@, ',');
    let mut specs: Vec<OrderSpec> = Vec::new();
    let mut i: usize = 0;
    proof {
        assert(pieces.subrange(0, pieces.len() as int) =~= pieces);
        assert(orders_view(specs@) =~= Seq::<OrderV>::empty());
    }
    while i < parts.len()
        invariant
            parts@.map_values(|p: String| p@) == pieces,
            i <= parts.len(),
            spec_parse_order(order_str@) == orders_view(specs@) + spec_order_items(
                pieces.subrange(i as int, pieces.len() as int),
            ),
        decreases parts.len() - i,
    {
        let ghost rest = pieces.subrange(i as int, pieces.len() as int);
        proof {
            assert(rest[0] == pieces[i as int]);
            assert(pieces[i as int] == parts@.map_values(|p: String| p@)[i as int]);
            assert(rest.subrange(1, rest.len() as int) =~= pieces.subrange(
                i + 1,
                pieces.len() as int,
            ));
        }
        let part = text::trim(parts[i].as_str());
        if part.as_str().is_empty() {
            i += 1;
            continue;
        }
        let segments = text::split_char(part.as_str(), '.');
        let ghost segs = text::spec_split(part@, '.');
        proof {
            text::lemma_split_acc_len(part@, '.', Seq::<char>::empty());
            assert(segments@.map_values(|p: String| p@)[0] == segs[0]);
        }
        let column = segments[0].clone();
        let direction = if segments.len() > 1 && text::eq_ignore_case(
            segments[1].as_str(),
            "desc",
        ) {
            proof {
                assert(segments@.map_values(|p: String| p@)[1] == segs[1]);
            }
            OrderDir::Desc
        } else {
            proof {
                if segments.len() > 1 {
                    assert(segments@.map_values(|p: String| p@)[1] == segs[1]);
                }
            }
            OrderDir::Asc
        };
        let nulls: Option<NullsOrder> = if segments.len() > 2 {
            proof {
                assert(segments@.map_values(|p: String| p@)[2] == segs[2]);
            }
            if text::eq_ignore_case(segments[2].as_str(), "nullsfirst") {
                Some(NullsOrder::First)
            } else if text::eq_ignore_case(segments[2].as_str(), "nullslast") {
                Some(NullsOrder::Last)
            } else {
                None
            }
        } else {
            None
        };
        let spec_item = OrderSpec { column, direction, nulls };
        let ghost prev = specs@;
        let ghost ov = spec_item@;
        proof {
            assert(ov == spec_order_item(text::spec_trim(pieces[i as int])));
        }
        specs.push(spec_item);
        proof {
            assert(orders_view(specs@) =~= orders_view(prev) + seq![ov]);
            assert((orders_view(prev) + seq![ov]) + spec_order_items(
                pieces.subrange(i + 1, pieces.len() as int),
            ) =~= orders_view(prev) + (seq![ov] + spec_order_items(
                pieces.subrange(i + 1, pieces.len() as int),
            )));
        }
        i += 1;
    }
    proof {
        assert(pieces.subrange(i as int, pieces.len() as int) =~= Seq::<Seq<char>>::empty());
        assert(orders_view(specs@) + Seq::<OrderV>::empty() =~= orders_view(specs@));
    }
    Ok(specs)
}

/// SQL and parameters of a WHERE clause: the top-level nodes' non-empty
/// clauses joined with `AND`, parameters bound from `base` on.
pub open spec fn spec_where_sql(nodes: Seq<NodeV>, base: int) -> Option<
    (Seq<char>, Seq<Seq<char>>),
> {
    match spec_nodes_sql(nodes, base) {
        Some((clauses, params)) => Some((spec_join(clauses, " AND "@), params)),
        None => None,
    }
}

/// Builds the WHERE clause of the given filter nodes, binding parameter
/// ordinals after `offset` already-bound ones.
pub fn build_where_clause_with_offset(
    filters: &Vec<FilterNode>,
    params: &mut Vec<String>,
    offset: usize,
) -> (r: Result<String, Error>)
    requires
        old(params)@.len() + offset + nodes_param_count(nodes_view(filters@)) <= usize::MAX,
    ensures
        match spec_where_sql(nodes_view(filters@), old(params)@.len() + offset as int) {
            Some(pair) => r matches Ok(sql) && sql@ == pair.0 && strs_view(final(params)@)
                == strs_view(old(params)@) + pair.1,
            None => r is Err && (r matches Err(e) && e is BadRequest),
        },
{
    let parts = match build_group_clauses(filters, params, offset) {
        Ok(p) => p,
        Err(e) => {
            return Err(e);
        },
    };
    Ok(join_strings(&parts, " AND "))
}

/// Builds the WHERE clause of the given filter nodes.
pub fn build_where_clause(filters: &Vec<FilterNode>, params: &mut Vec<String>) -> (r: Result<
    String,
    Error,
>)
    requires
        old(params)@.len() + nodes_param_count(nodes_view(filters@)) <= usize::MAX,
    ensures
        match spec_where_sql(nodes_view(filters@), old(params)@.len() as int) {
            Some(pair) => r matches Ok(sql) && sql@ == pair.0 && strs_view(final(params)@)
                == strs_view(old(params)@) + pair.1,
            None => r is Err && (r matches Err(e) && e is BadRequest),
        },
{
    build_where_clause_with_offset(filters, params, 0)
}

/// Each name bracket-quoted.
pub open spec fn spec_brackets_of(names: Seq<Seq<char>>) -> Seq<Seq<char>> {
    Seq::new(names.len(), |i: int| spec_bracket(names[i]))
}

/// Brackets every name of a list.
pub fn bracket_names_pub(names: &Vec<String>) -> (r: Vec<String>)
    ensures
        strs_view(r@) == spec_brackets_of(strs_view(names@)),
{
    bracket_names(names)
}

/// Brackets every name of a list.
fn bracket_names(names: &Vec<String>) -> (r: Vec<String>)
    ensures
        strs_view(r@) == spec_brackets_of(strs_view(names@)),
{
    let mut out: Vec<String> = Vec::new();
    let mut i: usize = 0;
    while i < names.len()
        invariant
            i <= names.len(),
            out@.len() == i,
            forall|j: int| 0 <= j < i ==> strs_view(out@)[j] == spec_bracket(names@[j]@),
        decreases names.len() - i,
    {
        let b = bracket(names[i].as_str());
        let ghost prev = out@;
        let ghost bv = b@;
        out.push(b);
        proof {
            assert(strs_view(out@) =~= strs_view(prev).push(bv));
        }
        i += 1;
    }
    proof {
        assert(strs_view(out@) =~= spec_brackets_of(strs_view(names@)));
    }
    out
}

/// Each catalog column as `{prefix}[name]`.
pub open spec fn spec_prefixed_cols(cols: Seq<ColV>, prefix: Seq<char>) -> Seq<Seq<char>> {
    Seq::new(cols.len(), |i: int| prefix + spec_bracket(cols[i].name))
}

/// Renders every catalog column as `{prefix}[name]`.
pub fn prefixed_cols_pub(table: &TableInfo, prefix: &str) -> (r: Vec<String>)
    ensures
        strs_view(r@) == spec_prefixed_cols(table@.columns, prefix@),
{
    prefixed_cols(table, prefix)
}

/// Renders every catalog column as `{prefix}[name]`.
fn prefixed_cols(table: &TableInfo, prefix: &str) -> (r: Vec<String>)
    ensures
        strs_view(r@) == spec_prefixed_cols(table@.columns, prefix@),
{
    let mut out: Vec<String> = Vec::new();
    let mut i: usize = 0;
    while i < table.columns.len()
        invariant
            i <= table.columns.len(),
            table@.columns.len() == table.columns@.len(),
            forall|k: int|
                0 <= k < table.columns@.len() ==> table@.columns[k] == table.columns@[k]@,
            out@.len() == i,
            forall|j: int|
                0 <= j < i ==> strs_view(out@)[j] == prefix@ + spec_bracket(
                    table@.columns[j].name,
                ),
        decreases table.columns.len() - i,
    {
        let mut s = prefix.to_owned();
        let b = bracket(table.columns[i].name.as_str());
        s.append(b.as_str());
        let ghost prev = out@;
        let ghost sv = s@;
        out.push(s);
        proof {
            assert(strs_view(out@) =~= strs_view(prev).push(sv));
        }
        i += 1;
    }
    proof {
        assert(strs_view(out@) =~= spec_prefixed_cols(table@.columns, prefix@));
    }
    out
}

/// Some catalog column answers to `name`, case-insensitively.
pub open spec fn col_in_table(cols: Seq<ColV>, name: Seq<char>) -> bool {
    exists|i: int| 0 <= i < cols.len() && crate::schema::col_matches(#[trigger] cols[i], name)
}

/// The explicitly selected names that are not catalog columns,
/// bracket-quoted, in order.
pub open spec fn spec_extra_cols(explicit: Seq<Seq<char>>, cols: Seq<ColV>) -> Seq<Seq<char>>
    decreases explicit.len(),
{
    if explicit.len() == 0 {
        Seq::empty()
    } else {
        let rest = spec_extra_cols(explicit.subrange(1, explicit.len() as int), cols);
        if !col_in_table(cols, explicit[0]) {
            seq![spec_bracket(explicit[0])] + rest
        } else {
            rest
        }
    }
}

/// The projected column list of a SELECT: the full catalog list when a
/// star is present (plus unknown explicit names), the explicit list
/// otherwise, `*` when nothing is named.
pub open spec fn spec_column_list(t: TableV, sels: Seq<SelV>) -> Seq<char> {
    let explicit = crate::select::spec_select_columns(sels);
    if sels.len() == 0 || crate::select::spec_has_star(sels) {
        if explicit.len() == 0 {
            spec_join(spec_prefixed_cols(t.columns, Seq::empty()), ", "@)
        } else {
            spec_join(
                spec_prefixed_cols(t.columns, Seq::empty()) + spec_extra_cols(explicit, t.columns),
                ", "@,
            )
        }
    } else {
        if explicit.len() == 0 {
            "*"@
        } else {
            spec_join(spec_brackets_of(explicit), ", "@)
        }
    }
}

/// Builds the projected column list for a SELECT.
pub fn build_column_list(table: &TableInfo, nodes: &Vec<SelectNode>) -> (r: String)
    ensures
        r@ == spec_column_list(table@, sels_view(nodes@)),
{
    let explicit = crate::select::select_columns(nodes);
    let ghost expl = crate::select::spec_select_columns(sels_view(nodes@));
    proof {
        assert(expl == strs_view(explicit@));
    }
    if nodes.len() == 0 || crate::select::has_star(nodes) {
        proof {
            crate::select::lemma_sels_view_len(nodes@);
        }
        let mut parts = prefixed_cols(table, "");
        proof {
            reveal_strlit("");
            assert(""@ =~= Seq::<char>::empty());
            assert(spec_prefixed_cols(table@.columns, ""@) =~= spec_prefixed_cols(
                table@.columns,
                Seq::empty(),
            ));
        }
        if explicit.len() == 0 {
            return join_strings(&parts, ", ");
        }
        let ghost base_parts = strs_view(parts@);
        let mut i: usize = 0;
        proof {
            assert(expl.subrange(0, expl.len() as int) =~= expl);
            assert(base_parts + spec_extra_cols(expl, table@.columns) =~= base_parts
                + spec_extra_cols(expl.subrange(0, expl.len() as int), table@.columns));
        }
        while i < explicit.len()
            invariant
                expl == strs_view(explicit@),
                expl.len() == explicit@.len(),
                i <= explicit@.len(),
                table@.columns.len() == table.columns@.len(),
                base_parts + spec_extra_cols(expl, table@.columns) == strs_view(parts@)
                    + spec_extra_cols(expl.subrange(i as int, expl.len() as int), table@.columns),
            decreases explicit.len() - i,
        {
            let ghost rest = expl.subrange(i as int, expl.len() as int);
            proof {
                assert(rest[0] == expl[i as int]);
                assert(expl[i as int] == strs_view(explicit@)[i as int]);
                assert(rest.subrange(1, rest.len() as int) =~= expl.subrange(
                    i + 1,
                    expl.len() as int,
                ));
            }
            match table.column(explicit[i].as_str()) {
                Some(_) => {
                    proof {
                        assert(col_in_table(table@.columns, expl[i as int]));
                    }
                },
                None => {
                    proof {
                        assert(!col_in_table(table@.columns, expl[i as int]));
                    }
                    let b = bracket(explicit[i].as_str());
                    let ghost prev = parts@;
                    let ghost bv = b@;
                    parts.push(b);
                    proof {
                        assert(strs_view(parts@) =~= strs_view(prev) + seq![bv]);
                        assert((strs_view(prev) + seq![bv]) + spec_extra_cols(
                            expl.subrange(i + 1, expl.len() as int),
                            table@.columns,
                        ) =~= strs_view(prev) + (seq![bv] + spec_extra_cols(
                            expl.subrange(i + 1, expl.len() as int),
                            table@.columns,
                        )));
                    }
                },
            }
            i += 1;
        }
        proof {
            assert(expl.subrange(i as int, expl.len() as int) =~= Seq::<Seq<char>>::empty());
            assert(strs_view(parts@) + Seq::<Seq<char>>::empty() =~= strs_view(parts@));
        }
        join_strings(&parts, ", ")
    } else {
        if explicit.len() == 0 {
            return "*".to_owned();
        }
        let parts = bracket_names(&explicit);
        join_strings(&parts, ", ")
    }
}

/// The fragment a sort segment contributes: an optional null-placement
/// CASE key, then the bracketed column and the direction.
pub open spec fn spec_order_part(o: OrderV) -> Seq<char> {
    let nulls = match o.nulls {
        Some(NullsOrder::First) => "CASE WHEN "@ + spec_bracket(o.column)
            + " IS NULL THEN 0 ELSE 1 END, "@,
        Some(NullsOrder::Last) => "CASE WHEN "@ + spec_bracket(o.column)
            + " IS NULL THEN 1 ELSE 0 END, "@,
        None => Seq::empty(),
    };
    let dir = match o.direction {
        OrderDir::Asc => "ASC"@,
        OrderDir::Desc => "DESC"@,
    };
    nulls + spec_bracket(o.column) + " "@ + dir
}

/// The ORDER BY fragment of a SELECT: the requested segments; else,
/// when pagination demands an order, the primary key or `(SELECT
/// NULL)`; else nothing.
pub open spec fn spec_order_clause(
    t: TableV,
    orders: Seq<OrderV>,
    limit: Option<int>,
    offset: Option<int>,
) -> Seq<char> {
    if orders.len() > 0 {
        " ORDER BY "@ + spec_join(
            Seq::new(orders.len(), |i: int| spec_order_part(orders[i])),
            ", "@,
        )
    } else if limit is Some || offset is Some {
        if t.primary_key.len() > 0 {
            " ORDER BY "@ + spec_join(
                Seq::new(t.primary_key.len(), |i: int| spec_bracket(t.primary_key[i]) + " ASC"@),
                ", "@,
            )
        } else {
            " ORDER BY (SELECT NULL)"@
        }
    } else {
        Seq::empty()
    }
}

/// The pagination fragment of a SELECT. An explicit order alone adds
/// nothing; OFFSET appears only when the client paginates.
pub open spec fn spec_page_clause(limit: Option<int>, offset: Option<int>) -> Seq<char> {
    match offset {
        Some(off) => " OFFSET "@ + num::int_rep(off) + " ROWS"@ + (match limit {
            Some(l) => " FETCH NEXT "@ + num::int_rep(l) + " ROWS ONLY"@,
            None => Seq::empty(),
        }),
        None => match limit {
            Some(l) => " OFFSET 0 ROWS FETCH NEXT "@ + num::int_rep(l) + " ROWS ONLY"@,
            None => Seq::empty(),
        },
    }
}

/// Model of `build_select`: projection, source, filtering, ordering and
/// pagination, with the parameters the WHERE clause binds.
pub open spec fn spec_build_select(
    t: TableV,
    sels: Seq<SelV>,
    nodes: Seq<NodeV>,
    orders: Seq<OrderV>,
    limit: Option<int>,
    offset: Option<int>,
    count_only: bool,
) -> Option<(Seq<char>, Seq<Seq<char>>)> {
    let cols = if count_only {
        "COUNT(*) AS [count]"@
    } else {
        spec_column_list(t, sels)
    };
    let base_sql = "SELECT "@ + cols + " FROM "@ + crate::schema::spec_full_name(t);
    match (if nodes.len() > 0 {
        spec_where_sql(nodes, 0)
    } else {
        Some((Seq::<char>::empty(), Seq::<Seq<char>>::empty()))
    }) {
        None => None,
        Some((ws, ps)) => {
            let sql1 = if nodes.len() > 0 && ws.len() > 0 {
                base_sql + " WHERE "@ + ws
            } else {
                base_sql
            };
            if count_only {
                Some((sql1, ps))
            } else {
                Some(
                    (
                        sql1 + spec_order_clause(t, orders, limit, offset) + spec_page_clause(
                            limit,
                            offset,
                        ),
                        ps,
                    ),
                )
            }
        },
    }
}

/// Builds a SELECT (or COUNT) statement from the parsed artifacts.
/// Fails with a bad-request error exactly when the filter tree does.
#[verifier::rlimit(100)]
pub fn build_select(
    table: &TableInfo,
    select_nodes: &Vec<SelectNode>,
    filters: &Vec<FilterNode>,
    order: &Vec<OrderSpec>,
    limit: Option<i64>,
    offset: Option<i64>,
    count_only: bool,
) -> (r: Result<BuiltQuery, Error>)
    requires
        nodes_param_count(nodes_view(filters@)) <= usize::MAX,
    ensures
        ({
            let lim = match limit {
                Some(l) => Some(l as int),
                None => None,
            };
            let off = match offset {
                Some(o) => Some(o as int),
                None => None,
            };
            match spec_build_select(
                table@,
                sels_view(select_nodes@),
                nodes_view(filters@),
                orders_view(order@),
                lim,
                off,
                count_only,
            ) {
                Some(pair) => r matches Ok(b) && b.sql@ == pair.0 && strs_view(b.params@)
                    == pair.1,
                None => r is Err && (r matches Err(e) && e is BadRequest),
            }
        }),
{
    let ghost lim: Option<int> = match limit {
        Some(l) => Some(l as int),
        None => None,
    };
    let ghost off: Option<int> = match offset {
        Some(o) => Some(o as int),
        None => None,
    };
    let mut params: Vec<String> = Vec::new();
    let columns = if count_only {
        "COUNT(*) AS [count]".to_owned()
    } else {
        build_column_list(table, select_nodes)
    };
    let mut sql = String::new();
    sql.append("SELECT ");
    sql.append(columns.as_str());
    sql.append(" FROM ");
    let full = table.full_name();
    sql.append(full.as_str());
    let ghost base_sql = sql@;
    let ghost nodes = nodes_view(filters@);
    if filters.len() > 0 {
        let where_clause = match build_where_clause(filters, &mut params) {
            Ok(w) => w,
            Err(e) => {
                return Err(e);
            },
        };
        if !where_clause.as_str().is_empty() {
            sql.append(" WHERE ");
            sql.append(where_clause.as_str());
        } else {
            proof {
                assert(where_clause@ =~= Seq::<char>::empty());
            }
        }
    } else {
        proof {
            assert(nodes =~= Seq::<NodeV>::empty());
            assert(strs_view(params@) =~= Seq::<Seq<char>>::empty());
        }
    }
    if count_only {
        return Ok(BuiltQuery { sql, params });
    }
    // ORDER BY
    if order.len() > 0 {
        let mut parts: Vec<String> = Vec::new();
        let mut i: usize = 0;
        while i < order.len()
            invariant
                i <= order.len(),
                parts@.len() == i,
                forall|j: int|
                    0 <= j < i ==> strs_view(parts@)[j] == spec_order_part(order@[j]@),
            decreases order.len() - i,
        {
            let o = &order[i];
            let b = bracket(o.column.as_str());
            let mut part = String::new();
            match o.nulls {
                Some(NullsOrder::First) => {
                    part.append("CASE WHEN ");
                    part.append(b.as_str());
                    part.append(" IS NULL THEN 0 ELSE 1 END, ");
                },
                Some(NullsOrder::Last) => {
                    part.append("CASE WHEN ");
                    part.append(b.as_str());
                    part.append(" IS NULL THEN 1 ELSE 0 END, ");
                },
                None => {
                },
            }
            part.append(b.as_str());
            part.append(" ");
            match o.direction {
                OrderDir::Asc => part.append("ASC"),
                OrderDir::Desc => part.append("DESC"),
            }
            proof {
                assert(part@ =~= spec_order_part(order@[i as int]@));
            }
            let ghost prev = parts@;
            let ghost pv2 = part@;
            parts.push(part);
            proof {
                assert(strs_view(parts@) =~= strs_view(prev).push(pv2));
            }
            i += 1;
        }
        let joined = join_strings(&parts, ", ");
        sql.append(" ORDER BY ");
        sql.append(joined.as_str());
        proof {
            assert(strs_view(parts@) =~= Seq::new(
                orders_view(order@).len(),
                |i: int| spec_order_part(orders_view(order@)[i]),
            ));
        }
    } else if limit.is_some() || offset.is_some() {
        if table.primary_key.len() > 0 {
            let mut parts: Vec<String> = Vec::new();
            let mut i: usize = 0;
            while i < table.primary_key.len()
                invariant
                    i <= table.primary_key.len(),
                    table@.primary_key.len() == table.primary_key@.len(),
                    forall|k: int|
                        0 <= k < table.primary_key@.len() ==> table@.primary_key[k]
                            == table.primary_key@[k]@,
                    parts@.len() == i,
                    forall|j: int|
                        0 <= j < i ==> strs_view(parts@)[j] == spec_bracket(table@.primary_key[j])
                            + " ASC"@,
                decreases table.primary_key.len() - i,
            {
                let mut part = bracket(table.primary_key[i].as_str());
                part.append(" ASC");
                let ghost prev = parts@;
                let ghost pv2 = part@;
                parts.push(part);
                proof {
                    assert(strs_view(parts@) =~= strs_view(prev).push(pv2));
                }
                i += 1;
            }
            let joined = join_strings(&parts, ", ");
            sql.append(" ORDER BY ");
            sql.append(joined.as_str());
            proof {
                assert(strs_view(parts@) =~= Seq::new(
                    table@.primary_key.len(),
                    |i: int| spec_bracket(table@.primary_key[i]) + " ASC"@,
                ));
            }
        } else {
            sql.append(" ORDER BY (SELECT NULL)");
        }
    }
    // OFFSET / FETCH
    match offset {
        Some(o) => {
            sql.append(" OFFSET ");
            let num_str = num::i64_to_string(o);
            sql.append(num_str.as_str());
            sql.append(" ROWS");
            match limit {
                Some(l) => {
                    sql.append(" FETCH NEXT ");
                    let lim_str = num::i64_to_string(l);
                    sql.append(lim_str.as_str());
                    sql.append(" ROWS ONLY");
                },
                None => {
                },
            }
        },
        None => {
            match limit {
                Some(l) => {
                    sql.append(" OFFSET 0 ROWS FETCH NEXT ");
                    let lim_str = num::i64_to_string(l);
                    sql.append(lim_str.as_str());
                    sql.append(" ROWS ONLY");
                },
                None => {
                },
            }
        },
    }
    proof {
        match spec_build_select(
            table@,
            sels_view(select_nodes@),
            nodes,
            orders_view(order@),
            lim,
            off,
            count_only,
        ) {
            Some(pair) => {
                assert(sql@ =~= pair.0);
            },
            None => {},
        }
    }
    Ok(BuiltQuery { sql, params })
}

/// The placeholder groups of a multi-row VALUES clause: one
/// parenthesized group of `ncols` placeholders per row, numbered
/// consecutively from `base + 1`.
pub open spec fn spec_value_groups(base: int, ncols: int, remaining: int) -> Seq<Seq<char>>
    decreases remaining,
{
    if remaining <= 0 {
        Seq::empty()
    } else {
        seq!["("@ + spec_join(spec_placeholders(base, ncols), ", "@) + ")"@]
            + spec_value_groups(base + ncols, ncols, remaining - 1)
    }
}

/// Model of `build_insert`. `None` stands for an empty column list.
pub open spec fn spec_build_insert(t: TableV, cols: Seq<Seq<char>>, vc: int) -> Option<Seq<char>> {
    if cols.len() == 0 {
        None
    } else {
        Some(
            "INSERT INTO "@ + crate::schema::spec_full_name(t) + " ("@ + spec_join(
                spec_brackets_of(cols),
                ", "@,
            ) + ") OUTPUT "@ + spec_join(spec_prefixed_cols(t.columns, "inserted."@), ", "@)
                + " VALUES "@ + spec_join(spec_value_groups(0, cols.len() as int, vc), ", "@),
        )
    }
}

/// Builds a multi-row INSERT with an OUTPUT clause over every catalog
/// column. Parameters are bound by the caller, row-major. Fails with a
/// bad-request error exactly when no columns are given.
pub fn build_insert(table: &TableInfo, columns: &Vec<String>, value_count: usize) -> (r: Result<
    BuiltQuery,
    Error,
>)
    requires
        columns@.len() * value_count <= usize::MAX,
    ensures
        match spec_build_insert(table@, strs_view(columns@), value_count as int) {
            Some(sql) => r matches Ok(b) && b.sql@ == sql && b.params@.len() == 0,
            None => r is Err && (r matches Err(e) && e is BadRequest),
        },
{
    if columns.len() == 0 {
        return Err(Error::BadRequest("No columns to insert".to_owned()));
    }
    let ncols = columns.len();
    let col_brackets = bracket_names(columns);
    let col_list = join_strings(&col_brackets, ", ");
    let output_parts = prefixed_cols(table, "inserted.");
    let output_list = join_strings(&output_parts, ", ");
    let mut groups: Vec<String> = Vec::new();
    let mut g: usize = 0;
    let mut param_idx: usize = 0;
    proof {
        assert(ncols * value_count == value_count * ncols) by (nonlinear_arith);
    }
    while g < value_count
        invariant
            ncols == columns@.len(),
            1 <= ncols,
            g <= value_count,
            param_idx as int + (value_count - g) * (ncols as int) <= usize::MAX,
            groups@.len() == g,
            spec_value_groups(0, ncols as int, value_count as int) == strs_view(groups@)
                + spec_value_groups(param_idx as int, ncols as int, (value_count - g) as int),
        decreases value_count - g,
    {
        proof {
            assert((value_count - g) * (ncols as int) == ncols + (value_count - g - 1) * (
            ncols as int)) by (nonlinear_arith)
            requires
                g < value_count,
            ;
            assert((value_count - g - 1) * (ncols as int) >= 0) by (nonlinear_arith)
            requires
                g < value_count,
                ncols >= 1,
            ;
        }
        let ghost gbase = param_idx as int;
        let mut placeholders: Vec<String> = Vec::new();
        let mut j: usize = 0;
        while j < ncols
            invariant
                ncols == columns@.len(),
                j <= ncols,
                param_idx == gbase + j,
                gbase + ncols <= usize::MAX,
                placeholders@.len() == j,
                strs_view(placeholders@) == spec_placeholders(gbase, j as int),
            decreases ncols - j,
        {
            let ghost prev = placeholders@;
            param_idx += 1;
            let ph = param_str(param_idx);
            placeholders.push(ph);
            proof {
                assert(strs_view(placeholders@) =~= strs_view(prev).push(
                    spec_param(gbase + j + 1),
                ));
                lemma_placeholders_push(gbase, j as int);
            }
            j += 1;
        }
        let joined = join_strings(&placeholders, ", ");
        let mut group = String::new();
        group.append("(");
        group.append(joined.as_str());
        group.append(")");
        let ghost prev_groups = groups@;
        let ghost gv = group@;
        groups.push(group);
        proof {
            assert(gv =~= "("@ + spec_join(spec_placeholders(gbase, ncols as int), ", "@)
                + ")"@);
            assert(strs_view(groups@) =~= strs_view(prev_groups).push(gv));
            let rem = (value_count - g) as int;
            assert(spec_value_groups(gbase, ncols as int, rem) == seq![gv] + spec_value_groups(
                gbase + ncols,
                ncols as int,
                rem - 1,
            ));
            assert(strs_view(prev_groups) + (seq![gv] + spec_value_groups(
                gbase + ncols,
                ncols as int,
                rem - 1,
            )) =~= (strs_view(prev_groups) + seq![gv]) + spec_value_groups(
                gbase + ncols,
                ncols as int,
                rem - 1,
            ));
        }
        g += 1;
    }
    proof {
        assert(spec_value_groups(param_idx as int, ncols as int, 0) =~= Seq::<Seq<char>>::empty());
        assert(strs_view(groups@) + Seq::<Seq<char>>::empty() =~= strs_view(groups@));
    }
    let groups_joined = join_strings(&groups, ", ");
    let mut sql = String::new();
    sql.append("INSERT INTO ");
    let full = table.full_name();
    sql.append(full.as_str());
    sql.append(" (");
    sql.append(col_list.as_str());
    sql.append(") OUTPUT ");
    sql.append(output_list.as_str());
    sql.append(" VALUES ");
    sql.append(groups_joined.as_str());
    proof {
        assert(sql@ =~= spec_build_insert(table@, strs_view(columns@), value_count as int)->0);
    }
    Ok(BuiltQuery { sql, params: Vec::new() })
}

/// Column `c` is one of the merge-match columns, case-insensitively.
pub open spec fn in_match_cols(mc: Seq<Seq<char>>, c: Seq<char>) -> bool {
    exists|i: int| 0 <= i < mc.len() && text::eq_ci(#[trigger] mc[i], c)
}

/// The `target.[c] = source.[c]` assignments of the columns that are
/// not match columns, in order.
pub open spec fn spec_update_parts(cols: Seq<Seq<char>>, mc: Seq<Seq<char>>) -> Seq<Seq<char>>
    decreases cols.len(),
{
    if cols.len() == 0 {
        Seq::empty()
    } else {
        let rest = spec_update_parts(cols.subrange(1, cols.len() as int), mc);
        if !in_match_cols(mc, cols[0]) {
            seq![
                "target."@ + spec_bracket(cols[0]) + " = source."@ + spec_bracket(cols[0]),
            ] + rest
        } else {
            rest
        }
    }
}

/// The match columns of an upsert: the primary key, else the first
/// unique constraint, else nothing.
pub open spec fn spec_match_cols(t: TableV) -> Option<Seq<Seq<char>>> {
    if t.primary_key.len() > 0 {
        Some(t.primary_key)
    } else if t.unique_constraints.len() > 0 {
        Some(t.unique_constraints[0])
    } else {
        None
    }
}

/// Model of `build_upsert`: a MERGE matching on the key columns,
/// updating the non-key columns, inserting otherwise. `None` stands for
/// an empty column list or a table without a usable key.
pub open spec fn spec_build_upsert(t: TableV, cols: Seq<Seq<char>>) -> Option<Seq<char>> {
    if cols.len() == 0 {
        None
    } else {
        match spec_match_cols(t) {
            None => None,
            Some(mc) => {
                let source_sel = Seq::new(
                    cols.len(),
                    |i: int| spec_param(i + 1) + " AS "@ + spec_bracket(cols[i]),
                );
                let on_parts = Seq::new(
                    mc.len(),
                    |i: int| "target."@ + spec_bracket(mc[i]) + " = source."@ + spec_bracket(
                        mc[i],
                    ),
                );
                let update_parts = spec_update_parts(cols, mc);
                let vals = Seq::new(cols.len(), |i: int| "source."@ + spec_bracket(cols[i]));
                Some(
                    "MERGE "@ + crate::schema::spec_full_name(t) + " AS target USING (SELECT "@
                        + spec_join(source_sel, ", "@) + ") AS source ("@ + spec_join(
                        spec_brackets_of(cols),
                        ", "@,
                    ) + ") ON "@ + spec_join(on_parts, " AND "@) + " "@ + (if update_parts.len()
                        > 0 {
                        "WHEN MATCHED THEN UPDATE SET "@ + spec_join(update_parts, ", "@) + " "@
                    } else {
                        Seq::<char>::empty()
                    }) + "WHEN NOT MATCHED THEN INSERT ("@ + spec_join(spec_brackets_of(cols), ", "@)
                        + ") VALUES ("@ + spec_join(vals, ", "@) + ") OUTPUT "@ + spec_join(
                        spec_prefixed_cols(t.columns, "inserted."@),
                        ", "@,
                    ) + ";"@,
                )
            },
        }
    }
}

/// Builds a MERGE (upsert) statement matching on the table's primary
/// key, or its first unique constraint when no key exists. Fails with a
/// bad-request error exactly when no columns are given or the table has
/// neither key.
#[verifier::rlimit(100)]
pub fn build_upsert(table: &TableInfo, columns: &Vec<String>, _value_count: usize) -> (r: Result<
    BuiltQuery,
    Error,
>)
    requires
        columns@.len() < usize::MAX,
    ensures
        match spec_build_upsert(table@, strs_view(columns@)) {
            Some(sql) => r matches Ok(b) && b.sql@ == sql && b.params@.len() == 0,
            None => r is Err && (r matches Err(e) && e is BadRequest),
        },
{
    if columns.len() == 0 {
        return Err(Error::BadRequest("No columns to upsert".to_owned()));
    }
    let match_cols: &Vec<String> = if table.primary_key.len() > 0 {
        &table.primary_key
    } else if table.unique_constraints.len() > 0 {
        &table.unique_constraints[0]
    } else {
        return Err(
            Error::BadRequest("Table has no primary key or unique constraint for upsert".to_owned()),
        );
    };
    let ghost mc = spec_match_cols(table@)->0;
    proof {
        assert(mc == strs_view(match_cols@));
    }
    // SELECT @P1 AS [c1], ...
    let mut source_sel: Vec<String> = Vec::new();
    let mut i: usize = 0;
    while i < columns.len()
        invariant
            i <= columns@.len(),
            columns@.len() < usize::MAX,
            source_sel@.len() == i,
            forall|j: int|
                0 <= j < i ==> strs_view(source_sel@)[j] == spec_param(j + 1) + " AS "@
                    + spec_bracket(columns@[j]@),
        decreases columns.len() - i,
    {
        let mut part = param_str(i + 1);
        part.append(" AS ");
        let b = bracket(columns[i].as_str());
        part.append(b.as_str());
        let ghost prev = source_sel@;
        let ghost pv2 = part@;
        source_sel.push(part);
        proof {
            assert(strs_view(source_sel@) =~= strs_view(prev).push(pv2));
        }
        i += 1;
    }
    // target.[k] = source.[k]
    let mut on_parts: Vec<String> = Vec::new();
    let mut k: usize = 0;
    while k < match_cols.len()
        invariant
            mc == strs_view(match_cols@),
            mc.len() == match_cols@.len(),
            k <= match_cols@.len(),
            on_parts@.len() == k,
            forall|j: int|
                0 <= j < k ==> strs_view(on_parts@)[j] == "target."@ + spec_bracket(mc[j])
                    + " = source."@ + spec_bracket(mc[j]),
        decreases match_cols.len() - k,
    {
        let b = bracket(match_cols[k].as_str());
        let mut part = String::new();
        part.append("target.");
        part.append(b.as_str());
        part.append(" = source.");
        part.append(b.as_str());
        let ghost prev = on_parts@;
        let ghost pv2 = part@;
        on_parts.push(part);
        proof {
            assert(strs_view(on_parts@) =~= strs_view(prev).push(pv2));
        }
        k += 1;
    }
    // update assignments for non-key columns
    let ghost colsv = strs_view(columns@);
    let mut update_parts: Vec<String> = Vec::new();
    let mut u: usize = 0;
    proof {
        assert(colsv.subrange(0, colsv.len() as int) =~= colsv);
        assert(strs_view(update_parts@) + spec_update_parts(
            colsv.subrange(0, colsv.len() as int),
            mc,
        ) =~= spec_update_parts(colsv, mc));
    }
    while u < columns.len()
        invariant
            mc == strs_view(match_cols@),
            mc.len() == match_cols@.len(),
            forall|j: int| 0 <= j < mc.len() ==> mc[j] == match_cols@[j]@,
            colsv == strs_view(columns@),
            colsv.len() == columns@.len(),
            u <= columns@.len(),
            spec_update_parts(colsv, mc) == strs_view(update_parts@) + spec_update_parts(
                colsv.subrange(u as int, colsv.len() as int),
                mc,
            ),
        decreases columns.len() - u,
    {
        let ghost rest = colsv.subrange(u as int, colsv.len() as int);
        proof {
            assert(rest[0] == colsv[u as int]);
            assert(colsv[u as int] == columns@[u as int]@);
            assert(rest.subrange(1, rest.len() as int) =~= colsv.subrange(
                u + 1,
                colsv.len() as int,
            ));
        }
        let mut found = false;
        let mut m: usize = 0;
        while m < match_cols.len()
            invariant
                mc == strs_view(match_cols@),
                mc.len() == match_cols@.len(),
                forall|j: int| 0 <= j < mc.len() ==> mc[j] == match_cols@[j]@,
                u < columns@.len(),
                colsv == strs_view(columns@),
                colsv.len() == columns@.len(),
                m <= match_cols@.len(),
                found == exists|j: int| 0 <= j < m && text::eq_ci(#[trigger] mc[j], colsv[u as int]),
            decreases match_cols.len() - m,
        {
            if text::eq_ignore_case(match_cols[m].as_str(), columns[u].as_str()) {
                proof {
                    assert(text::eq_ci(mc[m as int], colsv[u as int]));
                }
                found = true;
            }
            m += 1;
        }
        proof {
            assert(found == in_match_cols(mc, colsv[u as int]));
        }
        if !found {
            let b = bracket(columns[u].as_str());
            let mut part = String::new();
            part.append("target.");
            part.append(b.as_str());
            part.append(" = source.");
            part.append(b.as_str());
            let ghost prev = update_parts@;
            let ghost pv2 = part@;
            update_parts.push(part);
            proof {
                assert(strs_view(update_parts@) =~= strs_view(prev).push(pv2));
                assert((strs_view(prev) + seq![pv2]) + spec_update_parts(
                    colsv.subrange(u + 1, colsv.len() as int),
                    mc,
                ) =~= strs_view(prev) + (seq![pv2] + spec_update_parts(
                    colsv.subrange(u + 1, colsv.len() as int),
                    mc,
                )));
            }
        }
        u += 1;
    }
    proof {
        assert(colsv.subrange(u as int, colsv.len() as int) =~= Seq::<Seq<char>>::empty());
        assert(strs_view(update_parts@) + Seq::<Seq<char>>::empty() =~= strs_view(update_parts@));
    }
    // source.[c] values
    let mut vals: Vec<String> = Vec::new();
    let mut v: usize = 0;
    while v < columns.len()
        invariant
            v <= columns@.len(),
            vals@.len() == v,
            forall|j: int|
                0 <= j < v ==> strs_view(vals@)[j] == "source."@ + spec_bracket(columns@[j]@),
        decreases columns.len() - v,
    {
        let b = bracket(columns[v].as_str());
        let mut part = String::new();
        part.append("source.");
        part.append(b.as_str());
        let ghost prev = vals@;
        let ghost pv2 = part@;
        vals.push(part);
        proof {
            assert(strs_view(vals@) =~= strs_view(prev).push(pv2));
        }
        v += 1;
    }
    let col_brackets = bracket_names(columns);
    let col_list = join_strings(&col_brackets, ", ");
    let output_parts = prefixed_cols(table, "inserted.");
    let output_list = join_strings(&output_parts, ", ");
    let source_sel_joined = join_strings(&source_sel, ", ");
    let on_joined = join_strings(&on_parts, " AND ");
    let vals_joined = join_strings(&vals, ", ");
    let mut sql = String::new();
    sql.append("MERGE ");
    let full = table.full_name();
    sql.append(full.as_str());
    sql.append(" AS target USING (SELECT ");
    sql.append(source_sel_joined.as_str());
    sql.append(") AS source (");
    sql.append(col_list.as_str());
    sql.append(") ON ");
    sql.append(on_joined.as_str());
    sql.append(" ");
    if update_parts.len() > 0 {
        let update_joined = join_strings(&update_parts, ", ");
        sql.append("WHEN MATCHED THEN UPDATE SET ");
        sql.append(update_joined.as_str());
        sql.append(" ");
    }
    sql.append("WHEN NOT MATCHED THEN INSERT (");
    sql.append(col_list.as_str());
    sql.append(") VALUES (");
    sql.append(vals_joined.as_str());
    sql.append(") OUTPUT ");
    sql.append(output_list.as_str());
    sql.append(";");
    proof {
        assert(strs_view(source_sel@) =~= Seq::new(
            colsv.len(),
            |i: int| spec_param(i + 1) + " AS "@ + spec_bracket(colsv[i]),
        ));
        assert(strs_view(on_parts@) =~= Seq::new(
            mc.len(),
            |i: int| "target."@ + spec_bracket(mc[i]) + " = source."@ + spec_bracket(mc[i]),
        ));
        assert(strs_view(vals@) =~= Seq::new(
            colsv.len(),
            |i: int| "source."@ + spec_bracket(colsv[i]),
        ));
        assert(sql@ =~= spec_build_upsert(table@, colsv)->0);
    }
    Ok(BuiltQuery { sql, params: Vec::new() })
}

/// Model of `build_update`: SET assignments bound first, the WHERE
/// clause's parameters after them.
pub open spec fn spec_build_update(t: TableV, cols: Seq<Seq<char>>, nodes: Seq<NodeV>) -> Option<
    (Seq<char>, Seq<Seq<char>>),
> {
    if cols.len() == 0 {
        None
    } else {
        let set_parts = Seq::new(
            cols.len(),
            |i: int| spec_bracket(cols[i]) + " = @P"@ + num::dec_rep(i + 1),
        );
        let base_sql = "UPDATE "@ + crate::schema::spec_full_name(t) + " SET "@ + spec_join(
            set_parts,
            ", "@,
        ) + " OUTPUT "@ + spec_join(spec_prefixed_cols(t.columns, "inserted."@), ", "@);
        match (if nodes.len() > 0 {
            spec_where_sql(nodes, cols.len() as int)
        } else {
            Some((Seq::<char>::empty(), Seq::<Seq<char>>::empty()))
        }) {
            None => None,
            Some((ws, ps)) => Some(
                (
                    if nodes.len() > 0 && ws.len() > 0 {
                        base_sql + " WHERE "@ + ws
                    } else {
                        base_sql
                    },
                    ps,
                ),
            ),
        }
    }
}

/// Builds an UPDATE statement. The SET parameters occupy the first
/// ordinals; the returned parameters are those of the WHERE clause,
/// whose ordinals continue after the SET ones. Fails with a bad-request
/// error exactly when no columns are given or the filter tree is bad.
pub fn build_update(table: &TableInfo, columns: &Vec<String>, filters: &Vec<FilterNode>) -> (r:
    Result<BuiltQuery, Error>)
    requires
        columns@.len() + nodes_param_count(nodes_view(filters@)) <= usize::MAX,
    ensures
        match spec_build_update(table@, strs_view(columns@), nodes_view(filters@)) {
            Some(pair) => r matches Ok(b) && b.sql@ == pair.0 && strs_view(b.params@) == pair.1,
            None => r is Err && (r matches Err(e) && e is BadRequest),
        },
{
    if columns.len() == 0 {
        return Err(Error::BadRequest("No columns to update".to_owned()));
    }
    let mut params: Vec<String> = Vec::new();
    let mut set_parts: Vec<String> = Vec::new();
    let mut i: usize = 0;
    while i < columns.len()
        invariant
            i <= columns@.len(),
            columns@.len() + nodes_param_count(nodes_view(filters@)) <= usize::MAX,
            set_parts@.len() == i,
            forall|j: int|
                0 <= j < i ==> strs_view(set_parts@)[j] == spec_bracket(columns@[j]@) + " = @P"@
                    + num::dec_rep(j + 1),
        decreases columns.len() - i,
    {
        proof {
            lemma_nodes_count_nonneg(nodes_view(filters@));
        }
        let mut part = bracket(columns[i].as_str());
        part.append(" = @P");
        let num_str = num::usize_to_string(i + 1);
        part.append(num_str.as_str());
        let ghost prev = set_parts@;
        let ghost pv2 = part@;
        set_parts.push(part);
        proof {
            assert(strs_view(set_parts@) =~= strs_view(prev).push(pv2));
        }
        i += 1;
    }
    let param_offset = columns.len();
    let output_parts = prefixed_cols(table, "inserted.");
    let output_list = join_strings(&output_parts, ", ");
    let set_joined = join_strings(&set_parts, ", ");
    let mut sql = String::new();
    sql.append("UPDATE ");
    let full = table.full_name();
    sql.append(full.as_str());
    sql.append(" SET ");
    sql.append(set_joined.as_str());
    sql.append(" OUTPUT ");
    sql.append(output_list.as_str());
    if filters.len() > 0 {
        let where_clause = match build_where_clause_with_offset(filters, &mut params, param_offset) {
            Ok(w) => w,
            Err(e) => {
                return Err(e);
            },
        };
        if !where_clause.as_str().is_empty() {
            sql.append(" WHERE ");
            sql.append(where_clause.as_str());
        } else {
            proof {
                assert(where_clause@ =~= Seq::<char>::empty());
            }
        }
    } else {
        proof {
            assert(nodes_view(filters@) =~= Seq::<NodeV>::empty());
            assert(strs_view(params@) =~= Seq::<Seq<char>>::empty());
        }
    }
    proof {
        assert(strs_view(set_parts@) =~= Seq::new(
            strs_view(columns@).len(),
            |i: int| spec_bracket(strs_view(columns@)[i]) + " = @P"@ + num::dec_rep(i + 1),
        ));
        match spec_build_update(table@, strs_view(columns@), nodes_view(filters@)) {
            Some(pair) => {
                assert(sql@ =~= pair.0);
            },
            None => {},
        }
    }
    Ok(BuiltQuery { sql, params })
}

/// Model of `build_delete`.
pub open spec fn spec_build_delete(t: TableV, nodes: Seq<NodeV>) -> Option<
    (Seq<char>, Seq<Seq<char>>),
> {
    let base_sql = "DELETE FROM "@ + crate::schema::spec_full_name(t) + " OUTPUT "@ + spec_join(
        spec_prefixed_cols(t.columns, "deleted."@),
        ", "@,
    );
    match (if nodes.len() > 0 {
        spec_where_sql(nodes, 0)
    } else {
        Some((Seq::<char>::empty(), Seq::<Seq<char>>::empty()))
    }) {
        None => None,
        Some((ws, ps)) => Some(
            (
                if nodes.len() > 0 && ws.len() > 0 {
                    base_sql + " WHERE "@ + ws
                } else {
                    base_sql
                },
                ps,
            ),
        ),
    }
}

/// Builds a DELETE statement with an OUTPUT clause over every catalog
/// column. Without filters it deletes every row. Fails with a
/// bad-request error exactly when the filter tree is bad.
pub fn build_delete(table: &TableInfo, filters: &Vec<FilterNode>) -> (r: Result<BuiltQuery, Error>)
    requires
        nodes_param_count(nodes_view(filters@)) <= usize::MAX,
    ensures
        match spec_build_delete(table@, nodes_view(filters@)) {
            Some(pair) => r matches Ok(b) && b.sql@ == pair.0 && strs_view(b.params@) == pair.1,
            None => r is Err && (r matches Err(e) && e is BadRequest),
        },
{
    let mut params: Vec<String> = Vec::new();
    let output_parts = prefixed_cols(table, "deleted.");
    let output_list = join_strings(&output_parts, ", ");
    let mut sql = String::new();
    sql.append("DELETE FROM ");
    let full = table.full_name();
    sql.append(full.as_str());
    sql.append(" OUTPUT ");
    sql.append(output_list.as_str());
    if filters.len() > 0 {
        let where_clause = match build_where_clause(filters, &mut params) {
            Ok(w) => w,
            Err(e) => {
                return Err(e);
            },
        };
        if !where_clause.as_str().is_empty() {
            sql.append(" WHERE ");
            sql.append(where_clause.as_str());
        } else {
            proof {
                assert(where_clause@ =~= Seq::<char>::empty());
            }
        }
    } else {
        proof {
            assert(nodes_view(filters@) =~= Seq::<NodeV>::empty());
            assert(strs_view(params@) =~= Seq::<Seq<char>>::empty());
        }
    }
    proof {
        match spec_build_delete(table@, nodes_view(filters@)) {
            Some(pair) => {
                assert(sql@ =~= pair.0);
            },
            None => {},
        }
    }
    Ok(BuiltQuery { sql, params })
}

/// Model of `build_call`: a procedure invocation with one named
/// argument per body key, bound as consecutive ordinals. The procedure
/// name has quotes and closing brackets doubled; argument names have
/// closing brackets doubled.
pub open spec fn spec_build_call(proc: Seq<char>, names: Seq<Seq<char>>) -> Seq<char> {
    let sp = spec_escape_ident(crate::auth::spec_escape_squote(proc));
    if names.len() == 0 {
        "EXEC ["@ + sp + "]"@
    } else {
        "EXEC ["@ + sp + "] "@ + spec_join(
            Seq::new(
                names.len(),
                |i: int| "@"@ + spec_escape_ident(names[i]) + " = "@ + spec_param(i + 1),
            ),
            ", "@,
        )
    }
}

/// Builds a stored-procedure invocation with named arguments bound as
/// ordinal parameters, in the order the names are given.
pub fn build_call(proc: &str, arg_names: &Vec<String>) -> (r: BuiltQuery)
    requires
        arg_names@.len() < usize::MAX,
    ensures
        r.sql@ == spec_build_call(proc@, strs_view(arg_names@)),
        r.params@.len() == 0,
{
    let unquoted = crate::auth::escape_literal(proc);
    let safe_proc = escape_ident(unquoted.as_str());
    let mut sql = String::new();
    sql.append("EXEC [");
    sql.append(safe_proc.as_str());
    if arg_names.len() == 0 {
        sql.append("]");
        proof {
            assert(sql@ =~= spec_build_call(proc@, strs_view(arg_names@)));
        }
        return BuiltQuery { sql, params: Vec::new() };
    }
    sql.append("] ");
    let mut parts: Vec<String> = Vec::new();
    let mut i: usize = 0;
    while i < arg_names.len()
        invariant
            i <= arg_names@.len(),
            arg_names@.len() < usize::MAX,
            parts@.len() == i,
            forall|j: int|
                0 <= j < i ==> strs_view(parts@)[j] == "@"@ + spec_escape_ident(arg_names@[j]@)
                    + " = "@ + spec_param(j + 1),
        decreases arg_names.len() - i,
    {
        let mut part = String::new();
        part.append("@");
        let key = escape_ident(arg_names[i].as_str());
        part.append(key.as_str());
        part.append(" = ");
        let ph = param_str(i + 1);
        part.append(ph.as_str());
        let ghost prev = parts@;
        let ghost pv2 = part@;
        parts.push(part);
        proof {
            assert(strs_view(parts@) =~= strs_view(prev).push(pv2));
        }
        i += 1;
    }
    let joined = join_strings(&parts, ", ");
    sql.append(joined.as_str());
    proof {
        assert(strs_view(parts@) =~= Seq::new(
            strs_view(arg_names@).len(),
            |j: int| "@"@ + spec_escape_ident(strs_view(arg_names@)[j]) + " = "@ + spec_param(
                j + 1,
            ),
        ));
        assert(sql@ =~= spec_build_call(proc@, strs_view(arg_names@)));
    }
    BuiltQuery { sql, params: Vec::new() }
}

} // verus!
