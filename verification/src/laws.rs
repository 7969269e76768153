//! The general properties the library states of itself, proved over
//! the same models its contracts use.

use vstd::prelude::*;
use crate::filters::NodeV;
use crate::query::{self, OrderV, spec_build_select, spec_where_sql, spec_page_clause, spec_order_clause, nodes_param_count, spec_bracket, spec_join, lemma_nodes_sql_params_pub};
use crate::schema::TableV;
use crate::select::SelV;
use crate::text;

verus! {

/// A WHERE clause binds exactly one parameter per literal leaf of its
/// filter tree: the parameter list of a generated clause has one entry
/// for each single literal and each element of each `in` list.
pub proof fn lemma_one_param_per_leaf(nodes: Seq<NodeV>, base: int)
    ensures
        match spec_where_sql(nodes, base) {
            Some(pair) => pair.1.len() == nodes_param_count(nodes),
            None => true,
        },
{
    lemma_nodes_sql_params_pub(nodes, base);
}

/// Generation is a function of the parsed artifacts alone: two results
/// that both meet `build_select`'s contract on the same inputs carry
/// the same statement and the same parameter vector.
pub proof fn lemma_build_select_repeatable(
    t: TableV,
    sels: Seq<SelV>,
    nodes: Seq<NodeV>,
    orders: Seq<OrderV>,
    limit: Option<int>,
    offset: Option<int>,
    count_only: bool,
    first: (Seq<char>, Seq<Seq<char>>),
    second: (Seq<char>, Seq<Seq<char>>),
)
    requires
        spec_build_select(t, sels, nodes, orders, limit, offset, count_only) == Some(first),
        spec_build_select(t, sels, nodes, orders, limit, offset, count_only) == Some(second),
    ensures
        first == second,
{
}

/// A paginated query without an explicit order is given one: when the
/// table has a primary key, the generated statement orders by it; with
/// no key, by `(SELECT NULL)`. Either way the result order is fixed.
pub proof fn lemma_default_order_when_paginated(
    t: TableV,
    limit: Option<int>,
    offset: Option<int>,
)
    requires
        limit is Some || offset is Some,
    ensures
        t.primary_key.len() > 0 ==> spec_order_clause(t, Seq::empty(), limit, offset)
            == " ORDER BY "@ + spec_join(
            Seq::new(t.primary_key.len(), |i: int| spec_bracket(t.primary_key[i]) + " ASC"@),
            ", "@,
        ),
        t.primary_key.len() == 0 ==> spec_order_clause(t, Seq::empty(), limit, offset)
            == " ORDER BY (SELECT NULL)"@,
{
}

/// An explicit order alone adds no pagination: without `limit` and
/// `offset` the pagination fragment is empty, so no `OFFSET 0 ROWS`
/// is appended, and the statement ends with its ordering.
pub proof fn lemma_order_without_pagination(
    t: TableV,
    sels: Seq<SelV>,
    nodes: Seq<NodeV>,
    orders: Seq<OrderV>,
)
    ensures
        spec_page_clause(None, None) == Seq::<char>::empty(),
        match spec_build_select(t, sels, nodes, orders, None, None, false) {
            Some(pair) => {
                let cols = query::spec_column_list(t, sels);
                let base_sql = "SELECT "@ + cols + " FROM "@ + crate::schema::spec_full_name(t);
                match (if nodes.len() > 0 {
                    spec_where_sql(nodes, 0)
                } else {
                    Some((Seq::<char>::empty(), Seq::<Seq<char>>::empty()))
                }) {
                    Some(w) => pair.0 == (if nodes.len() > 0 && w.0.len() > 0 {
                        base_sql + " WHERE "@ + w.0
                    } else {
                        base_sql
                    }) + spec_order_clause(t, orders, None, None),
                    None => false,
                }
            },
            None => true,
        },
{
    assert(spec_page_clause(None, None) =~= Seq::<char>::empty());
    match spec_build_select(t, sels, nodes, orders, None, None, false) {
        Some(pair) => {
            let cols = query::spec_column_list(t, sels);
            let base_sql = "SELECT "@ + cols + " FROM "@ + crate::schema::spec_full_name(t);
            match (if nodes.len() > 0 {
                spec_where_sql(nodes, 0)
            } else {
                Some((Seq::<char>::empty(), Seq::<Seq<char>>::empty()))
            }) {
                Some(w) => {
                    let sql1 = if nodes.len() > 0 && w.0.len() > 0 {
                        base_sql + " WHERE "@ + w.0
                    } else {
                        base_sql
                    };
                    assert(pair.0 =~= sql1 + spec_order_clause(t, orders, None, None));
                },
                None => {},
            }
        },
        None => {},
    }
}

/// An upsert never rewrites its match columns: every `UPDATE SET`
/// assignment of the generated MERGE belongs to a column that is not
/// among the key columns it matches on, so the matched key is left
/// unchanged.
pub proof fn lemma_upsert_preserves_match_columns(cols: Seq<Seq<char>>, mc: Seq<Seq<char>>)
    ensures
        forall|i: int|
            0 <= i < query::spec_update_parts(cols, mc).len() ==> exists|j: int|
                0 <= j < cols.len() && !query::in_match_cols(mc, cols[j]) && (
                #[trigger] query::spec_update_parts(cols, mc)[i]) == "target."@ + spec_bracket(
                    cols[j],
                ) + " = source."@ + spec_bracket(cols[j]),
    decreases cols.len(),
{
    if cols.len() > 0 {
        let tail = cols.subrange(1, cols.len() as int);
        lemma_upsert_preserves_match_columns(tail, mc);
        let whole = query::spec_update_parts(cols, mc);
        let rest = query::spec_update_parts(tail, mc);
        assert forall|i: int| 0 <= i < whole.len() implies exists|j: int|
            0 <= j < cols.len() && !query::in_match_cols(mc, cols[j]) && (#[trigger] whole[i])
                == "target."@ + spec_bracket(cols[j]) + " = source."@ + spec_bracket(
                cols[j],
            ) by {
            if !query::in_match_cols(mc, cols[0]) {
                if i == 0 {
                    assert(whole[0] == "target."@ + spec_bracket(cols[0]) + " = source."@
                        + spec_bracket(cols[0]));
                } else {
                    assert(whole[i] == rest[i - 1]);
                    let j0 = choose|j: int|
                        0 <= j < tail.len() && !query::in_match_cols(mc, tail[j]) && rest[i - 1]
                            == "target."@ + spec_bracket(tail[j]) + " = source."@ + spec_bracket(
                            tail[j],
                        );
                    assert(tail[j0] == cols[j0 + 1]);
                }
            } else {
                assert(whole[i] == rest[i]);
                let j0 = choose|j: int|
                    0 <= j < tail.len() && !query::in_match_cols(mc, tail[j]) && rest[i]
                        == "target."@ + spec_bracket(tail[j]) + " = source."@ + spec_bracket(
                        tail[j],
                    );
                assert(tail[j0] == cols[j0 + 1]);
            }
        }
    }
}

/// The upper-case `IS` operand is read exactly like the lower-case
/// one: `is.NULL` and `is.null` produce the same predicate.
pub proof fn lemma_is_operand_case_insensitive(
    f1: crate::filters::FilterV,
    f2: crate::filters::FilterV,
    base: int,
)
    requires
        f1.operator == crate::filters::FilterOp::Is,
        f2.operator == crate::filters::FilterOp::Is,
        f1.column == f2.column,
        f1.negated == f2.negated,
        ({
            match (query::single_value(f1.value), query::single_value(f2.value)) {
                (Some(a), Some(b)) => text::eq_ci(a, b),
                _ => false,
            }
        }),
    ensures
        query::spec_cond_sql(f1, base) == query::spec_cond_sql(f2, base),
{
    let a = query::single_value(f1.value)->0;
    let b = query::single_value(f2.value)->0;
    lemma_eq_ci_trans(a, b, "null"@);
    lemma_eq_ci_trans(a, b, "true"@);
    lemma_eq_ci_trans(a, b, "false"@);
}

/// Case-insensitive equality is carried across equal operands.
proof fn lemma_eq_ci_trans(a: Seq<char>, b: Seq<char>, target: Seq<char>)
    requires
        text::eq_ci(a, b),
    ensures
        text::eq_ci(a, target) == text::eq_ci(b, target),
{
}

/// The textual half of negation, for every operator except `is`: the
/// negated condition's SQL is exactly `NOT ` before the plain one's,
/// with identical parameters.
#[verifier::rlimit(100)]
pub proof fn lemma_negation_not_prefix(f: crate::filters::FilterV, base: int)
    requires
        f.operator != crate::filters::FilterOp::Is,
    ensures
        match (
            query::spec_cond_sql(crate::filters::FilterV { negated: true, ..f }, base),
            query::spec_cond_sql(crate::filters::FilterV { negated: false, ..f }, base),
        ) {
            (Some(n), Some(p)) => n.0 == "NOT "@ + p.0 && n.1 == p.1,
            (None, None) => true,
            _ => false,
        },
{
    reveal_strlit("");
    reveal_strlit("NOT ");
    assert(""@.len() == 0);
    let neg = crate::filters::FilterV { negated: true, ..f };
    let pos = crate::filters::FilterV { negated: false, ..f };
    match (query::spec_cond_sql(neg, base), query::spec_cond_sql(pos, base)) {
        (Some(n), Some(p)) => {
            assert(n.0 =~= "NOT "@ + p.0);
        },
        _ => {},
    }
}

/// The textual half of negation for `is`: the predicate is flipped
/// (`IS NULL` against `IS NOT NULL`, `= 1` against `<> 1`, `= 0`
/// against `<> 0`), binding no parameter either way.
#[verifier::rlimit(100)]
pub proof fn lemma_negation_is_flip(f: crate::filters::FilterV, base: int)
    requires
        f.operator == crate::filters::FilterOp::Is,
    ensures
        match (
            query::spec_cond_sql(crate::filters::FilterV { negated: true, ..f }, base),
            query::spec_cond_sql(crate::filters::FilterV { negated: false, ..f }, base),
        ) {
            (Some(n), Some(p)) => n.1 == p.1 && n.1 == Seq::<Seq<char>>::empty() && ({
                let col = query::spec_bracket(f.column);
                (p.0 == col + " IS NULL"@ && n.0 == col + " IS NOT NULL"@) || (p.0 == col
                    + " = 1"@ && n.0 == col + " <> 1"@) || (p.0 == col + " = 0"@ && n.0 == col
                    + " <> 0"@)
            }),
            (None, None) => true,
            _ => false,
        },
{
}

/// The empty-list membership policy: `in.()` generates a predicate
/// that never holds (`(1=0)`, negated `NOT (1=0)`) and binds no
/// parameter.
pub proof fn lemma_empty_in_rewrite(f: crate::filters::FilterV, base: int)
    requires
        f.operator == crate::filters::FilterOp::In,
        f.value == crate::filters::ValueV::ListV(Seq::<Seq<char>>::empty()),
    ensures
        query::spec_cond_sql(f, base) == Some(
            (query::not_prefix(f.negated) + "(1=0)"@, Seq::<Seq<char>>::empty()),
        ),
{
}

/// Two filter values of the same shape: the same arity, and for `is`
/// the same operand class, so that only parameter content differs.
pub open spec fn same_shape_cond(a: crate::filters::FilterV, b: crate::filters::FilterV) -> bool {
    a.column == b.column && a.operator == b.operator && a.negated == b.negated && (match (
        a.value,
        b.value,
    ) {
        (crate::filters::ValueV::SingleV(_), crate::filters::ValueV::SingleV(_)) => true,
        (crate::filters::ValueV::ListV(x), crate::filters::ValueV::ListV(y)) => x.len() == y.len(),
        _ => false,
    }) && (a.operator == crate::filters::FilterOp::Is ==> (match (
        query::single_value(a.value),
        query::single_value(b.value),
    ) {
        (Some(x), Some(y)) => is_class(x) == is_class(y),
        (None, None) => true,
        _ => false,
    }))
}

/// The `is` operand class: null, true, false, or invalid.
pub open spec fn is_class(v: Seq<char>) -> int {
    if text::eq_ci(v, "null"@) {
        0
    } else if text::eq_ci(v, "true"@) {
        1
    } else if text::eq_ci(v, "false"@) {
        2
    } else {
        3
    }
}

/// Two filter trees of the same shape: equal structure, columns,
/// operators and negations, differing only in the bound literals.
pub open spec fn same_shape_node(a: NodeV, b: NodeV) -> bool
    decreases a, 0int,
{
    match (a, b) {
        (NodeV::CondV(x), NodeV::CondV(y)) => same_shape_cond(x, y),
        (NodeV::AndV(xs), NodeV::AndV(ys)) => same_shape_nodes(xs, ys),
        (NodeV::OrV(xs), NodeV::OrV(ys)) => same_shape_nodes(xs, ys),
        _ => false,
    }
}

pub open spec fn same_shape_nodes(a: Seq<NodeV>, b: Seq<NodeV>) -> bool
    decreases a, a.len(),
{
    if a.len() == 0 {
        b.len() == 0
    } else {
        b.len() > 0 && same_shape_node(a[0], b[0]) && same_shape_nodes(
            a.subrange(1, a.len() as int),
            b.subrange(1, b.len() as int),
        )
    }
}

/// Literal values reach the statement only through the parameter
/// vector: two trees of the same shape generate the same SQL text, the
/// same clause list, and parameter vectors of the same length, at any
/// base. Every identifier in the text therefore comes from the tree's
/// columns, never from a bound value.
pub proof fn lemma_values_only_in_params(a: NodeV, b: NodeV, base: int)
    requires
        same_shape_node(a, b),
    ensures
        match (query::spec_node_sql(a, base), query::spec_node_sql(b, base)) {
            (Some(x), Some(y)) => x.0 == y.0 && x.1.len() == y.1.len(),
            (None, None) => true,
            _ => false,
        },
    decreases a, 0int,
{
    match (a, b) {
        (NodeV::CondV(x), NodeV::CondV(y)) => {
            match (query::single_value(x.value), query::single_value(y.value)) {
                _ => {},
            }
        },
        (NodeV::AndV(xs), NodeV::AndV(ys)) => {
            lemma_values_only_in_params_nodes(xs, ys, base);
        },
        (NodeV::OrV(xs), NodeV::OrV(ys)) => {
            lemma_values_only_in_params_nodes(xs, ys, base);
        },
        _ => {},
    }
}

pub proof fn lemma_values_only_in_params_nodes(a: Seq<NodeV>, b: Seq<NodeV>, base: int)
    requires
        same_shape_nodes(a, b),
    ensures
        match (query::spec_nodes_sql(a, base), query::spec_nodes_sql(b, base)) {
            (Some(x), Some(y)) => x.0 == y.0 && x.1.len() == y.1.len(),
            (None, None) => true,
            _ => false,
        },
    decreases a, a.len(),
{
    if a.len() > 0 {
        lemma_values_only_in_params(a[0], b[0], base);
        match (query::spec_node_sql(a[0], base), query::spec_node_sql(b[0], base)) {
            (Some(x), Some(y)) => {
                lemma_values_only_in_params_nodes(
                    a.subrange(1, a.len() as int),
                    b.subrange(1, b.len() as int),
                    base + x.1.len(),
                );
            },
            _ => {},
        }
    }
}

/// The WHERE clause form of the value-independence law.
pub proof fn lemma_where_values_only_in_params(a: Seq<NodeV>, b: Seq<NodeV>, base: int)
    requires
        same_shape_nodes(a, b),
    ensures
        match (spec_where_sql(a, base), spec_where_sql(b, base)) {
            (Some(x), Some(y)) => x.0 == y.0 && x.1.len() == y.1.len(),
            (None, None) => true,
            _ => false,
        },
{
    lemma_values_only_in_params_nodes(a, b, base);
}

} // verus!
