//! Column-filter grammar: `op.value` expressions (with optional `not.`
//! negation and `in.(...)` lists) and `or=(...)` / `and=(...)` logic
//! groups with parenthesis-aware splitting and unbounded nesting.

use vstd::prelude::*;
use crate::error::Error;
use crate::text;

verus! {

/// Filter operators.
#[derive(Debug, Clone, Copy, PartialEq, Eq, Structural)]
pub enum FilterOp {
    Eq,
    Gt,
    Gte,
    Lt,
    Lte,
    Neq,
    Like,
    Ilike,
    In,
    Is,
    Fts,
}

/// Filter value: a single literal or a literal list.
#[derive(Debug, Clone)]
pub enum FilterValue {
    Single(String),
    List(Vec<String>),
}

/// A single filter condition.
#[derive(Debug, Clone)]
pub struct Filter {
    pub column: String,
    pub operator: FilterOp,
    pub value: FilterValue,
    pub negated: bool,
}

/// A filter tree: a condition, or a group combined with AND or OR.
#[derive(Debug)]
pub enum FilterNode {
    Condition(Filter),
    And(Vec<FilterNode>),
    Or(Vec<FilterNode>),
}

/// Mathematical model of a filter value.
pub enum ValueV {
    SingleV(Seq<char>),
    ListV(Seq<Seq<char>>),
}

/// Mathematical model of a condition.
pub struct FilterV {
    pub column: Seq<char>,
    pub operator: FilterOp,
    pub value: ValueV,
    pub negated: bool,
}

/// Mathematical model of a filter tree.
pub enum NodeV {
    CondV(FilterV),
    AndV(Seq<NodeV>),
    OrV(Seq<NodeV>),
}

impl View for FilterValue {
    type V = ValueV;

    open spec fn view(&self) -> ValueV {
        match self {
            FilterValue::Single(s) => ValueV::SingleV(s@),
            FilterValue::List(v) => ValueV::ListV(v@.map_values(|s: String| s@)),
        }
    }
}

impl View for Filter {
    type V = FilterV;

    open spec fn view(&self) -> FilterV {
        FilterV {
            column: self.column@,
            operator: self.operator,
            value: self.value@,
            negated: self.negated,
        }
    }
}

/// Model of one filter node.
pub open spec fn node_view(n: FilterNode) -> NodeV
    decreases n,
{
    match n {
        FilterNode::Condition(f) => NodeV::CondV(f@),
        FilterNode::And(v) => NodeV::AndV(nodes_view(v@)),
        FilterNode::Or(v) => NodeV::OrV(nodes_view(v@)),
    }
}

/// Model of a sequence of filter nodes.
pub open spec fn nodes_view(s: Seq<FilterNode>) -> Seq<NodeV>
    decreases s,
{
    if s.len() == 0 {
        Seq::empty()
    } else {
        seq![node_view(s[0])] + nodes_view(s.subrange(1, s.len() as int))
    }
}

impl View for FilterNode {
    type V = NodeV;

    open spec fn view(&self) -> NodeV {
        node_view(*self)
    }
}

/// Every `*` in a pattern becomes the SQL wildcard `%`.
pub open spec fn spec_replace_stars(s: Seq<char>) -> Seq<char> {
    Seq::new(
        s.len(),
        |i: int|
            if s[i] == '*' {
                '%'
            } else {
                s[i]
            },
    )
}

/// Rewrites glob-style `*` wildcards to the SQL `%` wildcard.
pub fn replace_stars(s: &str) -> (r: String)
    ensures
        r@ == spec_replace_stars(s@),
{
    let sl = s.unicode_len();
    let mut out = String::new();
    let mut i: usize = 0;
    while i < sl
        invariant
            sl == s@.len(),
            i <= sl,
            out@.len() == i,
            forall|j: int|
                0 <= j < i ==> out@[j] == (if s@[j] == '*' {
                    '%'
                } else {
                    s@[j]
                }),
        decreases sl - i,
    {
        let c = s.get_char(i);
        if c == '*' {
            out.append("%");
            proof {
                reveal_strlit("%");
            }
        } else {
            let tmp = s.substring_char(i, i + 1);
            out.append(tmp);
            proof {
                assert(s@.subrange(i as int, i + 1) =~= seq![s@[i as int]]);
            }
        }
        i += 1;
    }
    proof {
        assert(out@ =~= spec_replace_stars(s@));
    }
    out
}

/// The items of a parenthesized comma-separated list: pieces are
/// trimmed and empty pieces are dropped.
pub open spec fn list_items(parts: Seq<Seq<char>>) -> Seq<Seq<char>>
    decreases parts.len(),
{
    if parts.len() == 0 {
        Seq::empty()
    } else {
        let t = text::spec_trim(parts[0]);
        let rest = list_items(parts.subrange(1, parts.len() as int));
        if t.len() > 0 {
            seq![t] + rest
        } else {
            rest
        }
    }
}

/// Model of `parse_list`: strip outer parentheses after trimming, split
/// on commas, trim the pieces, drop the empty ones.
pub open spec fn spec_parse_list(s: Seq<char>) -> Seq<Seq<char>> {
    list_items(text::spec_split(text::strip_outer_parens(text::spec_trim(s)), ','))
}

/// Parses a parenthesized list `(a,b,c)` into its items.
pub fn parse_list(s: &str) -> (r: Result<Vec<String>, Error>)
    ensures
        r matches Ok(items) && items@.map_values(|p: String| p@) == spec_parse_list(s@),
{
    let trimmed = text::trim(s);
    let inner = text::strip_parens(trimmed.as_str());
    let parts = text::split_char(inner.as_str(), ',');
    let ghost pieces = text::spec_split(inner@, ',');
    let mut items: Vec<String> = Vec::new();
    let mut i: usize = 0;
    proof {
        assert(pieces.subrange(0, pieces.len() as int) =~= pieces);
        assert(items@.map_values(|p: String| p@) =~= Seq::<Seq<char>>::empty());
    }
    while i < parts.len()
        invariant
            parts@.map_values(|p: String| p@) == pieces,
            i <= parts.len(),
            spec_parse_list(s@) == items@.map_values(|p: String| p@) + list_items(
                pieces.subrange(i as int, pieces.len() as int),
            ),
        decreases parts.len() - i,
    {
        let t = text::trim(parts[i].as_str());
        proof {
            let rest = pieces.subrange(i as int, pieces.len() as int);
            assert(rest[0] == pieces[i as int]);
            assert(pieces[i as int] == parts@.map_values(|p: String| p@)[i as int]);
            assert(rest.subrange(1, rest.len() as int) =~= pieces.subrange(
                i + 1,
                pieces.len() as int,
            ));
        }
        if !t.as_str().is_empty() {
            let ghost prev = items@;
            let ghost tv = t@;
            items.push(t);
            proof {
                assert(items@.map_values(|p: String| p@) =~= prev.map_values(|p: String| p@)
                    + seq![tv]);
            }
        }
        i += 1;
    }
    proof {
        assert(pieces.subrange(i as int, pieces.len() as int) =~= Seq::<Seq<char>>::empty());
        assert(items@.map_values(|p: String| p@) =~= items@.map_values(|p: String| p@)
            + Seq::<Seq<char>>::empty());
    }
    Ok(items)
}

/// Model of `parse_filter`: the `op.value` grammar for one column
/// filter. `None` stands for a grammar error.
pub open spec fn spec_parse_filter(column: Seq<char>, expr: Seq<char>) -> Option<FilterV> {
    let negated = text::is_prefix("not."@, expr);
    let rest = if negated {
        expr.subrange(4, expr.len() as int)
    } else {
        expr
    };
    if text::is_prefix("eq."@, rest) {
        Some(
            FilterV {
                column,
                operator: FilterOp::Eq,
                value: ValueV::SingleV(rest.subrange(3, rest.len() as int)),
                negated,
            },
        )
    } else if text::is_prefix("neq."@, rest) {
        Some(
            FilterV {
                column,
                operator: FilterOp::Neq,
                value: ValueV::SingleV(rest.subrange(4, rest.len() as int)),
                negated,
            },
        )
    } else if text::is_prefix("gt."@, rest) {
        Some(
            FilterV {
                column,
                operator: FilterOp::Gt,
                value: ValueV::SingleV(rest.subrange(3, rest.len() as int)),
                negated,
            },
        )
    } else if text::is_prefix("gte."@, rest) {
        Some(
            FilterV {
                column,
                operator: FilterOp::Gte,
                value: ValueV::SingleV(rest.subrange(4, rest.len() as int)),
                negated,
            },
        )
    } else if text::is_prefix("lt."@, rest) {
        Some(
            FilterV {
                column,
                operator: FilterOp::Lt,
                value: ValueV::SingleV(rest.subrange(3, rest.len() as int)),
                negated,
            },
        )
    } else if text::is_prefix("lte."@, rest) {
        Some(
            FilterV {
                column,
                operator: FilterOp::Lte,
                value: ValueV::SingleV(rest.subrange(4, rest.len() as int)),
                negated,
            },
        )
    } else if text::is_prefix("like."@, rest) {
        Some(
            FilterV {
                column,
                operator: FilterOp::Like,
                value: ValueV::SingleV(spec_replace_stars(rest.subrange(5, rest.len() as int))),
                negated,
            },
        )
    } else if text::is_prefix("ilike."@, rest) {
        Some(
            FilterV {
                column,
                operator: FilterOp::Ilike,
                value: ValueV::SingleV(spec_replace_stars(rest.subrange(6, rest.len() as int))),
                negated,
            },
        )
    } else if text::is_prefix("in."@, rest) {
        Some(
            FilterV {
                column,
                operator: FilterOp::In,
                value: ValueV::ListV(spec_parse_list(rest.subrange(3, rest.len() as int))),
                negated,
            },
        )
    } else if text::is_prefix("is."@, rest) {
        Some(
            FilterV {
                column,
                operator: FilterOp::Is,
                value: ValueV::SingleV(rest.subrange(3, rest.len() as int)),
                negated,
            },
        )
    } else if text::is_prefix("fts."@, rest) {
        Some(
            FilterV {
                column,
                operator: FilterOp::Fts,
                value: ValueV::SingleV(rest.subrange(4, rest.len() as int)),
                negated,
            },
        )
    } else {
        None
    }
}

/// Parses a filter expression such as `eq.value`, `not.gt.5` or
/// `in.(a,b,c)` into a condition on `column`. Fails with a bad-request
/// error exactly when no operator prefix matches.
pub fn parse_filter(column: &str, expr: &str) -> (r: Result<Filter, Error>)
    ensures
        match r {
            Ok(f) => spec_parse_filter(column@, expr@) == Some(f@),
            Err(e) => spec_parse_filter(column@, expr@) is None && (e matches Error::BadRequest(m)
                && m@ == "Unknown filter expression: "@ + expr@),
        },
{
    let negated = text::has_prefix(expr, "not.");
    let rest: String = if negated {
        proof {
            reveal_strlit("not.");
        }
        text::suffix_from(expr, 4)
    } else {
        expr.to_owned()
    };
    let col = column.to_owned();
    let rs = rest.as_str();
    if text::has_prefix(rs, "eq.") {
        proof {
            reveal_strlit("eq.");
        }
        let v = text::suffix_from(rs, 3);
        Ok(Filter { column: col, operator: FilterOp::Eq, value: FilterValue::Single(v), negated })
    } else if text::has_prefix(rs, "neq.") {
        proof {
            reveal_strlit("neq.");
        }
        let v = text::suffix_from(rs, 4);
        Ok(Filter { column: col, operator: FilterOp::Neq, value: FilterValue::Single(v), negated })
    } else if text::has_prefix(rs, "gt.") {
        proof {
            reveal_strlit("gt.");
        }
        let v = text::suffix_from(rs, 3);
        Ok(Filter { column: col, operator: FilterOp::Gt, value: FilterValue::Single(v), negated })
    } else if text::has_prefix(rs, "gte.") {
        proof {
            reveal_strlit("gte.");
        }
        let v = text::suffix_from(rs, 4);
        Ok(Filter { column: col, operator: FilterOp::Gte, value: FilterValue::Single(v), negated })
    } else if text::has_prefix(rs, "lt.") {
        proof {
            reveal_strlit("lt.");
        }
        let v = text::suffix_from(rs, 3);
        Ok(Filter { column: col, operator: FilterOp::Lt, value: FilterValue::Single(v), negated })
    } else if text::has_prefix(rs, "lte.") {
        proof {
            reveal_strlit("lte.");
        }
        let v = text::suffix_from(rs, 4);
        Ok(Filter { column: col, operator: FilterOp::Lte, value: FilterValue::Single(v), negated })
    } else if text::has_prefix(rs, "like.") {
        proof {
            reveal_strlit("like.");
        }
        let tail = text::suffix_from(rs, 5);
        let v = replace_stars(tail.as_str());
        Ok(Filter { column: col, operator: FilterOp::Like, value: FilterValue::Single(v), negated })
    } else if text::has_prefix(rs, "ilike.") {
        proof {
            reveal_strlit("ilike.");
        }
        let tail = text::suffix_from(rs, 6);
        let v = replace_stars(tail.as_str());
        Ok(
            Filter {
                column: col,
                operator: FilterOp::Ilike,
                value: FilterValue::Single(v),
                negated,
            },
        )
    } else if text::has_prefix(rs, "in.") {
        proof {
            reveal_strlit("in.");
        }
        let tail = text::suffix_from(rs, 3);
        let items = match parse_list(tail.as_str()) {
            Ok(items) => items,
            Err(e) => {
                return Err(e);
            },
        };
        Ok(Filter { column: col, operator: FilterOp::In, value: FilterValue::List(items), negated })
    } else if text::has_prefix(rs, "is.") {
        proof {
            reveal_strlit("is.");
        }
        let v = text::suffix_from(rs, 3);
        Ok(Filter { column: col, operator: FilterOp::Is, value: FilterValue::Single(v), negated })
    } else if text::has_prefix(rs, "fts.") {
        proof {
            reveal_strlit("fts.");
        }
        let v = text::suffix_from(rs, 4);
        Ok(Filter { column: col, operator: FilterOp::Fts, value: FilterValue::Single(v), negated })
    } else {
        let mut m = String::new();
        m.append("Unknown filter expression: ");
        m.append(expr);
        Err(Error::BadRequest(m))
    }
}

/// A trimmed group piece that opens a nested group: the given keyword
/// followed by a parenthesized body.
pub open spec fn nested_piece(t: Seq<char>, kw: Seq<char>) -> bool {
    text::is_prefix(kw, t) && t.len() > kw.len() && t[kw.len() as int] == '(' && t[t.len() - 1]
        == ')'
}

/// Model of `parse_logic_group`: strip outer parentheses after
/// trimming, split on depth-zero commas, and parse each piece as a
/// nested group or a `column.filter` condition. An error carries the
/// message naming the offending fragment.
pub open spec fn spec_parse_group(expr: Seq<char>) -> Result<Seq<NodeV>, Seq<char>>
    decreases expr.len(), 1int, 0int,
{
    let inner = text::strip_outer_parens(text::spec_trim(expr));
    proof {
        text::lemma_trim_len(expr);
    }
    spec_parse_pieces(text::spec_split_parens(inner), expr.len() as int)
}

/// Parses the pieces of a logic group; `n` bounds every piece's length.
pub open spec fn spec_parse_pieces(pieces: Seq<Seq<char>>, n: int) -> Result<Seq<NodeV>, Seq<char>>
    decreases n, 0int, pieces.len(),
        when n >= 0 && forall|i: int| 0 <= i < pieces.len() ==> (#[trigger] pieces[i]).len() <= n
{
    if pieces.len() == 0 {
        Ok(Seq::empty())
    } else {
        let t = text::spec_trim(pieces[0]);
        proof {
            text::lemma_trim_len(pieces[0]);
            reveal_strlit("or");
            reveal_strlit("and");
        }
        let rest = spec_parse_pieces(pieces.subrange(1, pieces.len() as int), n);
        if t.len() == 0 {
            rest
        } else if nested_piece(t, "or"@) {
            match spec_parse_group(t.subrange(2, t.len() as int)) {
                Ok(children) => match rest {
                    Ok(tail) => Ok(seq![NodeV::OrV(children)] + tail),
                    Err(m) => Err(m),
                },
                Err(m) => Err(m),
            }
        } else if nested_piece(t, "and"@) {
            match spec_parse_group(t.subrange(3, t.len() as int)) {
                Ok(children) => match rest {
                    Ok(tail) => Ok(seq![NodeV::AndV(children)] + tail),
                    Err(m) => Err(m),
                },
                Err(m) => Err(m),
            }
        } else if text::has_char(t, '.') {
            proof {
                text::lemma_has_char_first(t, '.');
            }
            let d = text::first_index(t, '.');
            match spec_parse_filter(t.subrange(0, d), t.subrange(d + 1, t.len() as int)) {
                Some(f) => match rest {
                    Ok(tail) => Ok(seq![NodeV::CondV(f)] + tail),
                    Err(m) => Err(m),
                },
                None => Err(
                    "Unknown filter expression: "@ + t.subrange(d + 1, t.len() as int),
                ),
            }
        } else {
            Err("Invalid filter in group: "@ + t)
        }
    }
}

/// Parses a logic-group expression such as `(a.eq.1,or(b.gt.2,c.lt.3))`
/// into its member nodes. Fails with a bad-request error, naming the
/// offending fragment, exactly when some piece is neither a nested
/// group nor a valid condition.
pub fn parse_logic_group(expr: &str) -> (r: Result<Vec<FilterNode>, Error>)
    ensures
        match r {
            Ok(nodes) => spec_parse_group(expr@) == Ok::<Seq<NodeV>, Seq<char>>(
                nodes_view(nodes@),
            ),
            Err(e) => e matches Error::BadRequest(m) && spec_parse_group(expr@)
                == Err::<Seq<NodeV>, Seq<char>>(m@),
        },
    decreases expr@.len(),
{
    proof {
        text::lemma_trim_len(expr@);
        reveal_strlit("or");
        reveal_strlit("and");
    }
    let trimmed = text::trim(expr);
    let inner = text::strip_parens(trimmed.as_str());
    let parts = text::split_respecting_parens(inner.as_str());
    let ghost pieces = text::spec_split_parens(inner@);
    let ghost n = expr@.len() as int;
    proof {
        text::lemma_split_parens_piece_len(inner@, Seq::<char>::empty(), 0);
        assert(pieces.subrange(0, pieces.len() as int) =~= pieces);
    }
    let mut nodes: Vec<FilterNode> = Vec::new();
    let mut i: usize = 0;
    proof {
        assert(nodes_view(nodes@) =~= Seq::<NodeV>::empty());
    }
    while i < parts.len()
        invariant
            parts@.map_values(|p: String| p@) == pieces,
            i <= parts.len(),
            n == expr@.len() as int,
            forall|k: int| 0 <= k < pieces.len() ==> (#[trigger] pieces[k]).len() <= n,
            match spec_parse_pieces(pieces.subrange(i as int, pieces.len() as int), n) {
                Ok(tail) => spec_parse_group(expr@) == Ok::<Seq<NodeV>, Seq<char>>(
                    nodes_view(nodes@) + tail,
                ),
                Err(m) => spec_parse_group(expr@) == Err::<Seq<NodeV>, Seq<char>>(m),
            },
        decreases parts.len() - i,
    {
        let ghost rest_pieces = pieces.subrange(i as int, pieces.len() as int);
        let ghost rest2 = pieces.subrange(i + 1, pieces.len() as int);
        proof {
            assert(rest_pieces[0] == pieces[i as int]);
            assert(pieces[i as int] == parts@.map_values(|p: String| p@)[i as int]);
            assert(rest_pieces.subrange(1, rest_pieces.len() as int) =~= rest2);
            text::lemma_trim_len(pieces[i as int]);
            assert forall|k: int| 0 <= k < rest_pieces.len() implies (
            #[trigger] rest_pieces[k]).len() <= n by {
                assert(rest_pieces[k] == pieces[i + k]);
            }
        }
        let part = text::trim(parts[i].as_str());
        let pt = part.as_str();
        let ptl = pt.unicode_len();
        proof {
            assert(text::spec_trim(rest_pieces[0]) == part@);
        }
        if ptl == 0 {
            proof {
                assert(spec_parse_pieces(rest_pieces, n) == spec_parse_pieces(rest2, n));
            }
            i += 1;
            continue;
        }
        let node: FilterNode = if text::has_prefix(pt, "or") && ptl > 2 && pt.get_char(2) == '('
            && pt.get_char(ptl - 1) == ')' {
            let sub = text::suffix_from(pt, 2);
            proof {
                reveal_strlit("or");
                assert(nested_piece(part@, "or"@));
            }
            match parse_logic_group(sub.as_str()) {
                Ok(children) => {
                    let built = FilterNode::Or(children);
                    proof {
                        assert(spec_parse_pieces(rest_pieces, n) == (
                        match spec_parse_pieces(rest2, n) {
                            Ok(tail) => Ok::<Seq<NodeV>, Seq<char>>(
                                seq![node_view(built)] + tail,
                            ),
                            Err(m) => Err::<Seq<NodeV>, Seq<char>>(m),
                        }));
                    }
                    built
                },
                Err(e) => {
                    proof {
                        assert(spec_parse_pieces(rest_pieces, n) == spec_parse_group(sub@));
                    }
                    return Err(e);
                },
            }
        } else if text::has_prefix(pt, "and") && ptl > 3 && pt.get_char(3) == '(' && pt.get_char(
            ptl - 1,
        ) == ')' {
            let sub = text::suffix_from(pt, 3);
            proof {
                reveal_strlit("and");
                assert(nested_piece(part@, "and"@));
            }
            match parse_logic_group(sub.as_str()) {
                Ok(children) => {
                    proof {
                        reveal_strlit("or");
                        assert(!nested_piece(part@, "or"@));
                    }
                    let built = FilterNode::And(children);
                    proof {
                        assert(spec_parse_pieces(rest_pieces, n) == (
                        match spec_parse_pieces(rest2, n) {
                            Ok(tail) => Ok::<Seq<NodeV>, Seq<char>>(
                                seq![node_view(built)] + tail,
                            ),
                            Err(m) => Err::<Seq<NodeV>, Seq<char>>(m),
                        }));
                    }
                    built
                },
                Err(e) => {
                    proof {
                        reveal_strlit("or");
                        assert(!nested_piece(part@, "or"@));
                        assert(spec_parse_pieces(rest_pieces, n) == spec_parse_group(sub@));
                    }
                    return Err(e);
                },
            }
        } else {
            proof {
                reveal_strlit("or");
                reveal_strlit("and");
                assert(!nested_piece(part@, "or"@));
                assert(!nested_piece(part@, "and"@));
            }
            match text::find_char(pt, '.') {
                Some(d) => {
                    proof {
                        text::lemma_first_index_agrees(part@, '.', d as int);
                    }
                    let colpart = pt.substring_char(0, d);
                    let rest = text::suffix_from(pt, d + 1);
                    match parse_filter(colpart, rest.as_str()) {
                        Ok(f) => {
                            let built = FilterNode::Condition(f);
                            proof {
                                assert(spec_parse_pieces(rest_pieces, n) == (
                                match spec_parse_pieces(rest2, n) {
                                    Ok(tail) => Ok::<Seq<NodeV>, Seq<char>>(
                                        seq![node_view(built)] + tail,
                                    ),
                                    Err(m) => Err::<Seq<NodeV>, Seq<char>>(m),
                                }));
                            }
                            built
                        },
                        Err(e) => {
                            proof {
                                assert(spec_parse_pieces(rest_pieces, n)
                                    == Err::<Seq<NodeV>, Seq<char>>(
                                    "Unknown filter expression: "@ + rest@,
                                ));
                            }
                            return Err(e);
                        },
                    }
                },
                None => {
                    proof {
                        assert(!text::has_char(part@, '.'));
                        assert(spec_parse_pieces(rest_pieces, n)
                            == Err::<Seq<NodeV>, Seq<char>>(
                            "Invalid filter in group: "@ + part@,
                        ));
                    }
                    let mut m = String::new();
                    m.append("Invalid filter in group: ");
                    m.append(pt);
                    return Err(Error::BadRequest(m));
                },
            }
        };
        let ghost prev = nodes@;
        let ghost nv = node_view(node);
        nodes.push(node);
        proof {
            lemma_nodes_view_push(prev, node);
            assert(nodes@ == prev.push(node));
            match spec_parse_pieces(rest2, n) {
                Ok(tail) => {
                    assert((nodes_view(prev) + seq![nv]) + tail =~= nodes_view(prev) + (seq![nv]
                        + tail));
                },
                Err(_) => {},
            }
        }
        i += 1;
    }
    proof {
        assert(pieces.subrange(i as int, pieces.len() as int) =~= Seq::<Seq<char>>::empty());
        assert(nodes_view(nodes@) + Seq::<NodeV>::empty() =~= nodes_view(nodes@));
    }
    Ok(nodes)
}

/// Appending one node extends the model by that node's view.
pub proof fn lemma_nodes_view_push_pub(s: Seq<FilterNode>, n: FilterNode)
    ensures
        nodes_view(s.push(n)) == nodes_view(s) + seq![node_view(n)],
{
    lemma_nodes_view_push(s, n);
}

/// Appending one node extends the model by that node's view.
proof fn lemma_nodes_view_push(s: Seq<FilterNode>, n: FilterNode)
    ensures
        nodes_view(s.push(n)) == nodes_view(s) + seq![node_view(n)],
    decreases s.len(),
{
    let p = s.push(n);
    if s.len() == 0 {
        assert(p.subrange(1, p.len() as int) =~= Seq::<FilterNode>::empty());
        assert(nodes_view(s) + seq![node_view(n)] =~= seq![node_view(n)]);
        assert(nodes_view(p) =~= seq![node_view(p[0])] + nodes_view(
            p.subrange(1, p.len() as int),
        ));
    } else {
        lemma_nodes_view_push(s.subrange(1, s.len() as int), n);
        assert(p.subrange(1, p.len() as int) =~= s.subrange(1, s.len() as int).push(n));
        assert(nodes_view(p) == seq![node_view(p[0])] + nodes_view(
            s.subrange(1, s.len() as int).push(n),
        ));
        assert(nodes_view(p) =~= nodes_view(s) + seq![node_view(n)]);
    }
}

} // verus!
