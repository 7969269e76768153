//! Projection grammar: comma-separated column selections with `*`,
//! `alias:column` renames, and nested embeds `name(inner)` with
//! optional `name!fk_hint(inner)` disambiguation.

use vstd::prelude::*;
use crate::error::Error;
use crate::text;

verus! {

/// An embedding of a related table with an optional FK-constraint hint
/// and a nested projection.
#[derive(Debug)]
pub struct EmbedSelect {
    pub name: String,
    pub fk_hint: Option<String>,
    pub columns: Vec<SelectNode>,
}

/// A parsed projection element.
#[derive(Debug)]
pub enum SelectNode {
    Star,
    Column(String),
    Embed(EmbedSelect),
}

/// Mathematical model of an embed.
pub struct EmbedV {
    pub name: Seq<char>,
    pub fk_hint: Option<Seq<char>>,
    pub columns: Seq<SelV>,
}

/// Mathematical model of a projection element.
pub enum SelV {
    StarV,
    ColumnV(Seq<char>),
    EmbedV(EmbedV),
}

/// Model of one projection element.
pub open spec fn sel_view(n: SelectNode) -> SelV
    decreases n,
{
    match n {
        SelectNode::Star => SelV::StarV,
        SelectNode::Column(c) => SelV::ColumnV(c@),
        SelectNode::Embed(e) => SelV::EmbedV(
            EmbedV {
                name: e.name@,
                fk_hint: match e.fk_hint {
                    Some(h) => Some(h@),
                    None => None,
                },
                columns: sels_view(e.columns@),
            },
        ),
    }
}

/// Model of a sequence of projection elements.
pub open spec fn sels_view(s: Seq<SelectNode>) -> Seq<SelV>
    decreases s,
{
    if s.len() == 0 {
        Seq::empty()
    } else {
        seq![sel_view(s[0])] + sels_view(s.subrange(1, s.len() as int))
    }
}

impl View for SelectNode {
    type V = SelV;

    open spec fn view(&self) -> SelV {
        sel_view(*self)
    }
}

/// Model of `parse_select`: empty input selects everything; otherwise
/// split on depth-zero commas and parse each trimmed, non-empty token.
/// An error carries the message naming the offending token.
pub open spec fn spec_parse_select(s: Seq<char>) -> Result<Seq<SelV>, Seq<char>>
    decreases s.len(), 1int, 0int,
{
    let t = text::spec_trim(s);
    proof {
        text::lemma_trim_len(s);
    }
    if t.len() == 0 {
        Ok(seq![SelV::StarV])
    } else {
        spec_parse_sel_pieces(text::spec_split_parens(t), s.len() as int)
    }
}

/// Parses the comma-separated tokens; `n` bounds every token's length.
pub open spec fn spec_parse_sel_pieces(pieces: Seq<Seq<char>>, n: int) -> Result<Seq<SelV>, Seq<char>>
    decreases n, 0int, pieces.len(),
        when n >= 0 && forall|i: int| 0 <= i < pieces.len() ==> (#[trigger] pieces[i]).len() <= n
{
    if pieces.len() == 0 {
        Ok(Seq::empty())
    } else {
        let t = text::spec_trim(pieces[0]);
        proof {
            text::lemma_trim_len(pieces[0]);
            reveal_strlit("*");
        }
        let rest = spec_parse_sel_pieces(pieces.subrange(1, pieces.len() as int), n);
        if t.len() == 0 {
            rest
        } else if t == "*"@ {
            match rest {
                Ok(tail) => Ok(seq![SelV::StarV] + tail),
                Err(m) => Err(m),
            }
        } else if text::has_char(t, '(') {
            proof {
                text::lemma_has_char_first(t, '(');
            }
            let p = text::first_index(t, '(');
            if t[t.len() - 1] != ')' {
                Err("Unmatched parenthesis in select: "@ + t)
            } else {
                let prefix = t.subrange(0, p);
                let inner = t.subrange(p + 1, t.len() - 1);
                let name = if text::has_char(prefix, '!') {
                    proof {
                        text::lemma_has_char_first(prefix, '!');
                    }
                    prefix.subrange(0, text::first_index(prefix, '!'))
                } else {
                    prefix
                };
                let hint = if text::has_char(prefix, '!') {
                    proof {
                        text::lemma_has_char_first(prefix, '!');
                    }
                    Some(prefix.subrange(text::first_index(prefix, '!') + 1, prefix.len() as int))
                } else {
                    None
                };
                match spec_parse_select(inner) {
                    Ok(cols) => match rest {
                        Ok(tail) => Ok(
                            seq![
                                SelV::EmbedV(EmbedV { name: name, fk_hint: hint, columns: cols }),
                            ] + tail,
                        ),
                        Err(m) => Err(m),
                    },
                    Err(m) => Err(m),
                }
            }
        } else {
            let col = if text::has_char(t, ':') {
                proof {
                    text::lemma_has_char_first(t, ':');
                }
                t.subrange(text::first_index(t, ':') + 1, t.len() as int)
            } else {
                t
            };
            match rest {
                Ok(tail) => Ok(seq![SelV::ColumnV(col)] + tail),
                Err(m) => Err(m),
            }
        }
    }
}

/// Parses a projection such as `id,name` or `*,orders!fk(id,items(*))`.
/// Fails with a bad-request error exactly when a token opens a
/// parenthesis it does not close.
pub fn parse_select(input: &str) -> (r: Result<Vec<SelectNode>, Error>)
    ensures
        match r {
            Ok(nodes) => spec_parse_select(input@) == Ok::<Seq<SelV>, Seq<char>>(
                sels_view(nodes@),
            ),
            Err(e) => e matches Error::BadRequest(m) && spec_parse_select(input@)
                == Err::<Seq<SelV>, Seq<char>>(m@),
        },
    decreases input@.len(),
{
    proof {
        text::lemma_trim_len(input@);
        reveal_strlit("*");
    }
    let trimmed = text::trim(input);
    if trimmed.as_str().is_empty() {
        let mut nodes: Vec<SelectNode> = Vec::new();
        nodes.push(SelectNode::Star);
        proof {
            assert(nodes@.len() == 1);
            assert(nodes@[0] == SelectNode::Star);
            assert(sel_view(nodes@[0]) == SelV::StarV);
            assert(nodes@.subrange(1, nodes@.len() as int) =~= Seq::<SelectNode>::empty());
            assert(sels_view(nodes@.subrange(1, nodes@.len() as int)) =~= Seq::<SelV>::empty());
            assert(sels_view(nodes@) == seq![sel_view(nodes@[0])] + sels_view(
                nodes@.subrange(1, nodes@.len() as int),
            ));
            assert(sels_view(nodes@) =~= seq![SelV::StarV]);
        }
        return Ok(nodes);
    }
    let parts = text::split_respecting_parens(trimmed.as_str());
    let ghost pieces = text::spec_split_parens(trimmed@);
    let ghost n = input@.len() as int;
    proof {
        text::lemma_split_parens_piece_len(trimmed@, Seq::<char>::empty(), 0);
        assert(pieces.subrange(0, pieces.len() as int) =~= pieces);
    }
    let mut nodes: Vec<SelectNode> = Vec::new();
    let mut i: usize = 0;
    proof {
        assert(sels_view(nodes@) =~= Seq::<SelV>::empty());
    }
    while i < parts.len()
        invariant
            parts@.map_values(|p: String| p@) == pieces,
            i <= parts.len(),
            n == input@.len() as int,
            text::spec_trim(input@).len() > 0,
            spec_parse_select(input@) == spec_parse_sel_pieces(pieces, n),
            forall|k: int| 0 <= k < pieces.len() ==> (#[trigger] pieces[k]).len() <= n,
            match spec_parse_sel_pieces(pieces.subrange(i as int, pieces.len() as int), n) {
                Ok(tail) => spec_parse_sel_pieces(pieces, n) == Ok::<Seq<SelV>, Seq<char>>(
                    sels_view(nodes@) + tail,
                ),
                Err(m) => spec_parse_sel_pieces(pieces, n) == Err::<Seq<SelV>, Seq<char>>(m),
            },
        decreases parts.len() - i,
    {
        let ghost rest_pieces = pieces.subrange(i as int, pieces.len() as int);
        let ghost rest2 = pieces.subrange(i + 1, pieces.len() as int);
        proof {
            assert(rest_pieces[0] == pieces[i as int]);
            assert(pieces[i as int] == parts@.map_values(|p: String| p@)[i as int]);
            assert(rest_pieces.subrange(1, rest_pieces.len() as int) =~= rest2);
            text::lemma_trim_len(pieces[i as int]);
            assert forall|k: int| 0 <= k < rest_pieces.len() implies (
            #[trigger] rest_pieces[k]).len() <= n by {
                assert(rest_pieces[k] == pieces[i + k]);
            }
        }
        let token = text::trim(parts[i].as_str());
        let tk = token.as_str();
        let tkl = tk.unicode_len();
        proof {
            assert(text::spec_trim(rest_pieces[0]) == token@);
        }
        if tkl == 0 {
            proof {
                assert(spec_parse_sel_pieces(rest_pieces, n) == spec_parse_sel_pieces(rest2, n));
            }
            i += 1;
            continue;
        }
        let node: SelectNode = if text::str_eq(tk, "*") {
            let built = SelectNode::Star;
            proof {
                assert(spec_parse_sel_pieces(rest_pieces, n) == (
                match spec_parse_sel_pieces(rest2, n) {
                    Ok(tail) => Ok::<Seq<SelV>, Seq<char>>(seq![sel_view(built)] + tail),
                    Err(m) => Err::<Seq<SelV>, Seq<char>>(m),
                }));
            }
            built
        } else {
            match text::find_char(tk, '(') {
                Some(p) => {
                    proof {
                        text::lemma_first_index_agrees(token@, '(', p as int);
                    }
                    if tk.get_char(tkl - 1) != ')' {
                        proof {
                            assert(spec_parse_sel_pieces(rest_pieces, n)
                                == Err::<Seq<SelV>, Seq<char>>(
                                "Unmatched parenthesis in select: "@ + token@,
                            ));
                        }
                        let mut m = String::new();
                        m.append("Unmatched parenthesis in select: ");
                        m.append(tk);
                        return Err(Error::BadRequest(m));
                    }
                    let prefix = tk.substring_char(0, p);
                    let inner = tk.substring_char(p + 1, tkl - 1);
                    let (name, fk_hint): (String, Option<String>) = match text::find_char(
                        prefix,
                        '!',
                    ) {
                        Some(b) => {
                            proof {
                                text::lemma_first_index_agrees(prefix@, '!', b as int);
                            }
                            let hint = text::suffix_from(prefix, b + 1);
                            (prefix.substring_char(0, b).to_owned(), Some(hint))
                        },
                        None => (prefix.to_owned(), None),
                    };
                    match parse_select(inner) {
                        Ok(columns) => {
                            let built = SelectNode::Embed(EmbedSelect { name, fk_hint, columns });
                            proof {
                                assert(spec_parse_sel_pieces(rest_pieces, n) == (
                                match spec_parse_sel_pieces(rest2, n) {
                                    Ok(tail) => Ok::<Seq<SelV>, Seq<char>>(
                                        seq![sel_view(built)] + tail,
                                    ),
                                    Err(m) => Err::<Seq<SelV>, Seq<char>>(m),
                                }));
                            }
                            built
                        },
                        Err(e) => {
                            proof {
                                assert(spec_parse_sel_pieces(rest_pieces, n) == spec_parse_select(
                                    inner@,
                                ));
                            }
                            return Err(e);
                        },
                    }
                },
                None => {
                    let col: String = match text::find_char(tk, ':') {
                        Some(c) => {
                            proof {
                                text::lemma_first_index_agrees(token@, ':', c as int);
                            }
                            text::suffix_from(tk, c + 1)
                        },
                        None => token.clone(),
                    };
                    let built = SelectNode::Column(col);
                    proof {
                        assert(spec_parse_sel_pieces(rest_pieces, n) == (
                        match spec_parse_sel_pieces(rest2, n) {
                            Ok(tail) => Ok::<Seq<SelV>, Seq<char>>(seq![sel_view(built)] + tail),
                            Err(m) => Err::<Seq<SelV>, Seq<char>>(m),
                        }));
                    }
                    built
                },
            }
        };
        let ghost prev = nodes@;
        let ghost nv = sel_view(node);
        nodes.push(node);
        proof {
            lemma_sels_view_push(prev, node);
            assert(nodes@ == prev.push(node));
            match spec_parse_sel_pieces(rest2, n) {
                Ok(tail) => {
                    assert((sels_view(prev) + seq![nv]) + tail =~= sels_view(prev) + (seq![nv]
                        + tail));
                },
                Err(_) => {},
            }
        }
        i += 1;
    }
    proof {
        assert(pieces.subrange(i as int, pieces.len() as int) =~= Seq::<Seq<char>>::empty());
        assert(sels_view(nodes@) + Seq::<SelV>::empty() =~= sels_view(nodes@));
    }
    Ok(nodes)
}

/// Appending one element extends the model by that element's view.
proof fn lemma_sels_view_push(s: Seq<SelectNode>, n: SelectNode)
    ensures
        sels_view(s.push(n)) == sels_view(s) + seq![sel_view(n)],
    decreases s.len(),
{
    let p = s.push(n);
    if s.len() == 0 {
        assert(p.subrange(1, p.len() as int) =~= Seq::<SelectNode>::empty());
        assert(sels_view(s) + seq![sel_view(n)] =~= seq![sel_view(n)]);
        assert(sels_view(p) =~= seq![sel_view(p[0])] + sels_view(p.subrange(1, p.len() as int)));
    } else {
        lemma_sels_view_push(s.subrange(1, s.len() as int), n);
        assert(p.subrange(1, p.len() as int) =~= s.subrange(1, s.len() as int).push(n));
        assert(sels_view(p) == seq![sel_view(p[0])] + sels_view(
            s.subrange(1, s.len() as int).push(n),
        ));
        assert(sels_view(p) =~= sels_view(s) + seq![sel_view(n)]);
    }
}

/// The plain column names of a projection, embeds and stars left out.
pub open spec fn spec_select_columns(s: Seq<SelV>) -> Seq<Seq<char>>
    decreases s.len(),
{
    if s.len() == 0 {
        Seq::empty()
    } else {
        let rest = spec_select_columns(s.subrange(1, s.len() as int));
        match s[0] {
            SelV::ColumnV(c) => seq![c] + rest,
            _ => rest,
        }
    }
}

/// Extracts the plain column names from a projection.
pub fn select_columns(nodes: &Vec<SelectNode>) -> (r: Vec<String>)
    ensures
        r@.map_values(|c: String| c@) == spec_select_columns(sels_view(nodes@)),
{
    let ghost all = sels_view(nodes@);
    let mut cols: Vec<String> = Vec::new();
    let mut i: usize = 0;
    proof {
        lemma_sels_view_len(nodes@);
        assert(all.subrange(0, all.len() as int) =~= all);
        assert(cols@.map_values(|c: String| c@) =~= Seq::<Seq<char>>::empty());
    }
    while i < nodes.len()
        invariant
            all == sels_view(nodes@),
            all.len() == nodes@.len(),
            i <= nodes.len(),
            forall|k: int| 0 <= k < nodes@.len() ==> all[k] == sel_view(nodes@[k]),
            spec_select_columns(all) == cols@.map_values(|c: String| c@) + spec_select_columns(
                all.subrange(i as int, all.len() as int),
            ),
        decreases nodes.len() - i,
    {
        let ghost rest = all.subrange(i as int, all.len() as int);
        proof {
            assert(rest[0] == all[i as int]);
            assert(rest.subrange(1, rest.len() as int) =~= all.subrange(i + 1, all.len() as int));
        }
        match &nodes[i] {
            SelectNode::Column(name) => {
                let ghost prev = cols@;
                let ghost cv = name@;
                cols.push(name.clone());
                proof {
                    assert(cols@.map_values(|c: String| c@) =~= prev.map_values(|c: String| c@)
                        + seq![cv]);
                }
            },
            _ => {
            },
        }
        i += 1;
    }
    proof {
        assert(all.subrange(i as int, all.len() as int) =~= Seq::<SelV>::empty());
        assert(cols@.map_values(|c: String| c@) =~= cols@.map_values(|c: String| c@)
            + Seq::<Seq<char>>::empty());
    }
    cols
}

/// The views of a node sequence are its nodes' views, elementwise.
pub proof fn lemma_sels_view_len(s: Seq<SelectNode>)
    ensures
        sels_view(s).len() == s.len(),
        forall|k: int| 0 <= k < s.len() ==> sels_view(s)[k] == sel_view(s[k]),
    decreases s.len(),
{
    if s.len() > 0 {
        lemma_sels_view_len(s.subrange(1, s.len() as int));
        assert forall|k: int| 0 <= k < s.len() implies sels_view(s)[k] == sel_view(s[k]) by {
            if k > 0 {
                assert(s.subrange(1, s.len() as int)[k - 1] == s[k]);
            }
        }
    }
}

/// Whether a projection selects everything.
pub open spec fn spec_has_star(s: Seq<SelV>) -> bool {
    exists|i: int| 0 <= i < s.len() && s[i] is StarV
}

/// Whether the projection contains a `*`.
pub fn has_star(nodes: &Vec<SelectNode>) -> (r: bool)
    ensures
        r == spec_has_star(sels_view(nodes@)),
{
    let ghost all = sels_view(nodes@);
    proof {
        lemma_sels_view_len(nodes@);
    }
    let mut i: usize = 0;
    while i < nodes.len()
        invariant
            all == sels_view(nodes@),
            all.len() == nodes@.len(),
            i <= nodes.len(),
            forall|k: int| 0 <= k < nodes@.len() ==> all[k] == sel_view(nodes@[k]),
            forall|k: int| 0 <= k < i ==> !(all[k] is StarV),
        decreases nodes.len() - i,
    {
        match &nodes[i] {
            SelectNode::Star => {
                proof {
                    assert(all[i as int] is StarV);
                }
                return true;
            },
            _ => {
            },
        }
        i += 1;
    }
    false
}

/// The embeds of a projection, in order.
pub open spec fn spec_select_embeds(s: Seq<SelV>) -> Seq<EmbedV>
    decreases s.len(),
{
    if s.len() == 0 {
        Seq::empty()
    } else {
        let rest = spec_select_embeds(s.subrange(1, s.len() as int));
        match s[0] {
            SelV::EmbedV(e) => seq![e] + rest,
            _ => rest,
        }
    }
}

/// Extracts the embed specifications from a projection.
pub fn select_embeds(nodes: &Vec<SelectNode>) -> (r: Vec<&EmbedSelect>)
    ensures
        r@.map_values(|e: &EmbedSelect| sel_view(SelectNode::Embed(*e)))
            =~= spec_select_embeds(sels_view(nodes@)).map_values(|e: EmbedV| SelV::EmbedV(e)),
{
    let ghost all = sels_view(nodes@);
    let mut out: Vec<&EmbedSelect> = Vec::new();
    let mut i: usize = 0;
    proof {
        lemma_sels_view_len(nodes@);
        assert(all.subrange(0, all.len() as int) =~= all);
    }
    while i < nodes.len()
        invariant
            all == sels_view(nodes@),
            all.len() == nodes@.len(),
            i <= nodes.len(),
            forall|k: int| 0 <= k < nodes@.len() ==> all[k] == sel_view(nodes@[k]),
            out@.map_values(|e: &EmbedSelect| sel_view(SelectNode::Embed(*e))) =~= spec_select_embeds(
                all.subrange(0, i as int),
            ).map_values(|e: EmbedV| SelV::EmbedV(e)),
        decreases nodes.len() - i,
    {
        proof {
            lemma_select_embeds_take(all, i as int);
        }
        match &nodes[i] {
            SelectNode::Embed(e) => {
                let ghost prev = out@;
                out.push(e);
                proof {
                    assert(out@.map_values(|e: &EmbedSelect| sel_view(SelectNode::Embed(*e)))
                        =~= prev.map_values(|e: &EmbedSelect| sel_view(SelectNode::Embed(*e))).push(
                        sel_view(nodes@[i as int]),
                    ));
                }
            },
            _ => {
            },
        }
        i += 1;
    }
    proof {
        assert(all.subrange(0, i as int) =~= all);
    }
    out
}

/// One step of the embed extraction: extending the prefix by one
/// element appends its embed, if it is one.
proof fn lemma_select_embeds_take(s: Seq<SelV>, i: int)
    requires
        0 <= i < s.len(),
    ensures
        spec_select_embeds(s.subrange(0, i + 1)) == (match s[i] {
            SelV::EmbedV(e) => spec_select_embeds(s.subrange(0, i)).push(e),
            _ => spec_select_embeds(s.subrange(0, i)),
        }),
    decreases i,
{
    let a = s.subrange(0, i + 1);
    let b = s.subrange(0, i);
    if i == 0 {
        assert(a.subrange(1, a.len() as int) =~= Seq::<SelV>::empty());
        assert(b =~= Seq::<SelV>::empty());
        match s[0] {
            SelV::EmbedV(e) => {
                assert(spec_select_embeds(a) =~= spec_select_embeds(b).push(e));
            },
            _ => {
                assert(spec_select_embeds(a) =~= spec_select_embeds(b));
            },
        }
    } else {
        let tail = s.subrange(1, s.len() as int);
        lemma_select_embeds_take(tail, i - 1);
        assert(a.subrange(1, a.len() as int) =~= tail.subrange(0, i));
        assert(b.subrange(1, b.len() as int) =~= tail.subrange(0, i - 1));
        assert(a[0] == s[0]);
        assert(b[0] == s[0]);
        assert(tail[i - 1] == s[i]);
        match s[i] {
            SelV::EmbedV(e) => {
                assert(spec_select_embeds(a) =~= spec_select_embeds(b).push(e));
            },
            _ => {
                assert(spec_select_embeds(a) =~= spec_select_embeds(b));
            },
        }
    }
}

/// The text of one projection element: `*`, the column name, or the
/// embed with its optional hint and parenthesized inner projection.
pub open spec fn spec_select_token(n: SelV) -> Seq<char>
    decreases n, 0int,
{
    match n {
        SelV::StarV => "*"@,
        SelV::ColumnV(c) => c,
        SelV::EmbedV(e) => e.name + (match e.fk_hint {
            Some(h) => "!"@ + h,
            None => Seq::<char>::empty(),
        }) + "("@ + spec_serialize_select(e.columns) + ")"@,
    }
}

/// The comma-separated text of a projection.
pub open spec fn spec_serialize_select(s: Seq<SelV>) -> Seq<char>
    decreases s, s.len(),
{
    if s.len() == 0 {
        Seq::empty()
    } else if s.len() == 1 {
        spec_select_token(s[0])
    } else {
        spec_select_token(s[0]) + ","@ + spec_serialize_select(s.subrange(1, s.len() as int))
    }
}

/// Renders one projection element.
pub fn select_token(n: &SelectNode) -> (r: String)
    ensures
        r@ == spec_select_token(sel_view(*n)),
    decreases *n,
{
    match n {
        SelectNode::Star => "*".to_owned(),
        SelectNode::Column(c) => c.clone(),
        SelectNode::Embed(e) => {
            let mut out = e.name.clone();
            match &e.fk_hint {
                Some(h) => {
                    out.append("!");
                    out.append(h.as_str());
                },
                None => {
                },
            }
            out.append("(");
            proof {
                assert(decreases_to!(*n => n->Embed_0));
                assert(decreases_to!(n->Embed_0 => e.columns));
            }
            let inner = serialize_select(&e.columns);
            out.append(inner.as_str());
            out.append(")");
            proof {
                assert(out@ =~= spec_select_token(sel_view(*n)));
            }
            out
        },
    }
}

/// Renders a projection back into its comma-separated text. Applied to
/// what `parse_select` returned, the text parses back to the same
/// projection whenever names are free of the grammar's own characters.
pub fn serialize_select(nodes: &Vec<SelectNode>) -> (r: String)
    ensures
        r@ == spec_serialize_select(sels_view(nodes@)),
    decreases *nodes,
{
    let ghost all = sels_view(nodes@);
    proof {
        lemma_sels_view_len(nodes@);
    }
    if nodes.len() == 0 {
        return String::new();
    }
    let mut i: usize = nodes.len() - 1;
    proof {
        assert(decreases_to!(*nodes => nodes@[i as int]));
    }
    let mut out: String = select_token(&nodes[i]);
    proof {
        assert(all.subrange(i as int, all.len() as int) =~= seq![all[i as int]]);
    }
    while i > 0
        invariant
            all == sels_view(nodes@),
            all.len() == nodes@.len(),
            forall|k: int| 0 <= k < all.len() ==> all[k] == sel_view(nodes@[k]),
            i < nodes@.len(),
            out@ == spec_serialize_select(all.subrange(i as int, all.len() as int)),
        decreases i,
    {
        i -= 1;
        let mut next: String = select_token(&nodes[i]);
        next.append(",");
        next.append(out.as_str());
        out = next;
        proof {
            let cur = all.subrange(i as int, all.len() as int);
            assert(cur[0] == all[i as int]);
            assert(cur.subrange(1, cur.len() as int) =~= all.subrange(i + 1, all.len() as int));
            assert(cur.len() >= 2);
            assert(out@ =~= spec_serialize_select(cur));
        }
    }
    proof {
        assert(all.subrange(0, all.len() as int) =~= all);
    }
    out
}

} // verus!
