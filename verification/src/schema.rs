//! In-memory catalog model: tables, columns, keys, and the embed
//! resolver that turns a related-table name into a join description.
//! Name lookups are ASCII-case-insensitive.

use vstd::prelude::*;
use crate::text;

verus! {

/// A column of a table or view.
#[derive(Debug, Clone)]
pub struct ColumnInfo {
    pub name: String,
    pub data_type: String,
    pub max_length: Option<i32>,
    pub precision: Option<i32>,
    pub scale: Option<i32>,
    pub is_nullable: bool,
    pub ordinal_position: i32,
    pub is_identity: bool,
    pub has_default: bool,
    pub is_computed: bool,
}

/// A single-column foreign-key relationship.
#[derive(Debug, Clone)]
pub struct ForeignKey {
    pub constraint_name: String,
    pub column_name: String,
    pub ref_schema: String,
    pub ref_table: String,
    pub ref_column: String,
}

/// A table or view.
#[derive(Debug, Clone)]
pub struct TableInfo {
    pub name: String,
    pub schema: String,
    pub columns: Vec<ColumnInfo>,
    pub primary_key: Vec<String>,
    pub foreign_keys: Vec<ForeignKey>,
    pub unique_constraints: Vec<Vec<String>>,
    pub is_view: bool,
    pub change_tracking_enabled: bool,
}

/// Mathematical model of a column.
pub struct ColV {
    pub name: Seq<char>,
    pub data_type: Seq<char>,
    pub is_nullable: bool,
    pub is_identity: bool,
    pub has_default: bool,
    pub is_computed: bool,
}

/// Mathematical model of a foreign key.
pub struct FkV {
    pub constraint_name: Seq<char>,
    pub column_name: Seq<char>,
    pub ref_schema: Seq<char>,
    pub ref_table: Seq<char>,
    pub ref_column: Seq<char>,
}

/// Mathematical model of a table.
pub struct TableV {
    pub name: Seq<char>,
    pub schema: Seq<char>,
    pub columns: Seq<ColV>,
    pub primary_key: Seq<Seq<char>>,
    pub foreign_keys: Seq<FkV>,
    pub unique_constraints: Seq<Seq<Seq<char>>>,
    pub is_view: bool,
    pub change_tracking_enabled: bool,
}

impl View for ColumnInfo {
    type V = ColV;

    open spec fn view(&self) -> ColV {
        ColV {
            name: self.name@,
            data_type: self.data_type@,
            is_nullable: self.is_nullable,
            is_identity: self.is_identity,
            has_default: self.has_default,
            is_computed: self.is_computed,
        }
    }
}

impl View for ForeignKey {
    type V = FkV;

    open spec fn view(&self) -> FkV {
        FkV {
            constraint_name: self.constraint_name@,
            column_name: self.column_name@,
            ref_schema: self.ref_schema@,
            ref_table: self.ref_table@,
            ref_column: self.ref_column@,
        }
    }
}

impl View for TableInfo {
    type V = TableV;

    open spec fn view(&self) -> TableV {
        TableV {
            name: self.name@,
            schema: self.schema@,
            columns: self.columns@.map_values(|c: ColumnInfo| c@),
            primary_key: self.primary_key@.map_values(|s: String| s@),
            foreign_keys: self.foreign_keys@.map_values(|f: ForeignKey| f@),
            unique_constraints: self.unique_constraints@.map_values(
                |g: Vec<String>| g@.map_values(|s: String| s@),
            ),
            is_view: self.is_view,
            change_tracking_enabled: self.change_tracking_enabled,
        }
    }
}

/// The bracket-quoted, schema-qualified name of a table, both parts
/// escaped.
pub open spec fn spec_full_name(t: TableV) -> Seq<char> {
    crate::query::spec_bracket(t.schema) + "."@ + crate::query::spec_bracket(t.name)
}

/// Column `c` answers to `name`, compared case-insensitively.
pub open spec fn col_matches(c: ColV, name: Seq<char>) -> bool {
    text::eq_ci(c.name, name)
}

impl TableInfo {
    /// The full qualified name `[schema].[table]`, with `]` doubled in
    /// both parts.
    pub fn full_name(&self) -> (r: String)
        ensures
            r@ == spec_full_name(self@),
    {
        let mut s = crate::query::bracket(self.schema.as_str());
        s.append(".");
        let n = crate::query::bracket(self.name.as_str());
        s.append(n.as_str());
        proof {
            assert(s@ =~= spec_full_name(self@));
        }
        s
    }

    /// The first column answering to `name`, case-insensitively.
    pub fn column(&self, name: &str) -> (r: Option<&ColumnInfo>)
        ensures
            match r {
                Some(c) => exists|i: int|
                    0 <= i < self@.columns.len() && c@ == self@.columns[i] && col_matches(
                        self@.columns[i],
                        name@,
                    ) && forall|j: int| 0 <= j < i ==> !col_matches(self@.columns[j], name@),
                None => forall|i: int|
                    0 <= i < self@.columns.len() ==> !col_matches(self@.columns[i], name@),
            },
    {
        let mut i: usize = 0;
        while i < self.columns.len()
            invariant
                i <= self.columns.len(),
                self@.columns.len() == self.columns@.len(),
                forall|k: int| 0 <= k < self.columns@.len() ==> self@.columns[k] == self.columns@[k]@,
                forall|j: int| 0 <= j < i ==> !col_matches(self@.columns[j], name@),
            decreases self.columns.len() - i,
        {
            if text::eq_ignore_case(self.columns[i].name.as_str(), name) {
                let c = &self.columns[i];
                proof {
                    let w = i as int;
                    assert(c@ == self@.columns[w] && col_matches(self@.columns[w], name@)
                        && forall|j: int| 0 <= j < w ==> !col_matches(self@.columns[j], name@));
                }
                return Some(c);
            }
            i += 1;
        }
        None
    }

    /// The columns that may appear in an INSERT: everything that is not
    /// an identity column.
    pub fn insertable_columns(&self) -> (r: Vec<&ColumnInfo>)
        ensures
            r@.map_values(|c: &ColumnInfo| c@) == self@.columns.filter(
                |c: ColV| !c.is_identity,
            ),
    {
        broadcast use vstd::seq_lib::group_seq_properties;

        let mut out: Vec<&ColumnInfo> = Vec::new();
        let mut i: usize = 0;
        proof {
            reveal(Seq::filter);
            assert(self@.columns.take(0) =~= Seq::<ColV>::empty());
            assert(out@.map_values(|c: &ColumnInfo| c@) =~= Seq::<ColV>::empty().filter(
                |c: ColV| !c.is_identity,
            ));
        }
        while i < self.columns.len()
            invariant
                i <= self.columns.len(),
                self@.columns.len() == self.columns@.len(),
                forall|k: int| 0 <= k < self.columns@.len() ==> self@.columns[k] == self.columns@[k]@,
                out@.map_values(|c: &ColumnInfo| c@) == self@.columns.take(i as int).filter(
                    |c: ColV| !c.is_identity,
                ),
            decreases self.columns.len() - i,
        {
            proof {
                let pred = |c: ColV| !c.is_identity;
                let t1 = self@.columns.take(i + 1);
                assert(t1.drop_last() =~= self@.columns.take(i as int));
                assert(t1.last() == self@.columns[i as int]);
                assert(t1.len() == i + 1);
                assert(t1.filter(pred) == (if pred(t1.last()) {
                    t1.drop_last().filter(pred).push(t1.last())
                } else {
                    t1.drop_last().filter(pred)
                })) by {
                    reveal(Seq::filter);
                }
            }
            if !self.columns[i].is_identity {
                let ghost prev = out@;
                out.push(&self.columns[i]);
                proof {
                    assert(out@.map_values(|c: &ColumnInfo| c@) =~= prev.map_values(
                        |c: &ColumnInfo| c@,
                    ).push(self@.columns[i as int]));
                }
            }
            i += 1;
        }
        proof {
            assert(self@.columns.take(i as int) =~= self@.columns);
        }
        out
    }
}

impl ForeignKey {
    /// A field-for-field copy.
    pub fn duplicate(&self) -> (r: ForeignKey)
        ensures
            r@ == self@,
    {
        ForeignKey {
            constraint_name: self.constraint_name.clone(),
            column_name: self.column_name.clone(),
            ref_schema: self.ref_schema.clone(),
            ref_table: self.ref_table.clone(),
            ref_column: self.ref_column.clone(),
        }
    }
}

/// Table `t` answers exactly to `(schema, table)`.
pub open spec fn table_key_eq(t: TableV, schema: Seq<char>, table: Seq<char>) -> bool {
    t.schema == schema && t.name == table
}

/// Table `t` answers to `(schema, table)` case-insensitively.
pub open spec fn table_key_ci(t: TableV, schema: Seq<char>, table: Seq<char>) -> bool {
    text::eq_ci(t.schema, schema) && text::eq_ci(t.name, table)
}

/// How an embedded table joins to its parent.
#[derive(Debug, Clone, Copy, PartialEq, Eq, Structural)]
pub enum EmbedJoinType {
    ManyToOne,
    OneToMany,
}

/// A resolved join description for an embed.
#[derive(Debug, Clone)]
pub struct EmbedInfo {
    pub target_schema: String,
    pub target_table: String,
    pub join_type: EmbedJoinType,
    pub source_column: String,
    pub target_column: String,
}

/// Mathematical model of a resolved embed join.
pub struct EmbedInfoV {
    pub target_schema: Seq<char>,
    pub target_table: Seq<char>,
    pub join_type: EmbedJoinType,
    pub source_column: Seq<char>,
    pub target_column: Seq<char>,
}

impl View for EmbedInfo {
    type V = EmbedInfoV;

    open spec fn view(&self) -> EmbedInfoV {
        EmbedInfoV {
            target_schema: self.target_schema@,
            target_table: self.target_table@,
            join_type: self.join_type,
            source_column: self.source_column@,
            target_column: self.target_column@,
        }
    }
}

/// A foreign key of the source that resolves the embed: its target
/// table answers to the embed name, or its local column answers to the
/// name with `_id` appended (so `customer` reaches `customer_id`);
/// when a hint is given, its constraint name must answer to the hint.
pub open spec fn fk_resolves(f: FkV, name: Seq<char>, hint: Option<Seq<char>>) -> bool {
    (text::eq_ci(f.ref_table, name) || text::eq_ci(f.column_name, name + "_id"@)) && (match hint {
        Some(h) => text::eq_ci(f.constraint_name, h),
        None => true,
    })
}

/// The many-to-one join taken from a foreign key of the source table.
pub open spec fn many_to_one_of(f: FkV) -> EmbedInfoV {
    EmbedInfoV {
        target_schema: f.ref_schema,
        target_table: f.ref_table,
        join_type: EmbedJoinType::ManyToOne,
        source_column: f.column_name,
        target_column: f.ref_column,
    }
}

/// A foreign key of table `t` points at `(schema, table)` and its owner
/// answers to the embed name: the one-to-many direction.
pub open spec fn rev_resolves(
    t: TableV,
    f: FkV,
    schema: Seq<char>,
    table: Seq<char>,
    name: Seq<char>,
    hint: Option<Seq<char>>,
) -> bool {
    text::eq_ci(f.ref_schema, schema) && text::eq_ci(f.ref_table, table) && text::eq_ci(
        t.name,
        name,
    ) && (match hint {
        Some(h) => text::eq_ci(f.constraint_name, h),
        None => true,
    })
}

/// The one-to-many join taken from a referencing table's foreign key.
pub open spec fn one_to_many_of(t: TableV, f: FkV) -> EmbedInfoV {
    EmbedInfoV {
        target_schema: t.schema,
        target_table: t.name,
        join_type: EmbedJoinType::OneToMany,
        source_column: f.ref_column,
        target_column: f.column_name,
    }
}

/// The catalog: every table and view, in catalog order.
#[derive(Debug, Clone)]
pub struct SchemaCache {
    pub tables: Vec<TableInfo>,
}

/// The models of the catalog's tables.
pub open spec fn tables_view(tables: Seq<TableInfo>) -> Seq<TableV> {
    tables.map_values(|t: TableInfo| t@)
}

impl SchemaCache {
    /// An empty catalog.
    pub fn new() -> (r: SchemaCache)
        ensures
            r.tables@.len() == 0,
    {
        SchemaCache { tables: Vec::new() }
    }

    /// Looks up a table: an exact `(schema, name)` match wins; failing
    /// that, the first case-insensitive match.
    pub fn get_table(&self, schema: &str, table: &str) -> (r: Option<&TableInfo>)
        ensures
            ({
                let tv = tables_view(self.tables@);
                match r {
                    Some(t) => table_key_ci(t@, schema@, table@) && ((exists|i: int|
                        0 <= i < tv.len() && t@ == tv[i] && table_key_eq(tv[i], schema@, table@)
                            && forall|j: int|
                            0 <= j < i ==> !table_key_eq(tv[j], schema@, table@)) || ((forall|i: int|
                        0 <= i < tv.len() ==> !table_key_eq(tv[i], schema@, table@)) && exists|i: int|
                        0 <= i < tv.len() && t@ == tv[i] && table_key_ci(tv[i], schema@, table@)
                            && forall|j: int|
                            0 <= j < i ==> !table_key_ci(tv[j], schema@, table@))),
                    None => forall|i: int|
                        0 <= i < tv.len() ==> !table_key_ci(tv[i], schema@, table@),
                }
            }),
    {
        let ghost tv = tables_view(self.tables@);
        let mut i: usize = 0;
        while i < self.tables.len()
            invariant
                tv == tables_view(self.tables@),
                tv.len() == self.tables@.len(),
                forall|k: int| 0 <= k < tv.len() ==> tv[k] == self.tables@[k]@,
                i <= self.tables.len(),
                forall|j: int| 0 <= j < i ==> !table_key_eq(tv[j], schema@, table@),
            decreases self.tables.len() - i,
        {
            if text::str_eq(self.tables[i].schema.as_str(), schema) && text::str_eq(
                self.tables[i].name.as_str(),
                table,
            ) {
                let t = &self.tables[i];
                proof {
                    let w = i as int;
                    assert(t@ == tv[w] && table_key_eq(tv[w], schema@, table@));
                    assert(text::eq_ci(t@.schema, schema@));
                    assert(text::eq_ci(t@.name, table@));
                }
                return Some(t);
            }
            i += 1;
        }
        let mut k: usize = 0;
        while k < self.tables.len()
            invariant
                tv == tables_view(self.tables@),
                tv.len() == self.tables@.len(),
                forall|j: int| 0 <= j < tv.len() ==> tv[j] == self.tables@[j]@,
                k <= self.tables.len(),
                forall|j: int| 0 <= j < tv.len() ==> !table_key_eq(tv[j], schema@, table@),
                forall|j: int| 0 <= j < k ==> !table_key_ci(tv[j], schema@, table@),
            decreases self.tables.len() - k,
        {
            if text::eq_ignore_case(self.tables[k].schema.as_str(), schema) && text::eq_ignore_case(
                self.tables[k].name.as_str(),
                table,
            ) {
                let t = &self.tables[k];
                proof {
                    let w = k as int;
                    assert(t@ == tv[w] && table_key_ci(tv[w], schema@, table@) && forall|j: int|
                        0 <= j < w ==> !table_key_ci(tv[j], schema@, table@));
                }
                return Some(t);
            }
            k += 1;
        }
        None
    }

    /// Every `(schema, table, foreign key)` whose key points at the
    /// given table, in catalog order.
    pub fn referencing_tables(&self, schema: &str, table: &str) -> (r: Vec<
        (String, String, ForeignKey),
    >)
        ensures
            r@.map_values(|e: (String, String, ForeignKey)| (e.0@, e.1@, e.2@)) == spec_referencing(
                tables_view(self.tables@),
                schema@,
                table@,
            ),
    {
        let ghost tv = tables_view(self.tables@);
        let ghost target = spec_referencing(tv, schema@, table@);
        let mut out: Vec<(String, String, ForeignKey)> = Vec::new();
        let mut i: usize = 0;
        proof {
            assert(tv.subrange(0, tv.len() as int) =~= tv);
            assert(out@.map_values(|e: (String, String, ForeignKey)| (e.0@, e.1@, e.2@))
                =~= Seq::<(Seq<char>, Seq<char>, FkV)>::empty());
        }
        while i < self.tables.len()
            invariant
                tv == tables_view(self.tables@),
                tv.len() == self.tables@.len(),
                forall|k: int| 0 <= k < tv.len() ==> tv[k] == self.tables@[k]@,
                i <= self.tables.len(),
                target == spec_referencing(tv, schema@, table@),
                target == out@.map_values(|e: (String, String, ForeignKey)| (e.0@, e.1@, e.2@))
                    + spec_referencing(tv.subrange(i as int, tv.len() as int), schema@, table@),
            decreases self.tables.len() - i,
        {
            let ghost rest = tv.subrange(i as int, tv.len() as int);
            proof {
                assert(rest[0] == tv[i as int]);
                assert(rest.subrange(1, rest.len() as int) =~= tv.subrange(
                    i + 1,
                    tv.len() as int,
                ));
            }
            let t = &self.tables[i];
            let ghost fks = t@.foreign_keys;
            let mut f: usize = 0;
            proof {
                assert(fks.subrange(0, fks.len() as int) =~= fks);
            }
            while f < t.foreign_keys.len()
                invariant
                    tv == tables_view(self.tables@),
                    i < self.tables@.len(),
                    t == &self.tables@[i as int],
                    tv[i as int] == self.tables@[i as int]@,
                    fks == tv[i as int].foreign_keys,
                    fks.len() == t.foreign_keys@.len(),
                    forall|k: int| 0 <= k < fks.len() ==> fks[k] == t.foreign_keys@[k]@,
                    f <= t.foreign_keys.len(),
                    target == spec_referencing(tv, schema@, table@),
                    target == out@.map_values(
                        |e: (String, String, ForeignKey)| (e.0@, e.1@, e.2@),
                    ) + spec_ref_fks(tv[i as int], fks.subrange(f as int, fks.len() as int), schema@, table@)
                        + spec_referencing(tv.subrange(i + 1, tv.len() as int), schema@, table@),
                decreases t.foreign_keys.len() - f,
            {
                let ghost frest = fks.subrange(f as int, fks.len() as int);
                proof {
                    assert(frest[0] == fks[f as int]);
                    assert(frest.subrange(1, frest.len() as int) =~= fks.subrange(
                        f + 1,
                        fks.len() as int,
                    ));
                }
                let fk = &t.foreign_keys[f];
                if text::eq_ignore_case(fk.ref_schema.as_str(), schema) && text::eq_ignore_case(
                    fk.ref_table.as_str(),
                    table,
                ) {
                    let ghost prev = out@;
                    let entry = (t.schema.clone(), t.name.clone(), fk.duplicate());
                    let ghost ev = (entry.0@, entry.1@, entry.2@);
                    out.push(entry);
                    proof {
                        assert(out@.map_values(|e: (String, String, ForeignKey)| (e.0@, e.1@, e.2@))
                            =~= prev.map_values(
                            |e: (String, String, ForeignKey)| (e.0@, e.1@, e.2@),
                        ) + seq![ev]);
                        assert(ev == (tv[i as int].schema, tv[i as int].name, fks[f as int]));
                        assert((prev.map_values(|e: (String, String, ForeignKey)| (e.0@, e.1@, e.2@))
                            + seq![ev]) + (spec_ref_fks(tv[i as int], fks.subrange(f + 1, fks.len() as int), schema@, table@)
                            + spec_referencing(tv.subrange(i + 1, tv.len() as int), schema@, table@))
                            =~= prev.map_values(|e: (String, String, ForeignKey)| (e.0@, e.1@, e.2@))
                            + (seq![ev] + spec_ref_fks(tv[i as int], fks.subrange(f + 1, fks.len() as int), schema@, table@)
                            + spec_referencing(tv.subrange(i + 1, tv.len() as int), schema@, table@)));
                    }
                }
                f += 1;
            }
            proof {
                assert(fks.subrange(f as int, fks.len() as int) =~= Seq::<FkV>::empty());
            }
            i += 1;
        }
        proof {
            assert(tv.subrange(i as int, tv.len() as int) =~= Seq::<TableV>::empty());
            assert(out@.map_values(|e: (String, String, ForeignKey)| (e.0@, e.1@, e.2@))
                + Seq::<(Seq<char>, Seq<char>, FkV)>::empty() =~= out@.map_values(
                |e: (String, String, ForeignKey)| (e.0@, e.1@, e.2@),
            ));
        }
        out
    }

    /// Whether the catalog spans more than one schema name,
    /// case-insensitively.
    pub fn has_multiple_schemas(&self) -> (r: bool)
        ensures
            r == exists|i: int, j: int|
                0 <= i < self.tables@.len() && 0 <= j < self.tables@.len() && !text::eq_ci(
                    self.tables@[i]@.schema,
                    self.tables@[j]@.schema,
                ),
    {
        if self.tables.len() == 0 {
            return false;
        }
        let first = &self.tables[0];
        let mut i: usize = 1;
        while i < self.tables.len()
            invariant
                self.tables@.len() > 0,
                first == &self.tables@[0],
                1 <= i <= self.tables@.len(),
                forall|k: int|
                    0 <= k < i ==> text::eq_ci(self.tables@[k]@.schema, self.tables@[0]@.schema),
            decreases self.tables.len() - i,
        {
            if !text::eq_ignore_case(self.tables[i].schema.as_str(), first.schema.as_str()) {
                proof {
                    assert(!text::eq_ci(
                        self.tables@[i as int]@.schema,
                        self.tables@[0]@.schema,
                    ));
                }
                return true;
            }
            proof {
                assert(text::eq_ci(self.tables@[i as int]@.schema, self.tables@[0]@.schema));
            }
            i += 1;
        }
        proof {
            assert forall|a: int, b: int|
                0 <= a < self.tables@.len() && 0 <= b < self.tables@.len() implies text::eq_ci(
                self.tables@[a]@.schema,
                self.tables@[b]@.schema,
            ) by {
                assert(text::eq_ci(self.tables@[a]@.schema, self.tables@[0]@.schema));
                assert(text::eq_ci(self.tables@[b]@.schema, self.tables@[0]@.schema));
            }
        }
        false
    }

    /// Resolves an embed: first a foreign key of the source pointing at
    /// a table answering to `embed_name` (many-to-one); failing that,
    /// the first referencing table answering to it (one-to-many).
    pub fn find_embed(
        &self,
        source_schema: &str,
        source_table: &str,
        embed_name: &str,
        hint_fk: Option<&str>,
    ) -> (r: Option<EmbedInfo>)
        ensures
            ({
                let hint = match hint_fk {
                    Some(h) => Some(h@),
                    None => None,
                };
                match r {
                    Some(e) => spec_find_embed(
                        tables_view(self.tables@),
                        source_schema@,
                        source_table@,
                        embed_name@,
                        hint,
                    ) == Some(e@),
                    None => spec_find_embed(
                        tables_view(self.tables@),
                        source_schema@,
                        source_table@,
                        embed_name@,
                        hint,
                    ) is None,
                }
            }),
    {
        let ghost tv = tables_view(self.tables@);
        let ghost hint: Option<Seq<char>> = match hint_fk {
            Some(h) => Some(h@),
            None => None,
        };
        let source = match self.get_table(source_schema, source_table) {
            Some(t) => t,
            None => {
                proof {
                    lemma_first_ci_none(tv, source_schema@, source_table@);
                }
                return None;
            },
        };
        proof {
            if exists|i: int|
                0 <= i < tv.len() && source@ == tv[i] && table_key_eq(
                    tv[i],
                    source_schema@,
                    source_table@,
                ) && forall|j: int| 0 <= j < i ==> !table_key_eq(tv[j], source_schema@, source_table@) {
                let w = choose|i: int|
                    0 <= i < tv.len() && source@ == tv[i] && table_key_eq(
                        tv[i],
                        source_schema@,
                        source_table@,
                    ) && forall|j: int|
                        0 <= j < i ==> !table_key_eq(tv[j], source_schema@, source_table@);
                lemma_first_ci_of_exact(tv, source_schema@, source_table@, w);
            } else {
                let w = choose|i: int|
                    0 <= i < tv.len() && source@ == tv[i] && table_key_ci(
                        tv[i],
                        source_schema@,
                        source_table@,
                    ) && forall|j: int|
                        0 <= j < i ==> !table_key_ci(tv[j], source_schema@, source_table@);
                lemma_first_ci_of_ci(tv, source_schema@, source_table@, w);
            }
            assert(spec_first_ci_table(tv, source_schema@, source_table@) == Some(source@));
        }
        let ghost fks = source@.foreign_keys;
        let mut f: usize = 0;
        proof {
            assert(fks.subrange(0, fks.len() as int) =~= fks);
        }
        let mut name_id = embed_name.to_owned();
        name_id.append("_id");
        while f < source.foreign_keys.len()
            invariant
                name_id@ == embed_name@ + "_id"@,
                tv == tables_view(self.tables@),
                spec_first_ci_table(tv, source_schema@, source_table@) == Some(source@),
                fks == source@.foreign_keys,
                fks.len() == source.foreign_keys@.len(),
                forall|k: int| 0 <= k < fks.len() ==> fks[k] == source.foreign_keys@[k]@,
                f <= source.foreign_keys.len(),
                hint == (match hint_fk {
                    Some(h) => Some(h@),
                    None => None,
                }),
                forall|j: int| 0 <= j < f ==> !fk_resolves(fks[j], embed_name@, hint),
            decreases source.foreign_keys.len() - f,
        {
            let fk = &source.foreign_keys[f];
            let hint_ok = match hint_fk {
                Some(h) => text::eq_ignore_case(fk.constraint_name.as_str(), h),
                None => true,
            };
            if (text::eq_ignore_case(fk.ref_table.as_str(), embed_name) || text::eq_ignore_case(
                fk.column_name.as_str(),
                name_id.as_str(),
            )) && hint_ok {
                let e = EmbedInfo {
                    target_schema: fk.ref_schema.clone(),
                    target_table: fk.ref_table.clone(),
                    join_type: EmbedJoinType::ManyToOne,
                    source_column: fk.column_name.clone(),
                    target_column: fk.ref_column.clone(),
                };
                proof {
                    let w = f as int;
                    assert(fk_resolves(fks[w], embed_name@, hint));
                    lemma_first_fk_found(fks, embed_name@, hint, w);
                    assert(e@ == many_to_one_of(fks[w]));
                    assert(spec_find_embed(tv, source_schema@, source_table@, embed_name@, hint)
                        == Some(e@));
                }
                return Some(e);
            }
            f += 1;
        }
        proof {
            lemma_first_fk_none(fks, embed_name@, hint);
        }
        let refs = self.referencing_tables(source_schema, source_table);
        let ghost rv = spec_referencing(tv, source_schema@, source_table@);
        let mut k: usize = 0;
        while k < refs.len()
            invariant
                tv == tables_view(self.tables@),
                spec_first_ci_table(tv, source_schema@, source_table@) == Some(source@),
                spec_first_fk(source@.foreign_keys, embed_name@, hint) is None,
                rv == spec_referencing(tv, source_schema@, source_table@),
                rv == refs@.map_values(|e: (String, String, ForeignKey)| (e.0@, e.1@, e.2@)),
                rv.len() == refs@.len(),
                k <= refs.len(),
                hint == (match hint_fk {
                    Some(h) => Some(h@),
                    None => None,
                }),
                forall|j: int| 0 <= j < k ==> !rev_entry_resolves(rv[j], embed_name@, hint),
            decreases refs.len() - k,
        {
            proof {
                assert(rv[k as int] == (refs@[k as int].0@, refs@[k as int].1@, refs@[k as int].2@));
            }
            let entry = &refs[k];
            let hint_ok = match hint_fk {
                Some(h) => text::eq_ignore_case(entry.2.constraint_name.as_str(), h),
                None => true,
            };
            if text::eq_ignore_case(entry.1.as_str(), embed_name) && hint_ok {
                let e = EmbedInfo {
                    target_schema: entry.0.clone(),
                    target_table: entry.1.clone(),
                    join_type: EmbedJoinType::OneToMany,
                    source_column: entry.2.ref_column.clone(),
                    target_column: entry.2.column_name.clone(),
                };
                proof {
                    let w = k as int;
                    assert(rev_entry_resolves(rv[w], embed_name@, hint));
                    lemma_first_rev_found(rv, embed_name@, hint, w);
                    assert(e@ == one_to_many_entry(rv[w]));
                    assert(spec_find_embed(tv, source_schema@, source_table@, embed_name@, hint)
                        == Some(e@));
                }
                return Some(e);
            }
            k += 1;
        }
        proof {
            lemma_first_rev_none(rv, embed_name@, hint);
        }
        None
    }
}

/// The referencing entries contributed by the foreign keys `fks` of
/// table `t`.
pub open spec fn spec_ref_fks(t: TableV, fks: Seq<FkV>, schema: Seq<char>, table: Seq<char>) -> Seq<
    (Seq<char>, Seq<char>, FkV),
>
    decreases fks.len(),
{
    if fks.len() == 0 {
        Seq::empty()
    } else {
        let rest = spec_ref_fks(t, fks.subrange(1, fks.len() as int), schema, table);
        if text::eq_ci(fks[0].ref_schema, schema) && text::eq_ci(fks[0].ref_table, table) {
            seq![(t.schema, t.name, fks[0])] + rest
        } else {
            rest
        }
    }
}

/// Every `(schema, table, foreign key)` entry in the catalog whose key
/// points at `(schema, table)`, in catalog order.
pub open spec fn spec_referencing(tables: Seq<TableV>, schema: Seq<char>, table: Seq<char>) -> Seq<
    (Seq<char>, Seq<char>, FkV),
>
    decreases tables.len(),
{
    if tables.len() == 0 {
        Seq::empty()
    } else {
        spec_ref_fks(tables[0], tables[0].foreign_keys, schema, table) + spec_referencing(
            tables.subrange(1, tables.len() as int),
            schema,
            table,
        )
    }
}

/// The table `get_table` answers with, as a model value.
pub open spec fn spec_first_ci_table(
    tables: Seq<TableV>,
    schema: Seq<char>,
    table: Seq<char>,
) -> Option<TableV>
    decreases tables.len(),
{
    if exists|i: int|
        0 <= i < tables.len() && table_key_eq(#[trigger] tables[i], schema, table) {
        if tables.len() == 0 {
            None
        } else if table_key_eq(tables[0], schema, table) {
            Some(tables[0])
        } else {
            spec_first_ci_table(tables.subrange(1, tables.len() as int), schema, table)
        }
    } else {
        if tables.len() == 0 {
            None
        } else if table_key_ci(tables[0], schema, table) {
            Some(tables[0])
        } else {
            spec_first_ci_table(tables.subrange(1, tables.len() as int), schema, table)
        }
    }
}

/// An exact key match is also a case-insensitive one.
pub proof fn lemma_eq_implies_ci(t: TableV, schema: Seq<char>, table: Seq<char>)
    requires
        table_key_eq(t, schema, table),
    ensures
        table_key_ci(t, schema, table),
{
}

pub proof fn lemma_first_ci_of_exact(tables: Seq<TableV>, schema: Seq<char>, table: Seq<char>, w: int)
    requires
        0 <= w < tables.len(),
        table_key_eq(tables[w], schema, table),
        forall|j: int| 0 <= j < w ==> !table_key_eq(tables[j], schema, table),
    ensures
        spec_first_ci_table(tables, schema, table) == Some(tables[w]),
    decreases w,
{
    assert(exists|i: int| 0 <= i < tables.len() && table_key_eq(#[trigger] tables[i], schema, table));
    if w == 0 {
    } else {
        let tail = tables.subrange(1, tables.len() as int);
        assert(tail[w - 1] == tables[w]);
        assert forall|j: int| 0 <= j < w - 1 implies !table_key_eq(tail[j], schema, table) by {
            assert(tail[j] == tables[j + 1]);
        }
        lemma_first_ci_of_exact(tail, schema, table, w - 1);
    }
}

pub proof fn lemma_first_ci_of_ci(tables: Seq<TableV>, schema: Seq<char>, table: Seq<char>, w: int)
    requires
        0 <= w < tables.len(),
        table_key_ci(tables[w], schema, table),
        forall|j: int| 0 <= j < w ==> !table_key_ci(tables[j], schema, table),
        forall|j: int| 0 <= j < tables.len() ==> !table_key_eq(#[trigger] tables[j], schema, table),
    ensures
        spec_first_ci_table(tables, schema, table) == Some(tables[w]),
    decreases w,
{
    if w == 0 {
    } else {
        let tail = tables.subrange(1, tables.len() as int);
        assert(tail[w - 1] == tables[w]);
        assert forall|j: int| 0 <= j < w - 1 implies !table_key_ci(tail[j], schema, table) by {
            assert(tail[j] == tables[j + 1]);
        }
        assert forall|j: int| 0 <= j < tail.len() implies !table_key_eq(
            #[trigger] tail[j],
            schema,
            table,
        ) by {
            assert(tail[j] == tables[j + 1]);
        }
        lemma_first_ci_of_ci(tail, schema, table, w - 1);
    }
}

pub proof fn lemma_first_ci_none(tables: Seq<TableV>, schema: Seq<char>, table: Seq<char>)
    requires
        forall|j: int| 0 <= j < tables.len() ==> !table_key_ci(#[trigger] tables[j], schema, table),
    ensures
        spec_first_ci_table(tables, schema, table) is None,
    decreases tables.len(),
{
    assert forall|j: int| 0 <= j < tables.len() implies !table_key_eq(
        #[trigger] tables[j],
        schema,
        table,
    ) by {
        if table_key_eq(tables[j], schema, table) {
            lemma_eq_implies_ci(tables[j], schema, table);
        }
    }
    if tables.len() > 0 {
        let tail = tables.subrange(1, tables.len() as int);
        assert forall|j: int| 0 <= j < tail.len() implies !table_key_ci(
            #[trigger] tail[j],
            schema,
            table,
        ) by {
            assert(tail[j] == tables[j + 1]);
        }
        lemma_first_ci_none(tail, schema, table);
    }
}

/// The first foreign key of `fks` resolving the embed, if any.
pub open spec fn spec_first_fk(fks: Seq<FkV>, name: Seq<char>, hint: Option<Seq<char>>) -> Option<
    FkV,
>
    decreases fks.len(),
{
    if fks.len() == 0 {
        None
    } else if fk_resolves(fks[0], name, hint) {
        Some(fks[0])
    } else {
        spec_first_fk(fks.subrange(1, fks.len() as int), name, hint)
    }
}

proof fn lemma_first_fk_found(fks: Seq<FkV>, name: Seq<char>, hint: Option<Seq<char>>, w: int)
    requires
        0 <= w < fks.len(),
        fk_resolves(fks[w], name, hint),
        forall|j: int| 0 <= j < w ==> !fk_resolves(fks[j], name, hint),
    ensures
        spec_first_fk(fks, name, hint) == Some(fks[w]),
    decreases w,
{
    if w == 0 {
    } else {
        let tail = fks.subrange(1, fks.len() as int);
        assert(tail[w - 1] == fks[w]);
        assert forall|j: int| 0 <= j < w - 1 implies !fk_resolves(tail[j], name, hint) by {
            assert(tail[j] == fks[j + 1]);
        }
        lemma_first_fk_found(tail, name, hint, w - 1);
    }
}

proof fn lemma_first_fk_none(fks: Seq<FkV>, name: Seq<char>, hint: Option<Seq<char>>)
    requires
        forall|j: int| 0 <= j < fks.len() ==> !fk_resolves(fks[j], name, hint),
    ensures
        spec_first_fk(fks, name, hint) is None,
    decreases fks.len(),
{
    if fks.len() > 0 {
        let tail = fks.subrange(1, fks.len() as int);
        assert forall|j: int| 0 <= j < tail.len() implies !fk_resolves(tail[j], name, hint) by {
            assert(tail[j] == fks[j + 1]);
        }
        lemma_first_fk_none(tail, name, hint);
    }
}

/// A referencing entry resolves the embed in the one-to-many direction.
pub open spec fn rev_entry_resolves(
    e: (Seq<char>, Seq<char>, FkV),
    name: Seq<char>,
    hint: Option<Seq<char>>,
) -> bool {
    text::eq_ci(e.1, name) && (match hint {
        Some(h) => text::eq_ci(e.2.constraint_name, h),
        None => true,
    })
}

/// The one-to-many join taken from a referencing entry.
pub open spec fn one_to_many_entry(e: (Seq<char>, Seq<char>, FkV)) -> EmbedInfoV {
    EmbedInfoV {
        target_schema: e.0,
        target_table: e.1,
        join_type: EmbedJoinType::OneToMany,
        source_column: e.2.ref_column,
        target_column: e.2.column_name,
    }
}

/// The first referencing entry resolving the embed, if any.
pub open spec fn spec_first_rev(
    entries: Seq<(Seq<char>, Seq<char>, FkV)>,
    name: Seq<char>,
    hint: Option<Seq<char>>,
) -> Option<(Seq<char>, Seq<char>, FkV)>
    decreases entries.len(),
{
    if entries.len() == 0 {
        None
    } else if rev_entry_resolves(entries[0], name, hint) {
        Some(entries[0])
    } else {
        spec_first_rev(entries.subrange(1, entries.len() as int), name, hint)
    }
}

proof fn lemma_first_rev_found(
    entries: Seq<(Seq<char>, Seq<char>, FkV)>,
    name: Seq<char>,
    hint: Option<Seq<char>>,
    w: int,
)
    requires
        0 <= w < entries.len(),
        rev_entry_resolves(entries[w], name, hint),
        forall|j: int| 0 <= j < w ==> !rev_entry_resolves(entries[j], name, hint),
    ensures
        spec_first_rev(entries, name, hint) == Some(entries[w]),
    decreases w,
{
    if w == 0 {
    } else {
        let tail = entries.subrange(1, entries.len() as int);
        assert(tail[w - 1] == entries[w]);
        assert forall|j: int| 0 <= j < w - 1 implies !rev_entry_resolves(tail[j], name, hint) by {
            assert(tail[j] == entries[j + 1]);
        }
        lemma_first_rev_found(tail, name, hint, w - 1);
    }
}

proof fn lemma_first_rev_none(
    entries: Seq<(Seq<char>, Seq<char>, FkV)>,
    name: Seq<char>,
    hint: Option<Seq<char>>,
)
    requires
        forall|j: int| 0 <= j < entries.len() ==> !rev_entry_resolves(entries[j], name, hint),
    ensures
        spec_first_rev(entries, name, hint) is None,
    decreases entries.len(),
{
    if entries.len() > 0 {
        let tail = entries.subrange(1, entries.len() as int);
        assert forall|j: int| 0 <= j < tail.len() implies !rev_entry_resolves(
            tail[j],
            name,
            hint,
        ) by {
            assert(tail[j] == entries[j + 1]);
        }
        lemma_first_rev_none(tail, name, hint);
    }
}

/// Model of `find_embed`: resolve against the source's own foreign keys
/// first (many-to-one), then against the reverse index (one-to-many).
pub open spec fn spec_find_embed(
    tables: Seq<TableV>,
    source_schema: Seq<char>,
    source_table: Seq<char>,
    name: Seq<char>,
    hint: Option<Seq<char>>,
) -> Option<EmbedInfoV> {
    match spec_first_ci_table(tables, source_schema, source_table) {
        None => None,
        Some(source) => match spec_first_fk(source.foreign_keys, name, hint) {
            Some(f) => Some(many_to_one_of(f)),
            None => match spec_first_rev(
                spec_referencing(tables, source_schema, source_table),
                name,
                hint,
            ) {
                Some(e) => Some(one_to_many_entry(e)),
                None => None,
            },
        },
    }
}

/// The first table answering exactly to `(schema, table)`, if any.
pub open spec fn first_exact_index(
    tables: Seq<TableInfo>,
    schema: Seq<char>,
    table: Seq<char>,
) -> Option<int>
    decreases tables.len(),
{
    if tables.len() == 0 {
        None
    } else if tables[0].schema@ == schema && tables[0].name@ == table {
        Some(0)
    } else {
        match first_exact_index(tables.subrange(1, tables.len() as int), schema, table) {
            Some(i) => Some(i + 1),
            None => None,
        }
    }
}

proof fn lemma_first_exact_found(
    tables: Seq<TableInfo>,
    schema: Seq<char>,
    table: Seq<char>,
    w: int,
)
    requires
        0 <= w < tables.len(),
        tables[w].schema@ == schema && tables[w].name@ == table,
        forall|j: int| 0 <= j < w ==> !(tables[j].schema@ == schema && tables[j].name@ == table),
    ensures
        first_exact_index(tables, schema, table) == Some(w),
    decreases w,
{
    if w > 0 {
        let tail = tables.subrange(1, tables.len() as int);
        assert(tail[w - 1] == tables[w]);
        assert forall|j: int|
            0 <= j < w - 1 implies !(tail[j].schema@ == schema && tail[j].name@ == table) by {
            assert(tail[j] == tables[j + 1]);
        }
        lemma_first_exact_found(tail, schema, table, w - 1);
    }
}

proof fn lemma_first_exact_none(tables: Seq<TableInfo>, schema: Seq<char>, table: Seq<char>)
    requires
        forall|j: int|
            0 <= j < tables.len() ==> !(tables[j].schema@ == schema && tables[j].name@ == table),
    ensures
        first_exact_index(tables, schema, table) is None,
    decreases tables.len(),
{
    if tables.len() > 0 {
        let tail = tables.subrange(1, tables.len() as int);
        assert forall|j: int|
            0 <= j < tail.len() implies !(tail[j].schema@ == schema && tail[j].name@ == table) by {
            assert(tail[j] == tables[j + 1]);
        }
        lemma_first_exact_none(tail, schema, table);
    }
}

/// What the catalog assembly changes in one table entry.
pub enum CatalogFact {
    AddColumn(ColumnInfo),
    AddPrimaryKey(String),
    AddForeignKey(ForeignKey),
    AddUniqueGroup(Vec<String>),
    MarkChangeTracking,
}

/// A table model with one assembly fact applied.
pub open spec fn apply_fact(t: TableV, fact: &CatalogFact) -> TableV {
    match fact {
        CatalogFact::AddColumn(c) => TableV { columns: t.columns.push(c@), ..t },
        CatalogFact::AddPrimaryKey(k) => TableV { primary_key: t.primary_key.push(k@), ..t },
        CatalogFact::AddForeignKey(f) => TableV { foreign_keys: t.foreign_keys.push(f@), ..t },
        CatalogFact::AddUniqueGroup(g) => TableV {
            unique_constraints: t.unique_constraints.push(g@.map_values(|s: String| s@)),
            ..t
        },
        CatalogFact::MarkChangeTracking => TableV { change_tracking_enabled: true, ..t },
    }
}

impl SchemaCache {
    /// Applies one introspection fact to the first table entry that
    /// answers exactly to `(schema, table)`; rows for unknown tables
    /// are passed over, as an all-or-nothing load demands. Says whether
    /// a table took the fact.
    pub fn apply_catalog_fact(&mut self, schema: &str, table: &str, fact: CatalogFact) -> (r: bool)
        ensures
            match first_exact_index(old(self).tables@, schema@, table@) {
                Some(i) => r && final(self).tables@.len() == old(self).tables@.len() && (forall|j: int|
                    0 <= j < old(self).tables@.len() && j != i ==> final(self).tables@[j] == old(
                        self,
                    ).tables@[j]) && final(self).tables@[i]@ == apply_fact(
                    old(self).tables@[i]@,
                    &fact,
                ),
                None => !r && final(self).tables@ == old(self).tables@,
            },
    {
        let ghost tv = self.tables@;
        let mut i: usize = 0;
        while i < self.tables.len()
            invariant
                self.tables@ == tv,
                tv == old(self).tables@,
                i <= tv.len(),
                forall|j: int|
                    0 <= j < i ==> !(tv[j].schema@ == schema@ && tv[j].name@ == table@),
            decreases self.tables.len() - i,
        {
            if crate::text::str_eq(self.tables[i].schema.as_str(), schema) && crate::text::str_eq(
                self.tables[i].name.as_str(),
                table,
            ) {
                proof {
                    lemma_first_exact_found(tv, schema@, table@, i as int);
                }
                let mut t = self.tables.remove(i);
                match fact {
                    CatalogFact::AddColumn(c) => {
                        t.columns.push(c);
                    },
                    CatalogFact::AddPrimaryKey(k) => {
                        t.primary_key.push(k);
                    },
                    CatalogFact::AddForeignKey(f) => {
                        t.foreign_keys.push(f);
                    },
                    CatalogFact::AddUniqueGroup(g) => {
                        t.unique_constraints.push(g);
                    },
                    CatalogFact::MarkChangeTracking => {
                        t.change_tracking_enabled = true;
                    },
                }
                self.tables.insert(i, t);
                proof {
                    assert(self.tables@.len() == tv.len());
                    assert forall|j: int|
                        0 <= j < tv.len() && j != i as int implies self.tables@[j] == tv[j] by {
                        if j < i as int {
                            assert(self.tables@[j] == tv.remove(i as int)[j]);
                        } else {
                            assert(self.tables@[j] == tv.remove(i as int)[j - 1]);
                        }
                    }
                    assert(self.tables@[i as int]@ == apply_fact(tv[i as int]@, &fact)) by {
                        let got = self.tables@[i as int]@;
                        let want = apply_fact(tv[i as int]@, &fact);
                        match &fact {
                            CatalogFact::AddColumn(_) => {
                                assert(got.columns =~= want.columns);
                            },
                            CatalogFact::AddPrimaryKey(_) => {
                                assert(got.primary_key =~= want.primary_key);
                            },
                            CatalogFact::AddForeignKey(_) => {
                                assert(got.foreign_keys =~= want.foreign_keys);
                            },
                            CatalogFact::AddUniqueGroup(_) => {
                                assert(got.unique_constraints =~= want.unique_constraints);
                            },
                            CatalogFact::MarkChangeTracking => {},
                        }
                    }
                }
                return true;
            }
            i += 1;
        }
        proof {
            lemma_first_exact_none(tv, schema@, table@);
        }
        false
    }
}

/// One catalog row of a unique constraint: schema, table, constraint
/// name and column, in the catalog's ordering.
pub type UniqueRowV = (Seq<char>, Seq<char>, Seq<char>, Seq<char>);

/// One folded unique-constraint group: schema, table, and the columns
/// of one constraint, in order.
pub type UniqueGroupV = (Seq<char>, Seq<char>, Seq<Seq<char>>);

/// Folding with the group under construction: a row of the same
/// schema, table and constraint extends it; any other row closes it.
pub open spec fn fold_unique_acc(
    rows: Seq<UniqueRowV>,
    key: (Seq<char>, Seq<char>, Seq<char>),
    group: Seq<Seq<char>>,
) -> Seq<UniqueGroupV>
    decreases rows.len(),
{
    if rows.len() == 0 {
        seq![(key.0, key.1, group)]
    } else if rows[0].0 == key.0 && rows[0].1 == key.1 && rows[0].2 == key.2 {
        fold_unique_acc(rows.subrange(1, rows.len() as int), key, group.push(rows[0].3))
    } else {
        seq![(key.0, key.1, group)] + fold_unique_acc(
            rows.subrange(1, rows.len() as int),
            (rows[0].0, rows[0].1, rows[0].2),
            seq![rows[0].3],
        )
    }
}

/// The unique-constraint rows grouped by consecutive equal
/// `(schema, table, constraint)` keys, keeping column order.
pub open spec fn spec_fold_unique(rows: Seq<UniqueRowV>) -> Seq<UniqueGroupV> {
    if rows.len() == 0 {
        Seq::empty()
    } else {
        fold_unique_acc(
            rows.subrange(1, rows.len() as int),
            (rows[0].0, rows[0].1, rows[0].2),
            seq![rows[0].3],
        )
    }
}

/// The views of the raw unique-constraint rows.
pub open spec fn unique_rows_view(
    rows: Seq<(String, String, String, String)>,
) -> Seq<UniqueRowV> {
    rows.map_values(|r: (String, String, String, String)| (r.0@, r.1@, r.2@, r.3@))
}

/// The views of the folded groups.
pub open spec fn unique_groups_view(
    groups: Seq<(String, String, Vec<String>)>,
) -> Seq<UniqueGroupV> {
    groups.map_values(
        |g: (String, String, Vec<String>)| (g.0@, g.1@, g.2@.map_values(|c: String| c@)),
    )
}

/// Folds the ordered unique-constraint rows into one group per
/// constraint, each holding its columns in order.
pub fn fold_unique_rows(rows: &Vec<(String, String, String, String)>) -> (r: Vec<
    (String, String, Vec<String>),
>)
    ensures
        unique_groups_view(r@) == spec_fold_unique(unique_rows_view(rows@)),
{
    let ghost rv = unique_rows_view(rows@);
    let mut out: Vec<(String, String, Vec<String>)> = Vec::new();
    if rows.len() == 0 {
        proof {
            assert(unique_groups_view(out@) =~= spec_fold_unique(rv));
        }
        return out;
    }
    let mut key_schema = rows[0].0.clone();
    let mut key_table = rows[0].1.clone();
    let mut key_constraint = rows[0].2.clone();
    let mut group: Vec<String> = Vec::new();
    group.push(rows[0].3.clone());
    let mut i: usize = 1;
    proof {
        assert(rv[0] == (rows@[0].0@, rows@[0].1@, rows@[0].2@, rows@[0].3@));
        assert(group@.map_values(|c: String| c@) =~= seq![rv[0].3]);
        assert(rv.subrange(1, rv.len() as int) =~= rv.subrange(i as int, rv.len() as int));
        assert(unique_groups_view(out@) + fold_unique_acc(
            rv.subrange(i as int, rv.len() as int),
            (key_schema@, key_table@, key_constraint@),
            group@.map_values(|c: String| c@),
        ) =~= spec_fold_unique(rv));
    }
    while i < rows.len()
        invariant
            rv == unique_rows_view(rows@),
            rv.len() == rows@.len(),
            forall|k: int|
                0 <= k < rv.len() ==> rv[k] == (
                rows@[k].0@,
                rows@[k].1@,
                rows@[k].2@,
                rows@[k].3@,
                ),
            1 <= i <= rows@.len(),
            spec_fold_unique(rv) == unique_groups_view(out@) + fold_unique_acc(
                rv.subrange(i as int, rv.len() as int),
                (key_schema@, key_table@, key_constraint@),
                group@.map_values(|c: String| c@),
            ),
        decreases rows.len() - i,
    {
        let ghost rest = rv.subrange(i as int, rv.len() as int);
        proof {
            assert(rest[0] == rv[i as int]);
            assert(rest.subrange(1, rest.len() as int) =~= rv.subrange(i + 1, rv.len() as int));
        }
        let same = crate::text::str_eq(rows[i].0.as_str(), key_schema.as_str())
            && crate::text::str_eq(rows[i].1.as_str(), key_table.as_str())
            && crate::text::str_eq(rows[i].2.as_str(), key_constraint.as_str());
        if same {
            let ghost prev = group@;
            group.push(rows[i].3.clone());
            proof {
                assert(group@.map_values(|c: String| c@) =~= prev.map_values(|c: String| c@).push(
                    rv[i as int].3,
                ));
            }
        } else {
            let done = (key_schema, key_table, key_constraint, group);
            let ghost prev_out = out@;
            out.push((done.0, done.1, done.3));
            key_schema = rows[i].0.clone();
            key_table = rows[i].1.clone();
            key_constraint = rows[i].2.clone();
            group = Vec::new();
            group.push(rows[i].3.clone());
            proof {
                assert(unique_groups_view(out@) =~= unique_groups_view(prev_out).push(
                    (out@[out@.len() - 1].0@, out@[out@.len() - 1].1@, out@[out@.len() - 1].2@.map_values(
                        |c: String| c@,
                    )),
                ));
                assert(group@.map_values(|c: String| c@) =~= seq![rv[i as int].3]);
                assert((unique_groups_view(prev_out) + seq![
                    (
                        out@[out@.len() - 1].0@,
                        out@[out@.len() - 1].1@,
                        out@[out@.len() - 1].2@.map_values(|c: String| c@),
                    ),
                ]) + fold_unique_acc(
                    rv.subrange(i + 1, rv.len() as int),
                    (key_schema@, key_table@, key_constraint@),
                    group@.map_values(|c: String| c@),
                ) =~= unique_groups_view(prev_out) + (seq![
                    (
                        out@[out@.len() - 1].0@,
                        out@[out@.len() - 1].1@,
                        out@[out@.len() - 1].2@.map_values(|c: String| c@),
                    ),
                ] + fold_unique_acc(
                    rv.subrange(i + 1, rv.len() as int),
                    (key_schema@, key_table@, key_constraint@),
                    group@.map_values(|c: String| c@),
                )));
            }
        }
        i += 1;
    }
    let ghost prev_out = out@;
    out.push((key_schema, key_table, group));
    proof {
        assert(rv.subrange(i as int, rv.len() as int) =~= Seq::<UniqueRowV>::empty());
        assert(unique_groups_view(out@) =~= unique_groups_view(prev_out).push(
            (out@[out@.len() - 1].0@, out@[out@.len() - 1].1@, out@[out@.len() - 1].2@.map_values(
                |c: String| c@,
            )),
        ));
    }
    out
}

} // verus!
