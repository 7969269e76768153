//! SQL generation tests: the statement builders, the request planner,
//! and the end-to-end read and mutation scenarios.

use lazypaw::handlers::{
    build_dml_script, build_filters_from_params, build_read_script, collect_insert_params,
    json_value_to_sql_string, object_columns, parse_range_header, resolve_table_path,
};
use lazypaw::jsonval::JsonVal;
use lazypaw::query::{
    build_delete, build_insert, build_select, build_update, build_upsert, build_where_clause,
    escape_ident, parse_order,
};
use lazypaw::response::{build_content_range, TxPreference};
use lazypaw::schema::{ColumnInfo, SchemaCache, TableInfo};
use lazypaw::select::parse_select;

fn col(name: &str, data_type: &str, ordinal: i32) -> ColumnInfo {
    ColumnInfo {
        name: name.to_string(),
        data_type: data_type.to_string(),
        max_length: None,
        precision: None,
        scale: None,
        is_nullable: true,
        ordinal_position: ordinal,
        is_identity: false,
        has_default: false,
        is_computed: false,
    }
}

fn people() -> TableInfo {
    TableInfo {
        name: "people".to_string(),
        schema: "dbo".to_string(),
        columns: vec![col("id", "int", 1), col("name", "nvarchar", 2), col("age", "int", 3)],
        primary_key: vec!["id".to_string()],
        foreign_keys: vec![],
        unique_constraints: vec![],
        is_view: false,
        change_tracking_enabled: false,
    }
}

#[test]
fn test_read_scenario_with_order_and_limit() {
    let table = people();
    let select_nodes = parse_select("*").unwrap();
    let params = vec![("name".to_string(), "eq.alice".to_string())];
    let filters = build_filters_from_params(&params, &table).unwrap();
    let order = parse_order("age.desc.nullslast").unwrap();
    let built = build_select(&table, &select_nodes, &filters, &order, Some(10), None, false)
        .unwrap();
    assert_eq!(
        built.sql,
        "SELECT [id], [name], [age] FROM [dbo].[people] WHERE ([name] = @P1) \
         ORDER BY CASE WHEN [age] IS NULL THEN 1 ELSE 0 END, [age] DESC \
         OFFSET 0 ROWS FETCH NEXT 10 ROWS ONLY"
    );
    assert_eq!(built.params, vec!["alice".to_string()]);
}

#[test]
fn test_read_scenario_with_or_group() {
    let table = people();
    let select_nodes = parse_select("*").unwrap();
    let params = vec![("or".to_string(), "(age.gt.18,name.like.*a*)".to_string())];
    let filters = build_filters_from_params(&params, &table).unwrap();
    let built = build_select(&table, &select_nodes, &filters, &vec![], None, None, false)
        .unwrap();
    assert_eq!(
        built.sql,
        "SELECT [id], [name], [age] FROM [dbo].[people] \
         WHERE (([age] > @P1) OR ([name] LIKE @P2))"
    );
    assert_eq!(built.params, vec!["18".to_string(), "%a%".to_string()]);
}

#[test]
fn test_insert_scenario_two_rows() {
    let table = people();
    let objects: Vec<Vec<(String, JsonVal)>> = vec![
        vec![("name".to_string(), JsonVal::Str("bob".to_string()))],
        vec![("name".to_string(), JsonVal::Str("eve".to_string()))],
    ];
    let columns = object_columns(&objects[0]);
    let built = build_insert(&table, &columns, objects.len()).unwrap();
    assert_eq!(
        built.sql,
        "INSERT INTO [dbo].[people] ([name]) \
         OUTPUT inserted.[id], inserted.[name], inserted.[age] VALUES (@P1), (@P2)"
    );
    let values = collect_insert_params(&objects, &columns);
    assert_eq!(values, vec!["bob".to_string(), "eve".to_string()]);
}

#[test]
fn test_update_scenario_by_key() {
    let table = people();
    let params = vec![("id".to_string(), "eq.7".to_string())];
    let filters = build_filters_from_params(&params, &table).unwrap();
    let columns = vec!["name".to_string()];
    let built = build_update(&table, &columns, &filters).unwrap();
    assert_eq!(
        built.sql,
        "UPDATE [dbo].[people] SET [name] = @P1 \
         OUTPUT inserted.[id], inserted.[name], inserted.[age] WHERE ([id] = @P2)"
    );
    assert_eq!(built.params, vec!["7".to_string()]);
    let set_value = json_value_to_sql_string(&JsonVal::Str("bob".to_string()));
    assert_eq!(set_value, "bob");
}

#[test]
fn test_delete_without_filters_targets_all_rows() {
    let table = people();
    let built = build_delete(&table, &vec![]).unwrap();
    assert_eq!(
        built.sql,
        "DELETE FROM [dbo].[people] OUTPUT deleted.[id], deleted.[name], deleted.[age]"
    );
    assert!(built.params.is_empty());
}

#[test]
fn test_upsert_matches_on_primary_key() {
    let table = people();
    let columns = vec!["id".to_string(), "name".to_string()];
    let built = build_upsert(&table, &columns, 1).unwrap();
    assert_eq!(
        built.sql,
        "MERGE [dbo].[people] AS target USING (SELECT @P1 AS [id], @P2 AS [name]) \
         AS source ([id], [name]) ON target.[id] = source.[id] \
         WHEN MATCHED THEN UPDATE SET target.[name] = source.[name] \
         WHEN NOT MATCHED THEN INSERT ([id], [name]) VALUES (source.[id], source.[name]) \
         OUTPUT inserted.[id], inserted.[name], inserted.[age];"
    );
}

#[test]
fn test_upsert_without_key_is_bad_request() {
    let mut table = people();
    table.primary_key.clear();
    let r = build_upsert(&table, &vec!["name".to_string()], 1);
    assert!(r.is_err());
}

#[test]
fn test_empty_in_list_is_never_true() {
    let table = people();
    let params = vec![("id".to_string(), "in.()".to_string())];
    let filters = build_filters_from_params(&params, &table).unwrap();
    let mut bound: Vec<String> = Vec::new();
    let clause = build_where_clause(&filters, &mut bound).unwrap();
    assert_eq!(clause, "(1=0)");
    assert!(bound.is_empty());
}

#[test]
fn test_order_without_pagination_adds_no_offset() {
    let table = people();
    let select_nodes = parse_select("*").unwrap();
    let order = parse_order("name.asc").unwrap();
    let built = build_select(&table, &select_nodes, &vec![], &order, None, None, false).unwrap();
    assert_eq!(built.sql, "SELECT [id], [name], [age] FROM [dbo].[people] ORDER BY [name] ASC");
    assert!(!built.sql.contains("OFFSET"));
}

#[test]
fn test_range_header_single_row() {
    let (limit, offset) = parse_range_header(Some("0-0"));
    assert_eq!(limit, Some(1));
    assert_eq!(offset, Some(0));
    let table = people();
    let select_nodes = parse_select("*").unwrap();
    let built = build_select(&table, &select_nodes, &vec![], &vec![], limit, offset, false)
        .unwrap();
    assert!(built.sql.ends_with("ORDER BY [id] ASC OFFSET 0 ROWS FETCH NEXT 1 ROWS ONLY"));
}

#[test]
fn test_is_operand_is_case_insensitive() {
    let table = people();
    let upper = build_filters_from_params(
        &vec![("name".to_string(), "is.NULL".to_string())],
        &table,
    )
    .unwrap();
    let lower = build_filters_from_params(
        &vec![("name".to_string(), "is.null".to_string())],
        &table,
    )
    .unwrap();
    let mut p1: Vec<String> = Vec::new();
    let mut p2: Vec<String> = Vec::new();
    let w_upper = build_where_clause(&upper, &mut p1).unwrap();
    let w_lower = build_where_clause(&lower, &mut p2).unwrap();
    assert_eq!(w_upper, w_lower);
    assert_eq!(w_upper, "[name] IS NULL");
}

#[test]
fn test_negated_filters() {
    let table = people();
    let filters = build_filters_from_params(
        &vec![("name".to_string(), "not.eq.alice".to_string())],
        &table,
    )
    .unwrap();
    let mut bound: Vec<String> = Vec::new();
    let clause = build_where_clause(&filters, &mut bound).unwrap();
    assert_eq!(clause, "NOT ([name] = @P1)");
    let is_not = build_filters_from_params(
        &vec![("name".to_string(), "not.is.null".to_string())],
        &table,
    )
    .unwrap();
    let mut bound2: Vec<String> = Vec::new();
    let clause2 = build_where_clause(&is_not, &mut bound2).unwrap();
    assert_eq!(clause2, "[name] IS NOT NULL");
}

#[test]
fn test_build_select_is_repeatable() {
    let table = people();
    let select_nodes = parse_select("id,name").unwrap();
    let params = vec![("age".to_string(), "gte.21".to_string())];
    let f1 = build_filters_from_params(&params, &table).unwrap();
    let f2 = build_filters_from_params(&params, &table).unwrap();
    let order = parse_order("id.asc").unwrap();
    let a = build_select(&table, &select_nodes, &f1, &order, Some(5), Some(10), false).unwrap();
    let b = build_select(&table, &select_nodes, &f2, &order, Some(5), Some(10), false).unwrap();
    assert_eq!(a.sql, b.sql);
    assert_eq!(a.params, b.params);
}

#[test]
fn test_count_only_statement() {
    let table = people();
    let select_nodes = parse_select("*").unwrap();
    let built = build_select(&table, &select_nodes, &vec![], &vec![], None, None, true).unwrap();
    assert_eq!(built.sql, "SELECT COUNT(*) AS [count] FROM [dbo].[people]");
}

#[test]
fn test_escape_ident_doubles_brackets() {
    assert_eq!(escape_ident("plain"), "plain");
    assert_eq!(escape_ident("we]ird"), "we]]ird");
}

#[test]
fn test_full_name_escapes_both_parts() {
    let mut table = people();
    table.name = "we]ird".to_string();
    assert_eq!(table.full_name(), "[dbo].[we]]ird]");
}

#[test]
fn test_call_builder() {
    let built = lazypaw::query::build_call("refresh_totals", &vec![]);
    assert_eq!(built.sql, "EXEC [refresh_totals]");
    let built2 = lazypaw::query::build_call(
        "do_thing",
        &vec!["a".to_string(), "b".to_string()],
    );
    assert_eq!(built2.sql, "EXEC [do_thing] @a = @P1, @b = @P2");
    let built3 = lazypaw::query::build_call("we]ird'x", &vec![]);
    assert_eq!(built3.sql, "EXEC [we]]ird''x]");
}

#[test]
fn test_parser_errors_name_the_fragment() {
    match lazypaw::select::parse_select("*,orders(id") {
        Err(lazypaw::error::Error::BadRequest(m)) => {
            assert_eq!(m, "Unmatched parenthesis in select: orders(id");
        }
        _ => panic!("Expected a bad request naming the token"),
    }
    match lazypaw::filters::parse_logic_group("(name.resembles.x)") {
        Err(lazypaw::error::Error::BadRequest(m)) => {
            assert_eq!(m, "Unknown filter expression: resembles.x");
        }
        _ => panic!("Expected a bad request naming the expression"),
    }
    match lazypaw::filters::parse_logic_group("(bogus)") {
        Err(lazypaw::error::Error::BadRequest(m)) => {
            assert_eq!(m, "Invalid filter in group: bogus");
        }
        _ => panic!("Expected a bad request naming the piece"),
    }
}

#[test]
fn test_fts_predicate() {
    let table = people();
    let filters = build_filters_from_params(
        &vec![("name".to_string(), "fts.cats".to_string())],
        &table,
    )
    .unwrap();
    let mut bound: Vec<String> = Vec::new();
    let clause = build_where_clause(&filters, &mut bound).unwrap();
    assert_eq!(clause, "CONTAINS([name], @P1)");
    assert_eq!(bound, vec!["cats".to_string()]);
}

#[test]
fn test_resolve_table_path_segments() {
    let r = resolve_table_path("people", "dbo").unwrap();
    assert_eq!(r, ("dbo".to_string(), "people".to_string()));
    let r2 = resolve_table_path("sales/orders", "dbo").unwrap();
    assert_eq!(r2, ("sales".to_string(), "orders".to_string()));
    assert!(resolve_table_path("a/b/c", "dbo").is_err());
}

#[test]
fn test_unknown_and_reserved_keys_are_ignored() {
    let table = people();
    let params = vec![
        ("select".to_string(), "id".to_string()),
        ("nosuchcolumn".to_string(), "eq.1".to_string()),
        ("orders.status".to_string(), "eq.paid".to_string()),
        ("age".to_string(), "lt.30".to_string()),
    ];
    let filters = build_filters_from_params(&params, &table).unwrap();
    assert_eq!(filters.len(), 1);
}

#[test]
fn test_content_range_values() {
    assert_eq!(build_content_range(0, 0, None), "0-0/*");
    assert_eq!(build_content_range(10, 5, Some(100)), "10-14/100");
}

#[test]
fn test_dml_script_honors_rollback() {
    let ctx: Vec<String> = Vec::new();
    let script = build_dml_script(&ctx, "DELETE FROM [dbo].[people]", TxPreference::Rollback);
    assert_eq!(
        script,
        "SET NOCOUNT ON;\nBEGIN TRANSACTION;\nDELETE FROM [dbo].[people]\nROLLBACK TRANSACTION;"
    );
    let commit = build_dml_script(&ctx, "DELETE FROM [dbo].[people]", TxPreference::Commit);
    assert!(commit.ends_with("COMMIT TRANSACTION;"));
    let read = build_read_script(&ctx, "SELECT 1");
    assert_eq!(read, "SET NOCOUNT ON;\nSELECT 1");
}

#[test]
fn test_schema_lookup_is_case_insensitive() {
    let schema = SchemaCache { tables: vec![people()] };
    assert!(schema.get_table("DBO", "People").is_some());
    assert!(schema.get_table("dbo", "missing").is_none());
    assert!(!schema.has_multiple_schemas());
}
