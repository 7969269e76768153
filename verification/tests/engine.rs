//! Engine tests: embeds, the change feed, responses, errors, and the
//! session prologue.

use lazypaw::auth::{
    build_revert_sql, build_session_context_sql, escape_literal, plan_authentication, resolve_role,
    AuthDecision, Claims,
};
use lazypaw::config::{AppConfig, AuthMode, DbAuthMode};
use lazypaw::error::{sql_error_to_status, Error};
use lazypaw::handlers::{attach_embed, build_embed_query, collect_embed_keys, resolve_embed, build_mutation_response};
use lazypaw::jsonval::{json_to_string, JsonVal};
use lazypaw::num::{parse_i64, i64_to_string};
use lazypaw::realtime::{
    change_record, filter_matches, parse_client_message, server_message_json, ChangeOp,
    ClientMessage, ServerMessage, SubscriptionRegistry,
};
use lazypaw::response::{parse_accept, parse_prefer, rows_to_csv, rows_to_json, Preferences, ResponseFormat, ReturnMode, TxPreference};
use lazypaw::schema::{CatalogFact, ColumnInfo, EmbedJoinType, ForeignKey, SchemaCache, TableInfo};
use lazypaw::select::parse_select;
use lazypaw::types::{format_decimal, sql_type_to_openapi};
use lazypaw::openapi::swagger_ui_html;
use lazypaw::filters::parse_filter;

fn col(name: &str, ordinal: i32) -> ColumnInfo {
    ColumnInfo {
        name: name.to_string(),
        data_type: "nvarchar".to_string(),
        max_length: None,
        precision: None,
        scale: None,
        is_nullable: true,
        ordinal_position: ordinal,
        is_identity: false,
        has_default: false,
        is_computed: false,
    }
}

fn orders() -> TableInfo {
    TableInfo {
        name: "orders".to_string(),
        schema: "dbo".to_string(),
        columns: vec![col("id", 1), col("customer_id", 2), col("status", 3)],
        primary_key: vec!["id".to_string()],
        foreign_keys: vec![ForeignKey {
            constraint_name: "fk_orders_customer".to_string(),
            column_name: "customer_id".to_string(),
            ref_schema: "dbo".to_string(),
            ref_table: "customers".to_string(),
            ref_column: "id".to_string(),
        }],
        unique_constraints: vec![],
        is_view: false,
        change_tracking_enabled: true,
    }
}

fn customers() -> TableInfo {
    TableInfo {
        name: "customers".to_string(),
        schema: "dbo".to_string(),
        columns: vec![col("id", 1), col("name", 2)],
        primary_key: vec!["id".to_string()],
        foreign_keys: vec![],
        unique_constraints: vec![],
        is_view: false,
        change_tracking_enabled: false,
    }
}

fn catalog() -> SchemaCache {
    SchemaCache { tables: vec![orders(), customers()] }
}

fn config() -> AppConfig {
    AppConfig {
        server: "localhost".to_string(),
        port: 1433,
        user: "sa".to_string(),
        password: String::new(),
        database: None,
        listen_port: 3000,
        default_schema: "dbo".to_string(),
        jwt_secret: None,
        anon_role: None,
        pool_size: 10,
        trust_cert: false,
        schemas: None,
        auth_mode: AuthMode::Disabled,
        oidc_issuer: None,
        oidc_audience: None,
        role_claim: "role".to_string(),
        context_claims: vec![],
        role_map: vec![],
        db_auth: DbAuthMode::Password,
        sp_tenant_id: None,
        sp_client_id: None,
        sp_client_secret: None,
        realtime: false,
        realtime_poll_ms: 200,
    }
}

fn row(pairs: Vec<(&str, JsonVal)>) -> Vec<(String, JsonVal)> {
    pairs.into_iter().map(|(k, v)| (k.to_string(), v)).collect()
}

#[test]
fn test_embed_resolution_and_batch_query() {
    let schema = catalog();
    // the bare column-derived name resolves through customer_id
    let by_column = resolve_embed(&schema, "dbo", "orders", "customer", None).unwrap();
    assert!(matches!(by_column.join_type, EmbedJoinType::ManyToOne));
    assert_eq!(by_column.source_column, "customer_id");
    assert_eq!(by_column.target_column, "id");
    let info = resolve_embed(&schema, "dbo", "orders", "customers", None).unwrap();
    assert!(matches!(info.join_type, EmbedJoinType::ManyToOne));
    assert_eq!(info.source_column, "customer_id");
    assert_eq!(info.target_column, "id");
    // reverse direction: customers -> orders
    let rev = resolve_embed(&schema, "dbo", "customers", "orders", None).unwrap();
    assert!(matches!(rev.join_type, EmbedJoinType::OneToMany));
    assert_eq!(rev.source_column, "id");
    assert_eq!(rev.target_column, "customer_id");
    let target = customers();
    let nodes = parse_select("name").unwrap();
    let sql = build_embed_query(&target, &nodes, "id", 2);
    assert_eq!(sql, "SELECT [name], [id] FROM [dbo].[customers] WHERE [id] IN (@P1, @P2)");
}

#[test]
fn test_embed_with_unknown_name_is_bad_request() {
    let schema = SchemaCache { tables: vec![customers()] };
    let r = resolve_embed(&schema, "dbo", "customers", "orders", None);
    match r {
        Err(Error::BadRequest(m)) => assert!(m.contains("orders")),
        _ => panic!("Expected a bad request naming the embed"),
    }
}

#[test]
fn test_attach_embed_keeps_parents_and_adds_one_key() {
    let parents = vec![
        row(vec![("id", JsonVal::Num("1".into())), ("customer_id", JsonVal::Num("1".into()))]),
        row(vec![("id", JsonVal::Num("2".into())), ("customer_id", JsonVal::Num("2".into()))]),
        row(vec![("id", JsonVal::Num("3".into())), ("customer_id", JsonVal::Null)]),
    ];
    let keys = collect_embed_keys(&parents, &"customer_id".to_string());
    assert_eq!(keys, vec!["1".to_string(), "2".to_string()]);
    let children = vec![
        row(vec![("name", JsonVal::Str("ada".into())), ("id", JsonVal::Num("1".into()))]),
        row(vec![("name", JsonVal::Str("bea".into())), ("id", JsonVal::Num("2".into()))]),
    ];
    let attached = attach_embed(
        &parents,
        &"customer".to_string(),
        EmbedJoinType::ManyToOne,
        &"customer_id".to_string(),
        &"id".to_string(),
        &children,
    );
    assert_eq!(attached.len(), parents.len());
    for (before, after) in parents.iter().zip(attached.iter()) {
        assert_eq!(after.len(), before.len() + 1);
        assert_eq!(after.last().unwrap().0, "customer");
    }
    let first = json_to_string(&attached[0].last().unwrap().1);
    assert_eq!(first, "{\"name\":\"ada\",\"id\":1}");
    let third = json_to_string(&attached[2].last().unwrap().1);
    assert_eq!(third, "null");
}

#[test]
fn test_attach_embed_one_to_many_collects_arrays() {
    let parents = vec![row(vec![("id", JsonVal::Num("1".into()))])];
    let children = vec![
        row(vec![("order", JsonVal::Num("10".into())), ("customer_id", JsonVal::Num("1".into()))]),
        row(vec![("order", JsonVal::Num("11".into())), ("customer_id", JsonVal::Num("1".into()))]),
    ];
    let attached = attach_embed(
        &parents,
        &"orders".to_string(),
        EmbedJoinType::OneToMany,
        &"id".to_string(),
        &"customer_id".to_string(),
        &children,
    );
    let body = json_to_string(&attached[0].last().unwrap().1);
    assert_eq!(body, "[{\"order\":10,\"customer_id\":1},{\"order\":11,\"customer_id\":1}]");
}

#[test]
fn test_client_protocol_frames() {
    let frame = JsonVal::Obj(row(vec![
        ("type", JsonVal::Str("subscribe".into())),
        ("id", JsonVal::Str("s1".into())),
        ("table", JsonVal::Str("dbo.orders".into())),
        ("filter", JsonVal::Str("status=eq.paid".into())),
        ("events", JsonVal::Arr(vec![
            JsonVal::Str("INSERT".into()),
            JsonVal::Str("UPDATE".into()),
        ])),
    ]));
    match parse_client_message(&frame) {
        Some(ClientMessage::Subscribe { id, table, filter, events }) => {
            assert_eq!(id, "s1");
            assert_eq!(table, "dbo.orders");
            assert_eq!(filter.as_deref(), Some("status=eq.paid"));
            assert_eq!(events, Some(vec!["INSERT".to_string(), "UPDATE".to_string()]));
        }
        _ => panic!("Expected a subscription"),
    }
    let ping = JsonVal::Obj(row(vec![("type", JsonVal::Str("ping".into()))]));
    assert!(matches!(parse_client_message(&ping), Some(ClientMessage::Ping)));
    assert_eq!(server_message_json(&ServerMessage::Pong), "{\"type\":\"pong\"}");
    let unknown = JsonVal::Obj(row(vec![("type", JsonVal::Str("hello".into()))]));
    assert!(parse_client_message(&unknown).is_none());
}

#[test]
fn test_subscription_scenario_filters_change_events() {
    let schema = catalog();
    let cfg = config();
    let mut registry = SubscriptionRegistry::new();
    let key = registry
        .subscribe(
            7,
            "s1".to_string(),
            "dbo.orders",
            Some("status=eq.paid"),
            Some(&vec!["INSERT".to_string(), "UPDATE".to_string()]),
            &schema,
            &cfg.default_schema,
        )
        .unwrap();
    assert_eq!(key, "dbo.orders");
    let paid = row(vec![("id", JsonVal::Num("9".into())), ("status", JsonVal::Str("paid".into()))]);
    let matches = registry.matching_subscriptions("dbo.orders", ChangeOp::Insert, &paid);
    assert_eq!(matches.len(), 1);
    assert_eq!(matches[0], (7u128, "s1".to_string()));
    let msg = ServerMessage::Change {
        op: ChangeOp::Insert,
        id: matches[0].1.clone(),
        table: key.clone(),
        record: row(vec![
            ("id", JsonVal::Num("9".into())),
            ("status", JsonVal::Str("paid".into())),
        ]),
    };
    assert_eq!(
        server_message_json(&msg),
        "{\"type\":\"INSERT\",\"id\":\"s1\",\"table\":\"dbo.orders\",\"record\":{\"id\":9,\"status\":\"paid\"}}"
    );
    let pending = row(vec![
        ("id", JsonVal::Num("10".into())),
        ("status", JsonVal::Str("pending".into())),
    ]);
    assert!(registry.matching_subscriptions("dbo.orders", ChangeOp::Insert, &pending).is_empty());
    // deletes are not in the subscribed event set
    assert!(registry.matching_subscriptions("dbo.orders", ChangeOp::Delete, &paid).is_empty());
    registry.unsubscribe(7, "s1");
    assert!(registry.matching_subscriptions("dbo.orders", ChangeOp::Insert, &paid).is_empty());
}

#[test]
fn test_subscribe_requires_change_tracking() {
    let schema = catalog();
    let mut registry = SubscriptionRegistry::new();
    let r = registry.subscribe(1, "x".to_string(), "customers", None, None, &schema, "dbo");
    assert!(r.is_err());
    let missing = registry.subscribe(1, "x".to_string(), "nothing", None, None, &schema, "dbo");
    assert!(missing.is_err());
}

#[test]
fn test_remove_client_drops_all_subscriptions() {
    let schema = catalog();
    let cfg = config();
    let mut registry = SubscriptionRegistry::new();
    registry.subscribe(1, "a".to_string(), "orders", None, None, &schema, &cfg.default_schema).unwrap();
    registry.subscribe(1, "b".to_string(), "orders", None, None, &schema, &cfg.default_schema).unwrap();
    registry.subscribe(2, "c".to_string(), "orders", None, None, &schema, &cfg.default_schema).unwrap();
    registry.remove_client(1);
    let record = row(vec![("id", JsonVal::Num("1".into()))]);
    let remaining = registry.matching_subscriptions("dbo.orders", ChangeOp::Insert, &record);
    assert_eq!(remaining, vec![(2u128, "c".to_string())]);
}

#[test]
fn test_filter_matches_negation_flips() {
    let f = parse_filter("status", "eq.paid").unwrap();
    let n = parse_filter("status", "not.eq.paid").unwrap();
    let v = JsonVal::Str("paid".to_string());
    assert!(filter_matches(&f, &v));
    assert!(!filter_matches(&n, &v));
    let gt = parse_filter("age", "gt.9").unwrap();
    assert!(filter_matches(&gt, &JsonVal::Num("10".to_string())));
    assert!(!filter_matches(&gt, &JsonVal::Num("9".to_string())));
}

#[test]
fn test_filter_comparison_is_decimal_aware() {
    let gt = parse_filter("price", "gt.9").unwrap();
    assert!(filter_matches(&gt, &JsonVal::Num("10.5".to_string())));
    let lt = parse_filter("price", "lt.10.2").unwrap();
    assert!(filter_matches(&lt, &JsonVal::Num("9.5".to_string())));
    let gte = parse_filter("price", "gte.1.5").unwrap();
    assert!(filter_matches(&gte, &JsonVal::Num("1.50".to_string())));
    let neg = parse_filter("delta", "lt.1").unwrap();
    assert!(filter_matches(&neg, &JsonVal::Num("-2.5".to_string())));
    // texts that are not decimal literals compare by code point
    let word = parse_filter("name", "gt.apple").unwrap();
    assert!(filter_matches(&word, &JsonVal::Str("banana".to_string())));
}

#[test]
fn test_change_query_text() {
    let table = orders();
    let sql = lazypaw::realtime::build_change_query(&table, "dbo", "orders");
    assert_eq!(
        sql,
        "SELECT ct.SYS_CHANGE_OPERATION, ct.SYS_CHANGE_VERSION, ct.[id] AS [__ct_id], \
         t.[id], t.[customer_id], t.[status] FROM CHANGETABLE(CHANGES [dbo].[orders], @P1) \
         AS ct LEFT JOIN [dbo].[orders] t ON t.[id] = ct.[id]"
    );
}

#[test]
fn test_unique_rows_fold_by_constraint() {
    let rows = vec![
        ("dbo".to_string(), "t".to_string(), "uq_a".to_string(), "x".to_string()),
        ("dbo".to_string(), "t".to_string(), "uq_a".to_string(), "y".to_string()),
        ("dbo".to_string(), "t".to_string(), "uq_b".to_string(), "z".to_string()),
    ];
    let groups = lazypaw::schema::fold_unique_rows(&rows);
    assert_eq!(groups.len(), 2);
    assert_eq!(groups[0].2, vec!["x".to_string(), "y".to_string()]);
    assert_eq!(groups[1].2, vec!["z".to_string()]);
    assert!(lazypaw::schema::fold_unique_rows(&vec![]).is_empty());
}

#[test]
fn test_datetime_renderings() {
    assert_eq!(lazypaw::types::render_date(0), "0001-01-01");
    assert_eq!(lazypaw::types::render_datetime(0, 0), "1900-01-01T00:00:00.000Z");
    assert_eq!(lazypaw::types::render_smalldatetime(1, 61), "1900-01-02T01:01:00");
    assert_eq!(lazypaw::types::render_time(3661000000000), "01:01:01");
    assert_eq!(lazypaw::types::render_datetime2(0, 0), "0001-01-01T00:00:00.000Z");
    assert_eq!(lazypaw::types::offset_suffix(0), "Z");
    assert_eq!(lazypaw::types::offset_suffix(330), "+05:30");
    assert_eq!(lazypaw::types::offset_suffix(-90), "-01:30");
}

#[test]
fn test_change_record_shapes() {
    let raw = row(vec![
        ("SYS_CHANGE_OPERATION", JsonVal::Str("U".into())),
        ("__ct_id", JsonVal::Num("5".into())),
        ("id", JsonVal::Num("5".into())),
        ("status", JsonVal::Str("paid".into())),
    ]);
    let update = change_record(ChangeOp::Update, &raw);
    assert_eq!(json_to_string(&JsonVal::Obj(update)), "{\"id\":5,\"status\":\"paid\"}");
    let delete = change_record(ChangeOp::Delete, &raw);
    assert_eq!(json_to_string(&JsonVal::Obj(delete)), "{\"id\":5}");
}

#[test]
fn test_rows_to_json_and_csv() {
    let rows = vec![
        JsonVal::Obj(row(vec![("a", JsonVal::Num("1".into())), ("b", JsonVal::Str("x,y".into()))])),
    ];
    assert_eq!(rows_to_json(&rows), "[{\"a\":1,\"b\":\"x,y\"}]");
    let table_rows = vec![row(vec![
        ("a", JsonVal::Num("1".into())),
        ("b", JsonVal::Str("x,y".into())),
        ("c", JsonVal::Null),
    ])];
    let columns = vec!["a".to_string(), "b".to_string(), "c".to_string()];
    let csv = rows_to_csv(&table_rows, &columns).unwrap();
    assert_eq!(csv, "a,b,c\n1,\"x,y\",\n");
}

#[test]
fn test_accept_and_prefer_negotiation() {
    assert!(matches!(parse_accept(None), ResponseFormat::Json));
    assert!(matches!(
        parse_accept(Some("application/vnd.pgrst.object+json")),
        ResponseFormat::SingleObjectJson
    ));
    assert!(matches!(parse_accept(Some("text/csv, application/json")), ResponseFormat::Csv));
    assert!(matches!(
        parse_accept(Some("application/vnd.apache.arrow.stream")),
        ResponseFormat::ArrowIpcStream
    ));
    let p = parse_prefer(Some("return=minimal, count=exact, tx=rollback"));
    assert!(matches!(p.return_mode, ReturnMode::Minimal));
    assert!(p.count);
    assert!(matches!(p.tx, TxPreference::Rollback));
    let upsert = parse_prefer(Some("resolution=merge-duplicates"));
    assert_eq!(upsert.resolution.as_deref(), Some("merge-duplicates"));
}

#[test]
fn test_mutation_response_shapes() {
    let rows = vec![JsonVal::Obj(row(vec![("id", JsonVal::Num("1".into()))]))];
    let minimal = Preferences {
        return_mode: ReturnMode::Minimal,
        count: false,
        resolution: None,
        tx: TxPreference::Commit,
    };
    let r = build_mutation_response(&rows, &minimal, ResponseFormat::Json, 201).unwrap();
    assert_eq!(r.0, 204);
    assert!(r.2.is_empty());
    let repr = Preferences { return_mode: ReturnMode::Representation, ..minimal.clone() };
    let r2 = build_mutation_response(&rows, &repr, ResponseFormat::Json, 201).unwrap();
    assert_eq!(r2.0, 201);
    assert_eq!(r2.2, "[{\"id\":1}]");
    let two = vec![
        JsonVal::Obj(row(vec![("id", JsonVal::Num("1".into()))])),
        JsonVal::Obj(row(vec![("id", JsonVal::Num("2".into()))])),
    ];
    let single = build_mutation_response(&two, &repr, ResponseFormat::SingleObjectJson, 200);
    assert!(matches!(single, Err(Error::SingleObjectExpected(2))));
}

#[test]
fn test_error_codes_and_status() {
    assert_eq!(Error::NotFound("x".into()).status_code(), 404);
    assert_eq!(Error::NotFound("x".into()).code(), "PGRST116");
    assert_eq!(Error::BadRequest("x".into()).code(), "PGRST100");
    assert_eq!(Error::Unauthorized("x".into()).status_code(), 401);
    assert_eq!(Error::Pool("x".into()).status_code(), 503);
    assert_eq!(sql_error_to_status("Violation of PRIMARY KEY constraint"), 409);
    assert_eq!(sql_error_to_status("The user does not have PERMISSION DENIED here"), 403);
    assert_eq!(sql_error_to_status("Invalid object name 'people'"), 404);
    assert_eq!(sql_error_to_status("Conversion failed for value"), 400);
    assert_eq!(sql_error_to_status("mysterious"), 500);
    let api = Error::Sql("login failed for user".into()).to_api_error();
    assert_eq!(api.code, "PGRST200");
    assert_eq!(api.details.as_deref(), Some("login failed for user"));
}

#[test]
fn test_session_prologue_and_revert() {
    let mut cfg = config();
    cfg.anon_role = Some("web_anon".to_string());
    let stmts = build_session_context_sql(&None, &cfg);
    assert_eq!(stmts, vec!["EXECUTE AS USER = 'web_anon';".to_string()]);
    let claims = Claims {
        role: Some("admin".to_string()),
        sub: Some("o'brien".to_string()),
        exp: None,
        iat: None,
        nbf: None,
        extra: vec![],
    };
    let stmts2 = build_session_context_sql(&Some(claims), &cfg);
    assert_eq!(stmts2[0], "EXECUTE AS USER = 'admin';");
    assert_eq!(
        stmts2[1],
        "EXEC sp_set_session_context N'request.jwt.claim.sub', N'o''brien';"
    );
    assert_eq!(escape_literal("O'Brien"), "O''Brien");
    assert_eq!(
        build_revert_sql(),
        "IF EXISTS (SELECT 1 FROM sys.login_token WHERE usage = 'DENY ONLY') REVERT;"
    );
}

#[test]
fn test_role_resolution_paths() {
    let mut cfg = config();
    cfg.role_claim = "realm_access.roles".to_string();
    cfg.role_map = vec![("manager".to_string(), "db_manager".to_string())];
    let claims = Claims {
        role: None,
        sub: None,
        exp: None,
        iat: None,
        nbf: None,
        extra: vec![(
            "realm_access".to_string(),
            JsonVal::Obj(vec![(
                "roles".to_string(),
                JsonVal::Arr(vec![
                    JsonVal::Str("viewer".to_string()),
                    JsonVal::Str("manager".to_string()),
                ]),
            )]),
        )],
    };
    assert_eq!(resolve_role(&claims, &cfg), Some("db_manager".to_string()));
    let mut plain = config();
    plain.role_map = vec![];
    let direct = Claims {
        role: Some("editor".to_string()),
        sub: None,
        exp: None,
        iat: None,
        nbf: None,
        extra: vec![],
    };
    assert_eq!(resolve_role(&direct, &plain), Some("editor".to_string()));
}

#[test]
fn test_authentication_policy() {
    let mut cfg = config();
    cfg.auth_mode = AuthMode::JwtSecret;
    cfg.jwt_secret = Some("SECRET-REDACTED".to_string());
    match plan_authentication(Some("Bearer abc.def.ghi"), &cfg) {
        AuthDecision::VerifyHs256(t) => assert_eq!(t, "abc.def.ghi"),
        _ => panic!("Expected a token to verify"),
    }
    assert!(matches!(
        plan_authentication(Some("Basic abc"), &cfg),
        AuthDecision::Reject(Error::Unauthorized(_))
    ));
    assert!(matches!(plan_authentication(None, &cfg), AuthDecision::Reject(_)));
    cfg.anon_role = Some("web_anon".to_string());
    assert!(matches!(plan_authentication(None, &cfg), AuthDecision::Anonymous));
    let open = config();
    assert!(matches!(plan_authentication(None, &open), AuthDecision::Anonymous));
}

#[test]
fn test_numbers_and_decimals() {
    assert_eq!(parse_i64("42"), Some(42));
    assert_eq!(parse_i64("-7"), Some(-7));
    assert_eq!(parse_i64("9223372036854775807"), Some(i64::MAX));
    assert_eq!(parse_i64("9223372036854775808"), None);
    assert_eq!(parse_i64("x1"), None);
    assert_eq!(i64_to_string(-305), "-305");
    assert_eq!(format_decimal(12345, 2), "123.45");
    assert_eq!(format_decimal(-12345, 2), "-123.45");
    assert_eq!(format_decimal(5, 3), "0.005");
    assert_eq!(format_decimal(7, 0), "7");
}

#[test]
fn test_type_mapping_is_case_insensitive() {
    assert_eq!(sql_type_to_openapi("NVARCHAR"), ("string", ""));
    assert_eq!(sql_type_to_openapi("bigint"), ("integer", "int64"));
    assert_eq!(sql_type_to_openapi("DateTime2"), ("string", "date-time"));
    assert_eq!(sql_type_to_openapi("uniqueidentifier"), ("string", "uuid"));
}

#[test]
fn test_openapi_document_structure() {
    let schema = catalog();
    let cfg = config();
    let doc = lazypaw::openapi::generate_openapi(&schema, &cfg);
    let text = json_to_string(&doc);
    assert!(text.starts_with("{\"openapi\":\"3.0.3\""));
    assert!(text.contains("\"/orders\""));
    assert!(text.contains("\"/customers\""));
    assert!(text.contains("\"/rpc/{procedure}\""));
    assert!(text.contains("\"securitySchemes\""));
    // views carry no mutations; base tables do
    assert!(text.contains("\"post\""));
}

#[test]
fn test_catalog_assembly_applies_facts_to_matching_table() {
    let mut cache = SchemaCache {
        tables: vec![TableInfo {
            name: "items".to_string(),
            schema: "dbo".to_string(),
            columns: vec![],
            primary_key: vec![],
            foreign_keys: vec![],
            unique_constraints: vec![],
            is_view: false,
            change_tracking_enabled: false,
        }],
    };
    assert!(cache.apply_catalog_fact("dbo", "items", CatalogFact::AddColumn(col("sku", 1))));
    assert!(cache.apply_catalog_fact(
        "dbo",
        "items",
        CatalogFact::AddPrimaryKey("sku".to_string())
    ));
    assert!(cache.apply_catalog_fact("dbo", "items", CatalogFact::MarkChangeTracking));
    assert!(!cache.apply_catalog_fact("dbo", "missing", CatalogFact::MarkChangeTracking));
    let t = &cache.tables[0];
    assert_eq!(t.columns.len(), 1);
    assert_eq!(t.primary_key, vec!["sku".to_string()]);
    assert!(t.change_tracking_enabled);
}

#[test]
fn test_swagger_page_names_port() {
    let html = swagger_ui_html(4567);
    assert!(html.contains("http://localhost:4567/"));
    assert!(html.contains("swagger-ui"));
}

#[test]
fn test_json_escaping() {
    let v = JsonVal::Obj(row(vec![(
        "text",
        JsonVal::Str("line\nbreak \"quoted\" back\\slash".to_string()),
    )]));
    assert_eq!(
        json_to_string(&v),
        "{\"text\":\"line\\nbreak \\\"quoted\\\" back\\\\slash\"}"
    );
}
