//! The generated interface document and the interactive page served
//! beside it.

use vstd::prelude::*;
use crate::config::AppConfig;
use crate::jsonval::{JsonVal, JsonV, json_view, obj_view, lemma_obj_view_index};
use crate::num;
use crate::schema::{ColumnInfo, SchemaCache, TableInfo};
use crate::text;
use crate::types::sql_type_to_openapi;

verus! {

/// The HTML viewer page, pointing at the document served at the root
/// of the given port.
pub fn swagger_ui_html(listen_port: u16) -> (r: String)
    ensures
        r@ == "<!DOCTYPE html>\n<html>\n<head>\n    <title>lazypaw API</title>\n    <meta charset=\"utf-8\"/>\n    <meta name=\"viewport\" content=\"width=device-width, initial-scale=1\">\n    <link rel=\"stylesheet\" type=\"text/css\" href=\"https://unpkg.com/swagger-ui-dist@5/swagger-ui.css\">\n</head>\n<body>\n    <div id=\"swagger-ui\"></div>\n    <script src=\"https://unpkg.com/swagger-ui-dist@5/swagger-ui-bundle.js\"></script>\n    <script>\n        SwaggerUIBundle({\n            url: \"http://localhost:"@
            + num::dec_rep(listen_port as int)
            + "/\",\n            dom_id: '#swagger-ui',\n            presets: [\n                SwaggerUIBundle.presets.apis,\n                SwaggerUIBundle.SwaggerUIStandalonePreset\n            ],\n            layout: \"BaseLayout\"\n        })\n    </script>\n</body>\n</html>"@,
{
    let mut out = String::new();
    out.append(
        "<!DOCTYPE html>\n<html>\n<head>\n    <title>lazypaw API</title>\n    <meta charset=\"utf-8\"/>\n    <meta name=\"viewport\" content=\"width=device-width, initial-scale=1\">\n    <link rel=\"stylesheet\" type=\"text/css\" href=\"https://unpkg.com/swagger-ui-dist@5/swagger-ui.css\">\n</head>\n<body>\n    <div id=\"swagger-ui\"></div>\n    <script src=\"https://unpkg.com/swagger-ui-dist@5/swagger-ui-bundle.js\"></script>\n    <script>\n        SwaggerUIBundle({\n            url: \"http://localhost:",
    );
    let port = num::u64_to_string(listen_port as u64);
    out.append(port.as_str());
    out.append(
        "/\",\n            dom_id: '#swagger-ui',\n            presets: [\n                SwaggerUIBundle.presets.apis,\n                SwaggerUIBundle.SwaggerUIStandalonePreset\n            ],\n            layout: \"BaseLayout\"\n        })\n    </script>\n</body>\n</html>",
    );
    out
}

fn sval(s: &str) -> (r: JsonVal)
    ensures
        r is Str,
        crate::jsonval::json_view(r) == JsonV::StrV(s@),
{
    JsonVal::Str(s.to_owned())
}

fn pair(k: &str, v: JsonVal) -> (r: (String, JsonVal))
    ensures
        r.0@ == k@,
        r.1 == v,
{
    (k.to_owned(), v)
}

/// The request path a table is served under: its bare name under the
/// default schema, its qualified name elsewhere.
pub open spec fn spec_table_path(t: crate::schema::TableV, default_schema: Seq<char>) -> Seq<char> {
    if text::eq_ci(t.schema, default_schema) {
        "/"@ + t.name
    } else {
        "/"@ + t.schema + "/"@ + t.name
    }
}

fn table_path(table: &TableInfo, default_schema: &str) -> (r: String)
    ensures
        r@ == spec_table_path(table@, default_schema@),
{
    let mut out = String::new();
    out.append("/");
    if text::eq_ignore_case(table.schema.as_str(), default_schema) {
        out.append(table.name.as_str());
        proof {
            assert(out@ =~= "/"@ + table@.name);
        }
    } else {
        out.append(table.schema.as_str());
        out.append("/");
        out.append(table.name.as_str());
        proof {
            assert(out@ =~= "/"@ + table@.schema + "/"@ + table@.name);
        }
    }
    out
}

/// One column's schema object: type and format from the declared type,
/// nullability and identity reflected as JSON schema traits.
fn column_property(c: &ColumnInfo) -> (r: JsonVal)
    ensures
        r is Obj,
{
    let (type_str, format_str) = sql_type_to_openapi(c.data_type.as_str());
    let mut prop: Vec<(String, JsonVal)> = Vec::new();
    prop.push(pair("type", sval(type_str)));
    if !format_str.is_empty() {
        prop.push(pair("format", sval(format_str)));
    }
    if c.is_nullable {
        prop.push(pair("nullable", JsonVal::Bool(true)));
    }
    if c.is_identity {
        prop.push(pair("readOnly", JsonVal::Bool(true)));
    }
    JsonVal::Obj(prop)
}

/// A table's schema object: one property per column; columns that are
/// not nullable, generated or defaulted are required.
fn table_schema_object(table: &TableInfo) -> (r: JsonVal)
    ensures
        r is Obj,
{
    let mut properties: Vec<(String, JsonVal)> = Vec::new();
    let mut required: Vec<JsonVal> = Vec::new();
    let mut i: usize = 0;
    while i < table.columns.len()
        invariant
            i <= table.columns@.len(),
        decreases table.columns.len() - i,
    {
        let c = &table.columns[i];
        properties.push((c.name.clone(), column_property(c)));
        if !c.is_nullable && !c.is_identity && !c.has_default {
            required.push(JsonVal::Str(c.name.clone()));
        }
        i += 1;
    }
    let mut out: Vec<(String, JsonVal)> = Vec::new();
    out.push(pair("type", sval("object")));
    out.push(pair("properties", JsonVal::Obj(properties)));
    out.push(pair("required", JsonVal::Arr(required)));
    JsonVal::Obj(out)
}

fn string_schema() -> (r: JsonVal)
    ensures
        r is Obj,
{
    let mut out: Vec<(String, JsonVal)> = Vec::new();
    out.push(pair("type", sval("string")));
    JsonVal::Obj(out)
}

fn query_parameter(name: &str, description: String, kind: &str) -> (r: JsonVal)
    ensures
        r is Obj,
{
    let mut schema_obj: Vec<(String, JsonVal)> = Vec::new();
    schema_obj.push(pair("type", sval(kind)));
    let mut out: Vec<(String, JsonVal)> = Vec::new();
    out.push(pair("name", sval(name)));
    out.push(pair("in", sval("query")));
    out.push(("description".to_owned(), JsonVal::Str(description)));
    out.push(pair("schema", JsonVal::Obj(schema_obj)));
    JsonVal::Obj(out)
}

fn ref_schema(schema_ref: &str) -> (r: JsonVal)
    ensures
        r is Obj,
{
    let mut out: Vec<(String, JsonVal)> = Vec::new();
    out.push(pair("$ref", sval(schema_ref)));
    JsonVal::Obj(out)
}

fn array_of(items: JsonVal) -> (r: JsonVal)
    ensures
        r is Obj,
{
    let mut out: Vec<(String, JsonVal)> = Vec::new();
    out.push(pair("type", sval("array")));
    out.push(pair("items", items));
    JsonVal::Obj(out)
}

fn json_content(schema_obj: JsonVal) -> (r: JsonVal)
    ensures
        r is Obj,
{
    let mut inner: Vec<(String, JsonVal)> = Vec::new();
    inner.push(pair("schema", schema_obj));
    let mut content: Vec<(String, JsonVal)> = Vec::new();
    content.push(pair("application/json", JsonVal::Obj(inner)));
    JsonVal::Obj(content)
}

fn response_of(description: String, content: JsonVal) -> (r: JsonVal)
    ensures
        r is Obj,
{
    let mut out: Vec<(String, JsonVal)> = Vec::new();
    out.push(("description".to_owned(), JsonVal::Str(description)));
    out.push(pair("content", content));
    JsonVal::Obj(out)
}

fn responses_with(status: &str, body: JsonVal) -> (r: JsonVal)
    ensures
        r is Obj,
{
    let mut out: Vec<(String, JsonVal)> = Vec::new();
    out.push((status.to_owned(), body));
    JsonVal::Obj(out)
}

fn concat3(a: &str, b: &str, c: &str) -> (r: String)
    ensures
        r@ == a@ + b@ + c@,
{
    let mut out = a.to_owned();
    out.append(b);
    out.append(c);
    out
}

/// The per-table filter parameters: the reserved read keys, then one
/// textual filter parameter per column.
fn filter_parameters(table: &TableInfo) -> (r: Vec<JsonVal>)
{
    let mut params: Vec<JsonVal> = Vec::new();
    params.push(query_parameter(
        "select",
        "Column selection (e.g., col1,col2,related(*))".to_owned(),
        "string",
    ));
    params.push(query_parameter(
        "order",
        "Ordering (e.g., name.asc,age.desc)".to_owned(),
        "string",
    ));
    params.push(query_parameter("limit", "Maximum number of rows".to_owned(), "integer"));
    params.push(query_parameter("offset", "Number of rows to skip".to_owned(), "integer"));
    let mut i: usize = 0;
    while i < table.columns.len()
        invariant
            i <= table.columns@.len(),
        decreases table.columns.len() - i,
    {
        let name = &table.columns[i].name;
        let description = concat3(
            "Filter on ",
            name.as_str(),
            " (e.g., eq.value, gt.5, in.(a,b))",
        );
        params.push(query_parameter(name.as_str(), description, "string"));
        i += 1;
    }
    params
}

/// One table's path item (its operations) and its schema object. Views
/// carry only the read operation; tables carry the mutations too.
pub fn generate_table_paths(table: &TableInfo, _config: &AppConfig) -> (r: (JsonVal, JsonVal))
    ensures
        r.0 is Obj,
        r.1 is Obj,
{
    let schema_ref = concat3("#/components/schemas/", table.name.as_str(), "");
    let table_schema = table_schema_object(table);

    let mut path_item: Vec<(String, JsonVal)> = Vec::new();

    // GET
    {
        let filter_params = filter_parameters(table);
        let mut content: Vec<(String, JsonVal)> = Vec::new();
        let mut json_inner: Vec<(String, JsonVal)> = Vec::new();
        json_inner.push(pair("schema", array_of(ref_schema(schema_ref.as_str()))));
        content.push(pair("application/json", JsonVal::Obj(json_inner)));
        let mut csv_inner: Vec<(String, JsonVal)> = Vec::new();
        csv_inner.push(pair("schema", string_schema()));
        content.push(pair("text/csv", JsonVal::Obj(csv_inner)));
        let mut single_inner: Vec<(String, JsonVal)> = Vec::new();
        single_inner.push(pair("schema", ref_schema(schema_ref.as_str())));
        content.push(pair("application/vnd.pgrst.object+json", JsonVal::Obj(single_inner)));
        let mut range_header: Vec<(String, JsonVal)> = Vec::new();
        range_header.push(pair("schema", string_schema()));
        range_header.push(pair("description", sval("Pagination range")));
        let mut headers_obj: Vec<(String, JsonVal)> = Vec::new();
        headers_obj.push(pair("Content-Range", JsonVal::Obj(range_header)));
        let mut ok: Vec<(String, JsonVal)> = Vec::new();
        ok.push(("description".to_owned(), JsonVal::Str(concat3("List of ", table.name.as_str(), ""))));
        ok.push(pair("content", JsonVal::Obj(content)));
        ok.push(pair("headers", JsonVal::Obj(headers_obj)));
        let mut op: Vec<(String, JsonVal)> = Vec::new();
        op.push(("summary".to_owned(), JsonVal::Str(concat3("Read ", table.name.as_str(), ""))));
        op.push(pair("parameters", JsonVal::Arr(filter_params)));
        op.push(pair("responses", responses_with("200", JsonVal::Obj(ok))));
        path_item.push(pair("get", JsonVal::Obj(op)));
    }

    if !table.is_view {
        // POST
        {
            let mut one_of: Vec<JsonVal> = Vec::new();
            one_of.push(ref_schema(schema_ref.as_str()));
            one_of.push(array_of(ref_schema(schema_ref.as_str())));
            let mut body_schema: Vec<(String, JsonVal)> = Vec::new();
            body_schema.push(pair("oneOf", JsonVal::Arr(one_of)));
            let mut request_body: Vec<(String, JsonVal)> = Vec::new();
            request_body.push(pair("content", json_content(JsonVal::Obj(body_schema))));
            let mut op: Vec<(String, JsonVal)> = Vec::new();
            op.push((
                "summary".to_owned(),
                JsonVal::Str(concat3("Insert into ", table.name.as_str(), "")),
            ));
            op.push(pair("requestBody", JsonVal::Obj(request_body)));
            op.push(pair(
                "responses",
                responses_with(
                    "201",
                    response_of(
                        "Created".to_owned(),
                        json_content(array_of(ref_schema(schema_ref.as_str()))),
                    ),
                ),
            ));
            path_item.push(pair("post", JsonVal::Obj(op)));
        }
        // PATCH
        {
            let mut request_body: Vec<(String, JsonVal)> = Vec::new();
            request_body.push(pair("content", json_content(ref_schema(schema_ref.as_str()))));
            let mut op: Vec<(String, JsonVal)> = Vec::new();
            op.push((
                "summary".to_owned(),
                JsonVal::Str(concat3("Update ", table.name.as_str(), "")),
            ));
            op.push(pair("parameters", JsonVal::Arr(filter_parameters(table))));
            op.push(pair("requestBody", JsonVal::Obj(request_body)));
            op.push(pair(
                "responses",
                responses_with(
                    "200",
                    response_of(
                        "Updated".to_owned(),
                        json_content(array_of(ref_schema(schema_ref.as_str()))),
                    ),
                ),
            ));
            path_item.push(pair("patch", JsonVal::Obj(op)));
        }
        // DELETE
        {
            let mut op: Vec<(String, JsonVal)> = Vec::new();
            op.push((
                "summary".to_owned(),
                JsonVal::Str(concat3("Delete from ", table.name.as_str(), "")),
            ));
            op.push(pair("parameters", JsonVal::Arr(filter_parameters(table))));
            op.push(pair(
                "responses",
                responses_with(
                    "200",
                    response_of(
                        "Deleted".to_owned(),
                        json_content(array_of(ref_schema(schema_ref.as_str()))),
                    ),
                ),
            ));
            path_item.push(pair("delete", JsonVal::Obj(op)));
        }
    }

    (JsonVal::Obj(path_item), table_schema)
}

fn rpc_path_item() -> (r: JsonVal)
    ensures
        r is Obj,
{
    let mut param: Vec<(String, JsonVal)> = Vec::new();
    param.push(pair("name", sval("procedure")));
    param.push(pair("in", sval("path")));
    param.push(pair("required", JsonVal::Bool(true)));
    param.push(pair("schema", string_schema()));
    let mut params: Vec<JsonVal> = Vec::new();
    params.push(JsonVal::Obj(param));
    let mut body_schema: Vec<(String, JsonVal)> = Vec::new();
    body_schema.push(pair("type", sval("object")));
    body_schema.push(pair("additionalProperties", JsonVal::Bool(true)));
    let mut request_body: Vec<(String, JsonVal)> = Vec::new();
    request_body.push(pair("content", json_content(JsonVal::Obj(body_schema))));
    let mut items_obj: Vec<(String, JsonVal)> = Vec::new();
    items_obj.push(pair("type", sval("object")));
    let mut op: Vec<(String, JsonVal)> = Vec::new();
    op.push(pair("summary", sval("Execute stored procedure")));
    op.push(pair("parameters", JsonVal::Arr(params)));
    op.push(pair("requestBody", JsonVal::Obj(request_body)));
    op.push(pair(
        "responses",
        responses_with(
            "200",
            response_of(
                "Procedure executed".to_owned(),
                json_content(array_of(JsonVal::Obj(items_obj))),
            ),
        ),
    ));
    let mut out: Vec<(String, JsonVal)> = Vec::new();
    out.push(pair("post", JsonVal::Obj(op)));
    JsonVal::Obj(out)
}

/// The generated interface document: one path per table (under its
/// request path, in catalog order) plus the procedure path, and one
/// schema object per table under its name.
pub fn generate_openapi(schema: &SchemaCache, config: &AppConfig) -> (r: JsonVal)
    ensures
        r is Obj,
        ({
            let members = r->Obj_0;
            let tv = crate::schema::tables_view(schema.tables@);
            obj_view(members@).len() == 5 && obj_view(members@)[0].0 == "openapi"@ && obj_view(
                members@,
            )[1].0 == "info"@ && obj_view(members@)[2].0 == "servers"@ && obj_view(members@)[3].0
                == "paths"@ && obj_view(members@)[4].0 == "components"@ && (match obj_view(
                members@,
            )[3].1 {
                JsonV::ObjV(paths) => paths.len() == tv.len() + 1 && (forall|i: int|
                    0 <= i < tv.len() ==> (#[trigger] paths[i]).0 == spec_table_path(
                        tv[i],
                        config.default_schema@,
                    )) && paths[tv.len() as int].0 == "/rpc/{procedure}"@,
                _ => false,
            }) && (match obj_view(members@)[4].1 {
                JsonV::ObjV(components) => components.len() == 2 && components[0].0 == "schemas"@
                    && (match components[0].1 {
                    JsonV::ObjV(schemas) => schemas.len() == tv.len() && (forall|i: int|
                        0 <= i < tv.len() ==> (#[trigger] schemas[i]).0 == tv[i].name),
                    _ => false,
                }),
                _ => false,
            })
        }),
{
    let ghost tv = crate::schema::tables_view(schema.tables@);
    let mut paths: Vec<(String, JsonVal)> = Vec::new();
    let mut schemas: Vec<(String, JsonVal)> = Vec::new();
    let mut i: usize = 0;
    proof {
        lemma_obj_view_index(paths@);
        lemma_obj_view_index(schemas@);
    }
    while i < schema.tables.len()
        invariant
            tv == crate::schema::tables_view(schema.tables@),
            tv.len() == schema.tables@.len(),
            forall|k: int| 0 <= k < tv.len() ==> tv[k] == schema.tables@[k]@,
            i <= tv.len(),
            paths@.len() == i,
            schemas@.len() == i,
            forall|k: int|
                0 <= k < i ==> (#[trigger] paths@[k]).0@ == spec_table_path(
                    tv[k],
                    config.default_schema@,
                ),
            forall|k: int| 0 <= k < i ==> (#[trigger] schemas@[k]).0@ == tv[k].name,
        decreases schema.tables.len() - i,
    {
        let table = &schema.tables[i];
        let path = table_path(table, config.default_schema.as_str());
        let (path_item, table_schema) = generate_table_paths(table, config);
        paths.push((path, path_item));
        schemas.push((table.name.clone(), table_schema));
        i += 1;
    }
    paths.push(("/rpc/{procedure}".to_owned(), rpc_path_item()));
    proof {
        lemma_obj_view_index(paths@);
        assert(obj_view(paths@).len() == tv.len() + 1);
        assert(obj_view(paths@)[tv.len() as int].0 == "/rpc/{procedure}"@);
        assert forall|k: int|
            0 <= k < tv.len() implies (#[trigger] obj_view(paths@)[k]).0 == spec_table_path(
            tv[k],
            config.default_schema@,
        ) by {
            assert(obj_view(paths@)[k] == (paths@[k].0@, json_view(paths@[k].1)));
        }
    }

    let mut info: Vec<(String, JsonVal)> = Vec::new();
    let title = match &config.database {
        Some(db) => concat3("lazypaw API — ", db.as_str(), ""),
        None => concat3("lazypaw API — ", "SQL Server", ""),
    };
    info.push(("title".to_owned(), JsonVal::Str(title)));
    info.push(pair("description", sval("REST interface derived from the live catalog")));
    info.push(pair("version", sval("0.1.0")));

    let mut server: Vec<(String, JsonVal)> = Vec::new();
    let port = num::u64_to_string(config.listen_port as u64);
    let url = concat3("http://localhost:", port.as_str(), "");
    server.push(("url".to_owned(), JsonVal::Str(url)));
    let mut servers: Vec<JsonVal> = Vec::new();
    servers.push(JsonVal::Obj(server));

    let mut bearer: Vec<(String, JsonVal)> = Vec::new();
    bearer.push(pair("type", sval("http")));
    bearer.push(pair("scheme", sval("bearer")));
    bearer.push(pair("bearerFormat", sval("JWT")));
    let mut security: Vec<(String, JsonVal)> = Vec::new();
    security.push(pair("bearerAuth", JsonVal::Obj(bearer)));
    let ghost schemas_snapshot = obj_view(schemas@);
    proof {
        lemma_obj_view_index(schemas@);
        assert(schemas_snapshot.len() == tv.len());
        assert forall|k: int|
            0 <= k < tv.len() implies (#[trigger] schemas_snapshot[k]).0 == tv[k].name by {
            assert(schemas_snapshot[k] == (schemas@[k].0@, json_view(schemas@[k].1)));
        }
    }
    let mut components: Vec<(String, JsonVal)> = Vec::new();
    components.push(("schemas".to_owned(), JsonVal::Obj(schemas)));
    components.push(pair("securitySchemes", JsonVal::Obj(security)));
    let ghost components_snapshot = obj_view(components@);
    proof {
        lemma_obj_view_index(components@);
        assert(components_snapshot.len() == 2);
        assert(components_snapshot[0].0 == "schemas"@);
        assert(components_snapshot[0].1 == JsonV::ObjV(schemas_snapshot));
    }

    let ghost paths_snapshot = obj_view(paths@);
    let mut doc: Vec<(String, JsonVal)> = Vec::new();
    doc.push(pair("openapi", sval("3.0.3")));
    doc.push(pair("info", JsonVal::Obj(info)));
    doc.push(pair("servers", JsonVal::Arr(servers)));
    doc.push(("paths".to_owned(), JsonVal::Obj(paths)));
    doc.push(("components".to_owned(), JsonVal::Obj(components)));
    proof {
        lemma_obj_view_index(doc@);
        assert(obj_view(doc@).len() == 5);
        assert(obj_view(doc@)[0] == (doc@[0].0@, json_view(doc@[0].1)));
        assert(obj_view(doc@)[1] == (doc@[1].0@, json_view(doc@[1].1)));
        assert(obj_view(doc@)[2] == (doc@[2].0@, json_view(doc@[2].1)));
        assert(obj_view(doc@)[3] == (doc@[3].0@, json_view(doc@[3].1)));
        assert(obj_view(doc@)[4] == (doc@[4].0@, json_view(doc@[4].1)));
        assert(json_view(doc@[3].1) == JsonV::ObjV(paths_snapshot));
        assert(json_view(doc@[4].1) == JsonV::ObjV(components_snapshot));
    }
    JsonVal::Obj(doc)
}

} // verus!
