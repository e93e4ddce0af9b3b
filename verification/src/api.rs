//! The planner's wire work: building the request body of each pipeline
//! stage and reading the typed response back. The transport that carries
//! the bytes to the remote function is not here: the caller performs one
//! blocking exchange per stage and hands the reply bytes back.

use crate::json::{json_rep, JsonV, JsonValue};
use crate::models::{
    constraints_json, identity_json, table_name_json, Block, Constraints, DecodeError, Schema,
    TableName,
};
use crate::requests::{
    get_splits_response_of, get_table_layout_response_of, get_table_response_of,
    list_schemas_response_of, list_tables_response_of, strarr_json, view_strs, GetSplitsRequest,
    GetSplitsResponse, GetTableLayoutRequest, GetTableLayoutResponse, GetTableRequest,
    GetTableResponse, ListSchemasRequest, ListSchemasResponse, ListTablesRequest,
    ListTablesResponse,
};
use vstd::prelude::*;

verus! {

/// Which functions the planner talks to, and where they live.
#[derive(Debug, Clone)]
pub struct Configuration {
    pub record_lambda: String,
    pub metadata_lambda: String,
    pub region: String,
}

impl Default for Configuration {
    /// A configuration with every name empty.
    fn default() -> (d: Self)
        ensures
            d.record_lambda@.len() == 0,
            d.metadata_lambda@.len() == 0,
            d.region@.len() == 0,
    {
        Configuration { record_lambda: String::new(), metadata_lambda: String::new(), region: String::new() }
    }
}

impl Configuration {
    /// One function name serves both the record and the metadata calls;
    /// the region is the protocol's home region.
    pub fn new(lambda: String) -> (r: Configuration)
        ensures
            r.record_lambda@ == lambda@,
            r.metadata_lambda@ == lambda@,
            r.region@ == "us-east-1"@,
    {
        Configuration {
            record_lambda: lambda.clone(),
            metadata_lambda: lambda.clone(),
            region: "us-east-1".to_owned(),
        }
    }
}

/// The identity object written when none is supplied.
pub open spec fn default_identity_json() -> JsonV {
    identity_json("UNKNOWN_ID"@, "UNKNOWN_PRINCIPAL"@, "UNKNOWN_ACCOUNT"@)
}

/// The body that asks for the schemas of the configured catalog: the
/// default request, serialized.
pub fn list_schemas_body() -> (r: String)
    ensures
        r@ == json_rep(
            JsonV::Obj(
                seq![
                    ("identity"@, default_identity_json()),
                    ("queryId"@, JsonV::Str(Seq::empty())),
                    ("catalogName"@, JsonV::Str(Seq::empty())),
                    ("@type"@, JsonV::Str("ListSchemasRequest"@)),
                ],
            ),
        ),
{
    let req = ListSchemasRequest::default();
    let text = req.to_json().to_text();
    proof {
        assert(req.json_members() =~= seq![
            ("identity"@, default_identity_json()),
            ("queryId"@, JsonV::Str(Seq::<char>::empty())),
            ("catalogName"@, JsonV::Str(Seq::<char>::empty())),
            ("@type"@, JsonV::Str("ListSchemasRequest"@)),
        ]);
    }
    text
}

/// The body that asks for the tables of one schema.
pub fn list_tables_body(query_id: &String, catalog_name: &String, schema_name: &String) -> (r:
    String)
    ensures
        r@ == json_rep(
            JsonV::Obj(
                seq![
                    ("identity"@, default_identity_json()),
                    ("queryId"@, JsonV::Str(query_id@)),
                    ("catalogName"@, JsonV::Str(catalog_name@)),
                    ("schemaName"@, JsonV::Str(schema_name@)),
                    ("@type"@, JsonV::Str("ListTablesRequest"@)),
                ],
            ),
        ),
{
    let req = ListTablesRequest::new(query_id, catalog_name, schema_name);
    let text = req.to_json().to_text();
    proof {
        assert(req.json_members() =~= seq![
            ("identity"@, default_identity_json()),
            ("queryId"@, JsonV::Str(query_id@)),
            ("catalogName"@, JsonV::Str(catalog_name@)),
            ("schemaName"@, JsonV::Str(schema_name@)),
            ("@type"@, JsonV::Str("ListTablesRequest"@)),
        ]);
    }
    text
}

/// The body that asks for one table's name and schema descriptor.
pub fn get_table_body(catalog_name: String, schema_name: String, table_name: String) -> (r:
    String)
    ensures
        r@ == json_rep(
            JsonV::Obj(
                seq![
                    ("identity"@, default_identity_json()),
                    ("queryId"@, JsonV::Str(Seq::empty())),
                    ("catalogName"@, JsonV::Str(catalog_name@)),
                    ("tableName"@, table_name_json(schema_name@, table_name@)),
                    ("@type"@, JsonV::Str("GetTableRequest"@)),
                ],
            ),
        ),
{
    let req = GetTableRequest::new(catalog_name, schema_name, table_name);
    let text = req.to_json().to_text();
    proof {
        assert(req.json_members() =~= seq![
            ("identity"@, default_identity_json()),
            ("queryId"@, JsonV::Str(Seq::<char>::empty())),
            ("catalogName"@, JsonV::Str(req.catalog_name@)),
            ("tableName"@, table_name_json(req.table_name.schema_name@, req.table_name.table_name@)),
            ("@type"@, JsonV::Str("GetTableRequest"@)),
        ]);
    }
    text
}

/// The body that asks for one table's partition layout; the query id is
/// left empty, as this planner always does.
pub fn get_table_layout_body(
    catalog_name: String,
    table_name: TableName,
    constraints: Constraints,
    schema: Schema,
    partition_cols: Vec<String>,
) -> (r: String)
    ensures
        r@ == json_rep(
            JsonV::Obj(
                seq![
                    ("identity"@, default_identity_json()),
                    ("queryId"@, JsonV::Str(Seq::empty())),
                    ("catalogName"@, JsonV::Str(catalog_name@)),
                    ("tableName"@, table_name_json(table_name.schema_name@, table_name.table_name@)),
                    ("constraints"@, constraints_json(crate::ipc::view_pairs(constraints.summary@))),
                    ("schema"@, JsonV::Obj(seq![("schema"@, JsonV::Str(schema.schema@))])),
                    ("partitionCols"@, strarr_json(view_strs(partition_cols@))),
                    ("@type"@, JsonV::Str("GetTableLayoutRequest"@)),
                ],
            ),
        ),
{
    let ghost g_catalog = catalog_name@;
    let ghost g_table = table_name;
    let ghost g_constraints = constraints;
    let ghost g_schema = schema.schema@;
    let ghost g_cols = partition_cols@;
    let req = GetTableLayoutRequest::new(
        String::new(),
        catalog_name,
        table_name,
        constraints,
        schema,
        partition_cols,
    );
    let text = req.to_json().to_text();
    proof {
        assert(req.json_members() =~= seq![
            ("identity"@, default_identity_json()),
            ("queryId"@, JsonV::Str(Seq::<char>::empty())),
            ("catalogName"@, JsonV::Str(g_catalog)),
            ("tableName"@, table_name_json(g_table.schema_name@, g_table.table_name@)),
            ("constraints"@, constraints_json(crate::ipc::view_pairs(g_constraints.summary@))),
            ("schema"@, JsonV::Obj(seq![("schema"@, JsonV::Str(g_schema))])),
            ("partitionCols"@, strarr_json(view_strs(g_cols))),
            ("@type"@, JsonV::Str("GetTableLayoutRequest"@)),
        ]);
    }
    text
}

/// The body that asks for one page of splits; `continuation_token` echoes
/// the previous page's token, and the key is left out on the first page.
pub fn get_splits_body(
    query_id: String,
    catalog_name: String,
    table_name: TableName,
    partitions: Block,
    partition_cols: Vec<String>,
    constraints: Constraints,
    continuation_token: Option<String>,
) -> (r: String)
    ensures
        r@ == json_rep(
            JsonV::Obj(
                seq![
                    ("identity"@, default_identity_json()),
                    ("@type"@, JsonV::Str("GetSplitsRequest"@)),
                    ("queryId"@, JsonV::Str(query_id@)),
                    ("catalogName"@, JsonV::Str(catalog_name@)),
                    ("tableName"@, table_name_json(table_name.schema_name@, table_name.table_name@)),
                    (
                        "partitions"@,
                        crate::models::block_json(
                            partitions.serialized.schema@,
                            partitions.serialized.records@,
                            partitions.serialized.a_id@,
                        ),
                    ),
                    ("partitionCols"@, strarr_json(view_strs(partition_cols@))),
                    ("constraints"@, constraints_json(crate::ipc::view_pairs(constraints.summary@))),
                ] + (match continuation_token {
                    Some(t) => seq![("continuationToken"@, JsonV::Str(t@))],
                    None => Seq::<(Seq<char>, JsonV)>::empty(),
                }),
            ),
        ),
{
    let ghost g_query = query_id@;
    let ghost g_catalog = catalog_name@;
    let ghost g_table = table_name;
    let ghost g_partitions = partitions;
    let ghost g_cols = partition_cols@;
    let ghost g_constraints = constraints;
    let ghost g_token = continuation_token;
    let req = GetSplitsRequest::new(
        query_id,
        catalog_name,
        table_name,
        partitions,
        partition_cols,
        constraints,
        continuation_token,
    );
    let text = req.to_json().to_text();
    proof {
        assert(req.json_members() =~= seq![
            ("identity"@, default_identity_json()),
            ("@type"@, JsonV::Str("GetSplitsRequest"@)),
            ("queryId"@, JsonV::Str(g_query)),
            ("catalogName"@, JsonV::Str(g_catalog)),
            ("tableName"@, table_name_json(g_table.schema_name@, g_table.table_name@)),
            (
                "partitions"@,
                crate::models::block_json(
                    g_partitions.serialized.schema@,
                    g_partitions.serialized.records@,
                    g_partitions.serialized.a_id@,
                ),
            ),
            ("partitionCols"@, strarr_json(view_strs(g_cols))),
            ("constraints"@, constraints_json(crate::ipc::view_pairs(g_constraints.summary@))),
        ] + (match g_token {
            Some(t) => seq![("continuationToken"@, JsonV::Str(t@))],
            None => Seq::<(Seq<char>, JsonV)>::empty(),
        }));
    }
    text
}

/// Reads a schema-list reply from the transport's bytes.
pub fn parse_list_schemas_response(payload: &[u8]) -> (r: Result<
    ListSchemasResponse,
    DecodeError,
>)
    ensures
        match crate::json_parse::json_of(payload@) {
            Some(j) => (r is Ok <==> list_schemas_response_of(j) is Some) && (r matches Ok(d)
                ==> list_schemas_response_of(j) == Some(
                (d.catalog_name@, d.request_type@, view_strs(d.schemas@), d.class_type@),
            )),
            None => r matches Err(e) && e matches DecodeError::Encoding,
        },
{
    match JsonValue::parse(payload) {
        Some(v) => ListSchemasResponse::from_json(&v),
        None => Err(DecodeError::Encoding),
    }
}

/// Reads a table-list reply from the transport's bytes.
pub fn parse_list_tables_response(payload: &[u8]) -> (r: Result<ListTablesResponse, DecodeError>)
    ensures
        match crate::json_parse::json_of(payload@) {
            Some(j) => (r is Ok <==> list_tables_response_of(j) is Some) && (r matches Ok(d)
                ==> list_tables_response_of(j) == Some(
                (
                    d.catalog_name@,
                    crate::requests::view_table_names(d.tables@),
                    d.request_type@,
                    d.class_type@,
                ),
            )),
            None => r matches Err(e) && e matches DecodeError::Encoding,
        },
{
    match JsonValue::parse(payload) {
        Some(v) => ListTablesResponse::from_json(&v),
        None => Err(DecodeError::Encoding),
    }
}

/// Reads a get-table reply from the transport's bytes.
pub fn parse_get_table_response(payload: &[u8]) -> (r: Result<GetTableResponse, DecodeError>)
    ensures
        match crate::json_parse::json_of(payload@) {
            Some(j) => (r is Ok <==> get_table_response_of(j) is Some) && (r matches Ok(d)
                ==> get_table_response_of(j) == Some(
                (
                    d.catalog_name@,
                    (d.table_name.schema_name@, d.table_name.table_name@),
                    d.schema.schema@,
                    d.request_type@,
                    d.class_type@,
                ),
            )),
            None => r matches Err(e) && e matches DecodeError::Encoding,
        },
{
    match JsonValue::parse(payload) {
        Some(v) => GetTableResponse::from_json(&v),
        None => Err(DecodeError::Encoding),
    }
}

/// Reads a layout reply from the transport's bytes; its partitions Block
/// is decoded whole, and arrives well formed.
pub fn parse_get_table_layout_response(payload: &[u8]) -> (r: Result<
    GetTableLayoutResponse,
    DecodeError,
>)
    ensures
        match crate::json_parse::json_of(payload@) {
            Some(j) => (r is Ok <==> get_table_layout_response_of(j) is Some) && (r matches Ok(d)
                ==> get_table_layout_response_of(j) == Some(
                (
                    d.catalog_name@,
                    (d.table_name.schema_name@, d.table_name.table_name@),
                    d.partitions@,
                    d.request_type@,
                    d.class_type@,
                ),
            ) && d.partitions.wf()),
            None => r matches Err(e) && e matches DecodeError::Encoding,
        },
{
    match JsonValue::parse(payload) {
        Some(v) => GetTableLayoutResponse::from_json(&v),
        None => Err(DecodeError::Encoding),
    }
}

/// Reads a splits reply from the transport's bytes. The caller re-invokes
/// with the returned token until none comes back.
pub fn parse_get_splits_response(payload: &[u8]) -> (r: Result<GetSplitsResponse, DecodeError>)
    ensures
        match crate::json_parse::json_of(payload@) {
            Some(j) => (r is Ok <==> get_splits_response_of(j) is Some) && (r matches Ok(d)
                ==> get_splits_response_of(j) == Some(
                (
                    crate::requests::view_splits(d.splits@),
                    match d.continuation_token {
                        Some(t) => Some(t@),
                        None => None,
                    },
                    d.request_type@,
                    d.class_type@,
                ),
            )),
            None => r matches Err(e) && e matches DecodeError::Encoding,
        },
{
    match JsonValue::parse(payload) {
        Some(v) => GetSplitsResponse::from_json(&v),
        None => Err(DecodeError::Encoding),
    }
}

} // verus!
