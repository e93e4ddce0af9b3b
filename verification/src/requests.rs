//! The envelope messages: one request and one response shape per pipeline
//! stage, each with its discriminant tag and its JSON form.
//!
//! Requests are written with every field in a fixed order and the `@type`
//! tag always present. Responses are read defensively: unknown members are
//! ignored, a missing required member names itself in the error, and a
//! missing `@type` falls back to the shape's own tag.

use crate::json::{view_elems, view_members, JsonV, JsonValue};
use crate::models::{
    block_decoding, block_json, constraints_json, identity_json, obj_member, obj_str, split_of,
    table_name_json, table_name_of, Block, Constraints, DecodeError, FederatedIdentity, Schema,
    Split, TableName,
};
use vstd::prelude::*;

verus! {

broadcast use vstd::std_specs::vec::group_vec_axioms;

/// The JSON array of these strings, in order.
pub open spec fn strarr_json(items: Seq<Seq<char>>) -> JsonV {
    JsonV::Arr(
        Seq::new(
            items.len(),
            |i: int|
                if 0 <= i < items.len() {
                    JsonV::Str(items[i])
                } else {
                    JsonV::Null
                },
        ),
    )
}

/// The strings of the array `j`, if every element is a string.
pub open spec fn strs_of(elems: Seq<JsonV>) -> Option<Seq<Seq<char>>>
    decreases elems.len(),
{
    if elems.len() == 0 {
        Some(Seq::empty())
    } else {
        match elems[0] {
            JsonV::Str(s) => match strs_of(elems.drop_first()) {
                Some(rest) => Some(seq![s] + rest),
                None => None,
            },
            _ => None,
        }
    }
}

/// The string array that the value `j` holds.
pub open spec fn strarr_of(j: JsonV) -> Option<Seq<Seq<char>>> {
    match j {
        JsonV::Arr(a) => strs_of(a),
        _ => None,
    }
}

/// The views of a list of strings.
pub open spec fn view_strs(a: Seq<String>) -> Seq<Seq<char>> {
    Seq::new(
        a.len(),
        |i: int|
            if 0 <= i < a.len() {
                a[i]@
            } else {
                Seq::<char>::empty()
            },
    )
}

/// Writes a list of strings as a JSON array.
pub fn strarr_to_json(items: &Vec<String>) -> (r: JsonValue)
    ensures
        r@ == strarr_json(view_strs(items@)),
{
    let n = items.len();
    let mut a: Vec<JsonValue> = Vec::new();
    let mut i: usize = 0;
    while i < n
        invariant
            n == items@.len(),
            0 <= i <= n,
            a@.len() == i,
            forall|j: int| 0 <= j < i ==> #[trigger] a@[j] == JsonValue::Str(items@[j]),
        decreases n - i,
    {
        a.push(JsonValue::Str(items[i].clone()));
        i = i + 1;
    }
    proof {
        assert(view_elems(a@) =~= strarr_json(view_strs(items@))->Arr_0);
    }
    JsonValue::Arr(a)
}

proof fn lemma_strs_step(a: Seq<JsonV>, i: int)
    requires
        0 <= i < a.len(),
    ensures
        strs_of(a.skip(i)) == (match a[i] {
            JsonV::Str(s) => match strs_of(a.skip(i + 1)) {
                Some(rest) => Some(seq![s] + rest),
                None => None,
            },
            _ => None,
        }),
{
    assert(a.skip(i).len() > 0);
    assert(a.skip(i)[0] == a[i]);
    assert(a.skip(i).drop_first() =~= a.skip(i + 1));
}

/// Reads a list of strings from a JSON array whose elements must all be
/// strings.
pub fn strarr_from_json(v: &JsonValue) -> (r: Option<Vec<String>>)
    ensures
        match (r, strarr_of(v@)) {
            (Some(p), Some(w)) => view_strs(p@) == w,
            (None, None) => true,
            _ => false,
        },
{
    match v {
        JsonValue::Arr(a) => {
            let n = a.len();
            let mut out: Vec<String> = Vec::new();
            let mut i: usize = 0;
            proof {
                assert(view_elems(a@).skip(0) =~= view_elems(a@));
            }
            while i < n
                invariant
                    n == a@.len(),
                    0 <= i <= n,
                    v@ == JsonV::Arr(view_elems(a@)),
                    *v == JsonValue::Arr(*a),
                    out@.len() == i,
                    forall|j: int|
                        0 <= j < i ==> ((#[trigger] view_elems(a@)[j]) matches JsonV::Str(s)
                            && view_strs(out@)[j] == s),
                    strs_of(view_elems(a@)) is Some <==> strs_of(
                        view_elems(a@).skip(i as int),
                    ) is Some,
                    strs_of(view_elems(a@)) matches Some(w) ==> w == view_strs(out@) + strs_of(
                        view_elems(a@).skip(i as int),
                    )->0,
                decreases n - i,
            {
                proof {
                    lemma_strs_step(view_elems(a@), i as int);
                }
                match &a[i] {
                    JsonValue::Str(s) => {
                        out.push(s.clone());
                        proof {
                            assert(view_strs(out@) =~= view_strs(out@.drop_last()).push(
                                a@[i as int]->Str_0@,
                            ));
                        }
                    },
                    _ => {
                        return None;
                    },
                }
                i = i + 1;
            }
            proof {
                assert(strs_of(view_elems(a@).skip(n as int)) == Some(Seq::<Seq<char>>::empty()));
                if strs_of(view_elems(a@)) is Some {
                    assert(strs_of(view_elems(a@))->0 =~= view_strs(out@));
                }
            }
            Some(out)
        },
        _ => None,
    }
}

/// A request to read one split's records. It is built with the protocol's
/// block-size limits and sent as-is; this client never varies them.
#[derive(Debug)]
pub struct ReadRecordRequest {
    pub catalog_name: String,
    pub query_id: String,
    pub identity: FederatedIdentity,
    pub table_name: TableName,
    pub schema: Schema,
    pub split: Split,
    pub constraints: Constraints,
    pub max_block_size: i64,
    pub max_inline_block_size: i64,
    pub request_type: String,
}

impl Default for ReadRecordRequest {
    /// A request with empty names, default identity, and the protocol's
    /// standard block-size limits.
    fn default() -> (d: Self)
        ensures
            d.catalog_name@.len() == 0,
            d.query_id@.len() == 0,
            d.identity.id@ == "UNKNOWN_ID"@,
            d.identity.principal@ == "UNKNOWN_PRINCIPAL"@,
            d.identity.account@ == "UNKNOWN_ACCOUNT"@,
            d.table_name.schema_name@.len() == 0,
            d.table_name.table_name@.len() == 0,
            d.schema.schema@.len() == 0,
            d.schema.arrow_schema is None,
            d.split.spill_location.bucket@.len() == 0,
            d.split.spill_location.key@.len() == 0,
            !d.split.spill_location.directory,
            d.split.spill_location.class_type@ == "S3SpillLocation"@,
            d.split.properties@.len() == 0,
            d.split.encryption_key is None,
            d.constraints.summary@.len() == 0,
            d.max_block_size == 16000000int,
            d.max_inline_block_size == 5242880int,
            d.request_type@ == "READ_RECORDS"@,
    {
        ReadRecordRequest {
            catalog_name: String::new(),
            query_id: String::new(),
            identity: FederatedIdentity::default(),
            table_name: TableName::default(),
            schema: Schema::default(),
            split: Split::default(),
            constraints: Constraints::default(),
            max_block_size: 16000000,
            max_inline_block_size: 5242880,
            request_type: "READ_RECORDS".to_owned(),
        }
    }
}

impl Default for Split {
    /// A split whose spill location is empty and not a directory.
    fn default() -> (d: Self)
        ensures
            d.spill_location.bucket@.len() == 0,
            d.spill_location.key@.len() == 0,
            !d.spill_location.directory,
            d.spill_location.class_type@ == "S3SpillLocation"@,
            d.properties@.len() == 0,
            d.encryption_key is None,
    {
        Split {
            spill_location: crate::models::SpillLocation {
                bucket: String::new(),
                key: String::new(),
                directory: false,
                class_type: crate::models::SpillLocation::class_type_def(),
            },
            properties: Vec::new(),
            encryption_key: None,
        }
    }
}

impl ReadRecordRequest {
    /// Writes the request as its JSON object.
    pub fn to_json(&self) -> (r: JsonValue)
        ensures
            r@ == JsonV::Obj(
                seq![
                    ("catalogName"@, JsonV::Str(self.catalog_name@)),
                    ("queryId"@, JsonV::Str(self.query_id@)),
                    (
                        "identity"@,
                        identity_json(self.identity.id@, self.identity.principal@, self.identity.account@),
                    ),
                    ("tableName"@, table_name_json(self.table_name.schema_name@, self.table_name.table_name@)),
                    ("schema"@, JsonV::Obj(seq![("schema"@, JsonV::Str(self.schema.schema@))])),
                    (
                        "split"@,
                        crate::models::split_json(
                            crate::models::spill_location_json(
                                self.split.spill_location.bucket@,
                                self.split.spill_location.key@,
                                self.split.spill_location.directory,
                                self.split.spill_location.class_type@,
                            ),
                            crate::ipc::view_pairs(self.split.properties@),
                            self.split.encryption_key is Some,
                        ),
                    ),
                    ("constraints"@, constraints_json(crate::ipc::view_pairs(self.constraints.summary@))),
                    ("maxBlockSize"@, JsonV::Int(self.max_block_size)),
                    ("maxInlineBlockSize"@, JsonV::Int(self.max_inline_block_size)),
                    ("requestType"@, JsonV::Str(self.request_type@)),
                ],
            ),
    {
        let mut m: Vec<(String, JsonValue)> = Vec::new();
        m.push(("catalogName".to_owned(), JsonValue::Str(self.catalog_name.clone())));
        m.push(("queryId".to_owned(), JsonValue::Str(self.query_id.clone())));
        m.push(("identity".to_owned(), self.identity.to_json()));
        m.push(("tableName".to_owned(), self.table_name.to_json()));
        m.push(("schema".to_owned(), self.schema.to_json()));
        m.push(("split".to_owned(), self.split.to_json()));
        m.push(("constraints".to_owned(), self.constraints.to_json()));
        m.push(("maxBlockSize".to_owned(), JsonValue::Int(self.max_block_size)));
        m.push(("maxInlineBlockSize".to_owned(), JsonValue::Int(self.max_inline_block_size)));
        m.push(("requestType".to_owned(), JsonValue::Str(self.request_type.clone())));
        proof {
            assert(view_members(m@) =~= ReadRecordRequest::json_members(*self));
        }
        JsonValue::Obj(m)
    }

    /// The members that `to_json` writes, in order.
    pub open spec fn json_members(self) -> Seq<(Seq<char>, JsonV)> {
        seq![
            ("catalogName"@, JsonV::Str(self.catalog_name@)),
            ("queryId"@, JsonV::Str(self.query_id@)),
            (
                "identity"@,
                identity_json(self.identity.id@, self.identity.principal@, self.identity.account@),
            ),
            ("tableName"@, table_name_json(self.table_name.schema_name@, self.table_name.table_name@)),
            ("schema"@, JsonV::Obj(seq![("schema"@, JsonV::Str(self.schema.schema@))])),
            (
                "split"@,
                crate::models::split_json(
                    crate::models::spill_location_json(
                        self.split.spill_location.bucket@,
                        self.split.spill_location.key@,
                        self.split.spill_location.directory,
                        self.split.spill_location.class_type@,
                    ),
                    crate::ipc::view_pairs(self.split.properties@),
                    self.split.encryption_key is Some,
                ),
            ),
            ("constraints"@, constraints_json(crate::ipc::view_pairs(self.constraints.summary@))),
            ("maxBlockSize"@, JsonV::Int(self.max_block_size)),
            ("maxInlineBlockSize"@, JsonV::Int(self.max_inline_block_size)),
            ("requestType"@, JsonV::Str(self.request_type@)),
        ]
    }
}

/// The request that lists the schemas of a catalog.
#[derive(Debug)]
pub struct ListSchemasRequest {
    pub identity: FederatedIdentity,
    pub query_id: String,
    pub catalog_name: String,
    pub class_type: String,
}

impl ListSchemasRequest {
    /// The discriminant tag of this shape.
    pub fn class_type_def() -> (r: String)
        ensures
            r@ == "ListSchemasRequest"@,
    {
        "ListSchemasRequest".to_owned()
    }

    /// The members that `to_json` writes, in order.
    pub open spec fn json_members(self) -> Seq<(Seq<char>, JsonV)> {
        seq![
            (
                "identity"@,
                identity_json(self.identity.id@, self.identity.principal@, self.identity.account@),
            ),
            ("queryId"@, JsonV::Str(self.query_id@)),
            ("catalogName"@, JsonV::Str(self.catalog_name@)),
            ("@type"@, JsonV::Str(self.class_type@)),
        ]
    }

    /// Writes the request as its JSON object, the `@type` tag always
    /// present.
    pub fn to_json(&self) -> (r: JsonValue)
        ensures
            r@ == JsonV::Obj(self.json_members()),
    {
        let mut m: Vec<(String, JsonValue)> = Vec::new();
        m.push(("identity".to_owned(), self.identity.to_json()));
        m.push(("queryId".to_owned(), JsonValue::Str(self.query_id.clone())));
        m.push(("catalogName".to_owned(), JsonValue::Str(self.catalog_name.clone())));
        m.push(("@type".to_owned(), JsonValue::Str(self.class_type.clone())));
        proof {
            assert(view_members(m@) =~= self.json_members());
        }
        JsonValue::Obj(m)
    }
}

impl Default for ListSchemasRequest {
    /// A request with the default identity, empty names, and this shape's
    /// own tag.
    fn default() -> (d: Self)
        ensures
            d.identity.id@ == "UNKNOWN_ID"@,
            d.identity.principal@ == "UNKNOWN_PRINCIPAL"@,
            d.identity.account@ == "UNKNOWN_ACCOUNT"@,
            d.query_id@ == Seq::<char>::empty(),
            d.catalog_name@ == Seq::<char>::empty(),
            d.class_type@ == "ListSchemasRequest"@,
    {
        ListSchemasRequest {
            identity: FederatedIdentity::default(),
            query_id: String::new(),
            catalog_name: String::new(),
            class_type: ListSchemasRequest::class_type_def(),
        }
    }
}

/// The request that lists the tables of one schema.
#[derive(Debug)]
pub struct ListTablesRequest {
    pub identity: FederatedIdentity,
    pub query_id: String,
    pub catalog_name: String,
    pub schema_name: String,
    pub class_type: String,
}

impl ListTablesRequest {
    /// The discriminant tag of this shape.
    pub fn class_type_def() -> (r: String)
        ensures
            r@ == "ListTablesRequest"@,
    {
        "ListTablesRequest".to_owned()
    }

    /// A request for the tables of `schema` in `catalog_name`, under the
    /// default identity.
    pub fn new(query_id: &String, catalog_name: &String, schema: &String) -> (r: Self)
        ensures
            r.identity.id@ == "UNKNOWN_ID"@,
            r.identity.principal@ == "UNKNOWN_PRINCIPAL"@,
            r.identity.account@ == "UNKNOWN_ACCOUNT"@,
            r.query_id@ == query_id@,
            r.catalog_name@ == catalog_name@,
            r.schema_name@ == schema@,
            r.class_type@ == "ListTablesRequest"@,
    {
        ListTablesRequest {
            identity: FederatedIdentity::default(),
            query_id: query_id.clone(),
            catalog_name: catalog_name.clone(),
            schema_name: schema.clone(),
            class_type: ListTablesRequest::class_type_def(),
        }
    }

    /// The members that `to_json` writes, in order.
    pub open spec fn json_members(self) -> Seq<(Seq<char>, JsonV)> {
        seq![
            (
                "identity"@,
                identity_json(self.identity.id@, self.identity.principal@, self.identity.account@),
            ),
            ("queryId"@, JsonV::Str(self.query_id@)),
            ("catalogName"@, JsonV::Str(self.catalog_name@)),
            ("schemaName"@, JsonV::Str(self.schema_name@)),
            ("@type"@, JsonV::Str(self.class_type@)),
        ]
    }

    /// Writes the request as its JSON object, the `@type` tag always
    /// present.
    pub fn to_json(&self) -> (r: JsonValue)
        ensures
            r@ == JsonV::Obj(self.json_members()),
    {
        let mut m: Vec<(String, JsonValue)> = Vec::new();
        m.push(("identity".to_owned(), self.identity.to_json()));
        m.push(("queryId".to_owned(), JsonValue::Str(self.query_id.clone())));
        m.push(("catalogName".to_owned(), JsonValue::Str(self.catalog_name.clone())));
        m.push(("schemaName".to_owned(), JsonValue::Str(self.schema_name.clone())));
        m.push(("@type".to_owned(), JsonValue::Str(self.class_type.clone())));
        proof {
            assert(view_members(m@) =~= self.json_members());
        }
        JsonValue::Obj(m)
    }
}

impl Default for ListTablesRequest {
    /// A request with the default identity, empty names, and this shape's
    /// own tag.
    fn default() -> (d: Self)
        ensures
            d.identity.id@ == "UNKNOWN_ID"@,
            d.identity.principal@ == "UNKNOWN_PRINCIPAL"@,
            d.identity.account@ == "UNKNOWN_ACCOUNT"@,
            d.query_id@.len() == 0,
            d.catalog_name@.len() == 0,
            d.schema_name@.len() == 0,
            d.class_type@ == "ListTablesRequest"@,
    {
        ListTablesRequest {
            identity: FederatedIdentity::default(),
            query_id: String::new(),
            catalog_name: String::new(),
            schema_name: String::new(),
            class_type: ListTablesRequest::class_type_def(),
        }
    }
}

/// The request that resolves one table's name and schema descriptor.
#[derive(Debug)]
pub struct GetTableRequest {
    pub identity: FederatedIdentity,
    pub query_id: String,
    pub catalog_name: String,
    pub table_name: TableName,
    pub class_type: String,
}

impl GetTableRequest {
    /// The discriminant tag of this shape.
    pub fn class_type_def() -> (r: String)
        ensures
            r@ == "GetTableRequest"@,
    {
        "GetTableRequest".to_owned()
    }

    /// A request for the table `table_name` of `schema_name`, under the
    /// default identity and an empty query id.
    pub fn new(catalog_name: String, schema_name: String, table_name: String) -> (r: Self)
        ensures
            r.identity.id@ == "UNKNOWN_ID"@,
            r.identity.principal@ == "UNKNOWN_PRINCIPAL"@,
            r.identity.account@ == "UNKNOWN_ACCOUNT"@,
            r.query_id@ == Seq::<char>::empty(),
            r.catalog_name == catalog_name,
            r.table_name.schema_name == schema_name,
            r.table_name.table_name == table_name,
            r.class_type@ == "GetTableRequest"@,
    {
        GetTableRequest {
            identity: FederatedIdentity::default(),
            catalog_name,
            query_id: String::new(),
            table_name: TableName::new(schema_name, table_name),
            class_type: GetTableRequest::class_type_def(),
        }
    }

    /// The members that `to_json` writes, in order.
    pub open spec fn json_members(self) -> Seq<(Seq<char>, JsonV)> {
        seq![
            (
                "identity"@,
                identity_json(self.identity.id@, self.identity.principal@, self.identity.account@),
            ),
            ("queryId"@, JsonV::Str(self.query_id@)),
            ("catalogName"@, JsonV::Str(self.catalog_name@)),
            ("tableName"@, table_name_json(self.table_name.schema_name@, self.table_name.table_name@)),
            ("@type"@, JsonV::Str(self.class_type@)),
        ]
    }

    /// Writes the request as its JSON object, the `@type` tag always
    /// present.
    pub fn to_json(&self) -> (r: JsonValue)
        ensures
            r@ == JsonV::Obj(self.json_members()),
    {
        let mut m: Vec<(String, JsonValue)> = Vec::new();
        m.push(("identity".to_owned(), self.identity.to_json()));
        m.push(("queryId".to_owned(), JsonValue::Str(self.query_id.clone())));
        m.push(("catalogName".to_owned(), JsonValue::Str(self.catalog_name.clone())));
        m.push(("tableName".to_owned(), self.table_name.to_json()));
        m.push(("@type".to_owned(), JsonValue::Str(self.class_type.clone())));
        proof {
            assert(view_members(m@) =~= self.json_members());
        }
        JsonValue::Obj(m)
    }
}

impl Default for GetTableRequest {
    /// A request with the default identity, empty names, and this shape's
    /// own tag.
    fn default() -> (d: Self)
        ensures
            d.identity.id@ == "UNKNOWN_ID"@,
            d.identity.principal@ == "UNKNOWN_PRINCIPAL"@,
            d.identity.account@ == "UNKNOWN_ACCOUNT"@,
            d.query_id@.len() == 0,
            d.catalog_name@.len() == 0,
            d.class_type@ == "GetTableRequest"@,
    {
        GetTableRequest {
            identity: FederatedIdentity::default(),
            query_id: String::new(),
            catalog_name: String::new(),
            table_name: TableName::default(),
            class_type: GetTableRequest::class_type_def(),
        }
    }
}

/// The request that resolves one table's partition layout.
#[derive(Debug)]
pub struct GetTableLayoutRequest {
    pub identity: FederatedIdentity,
    pub query_id: String,
    pub catalog_name: String,
    pub table_name: TableName,
    pub constraints: Constraints,
    pub schema: Schema,
    pub partition_cols: Vec<String>,
    pub class_type: String,
}

impl GetTableLayoutRequest {
    /// The discriminant tag of this shape.
    pub fn class_type_def() -> (r: String)
        ensures
            r@ == "GetTableLayoutRequest"@,
    {
        "GetTableLayoutRequest".to_owned()
    }

    /// A layout request over the given table, constraints, schema and
    /// partition columns, under the default identity.
    pub fn new(
        query_id: String,
        catalog_name: String,
        table_name: TableName,
        constraints: Constraints,
        schema: Schema,
        partition_cols: Vec<String>,
    ) -> (r: Self)
        ensures
            r.identity.id@ == "UNKNOWN_ID"@,
            r.identity.principal@ == "UNKNOWN_PRINCIPAL"@,
            r.identity.account@ == "UNKNOWN_ACCOUNT"@,
            r.query_id == query_id,
            r.catalog_name == catalog_name,
            r.table_name == table_name,
            r.constraints == constraints,
            r.schema == schema,
            r.partition_cols == partition_cols,
            r.class_type@ == "GetTableLayoutRequest"@,
    {
        let identity = FederatedIdentity::default();
        GetTableLayoutRequest {
            identity,
            query_id,
            catalog_name,
            table_name,
            constraints,
            schema,
            partition_cols,
            class_type: GetTableLayoutRequest::class_type_def(),
        }
    }

    /// The members that `to_json` writes, in order.
    pub open spec fn json_members(self) -> Seq<(Seq<char>, JsonV)> {
        seq![
            (
                "identity"@,
                identity_json(self.identity.id@, self.identity.principal@, self.identity.account@),
            ),
            ("queryId"@, JsonV::Str(self.query_id@)),
            ("catalogName"@, JsonV::Str(self.catalog_name@)),
            ("tableName"@, table_name_json(self.table_name.schema_name@, self.table_name.table_name@)),
            ("constraints"@, constraints_json(crate::ipc::view_pairs(self.constraints.summary@))),
            ("schema"@, JsonV::Obj(seq![("schema"@, JsonV::Str(self.schema.schema@))])),
            ("partitionCols"@, strarr_json(view_strs(self.partition_cols@))),
            ("@type"@, JsonV::Str(self.class_type@)),
        ]
    }

    /// Writes the request as its JSON object, the `@type` tag always
    /// present.
    pub fn to_json(&self) -> (r: JsonValue)
        ensures
            r@ == JsonV::Obj(self.json_members()),
    {
        let mut m: Vec<(String, JsonValue)> = Vec::new();
        m.push(("identity".to_owned(), self.identity.to_json()));
        m.push(("queryId".to_owned(), JsonValue::Str(self.query_id.clone())));
        m.push(("catalogName".to_owned(), JsonValue::Str(self.catalog_name.clone())));
        m.push(("tableName".to_owned(), self.table_name.to_json()));
        m.push(("constraints".to_owned(), self.constraints.to_json()));
        m.push(("schema".to_owned(), self.schema.to_json()));
        m.push(("partitionCols".to_owned(), strarr_to_json(&self.partition_cols)));
        m.push(("@type".to_owned(), JsonValue::Str(self.class_type.clone())));
        proof {
            assert(view_members(m@) =~= self.json_members());
        }
        JsonValue::Obj(m)
    }
}

/// The request that resolves the splits of one table layout, page by
/// page: the continuation token of the previous page is echoed back, and
/// left out entirely on the first call.
#[derive(Debug)]
pub struct GetSplitsRequest {
    pub identity: FederatedIdentity,
    pub class_type: String,
    pub query_id: String,
    pub catalog_name: String,
    pub table_name: TableName,
    pub partitions: Block,
    pub partition_cols: Vec<String>,
    pub constraints: Constraints,
    pub continuation_token: Option<String>,
}

/// What a splits request holds once read back from JSON: an absent
/// identity falls back to the defaults, an absent tag to this shape's
/// own, and an absent or null continuation token to none.
pub open spec fn get_splits_request_of(j: JsonV) -> Option<
    (
        (Seq<char>, Seq<char>, Seq<char>),
        Seq<char>,
        Seq<char>,
        Seq<char>,
        (Seq<char>, Seq<char>),
        crate::models::BlockV,
        Seq<Seq<char>>,
        Seq<(Seq<char>, Seq<char>)>,
        Option<Seq<char>>,
    ),
> {
    let identity = match obj_member(j, "identity"@) {
        Some(ij) => crate::models::identity_of(ij),
        None => Some(("UNKNOWN_ID"@, "UNKNOWN_PRINCIPAL"@, "UNKNOWN_ACCOUNT"@)),
    };
    let class_type = match obj_member(j, "@type"@) {
        Some(t) => match t {
            JsonV::Str(s) => Some(s),
            _ => None,
        },
        None => Some("GetSplitsRequest"@),
    };
    let token = match obj_member(j, "continuationToken"@) {
        Some(t) => match t {
            JsonV::Str(s) => Some(Some(s)),
            JsonV::Null => Some(None),
            _ => None,
        },
        None => Some(None),
    };
    let partitions = match obj_member(j, "partitions"@) {
        Some(pj) => block_decoding(pj),
        None => None,
    };
    let cols = match obj_member(j, "partitionCols"@) {
        Some(cj) => strarr_of(cj),
        None => None,
    };
    let constraints = match obj_member(j, "constraints"@) {
        Some(cj) => crate::models::constraints_of(cj),
        None => None,
    };
    let table = match obj_member(j, "tableName"@) {
        Some(tj) => table_name_of(tj),
        None => None,
    };
    match (identity, class_type, obj_str(j, "queryId"@), obj_str(j, "catalogName"@)) {
        (Some(idv), Some(ct), Some(q), Some(c)) => match (
            table,
            partitions,
            cols,
            constraints,
            token,
        ) {
            (Some(t), Some(p), Some(pc), Some(cs), Some(tk)) => Some(
                (idv, ct, q, c, t, p, pc, cs, tk),
            ),
            _ => None,
        },
        _ => None,
    }
}

impl GetSplitsRequest {
    /// The discriminant tag of this shape.
    pub fn class_type_def() -> (r: String)
        ensures
            r@ == "GetSplitsRequest"@,
    {
        "GetSplitsRequest".to_owned()
    }

    /// A splits request over the given layout partitions, under the
    /// default identity; `continuation_token` echoes the previous page's
    /// token, or is none for the first page.
    pub fn new(
        query_id: String,
        catalog_name: String,
        table_name: TableName,
        partitions: Block,
        partition_cols: Vec<String>,
        constraints: Constraints,
        continuation_token: Option<String>,
    ) -> (r: Self)
        ensures
            r.identity.id@ == "UNKNOWN_ID"@,
            r.identity.principal@ == "UNKNOWN_PRINCIPAL"@,
            r.identity.account@ == "UNKNOWN_ACCOUNT"@,
            r.class_type@ == "GetSplitsRequest"@,
            r.query_id == query_id,
            r.catalog_name == catalog_name,
            r.table_name == table_name,
            r.partitions == partitions,
            r.partition_cols == partition_cols,
            r.constraints == constraints,
            r.continuation_token == continuation_token,
    {
        GetSplitsRequest {
            identity: FederatedIdentity::default(),
            class_type: GetSplitsRequest::class_type_def(),
            query_id,
            catalog_name,
            table_name,
            partitions,
            partition_cols,
            constraints,
            continuation_token,
        }
    }

    /// The members that `to_json` writes, in order: the continuation
    /// token stands last, and only when one is held.
    pub open spec fn json_members(self) -> Seq<(Seq<char>, JsonV)> {
        seq![
            (
                "identity"@,
                identity_json(self.identity.id@, self.identity.principal@, self.identity.account@),
            ),
            ("@type"@, JsonV::Str(self.class_type@)),
            ("queryId"@, JsonV::Str(self.query_id@)),
            ("catalogName"@, JsonV::Str(self.catalog_name@)),
            ("tableName"@, table_name_json(self.table_name.schema_name@, self.table_name.table_name@)),
            (
                "partitions"@,
                block_json(
                    self.partitions.serialized.schema@,
                    self.partitions.serialized.records@,
                    self.partitions.serialized.a_id@,
                ),
            ),
            ("partitionCols"@, strarr_json(view_strs(self.partition_cols@))),
            ("constraints"@, constraints_json(crate::ipc::view_pairs(self.constraints.summary@))),
        ] + (match self.continuation_token {
            Some(t) => seq![("continuationToken"@, JsonV::Str(t@))],
            None => Seq::<(Seq<char>, JsonV)>::empty(),
        })
    }

    /// Writes the request as its JSON object. A held continuation token
    /// is written under its key; none means the key is left out entirely,
    /// not written as null.
    pub fn to_json(&self) -> (r: JsonValue)
        ensures
            r@ == JsonV::Obj(self.json_members()),
    {
        let mut m: Vec<(String, JsonValue)> = Vec::new();
        m.push(("identity".to_owned(), self.identity.to_json()));
        m.push(("@type".to_owned(), JsonValue::Str(self.class_type.clone())));
        m.push(("queryId".to_owned(), JsonValue::Str(self.query_id.clone())));
        m.push(("catalogName".to_owned(), JsonValue::Str(self.catalog_name.clone())));
        m.push(("tableName".to_owned(), self.table_name.to_json()));
        m.push(("partitions".to_owned(), self.partitions.to_json()));
        m.push(("partitionCols".to_owned(), strarr_to_json(&self.partition_cols)));
        m.push(("constraints".to_owned(), self.constraints.to_json()));
        match &self.continuation_token {
            Some(t) => {
                m.push(("continuationToken".to_owned(), JsonValue::Str(t.clone())));
            },
            None => {},
        }
        proof {
            assert(view_members(m@) =~= self.json_members());
        }
        JsonValue::Obj(m)
    }

    /// Reads a splits request back from its JSON object.
    #[verifier::rlimit(100)]
    pub fn from_json(v: &JsonValue) -> (r: Result<GetSplitsRequest, DecodeError>)
        ensures
            r is Ok <==> get_splits_request_of(v@) is Some,
            r matches Ok(g) ==> get_splits_request_of(v@) == Some(
                (
                    (g.identity.id@, g.identity.principal@, g.identity.account@),
                    g.class_type@,
                    g.query_id@,
                    g.catalog_name@,
                    (g.table_name.schema_name@, g.table_name.table_name@),
                    g.partitions@,
                    view_strs(g.partition_cols@),
                    crate::ipc::view_pairs(g.constraints.summary@),
                    match g.continuation_token {
                        Some(t) => Some(t@),
                        None => None,
                    },
                ),
            ) && g.partitions.wf(),
            r matches Err(e) ==> ((e matches DecodeError::FieldMismatch(_)) || (
            e matches DecodeError::Encoding)),
    {
        let identity = match v.get("identity") {
            Some(ij) => match FederatedIdentity::from_json(ij) {
                Ok(i) => i,
                Err(_) => {
                    return Err(DecodeError::Encoding);
                },
            },
            None => FederatedIdentity::default(),
        };
        let class_type = match v.get("@type") {
            Some(t) => match t {
                JsonValue::Str(s) => s.clone(),
                _ => {
                    return Err(DecodeError::Encoding);
                },
            },
            None => GetSplitsRequest::class_type_def(),
        };
        let query_id = match v.get_str("queryId") {
            Some(s) => s,
            None => {
                return Err(DecodeError::FieldMismatch("queryId".to_owned()));
            },
        };
        let catalog_name = match v.get_str("catalogName") {
            Some(s) => s,
            None => {
                return Err(DecodeError::FieldMismatch("catalogName".to_owned()));
            },
        };
        let table_name = match v.get("tableName") {
            Some(tj) => match TableName::from_json(tj) {
                Ok(t) => t,
                Err(_) => {
                    return Err(DecodeError::Encoding);
                },
            },
            None => {
                return Err(DecodeError::FieldMismatch("tableName".to_owned()));
            },
        };
        let partitions = match v.get("partitions") {
            Some(pj) => match Block::from_json(pj) {
                Ok(b) => b,
                Err(_) => {
                    return Err(DecodeError::Encoding);
                },
            },
            None => {
                return Err(DecodeError::FieldMismatch("partitions".to_owned()));
            },
        };
        let partition_cols = match v.get("partitionCols") {
            Some(cj) => match strarr_from_json(cj) {
                Some(c) => c,
                None => {
                    return Err(DecodeError::Encoding);
                },
            },
            None => {
                return Err(DecodeError::FieldMismatch("partitionCols".to_owned()));
            },
        };
        let constraints = match v.get("constraints") {
            Some(cj) => match Constraints::from_json(cj) {
                Ok(c) => c,
                Err(_) => {
                    return Err(DecodeError::Encoding);
                },
            },
            None => {
                return Err(DecodeError::FieldMismatch("constraints".to_owned()));
            },
        };
        let continuation_token = match v.get("continuationToken") {
            Some(t) => match t {
                JsonValue::Str(s) => Some(s.clone()),
                JsonValue::Null => None,
                _ => {
                    return Err(DecodeError::Encoding);
                },
            },
            None => None,
        };
        Ok(
            GetSplitsRequest {
                identity,
                class_type,
                query_id,
                catalog_name,
                table_name,
                partitions,
                partition_cols,
                constraints,
                continuation_token,
            },
        )
    }
}

/// Optional field omission: a splits request without a continuation token
/// writes no `continuationToken` member at all; one with a token writes
/// the member, holding exactly that token.
pub proof fn lemma_continuation_token_omission(req: GetSplitsRequest)
    ensures
        req.continuation_token is None ==> obj_member(
            JsonV::Obj(req.json_members()),
            "continuationToken"@,
        ) is None,
        req.continuation_token matches Some(t) ==> obj_member(
            JsonV::Obj(req.json_members()),
            "continuationToken"@,
        ) == Some(JsonV::Str(t@)),
{
    reveal_strlit("identity");
    reveal_strlit("@type");
    reveal_strlit("queryId");
    reveal_strlit("catalogName");
    reveal_strlit("tableName");
    reveal_strlit("partitions");
    reveal_strlit("partitionCols");
    reveal_strlit("constraints");
    reveal_strlit("continuationToken");
    let m = req.json_members();
    let k = "continuationToken"@;
    assert(k.len() == 17);
    assert(m[0].0.len() == 8 && m[1].0.len() == 5 && m[2].0.len() == 7 && m[3].0.len() == 11
        && m[4].0.len() == 9 && m[5].0.len() == 10 && m[6].0.len() == 13 && m[7].0.len() == 11);
    match req.continuation_token {
        None => {
            assert(m.len() == 8);
            assert(forall|i: int| 0 <= i < m.len() ==> (#[trigger] m[i].0) != k);
            crate::json::lemma_obj_get_absent(m, k);
        },
        Some(t) => {
            assert(m.len() == 9);
            assert(m[8] == ("continuationToken"@, JsonV::Str(t@)));
            assert(forall|j: int| 0 <= j < 8 ==> (#[trigger] m[j].0) != k);
            crate::json::lemma_obj_get_found(m, k, 8);
        },
    }
}

/// The views of a list of table names.
pub open spec fn view_table_names(a: Seq<TableName>) -> Seq<(Seq<char>, Seq<char>)> {
    Seq::new(
        a.len(),
        |i: int|
            if 0 <= i < a.len() {
                (a[i].schema_name@, a[i].table_name@)
            } else {
                (Seq::<char>::empty(), Seq::<char>::empty())
            },
    )
}

/// The table names of the array elements `elems`, if each is one.
pub open spec fn table_names_of(elems: Seq<JsonV>) -> Option<Seq<(Seq<char>, Seq<char>)>>
    decreases elems.len(),
{
    if elems.len() == 0 {
        Some(Seq::empty())
    } else {
        match table_name_of(elems[0]) {
            Some(t) => match table_names_of(elems.drop_first()) {
                Some(rest) => Some(seq![t] + rest),
                None => None,
            },
            None => None,
        }
    }
}

/// The table names that the array `j` holds.
pub open spec fn tablearr_of(j: JsonV) -> Option<Seq<(Seq<char>, Seq<char>)>> {
    match j {
        JsonV::Arr(a) => table_names_of(a),
        _ => None,
    }
}

proof fn lemma_table_names_step(a: Seq<JsonV>, i: int)
    requires
        0 <= i < a.len(),
    ensures
        table_names_of(a.skip(i)) == (match table_name_of(a[i]) {
            Some(t) => match table_names_of(a.skip(i + 1)) {
                Some(rest) => Some(seq![t] + rest),
                None => None,
            },
            None => None,
        }),
{
    assert(a.skip(i).len() > 0);
    assert(a.skip(i)[0] == a[i]);
    assert(a.skip(i).drop_first() =~= a.skip(i + 1));
}

/// Reads a list of table names from a JSON array.
pub fn tablearr_from_json(v: &JsonValue) -> (r: Option<Vec<TableName>>)
    ensures
        match (r, tablearr_of(v@)) {
            (Some(p), Some(w)) => view_table_names(p@) == w,
            (None, None) => true,
            _ => false,
        },
{
    match v {
        JsonValue::Arr(a) => {
            let n = a.len();
            let mut out: Vec<TableName> = Vec::new();
            let mut i: usize = 0;
            proof {
                assert(view_elems(a@).skip(0) =~= view_elems(a@));
            }
            while i < n
                invariant
                    n == a@.len(),
                    0 <= i <= n,
                    v@ == JsonV::Arr(view_elems(a@)),
                    *v == JsonValue::Arr(*a),
                    out@.len() == i,
                    forall|j: int|
                        0 <= j < i ==> table_name_of(#[trigger] view_elems(a@)[j]) == Some(
                            view_table_names(out@)[j],
                        ),
                    table_names_of(view_elems(a@)) is Some <==> table_names_of(
                        view_elems(a@).skip(i as int),
                    ) is Some,
                    table_names_of(view_elems(a@)) matches Some(w) ==> w == view_table_names(out@)
                        + table_names_of(view_elems(a@).skip(i as int))->0,
                decreases n - i,
            {
                proof {
                    lemma_table_names_step(view_elems(a@), i as int);
                }
                match TableName::from_json(&a[i]) {
                    Ok(t) => {
                        out.push(t);
                        proof {
                            assert(view_table_names(out@) =~= view_table_names(
                                out@.drop_last(),
                            ).push((out@[i as int].schema_name@, out@[i as int].table_name@)));
                        }
                    },
                    Err(_) => {
                        return None;
                    },
                }
                i = i + 1;
            }
            proof {
                assert(table_names_of(view_elems(a@).skip(n as int)) == Some(
                    Seq::<(Seq<char>, Seq<char>)>::empty(),
                ));
                if table_names_of(view_elems(a@)) is Some {
                    assert(table_names_of(view_elems(a@))->0 =~= view_table_names(out@));
                }
            }
            Some(out)
        },
        _ => None,
    }
}

/// What one split looks like in the model: its spill location fields, its
/// properties, and whether it carries an encryption key.
pub open spec fn split_view(s: Split) -> (
    (Seq<char>, Seq<char>, bool, Seq<char>),
    Seq<(Seq<char>, Seq<char>)>,
    bool,
) {
    (
        (
            s.spill_location.bucket@,
            s.spill_location.key@,
            s.spill_location.directory,
            s.spill_location.class_type@,
        ),
        crate::ipc::view_pairs(s.properties@),
        s.encryption_key is Some,
    )
}

/// The views of a list of splits.
pub open spec fn view_splits(a: Seq<Split>) -> Seq<
    ((Seq<char>, Seq<char>, bool, Seq<char>), Seq<(Seq<char>, Seq<char>)>, bool),
> {
    Seq::new(
        a.len(),
        |i: int|
            if 0 <= i < a.len() {
                split_view(a[i])
            } else {
                ((Seq::<char>::empty(), Seq::<char>::empty(), false, Seq::<char>::empty()),
                Seq::<(Seq<char>, Seq<char>)>::empty(), false)
            },
    )
}

/// The splits of the array elements `elems`, if each is one.
pub open spec fn splits_arr_of(elems: Seq<JsonV>) -> Option<
    Seq<((Seq<char>, Seq<char>, bool, Seq<char>), Seq<(Seq<char>, Seq<char>)>, bool)>,
>
    decreases elems.len(),
{
    if elems.len() == 0 {
        Some(Seq::empty())
    } else {
        match split_of(elems[0]) {
            Some(t) => match splits_arr_of(elems.drop_first()) {
                Some(rest) => Some(seq![t] + rest),
                None => None,
            },
            None => None,
        }
    }
}

/// The splits that the array `j` holds.
pub open spec fn splitarr_of(j: JsonV) -> Option<
    Seq<((Seq<char>, Seq<char>, bool, Seq<char>), Seq<(Seq<char>, Seq<char>)>, bool)>,
> {
    match j {
        JsonV::Arr(a) => splits_arr_of(a),
        _ => None,
    }
}

proof fn lemma_splits_step(a: Seq<JsonV>, i: int)
    requires
        0 <= i < a.len(),
    ensures
        splits_arr_of(a.skip(i)) == (match split_of(a[i]) {
            Some(t) => match splits_arr_of(a.skip(i + 1)) {
                Some(rest) => Some(seq![t] + rest),
                None => None,
            },
            None => None,
        }),
{
    assert(a.skip(i).len() > 0);
    assert(a.skip(i)[0] == a[i]);
    assert(a.skip(i).drop_first() =~= a.skip(i + 1));
}

/// Reads a list of splits from a JSON array.
pub fn splitarr_from_json(v: &JsonValue) -> (r: Option<Vec<Split>>)
    ensures
        match (r, splitarr_of(v@)) {
            (Some(p), Some(w)) => view_splits(p@) == w,
            (None, None) => true,
            _ => false,
        },
{
    match v {
        JsonValue::Arr(a) => {
            let n = a.len();
            let mut out: Vec<Split> = Vec::new();
            let mut i: usize = 0;
            proof {
                assert(view_elems(a@).skip(0) =~= view_elems(a@));
            }
            while i < n
                invariant
                    n == a@.len(),
                    0 <= i <= n,
                    v@ == JsonV::Arr(view_elems(a@)),
                    *v == JsonValue::Arr(*a),
                    out@.len() == i,
                    forall|j: int|
                        0 <= j < i ==> split_of(#[trigger] view_elems(a@)[j]) == Some(
                            view_splits(out@)[j],
                        ),
                    splits_arr_of(view_elems(a@)) is Some <==> splits_arr_of(
                        view_elems(a@).skip(i as int),
                    ) is Some,
                    splits_arr_of(view_elems(a@)) matches Some(w) ==> w == view_splits(out@)
                        + splits_arr_of(view_elems(a@).skip(i as int))->0,
                decreases n - i,
            {
                proof {
                    lemma_splits_step(view_elems(a@), i as int);
                }
                match Split::from_json(&a[i]) {
                    Ok(t) => {
                        out.push(t);
                        proof {
                            assert(view_splits(out@) =~= view_splits(out@.drop_last()).push(
                                split_view(out@[i as int]),
                            ));
                        }
                    },
                    Err(_) => {
                        return None;
                    },
                }
                i = i + 1;
            }
            proof {
                assert(splits_arr_of(view_elems(a@).skip(n as int)) matches Some(e) && e.len()
                    == 0);
                if splits_arr_of(view_elems(a@)) is Some {
                    assert(splits_arr_of(view_elems(a@))->0 =~= view_splits(out@));
                }
            }
            Some(out)
        },
        _ => None,
    }
}

/// The `@type` tag of the object `j`, with the given fallback when the
/// member is absent. A member of another shape is refused.
pub open spec fn class_type_of(j: JsonV, fallback: Seq<char>) -> Option<Seq<char>> {
    match obj_member(j, "@type"@) {
        Some(t) => match t {
            JsonV::Str(s) => Some(s),
            _ => None,
        },
        None => Some(fallback),
    }
}

/// The schema names of one catalog.
#[derive(Debug)]
pub struct ListSchemasResponse {
    pub catalog_name: String,
    pub request_type: String,
    pub schemas: Vec<String>,
    pub class_type: String,
}

/// What a schema-list response holds: catalog, request type, the schema
/// names, and the tag (defaulted when absent).
pub open spec fn list_schemas_response_of(j: JsonV) -> Option<
    (Seq<char>, Seq<char>, Seq<Seq<char>>, Seq<char>),
> {
    let schemas = match obj_member(j, "schemas"@) {
        Some(sj) => strarr_of(sj),
        None => None,
    };
    match (obj_str(j, "catalogName"@), obj_str(j, "requestType"@), schemas, class_type_of(
        j,
        "ListSchemasResponse"@,
    )) {
        (Some(c), Some(rt), Some(ss), Some(ct)) => Some((c, rt, ss, ct)),
        _ => None,
    }
}

impl ListSchemasResponse {
    /// The discriminant tag of this shape.
    pub fn class_type_def() -> (r: String)
        ensures
            r@ == "ListSchemasResponse"@,
    {
        "ListSchemasResponse".to_owned()
    }

    /// Reads the response from its JSON object; unknown members are
    /// ignored, a missing tag falls back to this shape's own.
    pub fn from_json(v: &JsonValue) -> (r: Result<ListSchemasResponse, DecodeError>)
        ensures
            r is Ok <==> list_schemas_response_of(v@) is Some,
            r matches Ok(d) ==> list_schemas_response_of(v@) == Some(
                (d.catalog_name@, d.request_type@, view_strs(d.schemas@), d.class_type@),
            ),
            r matches Err(e) ==> ((e matches DecodeError::FieldMismatch(_)) || (
            e matches DecodeError::Encoding)),
    {
        let catalog_name = match v.get_str("catalogName") {
            Some(s) => s,
            None => {
                return Err(DecodeError::FieldMismatch("catalogName".to_owned()));
            },
        };
        let request_type = match v.get_str("requestType") {
            Some(s) => s,
            None => {
                return Err(DecodeError::FieldMismatch("requestType".to_owned()));
            },
        };
        let schemas = match v.get("schemas") {
            Some(sj) => match strarr_from_json(sj) {
                Some(s) => s,
                None => {
                    return Err(DecodeError::Encoding);
                },
            },
            None => {
                return Err(DecodeError::FieldMismatch("schemas".to_owned()));
            },
        };
        let class_type = match v.get("@type") {
            Some(t) => match t {
                JsonValue::Str(s) => s.clone(),
                _ => {
                    return Err(DecodeError::Encoding);
                },
            },
            None => ListSchemasResponse::class_type_def(),
        };
        Ok(ListSchemasResponse { catalog_name, request_type, schemas, class_type })
    }
}

/// The table names of one schema.
#[derive(Debug)]
pub struct ListTablesResponse {
    pub class_type: String,
    pub catalog_name: String,
    pub tables: Vec<TableName>,
    pub request_type: String,
}

/// What a table-list response holds.
pub open spec fn list_tables_response_of(j: JsonV) -> Option<
    (Seq<char>, Seq<(Seq<char>, Seq<char>)>, Seq<char>, Seq<char>),
> {
    let tables = match obj_member(j, "tables"@) {
        Some(tj) => tablearr_of(tj),
        None => None,
    };
    match (obj_str(j, "catalogName"@), tables, obj_str(j, "requestType"@), class_type_of(
        j,
        "ListTablesResponse"@,
    )) {
        (Some(c), Some(ts), Some(rt), Some(ct)) => Some((c, ts, rt, ct)),
        _ => None,
    }
}

impl ListTablesResponse {
    /// The discriminant tag of this shape.
    pub fn class_type_def() -> (r: String)
        ensures
            r@ == "ListTablesResponse"@,
    {
        "ListTablesResponse".to_owned()
    }

    /// Reads the response from its JSON object.
    pub fn from_json(v: &JsonValue) -> (r: Result<ListTablesResponse, DecodeError>)
        ensures
            r is Ok <==> list_tables_response_of(v@) is Some,
            r matches Ok(d) ==> list_tables_response_of(v@) == Some(
                (d.catalog_name@, view_table_names(d.tables@), d.request_type@, d.class_type@),
            ),
            r matches Err(e) ==> ((e matches DecodeError::FieldMismatch(_)) || (
            e matches DecodeError::Encoding)),
    {
        let catalog_name = match v.get_str("catalogName") {
            Some(s) => s,
            None => {
                return Err(DecodeError::FieldMismatch("catalogName".to_owned()));
            },
        };
        let tables = match v.get("tables") {
            Some(tj) => match tablearr_from_json(tj) {
                Some(t) => t,
                None => {
                    return Err(DecodeError::Encoding);
                },
            },
            None => {
                return Err(DecodeError::FieldMismatch("tables".to_owned()));
            },
        };
        let request_type = match v.get_str("requestType") {
            Some(s) => s,
            None => {
                return Err(DecodeError::FieldMismatch("requestType".to_owned()));
            },
        };
        let class_type = match v.get("@type") {
            Some(t) => match t {
                JsonValue::Str(s) => s.clone(),
                _ => {
                    return Err(DecodeError::Encoding);
                },
            },
            None => ListTablesResponse::class_type_def(),
        };
        Ok(ListTablesResponse { class_type, catalog_name, tables, request_type })
    }
}

/// One table's name and schema descriptor.
#[derive(Debug)]
pub struct GetTableResponse {
    pub class_type: String,
    pub catalog_name: String,
    pub table_name: TableName,
    pub schema: Schema,
    pub request_type: String,
}

/// What a get-table response holds; the descriptor arrives encoded and
/// stays undecoded until first use.
pub open spec fn get_table_response_of(j: JsonV) -> Option<
    (Seq<char>, (Seq<char>, Seq<char>), Seq<char>, Seq<char>, Seq<char>),
> {
    let table = match obj_member(j, "tableName"@) {
        Some(tj) => table_name_of(tj),
        None => None,
    };
    let schema = match obj_member(j, "schema"@) {
        Some(sj) => obj_str(sj, "schema"@),
        None => None,
    };
    match (obj_str(j, "catalogName"@), table, schema, obj_str(j, "requestType"@), class_type_of(
        j,
        "GetTableResponse"@,
    )) {
        (Some(c), Some(t), Some(s), Some(rt), Some(ct)) => Some((c, t, s, rt, ct)),
        _ => None,
    }
}

impl GetTableResponse {
    /// The discriminant tag of this shape.
    pub fn class_type_def() -> (r: String)
        ensures
            r@ == "GetTableResponse"@,
    {
        "GetTableResponse".to_owned()
    }

    /// Reads the response from its JSON object.
    pub fn from_json(v: &JsonValue) -> (r: Result<GetTableResponse, DecodeError>)
        ensures
            r is Ok <==> get_table_response_of(v@) is Some,
            r matches Ok(d) ==> get_table_response_of(v@) == Some(
                (
                    d.catalog_name@,
                    (d.table_name.schema_name@, d.table_name.table_name@),
                    d.schema.schema@,
                    d.request_type@,
                    d.class_type@,
                ),
            ) && d.schema.arrow_schema is None,
            r matches Err(e) ==> ((e matches DecodeError::FieldMismatch(_)) || (
            e matches DecodeError::Encoding)),
    {
        let catalog_name = match v.get_str("catalogName") {
            Some(s) => s,
            None => {
                return Err(DecodeError::FieldMismatch("catalogName".to_owned()));
            },
        };
        let table_name = match v.get("tableName") {
            Some(tj) => match TableName::from_json(tj) {
                Ok(t) => t,
                Err(_) => {
                    return Err(DecodeError::Encoding);
                },
            },
            None => {
                return Err(DecodeError::FieldMismatch("tableName".to_owned()));
            },
        };
        let schema = match v.get("schema") {
            Some(sj) => match Schema::from_json(sj) {
                Ok(s) => s,
                Err(_) => {
                    return Err(DecodeError::Encoding);
                },
            },
            None => {
                return Err(DecodeError::FieldMismatch("schema".to_owned()));
            },
        };
        let request_type = match v.get_str("requestType") {
            Some(s) => s,
            None => {
                return Err(DecodeError::FieldMismatch("requestType".to_owned()));
            },
        };
        let class_type = match v.get("@type") {
            Some(t) => match t {
                JsonValue::Str(s) => s.clone(),
                _ => {
                    return Err(DecodeError::Encoding);
                },
            },
            None => GetTableResponse::class_type_def(),
        };
        Ok(GetTableResponse { class_type, catalog_name, table_name, schema, request_type })
    }
}

/// One table's partition layout, carried as a Block.
#[derive(Debug)]
pub struct GetTableLayoutResponse {
    pub class_type: String,
    pub request_type: String,
    pub catalog_name: String,
    pub table_name: TableName,
    pub partitions: Block,
}

/// What a layout response holds; its partitions Block must decode whole.
pub open spec fn get_table_layout_response_of(j: JsonV) -> Option<
    (Seq<char>, (Seq<char>, Seq<char>), crate::models::BlockV, Seq<char>, Seq<char>),
> {
    let table = match obj_member(j, "tableName"@) {
        Some(tj) => table_name_of(tj),
        None => None,
    };
    let partitions = match obj_member(j, "partitions"@) {
        Some(pj) => block_decoding(pj),
        None => None,
    };
    match (obj_str(j, "catalogName"@), table, partitions, obj_str(j, "requestType"@),
    class_type_of(j, "GetTableLayoutResponse"@)) {
        (Some(c), Some(t), Some(p), Some(rt), Some(ct)) => Some((c, t, p, rt, ct)),
        _ => None,
    }
}

impl GetTableLayoutResponse {
    /// The discriminant tag of this shape.
    pub fn class_type_def() -> (r: String)
        ensures
            r@ == "GetTableLayoutResponse"@,
    {
        "GetTableLayoutResponse".to_owned()
    }

    /// Reads the response from its JSON object, decoding the partitions
    /// Block whole.
    pub fn from_json(v: &JsonValue) -> (r: Result<GetTableLayoutResponse, DecodeError>)
        ensures
            r is Ok <==> get_table_layout_response_of(v@) is Some,
            r matches Ok(d) ==> get_table_layout_response_of(v@) == Some(
                (
                    d.catalog_name@,
                    (d.table_name.schema_name@, d.table_name.table_name@),
                    d.partitions@,
                    d.request_type@,
                    d.class_type@,
                ),
            ) && d.partitions.wf(),
            r matches Err(e) ==> ((e matches DecodeError::FieldMismatch(_)) || (
            e matches DecodeError::Encoding)),
    {
        let catalog_name = match v.get_str("catalogName") {
            Some(s) => s,
            None => {
                return Err(DecodeError::FieldMismatch("catalogName".to_owned()));
            },
        };
        let table_name = match v.get("tableName") {
            Some(tj) => match TableName::from_json(tj) {
                Ok(t) => t,
                Err(_) => {
                    return Err(DecodeError::Encoding);
                },
            },
            None => {
                return Err(DecodeError::FieldMismatch("tableName".to_owned()));
            },
        };
        let partitions = match v.get("partitions") {
            Some(pj) => match Block::from_json(pj) {
                Ok(b) => b,
                Err(_) => {
                    return Err(DecodeError::Encoding);
                },
            },
            None => {
                return Err(DecodeError::FieldMismatch("partitions".to_owned()));
            },
        };
        let request_type = match v.get_str("requestType") {
            Some(s) => s,
            None => {
                return Err(DecodeError::FieldMismatch("requestType".to_owned()));
            },
        };
        let class_type = match v.get("@type") {
            Some(t) => match t {
                JsonValue::Str(s) => s.clone(),
                _ => {
                    return Err(DecodeError::Encoding);
                },
            },
            None => GetTableLayoutResponse::class_type_def(),
        };
        Ok(
            GetTableLayoutResponse {
                class_type,
                request_type,
                catalog_name,
                table_name,
                partitions,
            },
        )
    }
}

/// One page of splits, with the token that fetches the next page; no
/// token means the last page.
#[derive(Debug)]
pub struct GetSplitsResponse {
    pub class_type: String,
    pub request_type: String,
    pub splits: Vec<Split>,
    pub continuation_token: Option<String>,
}

/// What a splits response holds: its splits, and an optional token
/// (absent or null both mean none: the pagination is over).
pub open spec fn get_splits_response_of(j: JsonV) -> Option<
    (
        Seq<((Seq<char>, Seq<char>, bool, Seq<char>), Seq<(Seq<char>, Seq<char>)>, bool)>,
        Option<Seq<char>>,
        Seq<char>,
        Seq<char>,
    ),
> {
    let splits = match obj_member(j, "splits"@) {
        Some(sj) => splitarr_of(sj),
        None => None,
    };
    let token = match obj_member(j, "continuationToken"@) {
        Some(t) => match t {
            JsonV::Str(s) => Some(Some(s)),
            JsonV::Null => Some(None),
            _ => None,
        },
        None => Some(None),
    };
    match (splits, token, obj_str(j, "requestType"@), class_type_of(j, "GetSplitsResponse"@)) {
        (Some(ss), Some(tk), Some(rt), Some(ct)) => Some((ss, tk, rt, ct)),
        _ => None,
    }
}

impl GetSplitsResponse {
    /// The discriminant tag of this shape.
    pub fn class_type_def() -> (r: String)
        ensures
            r@ == "GetSplitsResponse"@,
    {
        "GetSplitsResponse".to_owned()
    }

    /// Reads the response from its JSON object.
    pub fn from_json(v: &JsonValue) -> (r: Result<GetSplitsResponse, DecodeError>)
        ensures
            r is Ok <==> get_splits_response_of(v@) is Some,
            r matches Ok(d) ==> get_splits_response_of(v@) == Some(
                (
                    view_splits(d.splits@),
                    match d.continuation_token {
                        Some(t) => Some(t@),
                        None => None,
                    },
                    d.request_type@,
                    d.class_type@,
                ),
            ),
            r matches Err(e) ==> ((e matches DecodeError::FieldMismatch(_)) || (
            e matches DecodeError::Encoding)),
    {
        let splits = match v.get("splits") {
            Some(sj) => match splitarr_from_json(sj) {
                Some(s) => s,
                None => {
                    return Err(DecodeError::Encoding);
                },
            },
            None => {
                return Err(DecodeError::FieldMismatch("splits".to_owned()));
            },
        };
        let continuation_token = match v.get("continuationToken") {
            Some(t) => match t {
                JsonValue::Str(s) => Some(s.clone()),
                JsonValue::Null => None,
                _ => {
                    return Err(DecodeError::Encoding);
                },
            },
            None => None,
        };
        let request_type = match v.get_str("requestType") {
            Some(s) => s,
            None => {
                return Err(DecodeError::FieldMismatch("requestType".to_owned()));
            },
        };
        let class_type = match v.get("@type") {
            Some(t) => match t {
                JsonValue::Str(s) => s.clone(),
                _ => {
                    return Err(DecodeError::Encoding);
                },
            },
            None => GetSplitsResponse::class_type_def(),
        };
        Ok(GetSplitsResponse { class_type, request_type, splits, continuation_token })
    }
}

} // verus!
