//! The value types of the wire protocol: the caller's identity, table
//! names, spill locations, splits, constraints, the column-schema
//! descriptor and the binary `Block` carrier, each with its JSON form.

use crate::b64::{base64_decode_checked, checked_decoding};
use crate::ipc::{
    dual_message, framed_message, record_batch_at, schema_at, view_fields, view_pairs, ColumnSchema,
    ColumnSchemaV, DataType, Field, FieldV,
};
use crate::json::{obj_get, view_members, JsonV, JsonValue};
use vstd::prelude::*;

verus! {

broadcast use vstd::std_specs::vec::group_vec_axioms;

/// Why a message could not be decoded.
#[derive(Debug)]
pub enum DecodeError {
    /// A Block carrier whose fields are missing or whose binary payload
    /// does not parse, or a value of the wrong shape.
    Encoding,
    /// A required envelope field that is absent, by name.
    FieldMismatch(String),
}

/// The string member `k` of the object `j`.
pub open spec fn obj_str(j: JsonV, k: Seq<char>) -> Option<Seq<char>> {
    match j {
        JsonV::Obj(m) => match obj_get(m, k) {
            Some(w) => match w {
                JsonV::Str(s) => Some(s),
                _ => None,
            },
            _ => None,
        },
        _ => None,
    }
}

/// The boolean member `k` of the object `j`.
pub open spec fn obj_bool(j: JsonV, k: Seq<char>) -> Option<bool> {
    match j {
        JsonV::Obj(m) => match obj_get(m, k) {
            Some(w) => match w {
                JsonV::Bool(b) => Some(b),
                _ => None,
            },
            _ => None,
        },
        _ => None,
    }
}

/// The member `k` of the object `j`, whatever its shape.
pub open spec fn obj_member(j: JsonV, k: Seq<char>) -> Option<JsonV> {
    match j {
        JsonV::Obj(m) => obj_get(m, k),
        _ => None,
    }
}

impl JsonValue {
    /// The string member `key` of an object, cloned out.
    pub fn get_str(&self, key: &str) -> (r: Option<String>)
        ensures
            match (r, obj_str(self@, key@)) {
                (Some(v), Some(w)) => v@ == w,
                (None, None) => true,
                _ => false,
            },
    {
        match self.get(key) {
            Some(v) => match v {
                JsonValue::Str(s) => Some(s.clone()),
                _ => None,
            },
            None => None,
        }
    }

    /// The boolean member `key` of an object.
    pub fn get_bool(&self, key: &str) -> (r: Option<bool>)
        ensures
            r == obj_bool(self@, key@),
    {
        match self.get(key) {
            Some(v) => match v {
                JsonValue::Bool(b) => Some(*b),
                _ => None,
            },
            None => None,
        }
    }
}

/// The JSON object with exactly these members, in this order.
pub open spec fn obj2(
    k0: Seq<char>,
    v0: JsonV,
    k1: Seq<char>,
    v1: JsonV,
) -> JsonV {
    JsonV::Obj(seq![(k0, v0), (k1, v1)])
}

/// The identity of the caller: who asks, on whose account.
#[derive(Debug, Clone)]
pub struct FederatedIdentity {
    pub id: String,
    pub principal: String,
    pub account: String,
}

/// The JSON form of a `FederatedIdentity`.
pub open spec fn identity_json(id: Seq<char>, principal: Seq<char>, account: Seq<char>) -> JsonV {
    JsonV::Obj(
        seq![
            ("id"@, JsonV::Str(id)),
            ("principal"@, JsonV::Str(principal)),
            ("account"@, JsonV::Str(account)),
        ],
    )
}

/// The identity that the object `j` holds, if all three fields stand in it.
pub open spec fn identity_of(j: JsonV) -> Option<(Seq<char>, Seq<char>, Seq<char>)> {
    match (obj_str(j, "id"@), obj_str(j, "principal"@), obj_str(j, "account"@)) {
        (Some(i), Some(p), Some(a)) => Some((i, p, a)),
        _ => None,
    }
}

impl Default for FederatedIdentity {
    /// An identity with the sentinel values used when none is known.
    fn default() -> (d: Self)
        ensures
            d.id@ == "UNKNOWN_ID"@,
            d.principal@ == "UNKNOWN_PRINCIPAL"@,
            d.account@ == "UNKNOWN_ACCOUNT"@,
    {
        FederatedIdentity {
            id: "UNKNOWN_ID".to_owned(),
            principal: "UNKNOWN_PRINCIPAL".to_owned(),
            account: "UNKNOWN_ACCOUNT".to_owned(),
        }
    }
}

impl FederatedIdentity {
    /// Writes the identity as its JSON object.
    pub fn to_json(&self) -> (r: JsonValue)
        ensures
            r@ == identity_json(self.id@, self.principal@, self.account@),
    {
        let mut m: Vec<(String, JsonValue)> = Vec::new();
        m.push(("id".to_owned(), JsonValue::Str(self.id.clone())));
        m.push(("principal".to_owned(), JsonValue::Str(self.principal.clone())));
        m.push(("account".to_owned(), JsonValue::Str(self.account.clone())));
        proof {
            assert(view_members(m@) =~= identity_json(self.id@, self.principal@, self.account@)
                ->Obj_0);
        }
        JsonValue::Obj(m)
    }

    /// Reads an identity from its JSON object; each absent field is named
    /// in the error.
    pub fn from_json(v: &JsonValue) -> (r: Result<FederatedIdentity, DecodeError>)
        ensures
            r is Ok <==> identity_of(v@) is Some,
            r matches Ok(d) ==> identity_of(v@) == Some((d.id@, d.principal@, d.account@)),
            r matches Err(e) ==> (e matches DecodeError::FieldMismatch(f) && (if obj_str(
                v@,
                "id"@,
            ) is None {
                f@ == "id"@
            } else if obj_str(v@, "principal"@) is None {
                f@ == "principal"@
            } else {
                f@ == "account"@
            })),
    {
        let id = match v.get_str("id") {
            Some(s) => s,
            None => {
                return Err(DecodeError::FieldMismatch("id".to_owned()));
            },
        };
        let principal = match v.get_str("principal") {
            Some(s) => s,
            None => {
                return Err(DecodeError::FieldMismatch("principal".to_owned()));
            },
        };
        let account = match v.get_str("account") {
            Some(s) => s,
            None => {
                return Err(DecodeError::FieldMismatch("account".to_owned()));
            },
        };
        Ok(FederatedIdentity { id, principal, account })
    }
}

/// A table, named by its schema and its own name.
#[derive(Debug, Clone)]
pub struct TableName {
    pub schema_name: String,
    pub table_name: String,
}

/// The JSON form of a `TableName`.
pub open spec fn table_name_json(schema_name: Seq<char>, table_name: Seq<char>) -> JsonV {
    obj2("schemaName"@, JsonV::Str(schema_name), "tableName"@, JsonV::Str(table_name))
}

/// The table name that the object `j` holds.
pub open spec fn table_name_of(j: JsonV) -> Option<(Seq<char>, Seq<char>)> {
    match (obj_str(j, "schemaName"@), obj_str(j, "tableName"@)) {
        (Some(s), Some(t)) => Some((s, t)),
        _ => None,
    }
}

impl Default for TableName {
    /// A table name with both parts empty.
    fn default() -> (d: Self)
        ensures
            d.schema_name@.len() == 0,
            d.table_name@.len() == 0,
    {
        TableName { schema_name: String::new(), table_name: String::new() }
    }
}

impl TableName {
    /// A table name from its two parts.
    pub fn new(s: String, t: String) -> (r: Self)
        ensures
            r.schema_name == s,
            r.table_name == t,
    {
        TableName { schema_name: s, table_name: t }
    }

    /// Writes the table name as its JSON object.
    pub fn to_json(&self) -> (r: JsonValue)
        ensures
            r@ == table_name_json(self.schema_name@, self.table_name@),
    {
        let mut m: Vec<(String, JsonValue)> = Vec::new();
        m.push(("schemaName".to_owned(), JsonValue::Str(self.schema_name.clone())));
        m.push(("tableName".to_owned(), JsonValue::Str(self.table_name.clone())));
        proof {
            assert(view_members(m@) =~= table_name_json(self.schema_name@, self.table_name@)
                ->Obj_0);
        }
        JsonValue::Obj(m)
    }

    /// Reads a table name from its JSON object.
    pub fn from_json(v: &JsonValue) -> (r: Result<TableName, DecodeError>)
        ensures
            r is Ok <==> table_name_of(v@) is Some,
            r matches Ok(t) ==> table_name_of(v@) == Some((t.schema_name@, t.table_name@)),
            r matches Err(e) ==> (e matches DecodeError::FieldMismatch(f) && (if obj_str(
                v@,
                "schemaName"@,
            ) is None {
                f@ == "schemaName"@
            } else {
                f@ == "tableName"@
            })),
    {
        let s = match v.get_str("schemaName") {
            Some(s) => s,
            None => {
                return Err(DecodeError::FieldMismatch("schemaName".to_owned()));
            },
        };
        let t = match v.get_str("tableName") {
            Some(s) => s,
            None => {
                return Err(DecodeError::FieldMismatch("tableName".to_owned()));
            },
        };
        Ok(TableName { schema_name: s, table_name: t })
    }
}

/// The JSON object whose members are these string pairs, in order.
pub open spec fn strmap_json(pairs: Seq<(Seq<char>, Seq<char>)>) -> JsonV {
    JsonV::Obj(
        Seq::new(
            pairs.len(),
            |i: int|
                if 0 <= i < pairs.len() {
                    (pairs[i].0, JsonV::Str(pairs[i].1))
                } else {
                    (Seq::<char>::empty(), JsonV::Null)
                },
        ),
    )
}

/// Whether any member of `m` is bound under the key `k`.
pub open spec fn binds_key(m: Seq<(Seq<char>, JsonV)>, k: Seq<char>) -> bool {
    exists|i: int| 0 <= i < m.len() && (#[trigger] m[i]).0 == k
}

/// The string pairs of the members `m`, if every member is a string and
/// no key repeats: a duplicate key is refused rather than silently
/// collapsed.
pub open spec fn strpairs_of(m: Seq<(Seq<char>, JsonV)>) -> Option<Seq<(Seq<char>, Seq<char>)>>
    decreases m.len(),
{
    if m.len() == 0 {
        Some(Seq::empty())
    } else {
        match m[0].1 {
            JsonV::Str(s) => if binds_key(m.drop_first(), m[0].0) {
                None
            } else {
                match strpairs_of(m.drop_first()) {
                    Some(rest) => Some(seq![(m[0].0, s)] + rest),
                    None => None,
                }
            },
            _ => None,
        }
    }
}

/// The string map that the value `j` holds: an object all of whose
/// members are strings.
pub open spec fn strmap_of(j: JsonV) -> Option<Seq<(Seq<char>, Seq<char>)>> {
    match j {
        JsonV::Obj(m) => strpairs_of(m),
        _ => None,
    }
}

proof fn lemma_strpairs_step(m: Seq<(Seq<char>, JsonV)>, i: int)
    requires
        0 <= i < m.len(),
    ensures
        strpairs_of(m.skip(i)) == (match m[i].1 {
            JsonV::Str(s) => if binds_key(m.skip(i + 1), m[i].0) {
                None::<Seq<(Seq<char>, Seq<char>)>>
            } else {
                match strpairs_of(m.skip(i + 1)) {
                    Some(rest) => Some(seq![(m[i].0, s)] + rest),
                    None => None,
                }
            },
            _ => None,
        }),
{
    assert(m.skip(i).len() > 0);
    assert(m.skip(i)[0] == m[i]);
    assert(m.skip(i).drop_first() =~= m.skip(i + 1));
}

/// Writes a string map as its JSON object, members in the held order.
pub fn strmap_to_json(pairs: &Vec<(String, String)>) -> (r: JsonValue)
    ensures
        r@ == strmap_json(crate::ipc::view_pairs(pairs@)),
{
    let n = pairs.len();
    let mut m: Vec<(String, JsonValue)> = Vec::new();
    let mut i: usize = 0;
    while i < n
        invariant
            n == pairs@.len(),
            0 <= i <= n,
            m@.len() == i,
            forall|j: int|
                0 <= j < i ==> #[trigger] m@[j] == (
                    pairs@[j].0,
                    JsonValue::Str(pairs@[j].1),
                ),
        decreases n - i,
    {
        m.push((pairs[i].0.clone(), JsonValue::Str(pairs[i].1.clone())));
        i = i + 1;
    }
    proof {
        assert(view_members(m@) =~= strmap_json(crate::ipc::view_pairs(pairs@))->Obj_0);
    }
    JsonValue::Obj(m)
}

/// Reads a string map from a JSON object whose members must all be
/// strings.
pub fn strmap_from_json(v: &JsonValue) -> (r: Option<Vec<(String, String)>>)
    ensures
        match (r, strmap_of(v@)) {
            (Some(p), Some(w)) => crate::ipc::view_pairs(p@) == w,
            (None, None) => true,
            _ => false,
        },
{
    match v {
        JsonValue::Obj(m) => {
            let n = m.len();
            let mut out: Vec<(String, String)> = Vec::new();
            let mut i: usize = 0;
            proof {
                assert(view_members(m@).skip(0) =~= view_members(m@));
            }
            while i < n
                invariant
                    n == m@.len(),
                    0 <= i <= n,
                    v@ == JsonV::Obj(view_members(m@)),
                    *v == JsonValue::Obj(*m),
                    out@.len() == i,
                    forall|j: int|
                        0 <= j < i ==> ((#[trigger] view_members(m@)[j].1) matches JsonV::Str(s)
                            && crate::ipc::view_pairs(out@)[j] == (view_members(m@)[j].0, s)),
                    strpairs_of(view_members(m@)) is Some <==> strpairs_of(
                        view_members(m@).skip(i as int),
                    ) is Some,
                    strpairs_of(view_members(m@)) matches Some(w) ==> w == crate::ipc::view_pairs(
                        out@,
                    ) + strpairs_of(view_members(m@).skip(i as int))->0,
                decreases n - i,
            {
                proof {
                    lemma_strpairs_step(view_members(m@), i as int);
                }
                match &m[i].1 {
                    JsonValue::Str(s) => {
                        let mut j = i + 1;
                        while j < n
                            invariant
                                n == m@.len(),
                                0 <= i < n,
                                i + 1 <= j <= n,
                                *v == JsonValue::Obj(*m),
                                v@ == JsonV::Obj(view_members(m@)),
                                view_members(m@)[i as int].1 is Str,
                                strpairs_of(view_members(m@)) is Some <==> strpairs_of(
                                    view_members(m@).skip(i as int),
                                ) is Some,
                                forall|t: int|
                                    i + 1 <= t < j ==> (#[trigger] view_members(m@)[t]).0
                                        != view_members(m@)[i as int].0,
                            decreases n - j,
                        {
                            if m[j].0 == m[i].0 {
                                proof {
                                    let rest = view_members(m@).skip(i as int + 1);
                                    assert(rest[j - (i + 1)] == view_members(m@)[j as int]);
                                    assert(binds_key(rest, view_members(m@)[i as int].0));
                                    lemma_strpairs_step(view_members(m@), i as int);
                                }
                                return None;
                            }
                            j = j + 1;
                        }
                        proof {
                            let rest = view_members(m@).skip(i as int + 1);
                            if binds_key(rest, view_members(m@)[i as int].0) {
                                let w = choose|w: int|
                                    0 <= w < rest.len() && (#[trigger] rest[w]).0
                                        == view_members(m@)[i as int].0;
                                assert(rest[w] == view_members(m@)[w + i + 1]);
                                assert(false);
                            }
                        }
                        out.push((m[i].0.clone(), s.clone()));
                        proof {
                            assert(crate::ipc::view_pairs(out@) =~= crate::ipc::view_pairs(
                                out@.drop_last(),
                            ).push((m@[i as int].0@, m@[i as int].1->Str_0@)));
                        }
                    },
                    _ => {
                        return None;
                    },
                }
                i = i + 1;
            }
            proof {
                assert(strpairs_of(view_members(m@).skip(n as int)) == Some(
                    Seq::<(Seq<char>, Seq<char>)>::empty(),
                ));
                if strpairs_of(view_members(m@)) is Some {
                    assert(strpairs_of(view_members(m@))->0 =~= crate::ipc::view_pairs(out@));
                }
            }
            Some(out)
        },
        _ => None,
    }
}

/// Where results spill when they grow past the inline threshold: a
/// bucket and key in external storage.
#[derive(Debug, Clone)]
pub struct SpillLocation {
    pub bucket: String,
    pub key: String,
    pub directory: bool,
    pub class_type: String,
}

/// The JSON form of a `SpillLocation`.
pub open spec fn spill_location_json(
    bucket: Seq<char>,
    key: Seq<char>,
    directory: bool,
    class_type: Seq<char>,
) -> JsonV {
    JsonV::Obj(
        seq![
            ("bucket"@, JsonV::Str(bucket)),
            ("key"@, JsonV::Str(key)),
            ("directory"@, JsonV::Bool(directory)),
            ("@type"@, JsonV::Str(class_type)),
        ],
    )
}

/// The spill location that the object `j` holds. The type tag falls back
/// to its constant when absent.
pub open spec fn spill_location_of(j: JsonV) -> Option<
    (Seq<char>, Seq<char>, bool, Seq<char>),
> {
    match (obj_str(j, "bucket"@), obj_str(j, "key"@), obj_bool(j, "directory"@)) {
        (Some(b), Some(k), Some(d)) => {
            let ct = match obj_str(j, "@type"@) {
                Some(t) => t,
                None => "S3SpillLocation"@,
            };
            Some((b, k, d, ct))
        },
        _ => None,
    }
}

impl SpillLocation {
    /// The constant type tag that marks a spill location on the wire.
    pub fn class_type_def() -> (r: String)
        ensures
            r@ == "S3SpillLocation"@,
    {
        "S3SpillLocation".to_owned()
    }

    /// Writes the spill location as its JSON object.
    pub fn to_json(&self) -> (r: JsonValue)
        ensures
            r@ == spill_location_json(self.bucket@, self.key@, self.directory, self.class_type@),
    {
        let mut m: Vec<(String, JsonValue)> = Vec::new();
        m.push(("bucket".to_owned(), JsonValue::Str(self.bucket.clone())));
        m.push(("key".to_owned(), JsonValue::Str(self.key.clone())));
        m.push(("directory".to_owned(), JsonValue::Bool(self.directory)));
        m.push(("@type".to_owned(), JsonValue::Str(self.class_type.clone())));
        proof {
            assert(view_members(m@) =~= spill_location_json(
                self.bucket@,
                self.key@,
                self.directory,
                self.class_type@,
            )->Obj_0);
        }
        JsonValue::Obj(m)
    }

    /// Reads a spill location from its JSON object; the missing field is
    /// named in the error.
    pub fn from_json(v: &JsonValue) -> (r: Result<SpillLocation, DecodeError>)
        ensures
            r is Ok <==> spill_location_of(v@) is Some,
            r matches Ok(s) ==> spill_location_of(v@) == Some(
                (s.bucket@, s.key@, s.directory, s.class_type@),
            ),
            r matches Err(e) ==> e matches DecodeError::FieldMismatch(_),
    {
        let bucket = match v.get_str("bucket") {
            Some(s) => s,
            None => {
                return Err(DecodeError::FieldMismatch("bucket".to_owned()));
            },
        };
        let key = match v.get_str("key") {
            Some(s) => s,
            None => {
                return Err(DecodeError::FieldMismatch("key".to_owned()));
            },
        };
        let directory = match v.get_bool("directory") {
            Some(b) => b,
            None => {
                return Err(DecodeError::FieldMismatch("directory".to_owned()));
            },
        };
        let class_type = match v.get_str("@type") {
            Some(s) => s,
            None => SpillLocation::class_type_def(),
        };
        Ok(SpillLocation { bucket, key, directory, class_type })
    }
}

/// The key that encrypts spilled results. This protocol version carries
/// no fields in it.
#[derive(Debug, Clone)]
pub struct EncryptionKey {}

impl EncryptionKey {
    /// Writes the key as its (empty) JSON object.
    pub fn to_json(&self) -> (r: JsonValue)
        ensures
            r@ == JsonV::Obj(Seq::empty()),
    {
        let m: Vec<(String, JsonValue)> = Vec::new();
        proof {
            assert(view_members(m@) =~= Seq::<(Seq<char>, JsonV)>::empty());
        }
        JsonValue::Obj(m)
    }
}

/// One unit of work: where to read, how to spill, and an opaque bag of
/// properties that defines the actual partition.
#[derive(Debug, Clone)]
pub struct Split {
    pub spill_location: SpillLocation,
    pub properties: Vec<(String, String)>,
    pub encryption_key: Option<EncryptionKey>,
}

/// The JSON form of a `Split`.
pub open spec fn split_json(
    spill: JsonV,
    properties: Seq<(Seq<char>, Seq<char>)>,
    has_key: bool,
) -> JsonV {
    JsonV::Obj(
        seq![
            ("spillLocation"@, spill),
            ("properties"@, strmap_json(properties)),
            ("encryptionKey"@, if has_key {
                JsonV::Obj(Seq::empty())
            } else {
                JsonV::Null
            }),
        ],
    )
}

/// The split that the object `j` holds: a spill location, a string map of
/// properties, and an optional encryption key (absent or null both mean
/// none).
pub open spec fn split_of(j: JsonV) -> Option<
    ((Seq<char>, Seq<char>, bool, Seq<char>), Seq<(Seq<char>, Seq<char>)>, bool),
> {
    match obj_member(j, "spillLocation"@) {
        Some(sj) => match spill_location_of(sj) {
            Some(spill) => match obj_member(j, "properties"@) {
                Some(pj) => match strmap_of(pj) {
                    Some(props) => {
                        let has_key = match obj_member(j, "encryptionKey"@) {
                            Some(k) => !(k is Null),
                            None => false,
                        };
                        Some((spill, props, has_key))
                    },
                    None => None,
                },
                None => None,
            },
            None => None,
        },
        None => None,
    }
}

impl Split {
    /// A split that only sets its spill location: a directory under the
    /// given bucket and key. The partition itself is defined later,
    /// through the properties.
    pub fn create(bucket: String, key: String) -> (r: Split)
        ensures
            r.spill_location.bucket == bucket,
            r.spill_location.key == key,
            r.spill_location.directory,
            r.spill_location.class_type@ == "S3SpillLocation"@,
            r.properties@.len() == 0,
            r.encryption_key is None,
    {
        let spill_loc = SpillLocation {
            bucket,
            key,
            directory: true,
            class_type: SpillLocation::class_type_def(),
        };
        Split { spill_location: spill_loc, properties: Vec::new(), encryption_key: None }
    }

    /// Writes the split as its JSON object; an absent encryption key is
    /// written as null.
    pub fn to_json(&self) -> (r: JsonValue)
        ensures
            r@ == split_json(
                spill_location_json(
                    self.spill_location.bucket@,
                    self.spill_location.key@,
                    self.spill_location.directory,
                    self.spill_location.class_type@,
                ),
                crate::ipc::view_pairs(self.properties@),
                self.encryption_key is Some,
            ),
    {
        let mut m: Vec<(String, JsonValue)> = Vec::new();
        m.push(("spillLocation".to_owned(), self.spill_location.to_json()));
        m.push(("properties".to_owned(), strmap_to_json(&self.properties)));
        let key_json = match &self.encryption_key {
            Some(k) => k.to_json(),
            None => JsonValue::Null,
        };
        m.push(("encryptionKey".to_owned(), key_json));
        proof {
            assert(view_members(m@) =~= split_json(
                spill_location_json(
                    self.spill_location.bucket@,
                    self.spill_location.key@,
                    self.spill_location.directory,
                    self.spill_location.class_type@,
                ),
                crate::ipc::view_pairs(self.properties@),
                self.encryption_key is Some,
            )->Obj_0);
        }
        JsonValue::Obj(m)
    }

    /// Reads a split from its JSON object.
    pub fn from_json(v: &JsonValue) -> (r: Result<Split, DecodeError>)
        ensures
            r is Ok <==> split_of(v@) is Some,
            r matches Ok(s) ==> split_of(v@) == Some(
                (
                    (
                        s.spill_location.bucket@,
                        s.spill_location.key@,
                        s.spill_location.directory,
                        s.spill_location.class_type@,
                    ),
                    crate::ipc::view_pairs(s.properties@),
                    s.encryption_key is Some,
                ),
            ),
            r is Err ==> (r matches Err(e) && ((e matches DecodeError::FieldMismatch(_))
                || (e matches DecodeError::Encoding))),
    {
        let spill = match v.get("spillLocation") {
            Some(sj) => match SpillLocation::from_json(sj) {
                Ok(s) => s,
                Err(e) => {
                    return Err(e);
                },
            },
            None => {
                return Err(DecodeError::FieldMismatch("spillLocation".to_owned()));
            },
        };
        let properties = match v.get("properties") {
            Some(pj) => match strmap_from_json(pj) {
                Some(p) => p,
                None => {
                    return Err(DecodeError::Encoding);
                },
            },
            None => {
                return Err(DecodeError::FieldMismatch("properties".to_owned()));
            },
        };
        let encryption_key = match v.get("encryptionKey") {
            Some(k) => match k {
                JsonValue::Null => None,
                _ => Some(EncryptionKey {}),
            },
            None => None,
        };
        Ok(Split { spill_location: spill, properties, encryption_key })
    }
}

/// The constraint summary handed through to the data source, kept as an
/// opaque string map.
#[derive(Debug, Clone)]
pub struct Constraints {
    pub summary: Vec<(String, String)>,
}

/// The JSON form of a `Constraints`.
pub open spec fn constraints_json(summary: Seq<(Seq<char>, Seq<char>)>) -> JsonV {
    JsonV::Obj(seq![("summary"@, strmap_json(summary))])
}

/// The constraints that the object `j` holds.
pub open spec fn constraints_of(j: JsonV) -> Option<Seq<(Seq<char>, Seq<char>)>> {
    match obj_member(j, "summary"@) {
        Some(sj) => strmap_of(sj),
        None => None,
    }
}

impl Default for Constraints {
    /// Constraints with an empty summary.
    fn default() -> (d: Self)
        ensures
            d.summary@.len() == 0,
    {
        Constraints { summary: Vec::new() }
    }
}

impl Constraints {
    /// Writes the constraints as their JSON object.
    pub fn to_json(&self) -> (r: JsonValue)
        ensures
            r@ == constraints_json(crate::ipc::view_pairs(self.summary@)),
    {
        let mut m: Vec<(String, JsonValue)> = Vec::new();
        m.push(("summary".to_owned(), strmap_to_json(&self.summary)));
        proof {
            assert(view_members(m@) =~= constraints_json(
                crate::ipc::view_pairs(self.summary@),
            )->Obj_0);
        }
        JsonValue::Obj(m)
    }

    /// Reads constraints from their JSON object.
    pub fn from_json(v: &JsonValue) -> (r: Result<Constraints, DecodeError>)
        ensures
            r is Ok <==> constraints_of(v@) is Some,
            r matches Ok(c) ==> constraints_of(v@) == Some(crate::ipc::view_pairs(c.summary@)),
            r is Err ==> (r matches Err(e) && ((e matches DecodeError::FieldMismatch(_))
                || (e matches DecodeError::Encoding))),
    {
        match v.get("summary") {
            Some(sj) => match strmap_from_json(sj) {
                Some(p) => Ok(Constraints { summary: p }),
                None => Err(DecodeError::Encoding),
            },
            None => Err(DecodeError::FieldMismatch("summary".to_owned())),
        }
    }
}

/// The column-schema descriptor: the base64 text as it came over the
/// wire, which stays the source of truth, and the decoded schema once a
/// caller has asked for it. Only `get_schema` fills the cache.
#[derive(Debug)]
pub struct Schema {
    pub schema: String,
    pub arrow_schema: Option<ColumnSchema>,
}

/// What decoding a base64 schema string yields: the bytes must decode,
/// frame under one of the two framings into a message whose header is a
/// schema, and that schema must parse.
pub open spec fn schema_decoding(s: Seq<char>) -> Option<ColumnSchemaV> {
    match checked_decoding(s) {
        Some(b) => match dual_message(b) {
            Some((ht, hdr, bl)) => if ht == 1 {
                match hdr {
                    Some(hp) => schema_at(b, hp),
                    None => None,
                }
            } else {
                None
            },
            None => None,
        },
        None => None,
    }
}

/// Decodes a base64 column-schema string under either framing.
fn decode_schema_str(s: &String) -> (r: Option<ColumnSchema>)
    ensures
        match (r, schema_decoding(s@)) {
            (Some(v), Some(w)) => v@ == w,
            (None, None) => true,
            _ => false,
        },
{
    match base64_decode_checked(s.as_str()) {
        Some(b) => match crate::ipc::exec_dual_message(b.as_slice()) {
            Some(m) => {
                if m.header_type == 1 {
                    match m.header {
                        Some(hp) => crate::ipc::exec_schema_at(b.as_slice(), hp),
                        None => None,
                    }
                } else {
                    None
                }
            },
            None => None,
        },
        None => None,
    }
}

impl Default for Schema {
    /// A descriptor with an empty encoded string and nothing decoded.
    fn default() -> (d: Self)
        ensures
            d.schema@.len() == 0,
            d.arrow_schema is None,
    {
        Schema { schema: String::new(), arrow_schema: None }
    }
}

impl Schema {
    /// A descriptor over the given base64 text; nothing is decoded yet.
    pub fn new_from_string(str: String) -> (r: Self)
        ensures
            r.schema == str,
            r.arrow_schema is None,
    {
        Schema { schema: str, arrow_schema: None }
    }

    /// The decoded column schema. The first call decodes the base64 text
    /// and caches the result; later calls return the cache unchanged. A
    /// text that does not decode yields nothing, and nothing is cached.
    pub fn get_schema(&mut self) -> (r: Option<&ColumnSchema>)
        ensures
            final(self).schema == old(self).schema,
            old(self).arrow_schema is Some ==> *final(self) == *old(self),
            old(self).arrow_schema is None ==> (match schema_decoding(old(self).schema@) {
                Some(cs) => final(self).arrow_schema matches Some(c) && c@ == cs,
                None => final(self).arrow_schema is None,
            }),
            match (r, final(self).arrow_schema) {
                (Some(a), Some(b)) => *a == b,
                (None, None) => true,
                _ => false,
            },
    {
        if self.arrow_schema.is_some() {
            return self.arrow_schema.as_ref();
        }
        match decode_schema_str(&self.schema) {
            Some(cs) => {
                self.arrow_schema = Some(cs);
                self.arrow_schema.as_ref()
            },
            None => None,
        }
    }

    /// Writes the descriptor as its JSON object: only the encoded text is
    /// ever serialized, never the decoded form.
    pub fn to_json(&self) -> (r: JsonValue)
        ensures
            r@ == JsonV::Obj(seq![("schema"@, JsonV::Str(self.schema@))]),
    {
        let mut m: Vec<(String, JsonValue)> = Vec::new();
        m.push(("schema".to_owned(), JsonValue::Str(self.schema.clone())));
        proof {
            assert(view_members(m@) =~= seq![("schema"@, JsonV::Str(self.schema@))]);
        }
        JsonValue::Obj(m)
    }

    /// Reads a descriptor from its JSON object; nothing is decoded yet.
    pub fn from_json(v: &JsonValue) -> (r: Result<Schema, DecodeError>)
        ensures
            r is Ok <==> obj_str(v@, "schema"@) is Some,
            r matches Ok(s) ==> obj_str(v@, "schema"@) == Some(s.schema@) && s.arrow_schema
                is None,
            r matches Err(e) ==> (e matches DecodeError::FieldMismatch(f) && f@ == "schema"@),
    {
        match v.get_str("schema") {
            Some(s) => Ok(Schema { schema: s, arrow_schema: None }),
            None => Err(DecodeError::FieldMismatch("schema".to_owned())),
        }
    }
}

/// One reconstructed column: its field, and the raw buffer regions that
/// carry its values (validity, then offsets for variable-width types,
/// then data).
#[derive(Debug)]
pub struct Column {
    pub field: Field,
    pub data: Vec<Vec<u8>>,
}

/// Mathematical model of a `Column`.
pub struct ColumnV {
    pub field: FieldV,
    pub data: Seq<Seq<u8>>,
}

/// The models of a list of buffers.
pub open spec fn view_bufs(a: Seq<Vec<u8>>) -> Seq<Seq<u8>> {
    Seq::new(
        a.len(),
        |i: int|
            if 0 <= i < a.len() {
                a[i]@
            } else {
                Seq::<u8>::empty()
            },
    )
}

impl View for Column {
    type V = ColumnV;

    open spec fn view(&self) -> ColumnV {
        ColumnV { field: self.field@, data: view_bufs(self.data@) }
    }
}

/// The models of a list of columns.
pub open spec fn view_columns(a: Seq<Column>) -> Seq<ColumnV> {
    Seq::new(
        a.len(),
        |i: int|
            if 0 <= i < a.len() {
                a[i]@
            } else {
                ColumnV {
                    field: FieldV {
                        name: Seq::empty(),
                        nullable: false,
                        dtype: DataType::Other(0),
                        children: Seq::empty(),
                    },
                    data: Seq::empty(),
                }
            },
    )
}

/// The reconstructed table of one record batch: the row count and the
/// columns in schema order.
#[derive(Debug)]
pub struct RecordBatchData {
    pub num_rows: u64,
    pub columns: Vec<Column>,
}

impl RecordBatchData {
    /// How many rows the batch holds.
    pub fn num_rows(&self) -> (r: u64)
        ensures
            r == self.num_rows,
    {
        self.num_rows
    }

    /// How many columns the batch holds.
    pub fn num_columns(&self) -> (r: usize)
        ensures
            r == self.columns@.len(),
    {
        self.columns.len()
    }
}

/// How many buffer regions carry one column of this type: variable-width
/// types carry validity, offsets and data; fixed-width types validity and
/// data. Any other type is outside this reader's scope.
pub open spec fn buffers_per(dt: DataType) -> Option<int> {
    match dt {
        DataType::Utf8 => Some(3),
        DataType::Binary => Some(3),
        DataType::Boolean => Some(2),
        DataType::Int { .. } => Some(2),
        DataType::Timestamp => Some(2),
        DataType::Other(_) => None,
    }
}

fn exec_buffers_per(dt: &DataType) -> (r: Option<usize>)
    ensures
        match (r, buffers_per(*dt)) {
            (Some(v), Some(w)) => v as int == w,
            (None, None) => true,
            _ => false,
        },
{
    match dt {
        DataType::Utf8 => Some(3),
        DataType::Binary => Some(3),
        DataType::Boolean => Some(2),
        DataType::Int { .. } => Some(2),
        DataType::Timestamp => Some(2),
        DataType::Other(_) => None,
    }
}

/// Whether a validity bitmap of this many bytes can cover the rows: one
/// bit per row, or no bitmap at all.
pub open spec fn validity_ok(len: int, rows: int) -> bool {
    len == 0 || 8 * len >= rows
}

/// Whether these bytes are a well-formed offsets buffer for `rows` values
/// over a data region of `data_len` bytes: one 32-bit offset per value
/// plus one, starting at zero, never decreasing, and ending inside the
/// data.
pub open spec fn offsets_ok(buf: Seq<u8>, rows: int, data_len: int) -> bool {
    &&& buf.len() == 4 * (rows + 1)
    &&& crate::ipc::le32(buf, 0) == 0
    &&& (forall|k: int|
        0 <= k < rows ==> #[trigger] crate::ipc::le32(buf, 4 * k) <= crate::ipc::le32(
            buf,
            4 * k + 4,
        ))
    &&& crate::ipc::le32(buf, 4 * rows) <= data_len
}

/// Whether the buffers of one column are consistent with its type and the
/// batch's row count: this is what keeps a decoded table schema-consistent
/// and refuses a silently corrupted body.
pub open spec fn column_shape_ok(dtype: DataType, rows: int, data: Seq<Seq<u8>>) -> bool {
    match dtype {
        DataType::Utf8 => data.len() == 3 && validity_ok(data[0].len() as int, rows) && offsets_ok(data[1], rows, data[2].len() as int),
        DataType::Binary => data.len() == 3 && validity_ok(data[0].len() as int, rows) && offsets_ok(data[1], rows, data[2].len() as int),
        DataType::Boolean => data.len() == 2 && validity_ok(data[0].len() as int, rows) && 8 * (data[1].len() as int) >= rows,
        DataType::Int { bits, .. } => data.len() == 2 && validity_ok(data[0].len() as int, rows) && (
        bits == 8 || bits == 16 || bits == 32 || bits == 64) && 8 * (data[1].len() as int) == rows * bits,
        DataType::Timestamp => data.len() == 2 && validity_ok(data[0].len() as int, rows) && data[1].len() as int == 8 * rows,
        DataType::Other(_) => false,
    }
}

fn exec_validity_ok(len: usize, rows: u64) -> (r: bool)
    ensures
        r == validity_ok(len as int, rows as int),
{
    len == 0 || 8 * (len as u128) >= rows as u128
}

fn exec_offsets_ok(buf: &Vec<u8>, rows: u64, data_len: usize) -> (r: bool)
    ensures
        r == offsets_ok(buf@, rows as int, data_len as int),
{
    let n = buf.len();
    if (n as u128) != 4 * (rows as u128 + 1) {
        return false;
    }
    let rows = rows as usize;
    if crate::ipc::read_u32(buf.as_slice(), 0) != 0 {
        return false;
    }
    let mut k: usize = 0;
    while k < rows
        invariant
            buf@.len() == 4 * (rows as int + 1),
            buf@.len() <= usize::MAX,
            0 <= k <= rows,
            forall|j: int|
                0 <= j < k ==> #[trigger] crate::ipc::le32(buf@, 4 * j) <= crate::ipc::le32(
                    buf@,
                    4 * j + 4,
                ),
        decreases rows - k,
    {
        if crate::ipc::read_u32(buf.as_slice(), 4 * k) > crate::ipc::read_u32(
            buf.as_slice(),
            4 * k + 4,
        ) {
            return false;
        }
        k = k + 1;
    }
    let last = crate::ipc::read_u32(buf.as_slice(), 4 * rows);
    (last as u128) <= data_len as u128
}

fn exec_column_shape_ok(dtype: &DataType, rows: u64, data: &Vec<Vec<u8>>) -> (r: bool)
    ensures
        r == column_shape_ok(*dtype, rows as int, view_bufs(data@)),
{
    match dtype {
        DataType::Utf8 => data.len() == 3 && exec_validity_ok(data[0].len(), rows)
            && exec_offsets_ok(&data[1], rows, data[2].len()),
        DataType::Binary => data.len() == 3 && exec_validity_ok(data[0].len(), rows)
            && exec_offsets_ok(&data[1], rows, data[2].len()),
        DataType::Boolean => data.len() == 2 && exec_validity_ok(data[0].len(), rows) && 8 * (
        data[1].len() as u128) >= rows as u128,
        DataType::Int { bits, .. } => {
            if data.len() == 2 && exec_validity_ok(data[0].len(), rows) {
                let dl = data[1].len() as u128;
                if *bits == 8 {
                    dl == rows as u128
                } else if *bits == 16 {
                    dl == 2 * (rows as u128)
                } else if *bits == 32 {
                    dl == 4 * (rows as u128)
                } else if *bits == 64 {
                    dl == 8 * (rows as u128)
                } else {
                    false
                }
            } else {
                false
            }
        },
        DataType::Timestamp => data.len() == 2 && exec_validity_ok(data[0].len(), rows) && (data[
            1
        ].len() as u128) == 8 * (rows as u128),
        DataType::Other(_) => false,
    }
}

/// The first `nb` buffer regions, cut out of the body; each region must
/// lie within it.
pub open spec fn bufs_slice(buffers: Seq<(u64, u64)>, body: Seq<u8>, nb: int) -> Option<
    Seq<Seq<u8>>,
>
    decreases nb,
{
    if !(0 <= nb && nb <= buffers.len()) {
        None
    } else if nb == 0 {
        Some(Seq::empty())
    } else {
        let off = buffers[0].0 as int;
        let bl = buffers[0].1 as int;
        if off + bl <= body.len() {
            match bufs_slice(buffers.drop_first(), body, nb - 1) {
                Some(rest) => Some(seq![body.subrange(off, off + bl)] + rest),
                None => None,
            }
        } else {
            None
        }
    }
}

/// The columns of a record batch: field `i` takes node `i` and the next
/// run of buffer regions, by its type. A field with children, or of a
/// type outside this reader's scope, is refused.
pub open spec fn columns_of(
    fields: Seq<FieldV>,
    nodes: Seq<(u64, u64)>,
    buffers: Seq<(u64, u64)>,
    body: Seq<u8>,
    rows: u64,
) -> Option<Seq<ColumnV>>
    decreases fields.len(),
{
    if fields.len() == 0 {
        Some(Seq::empty())
    } else if nodes.len() == 0 {
        None
    } else if nodes[0].0 != rows {
        None
    } else if fields[0].children.len() != 0 {
        None
    } else {
        match buffers_per(fields[0].dtype) {
            Some(nb) => if nb <= buffers.len() {
                match bufs_slice(buffers, body, nb) {
                    Some(data) => if column_shape_ok(fields[0].dtype, rows as int, data) {
                        match columns_of(
                            fields.drop_first(),
                            nodes.drop_first(),
                            buffers.skip(nb),
                            body,
                            rows,
                        ) {
                            Some(rest) => Some(seq![ColumnV { field: fields[0], data }] + rest),
                            None => None,
                        }
                    } else {
                        None
                    },
                    None => None,
                }
            } else {
                None
            },
            None => None,
        }
    }
}

fn sub_bytes(body: &Vec<u8>, off: usize, len: usize) -> (r: Vec<u8>)
    requires
        off + len <= body@.len(),
    ensures
        r@ == body@.subrange(off as int, off as int + len as int),
{
    let ln = body.len();
    let mut out: Vec<u8> = Vec::new();
    let mut k: usize = 0;
    proof {
        assert(out@ =~= body@.subrange(off as int, off as int));
    }
    while k < len
        invariant
            off + len <= body@.len(),
            body@.len() <= usize::MAX,
            0 <= k <= len,
            out@ == body@.subrange(off as int, off as int + k),
        decreases len - k,
    {
        out.push(body[off + k]);
        proof {
            assert(out@ =~= body@.subrange(off as int, off as int + k + 1));
        }
        k = k + 1;
    }
    out
}

fn exec_bufs_slice(buffers: &Vec<(u64, u64)>, body: &Vec<u8>, b: usize, nb: usize) -> (r: Option<
    Vec<Vec<u8>>,
>)
    requires
        b + nb <= buffers@.len(),
    ensures
        match (r, bufs_slice(buffers@.skip(b as int), body@, nb as int)) {
            (Some(v), Some(w)) => view_bufs(v@) == w,
            (None, None) => true,
            _ => false,
        },
    decreases nb,
{
    if nb == 0 {
        let out: Vec<Vec<u8>> = Vec::new();
        proof {
            assert(view_bufs(out@) =~= Seq::<Seq<u8>>::empty());
        }
        return Some(out);
    }
    let _bn = buffers.len();
    proof {
        assert(buffers@.skip(b as int)[0] == buffers@[b as int]);
        assert(buffers@.skip(b as int).drop_first() =~= buffers@.skip(b as int + 1));
    }
    let ln = body.len();
    let (off, bl) = (buffers[b].0, buffers[b].1);
    if (off as u128) + (bl as u128) <= ln as u128 {
        proof {
            assert(off as int <= ln as int);
            assert(bl as int <= ln as int);
        }
        let slice = sub_bytes(body, off as usize, bl as usize);
        match exec_bufs_slice(buffers, body, b + 1, nb - 1) {
            Some(rest) => {
                let mut out: Vec<Vec<u8>> = Vec::new();
                out.push(slice);
                let mut rest = rest;
                out.append(&mut rest);
                proof {
                    let spec_rest = bufs_slice(
                        buffers@.skip(b as int + 1),
                        body@,
                        nb as int - 1,
                    )->0;
                    assert(view_bufs(out@) =~= seq![out@[0]@] + spec_rest);
                }
                Some(out)
            },
            None => None,
        }
    } else {
        None
    }
}

fn exec_columns_of(
    fields: Vec<Field>,
    nodes: &Vec<(u64, u64)>,
    buffers: &Vec<(u64, u64)>,
    body: &Vec<u8>,
    ni: usize,
    bi: usize,
    rows: u64,
) -> (r: Option<Vec<Column>>)
    requires
        ni <= nodes@.len(),
        bi <= buffers@.len(),
    ensures
        match (r, columns_of(
            view_fields(fields@),
            nodes@.skip(ni as int),
            buffers@.skip(bi as int),
            body@,
            rows as int as u64,
        )) {
            (Some(v), Some(w)) => view_columns(v@) == w,
            (None, None) => true,
            _ => false,
        },
    decreases fields@.len(),
{
    let mut fields = fields;
    if fields.len() == 0 {
        let out: Vec<Column> = Vec::new();
        proof {
            assert(view_fields(fields@) =~= Seq::<FieldV>::empty());
            assert(view_columns(out@) =~= Seq::<ColumnV>::empty());
        }
        return Some(out);
    }
    if nodes.len() - ni == 0 {
        return None;
    }
    if nodes[ni].0 != rows {
        return None;
    }
    let ghost orig = fields@;
    let f = fields.remove(0);
    proof {
        assert(fields@ =~= orig.drop_first());
        assert(view_fields(orig)[0] == f@);
        assert(view_fields(orig).drop_first() =~= view_fields(fields@));
    }
    if f.children.len() != 0 {
        proof {
            assert(f@.children =~= view_fields(f.children@));
            assert(view_fields(orig)[0].children.len() != 0);
        }
        return None;
    }
    match exec_buffers_per(&f.dtype) {
        Some(nb) => {
            if nb <= buffers.len() - bi {
                proof {
                    assert(buffers@.skip(bi as int).skip(nb as int) =~= buffers@.skip(
                        bi as int + nb as int,
                    ));
                    assert(nodes@.skip(ni as int).drop_first() =~= nodes@.skip(ni as int + 1));
                }
                match exec_bufs_slice(buffers, body, bi, nb) {
                    Some(data) => {
                        if !exec_column_shape_ok(&f.dtype, rows, &data) {
                            return None;
                        }
                        match exec_columns_of(fields, nodes, buffers, body, ni + 1, bi + nb, rows) {
                            Some(rest) => {
                                let mut out: Vec<Column> = Vec::new();
                                out.push(Column { field: f, data });
                                let mut rest = rest;
                                out.append(&mut rest);
                                proof {
                                    let spec_rest = columns_of(
                                        view_fields(orig).drop_first(),
                                        nodes@.skip(ni as int).drop_first(),
                                        buffers@.skip(bi as int).skip(nb as int),
                                        body@,
                                        rows,
                                    )->0;
                                    assert(view_columns(out@) =~= seq![out@[0]@] + spec_rest);
                                }
                                Some(out)
                            },
                            None => None,
                        }
                    },
                    None => None,
                }
            } else {
                None
            }
        },
        None => None,
    }
}


/// The cached wire form of a `Block`: the two base64 strings and the
/// correlation id, exactly as they arrived. Serialization emits these
/// verbatim; the decoded table is never re-encoded.
#[derive(Debug, Clone)]
pub struct SerializedBlock {
    pub schema: String,
    pub records: String,
    pub a_id: String,
}

/// A columnar table carried over the wire as two framed binary messages
/// inside a JSON object, plus a correlation id. The decoded table and the
/// cached wire form are produced together, at decode, and stay in step:
/// `wf` says the cached strings decode to exactly the held table.
#[derive(Debug)]
pub struct Block {
    pub records: RecordBatchData,
    pub serialized: SerializedBlock,
}

/// Mathematical model of a `Block`.
pub struct BlockV {
    pub num_rows: u64,
    pub columns: Seq<ColumnV>,
    pub schema: Seq<char>,
    pub records: Seq<char>,
    pub a_id: Seq<char>,
}

impl View for Block {
    type V = BlockV;

    open spec fn view(&self) -> BlockV {
        BlockV {
            num_rows: self.records.num_rows,
            columns: view_columns(self.records.columns@),
            schema: self.serialized.schema@,
            records: self.serialized.records@,
            a_id: self.serialized.a_id@,
        }
    }
}

/// What the two base64 payloads of a Block decode to. The schema message
/// is read under either framing and must be a schema; the records message
/// always carries a leading 4-byte prefix before its frame and must be a
/// record batch; the row data is the last `bodyLength` bytes of the whole
/// records buffer.
#[verifier::opaque]
pub open spec fn block_body_decoding(schema_str: Seq<char>, records_str: Seq<char>) -> Option<
    (u64, Seq<ColumnV>),
> {
    match (checked_decoding(schema_str), checked_decoding(records_str)) {
        (Some(sb), Some(rb)) => match dual_message(sb) {
            Some((ht, hdr, _)) => if ht == 1 && hdr is Some {
                match schema_at(sb, hdr->0) {
                    Some(cs) => match framed_message(rb, 4) {
                        Some((ht2, hdr2, bl)) => if ht2 == 3 && hdr2 is Some && 0 <= bl
                            <= rb.len() {
                            match record_batch_at(rb, hdr2->0) {
                                Some((rows, nodes, bufs)) => match columns_of(
                                    cs.fields,
                                    nodes,
                                    bufs,
                                    rb.subrange(rb.len() - bl, rb.len() as int),
                                    rows,
                                ) {
                                    Some(cols) => Some((rows, cols)),
                                    None => None,
                                },
                                None => None,
                            }
                        } else {
                            None
                        },
                        None => None,
                    },
                    None => None,
                }
            } else {
                None
            },
            None => None,
        },
        _ => None,
    }
}

/// The block that the JSON object `j` holds: its three string fields, and
/// what the two payloads decode to.
pub open spec fn block_decoding(j: JsonV) -> Option<BlockV> {
    match (obj_str(j, "schema"@), obj_str(j, "records"@), obj_str(j, "aId"@)) {
        (Some(ss), Some(rs), Some(aid)) => match block_body_decoding(ss, rs) {
            Some((rows, cols)) => Some(
                BlockV { num_rows: rows, columns: cols, schema: ss, records: rs, a_id: aid },
            ),
            None => None,
        },
        _ => None,
    }
}

/// The JSON form of a `Block`: the cached triple, verbatim.
pub open spec fn block_json(schema: Seq<char>, records: Seq<char>, a_id: Seq<char>) -> JsonV {
    JsonV::Obj(
        seq![
            ("schema"@, JsonV::Str(schema)),
            ("records"@, JsonV::Str(records)),
            ("aId"@, JsonV::Str(a_id)),
        ],
    )
}

impl Block {
    /// The held table is exactly what the cached wire strings decode to.
    pub open spec fn wf(&self) -> bool {
        block_body_decoding(self.serialized.schema@, self.serialized.records@) == Some(
            (self.records.num_rows, view_columns(self.records.columns@)),
        )
    }

    /// Reads a Block from its JSON carrier. Every failure — a missing
    /// field, bad base64, bad framing, a header of the wrong type, or a
    /// body that does not cover its buffers — is the one coarse encoding
    /// error.
    pub fn from_json(v: &JsonValue) -> (r: Result<Block, DecodeError>)
        ensures
            r is Ok <==> block_decoding(v@) is Some,
            r matches Ok(b) ==> block_decoding(v@) == Some(b@) && b.wf(),
            r matches Err(e) ==> e matches DecodeError::Encoding,
    {
        proof {
            reveal(block_body_decoding);
        }
        let ss = match v.get_str("schema") {
            Some(s) => s,
            None => {
                return Err(DecodeError::Encoding);
            },
        };
        let rs = match v.get_str("records") {
            Some(s) => s,
            None => {
                return Err(DecodeError::Encoding);
            },
        };
        let aid = match v.get_str("aId") {
            Some(s) => s,
            None => {
                return Err(DecodeError::Encoding);
            },
        };
        let sb = match base64_decode_checked(ss.as_str()) {
            Some(b) => b,
            None => {
                return Err(DecodeError::Encoding);
            },
        };
        let rb = match base64_decode_checked(rs.as_str()) {
            Some(b) => b,
            None => {
                return Err(DecodeError::Encoding);
            },
        };
        let sm = match crate::ipc::exec_dual_message(sb.as_slice()) {
            Some(m) => m,
            None => {
                return Err(DecodeError::Encoding);
            },
        };
        if sm.header_type != 1 {
            return Err(DecodeError::Encoding);
        }
        let sp = match sm.header {
            Some(p) => p,
            None => {
                return Err(DecodeError::Encoding);
            },
        };
        let cs = match crate::ipc::exec_schema_at(sb.as_slice(), sp) {
            Some(c) => c,
            None => {
                return Err(DecodeError::Encoding);
            },
        };
        let rm = match crate::ipc::exec_framed_message(rb.as_slice(), 4) {
            Some(m) => m,
            None => {
                return Err(DecodeError::Encoding);
            },
        };
        if rm.header_type != 3 {
            return Err(DecodeError::Encoding);
        }
        let rp = match rm.header {
            Some(p) => p,
            None => {
                return Err(DecodeError::Encoding);
            },
        };
        let rbn = rb.len();
        if (rm.body_length as u128) > rbn as u128 {
            return Err(DecodeError::Encoding);
        }
        let bl = rm.body_length as usize;
        let (rows, nodes, buffers) = match crate::ipc::exec_record_batch_at(rb.as_slice(), rp) {
            Some(t) => t,
            None => {
                return Err(DecodeError::Encoding);
            },
        };
        let body = sub_bytes(&rb, rbn - bl, bl);
        proof {
            assert(body@ =~= rb@.subrange(rb@.len() - rm.body_length as int, rb@.len() as int));
            assert(view_fields(cs.fields@).skip(0) =~= view_fields(cs.fields@));
            assert(nodes@.skip(0) =~= nodes@);
            assert(buffers@.skip(0) =~= buffers@);
        }
        let columns = match exec_columns_of(cs.fields, &nodes, &buffers, &body, 0, 0, rows) {
            Some(c) => c,
            None => {
                return Err(DecodeError::Encoding);
            },
        };
        Ok(
            Block {
                records: RecordBatchData { num_rows: rows, columns },
                serialized: SerializedBlock { schema: ss, records: rs, a_id: aid },
            },
        )
    }

    /// Writes the Block as its JSON carrier: the cached triple verbatim,
    /// byte for byte as it arrived.
    pub fn to_json(&self) -> (r: JsonValue)
        ensures
            r@ == block_json(self.serialized.schema@, self.serialized.records@, self.serialized.a_id@),
    {
        let mut m: Vec<(String, JsonValue)> = Vec::new();
        m.push(("schema".to_owned(), JsonValue::Str(self.serialized.schema.clone())));
        m.push(("records".to_owned(), JsonValue::Str(self.serialized.records.clone())));
        m.push(("aId".to_owned(), JsonValue::Str(self.serialized.a_id.clone())));
        proof {
            assert(view_members(m@) =~= block_json(
                self.serialized.schema@,
                self.serialized.records@,
                self.serialized.a_id@,
            )->Obj_0);
        }
        JsonValue::Obj(m)
    }
}

/// Round trip: a Block decoded from a carrier object, re-encoded, decodes
/// again to the same Block. The re-encoded carrier holds the three cached
/// fields verbatim, and decoding is a function of those fields alone.
#[verifier::rlimit(100)]
pub proof fn lemma_block_round_trip(j: JsonV, b: BlockV)
    requires
        block_decoding(j) == Some(b),
    ensures
        block_decoding(block_json(b.schema, b.records, b.a_id)) == Some(b),
{
    reveal_strlit("schema");
    reveal_strlit("records");
    reveal_strlit("aId");
    assert("schema"@.len() == 6 && "records"@.len() == 7 && "aId"@.len() == 3);
    let mems = block_json(b.schema, b.records, b.a_id)->Obj_0;
    assert(obj_get(mems, "schema"@) == Some(JsonV::Str(b.schema)));
    assert(mems.drop_first()[0] == mems[1]);
    assert(mems.drop_first().drop_first()[0] == mems[2]);
    assert(obj_get(mems, "records"@) == obj_get(mems.drop_first(), "records"@));
    assert(obj_get(mems.drop_first(), "records"@) == Some(JsonV::Str(b.records)));
    assert(obj_get(mems, "aId"@) == obj_get(mems.drop_first(), "aId"@));
    assert(obj_get(mems.drop_first(), "aId"@) == obj_get(mems.drop_first().drop_first(), "aId"@));
    assert(obj_get(mems.drop_first().drop_first(), "aId"@) == Some(JsonV::Str(b.a_id)));
    let ej = block_json(b.schema, b.records, b.a_id);
    assert(obj_str(ej, "schema"@) == Some(b.schema));
    assert(obj_str(ej, "records"@) == Some(b.records));
    assert(obj_str(ej, "aId"@) == Some(b.a_id));
}

/// Writing a string map whose keys are distinct and reading it back gives
/// the same pairs. (A map with a repeated key is refused on the way back:
/// the reader does not silently collapse bindings.)
pub proof fn lemma_strmap_round_trip(pairs: Seq<(Seq<char>, Seq<char>)>)
    requires
        forall|i: int, j: int|
            0 <= i < j < pairs.len() ==> (#[trigger] pairs[i]).0 != (#[trigger] pairs[j]).0,
    ensures
        strmap_of(strmap_json(pairs)) == Some(pairs),
    decreases pairs.len(),
{
    let m = strmap_json(pairs)->Obj_0;
    if pairs.len() == 0 {
        assert(strpairs_of(m) == Some(Seq::<(Seq<char>, Seq<char>)>::empty()));
        assert(strpairs_of(m)->0 =~= pairs);
    } else {
        assert(forall|i: int, j: int|
            0 <= i < j < pairs.drop_first().len() ==> (#[trigger] pairs.drop_first()[i]).0 != (
            #[trigger] pairs.drop_first()[j]).0);
        lemma_strmap_round_trip(pairs.drop_first());
        assert(m.drop_first() =~= strmap_json(pairs.drop_first())->Obj_0);
        assert(m[0] == (pairs[0].0, JsonV::Str(pairs[0].1)));
        if binds_key(m.drop_first(), pairs[0].0) {
            let w = choose|w: int|
                0 <= w < m.drop_first().len() && (#[trigger] m.drop_first()[w]).0 == pairs[0].0;
            assert(m.drop_first()[w].0 == pairs[w + 1].0);
            assert(pairs[0].0 != pairs[w + 1].0);
            assert(false);
        }
        assert(strpairs_of(m) == Some(seq![(pairs[0].0, pairs[0].1)] + pairs.drop_first()));
        assert(seq![(pairs[0].0, pairs[0].1)] + pairs.drop_first() =~= pairs);
    }
}

/// Split round trip: writing a split whose property keys are distinct as
/// JSON and reading it back gives the same spill location (its constant
/// type tag included), the same properties, and the same presence of an
/// encryption key.
pub proof fn lemma_split_round_trip(
    spill: (Seq<char>, Seq<char>, bool, Seq<char>),
    properties: Seq<(Seq<char>, Seq<char>)>,
    has_key: bool,
)
    requires
        forall|i: int, j: int|
            0 <= i < j < properties.len() ==> (#[trigger] properties[i]).0 != (
            #[trigger] properties[j]).0,
    ensures
        split_of(
            split_json(
                spill_location_json(spill.0, spill.1, spill.2, spill.3),
                properties,
                has_key,
            ),
        ) == Some((spill, properties, has_key)),
{
    reveal_strlit("spillLocation");
    reveal_strlit("properties");
    reveal_strlit("encryptionKey");
    reveal_strlit("bucket");
    reveal_strlit("key");
    reveal_strlit("directory");
    reveal_strlit("@type");
    let sj = spill_location_json(spill.0, spill.1, spill.2, spill.3);
    let j = split_json(sj, properties, has_key);
    let m = j->Obj_0;
    assert("spillLocation"@.len() == 13 && "properties"@.len() == 10 && "encryptionKey"@.len()
        == 13);
    assert("spillLocation"@[0] == 's' && "encryptionKey"@[0] == 'e');
    crate::json::lemma_obj_get_found(m, "spillLocation"@, 0);
    crate::json::lemma_obj_get_found(m, "properties"@, 1);
    crate::json::lemma_obj_get_found(m, "encryptionKey"@, 2);
    let sm = sj->Obj_0;
    assert("bucket"@.len() == 6 && "key"@.len() == 3 && "directory"@.len() == 9 && "@type"@.len()
        == 5);
    crate::json::lemma_obj_get_found(sm, "bucket"@, 0);
    crate::json::lemma_obj_get_found(sm, "key"@, 1);
    crate::json::lemma_obj_get_found(sm, "directory"@, 2);
    crate::json::lemma_obj_get_found(sm, "@type"@, 3);
    assert(spill_location_of(sj) == Some(spill));
    lemma_strmap_round_trip(properties);
}


/// Split round trip over the wire text: the JSON text written for a split
/// whose property keys are distinct parses back to a JSON value that
/// holds the same split.
pub proof fn lemma_split_text_round_trip(
    spill: (Seq<char>, Seq<char>, bool, Seq<char>),
    properties: Seq<(Seq<char>, Seq<char>)>,
    has_key: bool,
)
    requires
        forall|i: int, j: int|
            0 <= i < j < properties.len() ==> (#[trigger] properties[i]).0 != (
            #[trigger] properties[j]).0,
    ensures
        ({
            let j = split_json(
                spill_location_json(spill.0, spill.1, spill.2, spill.3),
                properties,
                has_key,
            );
            crate::json_parse::json_of(vstd::utf8::encode_utf8(crate::json::json_rep(j)))
                == Some(j) && split_of(j) == Some((spill, properties, has_key))
        }),
{
    let sj = spill_location_json(spill.0, spill.1, spill.2, spill.3);
    let j = split_json(sj, properties, has_key);
    assert forall|t: int|
        0 <= t < j->Obj_0.len() implies crate::json::num_free((#[trigger] j->Obj_0[t]).1) by {
        if t == 0 {
            let sjm = sj->Obj_0;
            assert forall|u: int|
                0 <= u < sjm.len() implies crate::json::num_free((#[trigger] sjm[u]).1) by {
                assert(sjm[u].1 is Str || sjm[u].1 is Bool);
            }
            assert(crate::json::num_free(sj));
        } else if t == 1 {
            let pm = strmap_json(properties)->Obj_0;
            assert forall|u: int|
                0 <= u < pm.len() implies crate::json::num_free((#[trigger] pm[u]).1) by {
                assert(pm[u].1 == JsonV::Str(properties[u].1));
            }
            assert(crate::json::num_free(strmap_json(properties)));
        } else {
            assert(j->Obj_0[t].1 is Obj || j->Obj_0[t].1 is Null);
            if j->Obj_0[t].1 is Obj {
                assert(j->Obj_0[t].1->Obj_0.len() == 0);
            }
        }
    }
    assert(crate::json::num_free(j));
    crate::json_parse::lemma_print_parse_utf8(j);
    lemma_split_round_trip(spill, properties, has_key);
}

/// Block round trip over the wire text: the JSON text written for a
/// decoded Block parses back to a carrier that decodes to the same Block.
pub proof fn lemma_block_text_round_trip(j: JsonV, b: BlockV)
    requires
        block_decoding(j) == Some(b),
    ensures
        ({
            let ej = block_json(b.schema, b.records, b.a_id);
            crate::json_parse::json_of(vstd::utf8::encode_utf8(crate::json::json_rep(ej)))
                == Some(ej) && block_decoding(ej) == Some(b)
        }),
{
    let ej = block_json(b.schema, b.records, b.a_id);
    assert forall|t: int|
        0 <= t < ej->Obj_0.len() implies crate::json::num_free((#[trigger] ej->Obj_0[t]).1) by {
        assert(ej->Obj_0[t].1 is Str);
    }
    assert(crate::json::num_free(ej));
    crate::json_parse::lemma_print_parse_utf8(ej);
    lemma_block_round_trip(j, b);
}

} // verus!
