//! The narrow columnar message reader: size-prefixed framed messages whose
//! root describes either a column schema or a record batch.
//!
//! Only the message shapes this wire format carries are read: a message
//! header (header type, header table, body length), a schema (fields with
//! name, nullability, type and children, plus a metadata map) and a record
//! batch (row count, field nodes, buffer regions). Every read is
//! bounds-checked: a malformed buffer is refused, never mis-read.

use vstd::prelude::*;

verus! {

broadcast use vstd::std_specs::vec::group_vec_axioms;

/// How deep the fields of a schema may nest before the reader refuses the
/// buffer.
pub const MAX_FIELD_DEPTH: u64 = 64;

/// Little-endian 16-bit read at `i`.
pub open spec fn le16(s: Seq<u8>, i: int) -> int
    recommends
        0 <= i,
        i + 2 <= s.len(),
{
    s[i] + 0x100 * s[i + 1]
}

/// Little-endian 32-bit read at `i`.
pub open spec fn le32(s: Seq<u8>, i: int) -> int
    recommends
        0 <= i,
        i + 4 <= s.len(),
{
    s[i] + 0x100 * s[i + 1] + 0x1_0000 * s[i + 2] + 0x100_0000 * s[i + 3]
}

/// Little-endian 64-bit read at `i`.
pub open spec fn le64(s: Seq<u8>, i: int) -> int
    recommends
        0 <= i,
        i + 8 <= s.len(),
{
    le32(s, i) + 0x1_0000_0000 * le32(s, i + 4)
}

fn read_u16(s: &[u8], i: usize) -> (r: u16)
    requires
        i + 2 <= s@.len(),
    ensures
        r as int == le16(s@, i as int),
{
    (s[i] as u16) + 0x100 * (s[i + 1] as u16)
}

pub(crate) fn read_u32(s: &[u8], i: usize) -> (r: u32)
    requires
        i + 4 <= s@.len(),
    ensures
        r as int == le32(s@, i as int),
{
    (s[i] as u32) + 0x100 * (s[i + 1] as u32) + 0x1_0000 * (s[i + 2] as u32) + 0x100_0000 * (s[i
        + 3] as u32)
}

fn read_u64(s: &[u8], i: usize) -> (r: u64)
    requires
        i + 8 <= s@.len(),
    ensures
        r as int == le64(s@, i as int),
{
    let _n = s.len();
    let lo = read_u32(s, i);
    let hi = read_u32(s, i + 4);
    (lo as u64) + 0x1_0000_0000 * (hi as u64)
}

/// The vtable position of the table at `t`: the 32-bit value at `t` is
/// subtracted from `t` as a signed offset. The vtable must lie in bounds
/// whole, and claim at least its own two header fields.
pub open spec fn vtable_pos(s: Seq<u8>, t: int) -> Option<int> {
    if !(0 <= t && t + 4 <= s.len()) {
        None
    } else {
        let v = le32(s, t);
        let vt = if v < 0x8000_0000 {
            t - v
        } else {
            t + (0x1_0000_0000 - v)
        };
        if 0 <= vt && vt + 4 <= s.len() && 4 <= le16(s, vt) && vt + le16(s, vt) <= s.len() {
            Some(vt)
        } else {
            None
        }
    }
}

/// Where the value of slot `slot` of the table at `t` stands: `None` is a
/// malformed table, `Some(None)` an absent slot (the field keeps its
/// default), `Some(Some(p))` the value's position.
pub open spec fn field_pos(s: Seq<u8>, t: int, slot: int) -> Option<Option<int>> {
    match vtable_pos(s, t) {
        Some(vt) => {
            let vt_size = le16(s, vt);
            if 4 + 2 * slot + 2 <= vt_size {
                let off = le16(s, vt + 4 + 2 * slot);
                if off == 0 {
                    Some(None)
                } else if t + off <= s.len() {
                    Some(Some(t + off))
                } else {
                    None
                }
            } else {
                Some(None)
            }
        },
        None => None,
    }
}

/// The one-byte field in slot `slot` of the table at `t`; 0 when absent.
pub open spec fn field_u8(s: Seq<u8>, t: int, slot: int) -> Option<u8> {
    match field_pos(s, t, slot) {
        Some(Some(p)) => if p + 1 <= s.len() {
            Some(s[p])
        } else {
            None
        },
        Some(None) => Some(0),
        None => None,
    }
}

/// The 32-bit field in slot `slot` of the table at `t`; 0 when absent.
pub open spec fn field_u32(s: Seq<u8>, t: int, slot: int) -> Option<int> {
    match field_pos(s, t, slot) {
        Some(Some(p)) => if p + 4 <= s.len() {
            Some(le32(s, p))
        } else {
            None
        },
        Some(None) => Some(0),
        None => None,
    }
}

/// The 64-bit field in slot `slot` of the table at `t`; 0 when absent.
pub open spec fn field_u64(s: Seq<u8>, t: int, slot: int) -> Option<int> {
    match field_pos(s, t, slot) {
        Some(Some(p)) => if p + 8 <= s.len() {
            Some(le64(s, p))
        } else {
            None
        },
        Some(None) => Some(0),
        None => None,
    }
}

/// The position of the object that the offset field in slot `slot` of the
/// table at `t` points to: offsets point forward by an unsigned 32-bit
/// distance. `Some(None)` when the slot is absent.
pub open spec fn field_ref(s: Seq<u8>, t: int, slot: int) -> Option<Option<int>> {
    match field_pos(s, t, slot) {
        Some(Some(p)) => if p + 4 <= s.len() {
            let q = p + le32(s, p);
            if q + 4 <= s.len() {
                Some(Some(q))
            } else {
                None
            }
        } else {
            None
        },
        Some(None) => Some(None),
        None => None,
    }
}

/// The bytes of the length-prefixed string or byte vector at `p`.
pub open spec fn fb_bytes(s: Seq<u8>, p: int) -> Option<Seq<u8>> {
    if 0 <= p && p + 4 <= s.len() && p + 4 + le32(s, p) <= s.len() {
        Some(s.subrange(p + 4, p + 4 + le32(s, p)))
    } else {
        None
    }
}

fn exec_vtable_pos(s: &[u8], t: usize) -> (r: Option<usize>)
    ensures
        match (r, vtable_pos(s@, t as int)) {
            (Some(v), Some(w)) => v as int == w && v + 4 <= s@.len(),
            (None, None) => true,
            _ => false,
        },
{
    if t > s.len() || s.len() - t < 4 {
        return None;
    }
    let v = read_u32(s, t);
    let vt128: u128 = if v < 0x8000_0000 {
        if (v as usize) > t {
            return None;
        }
        (t - (v as usize)) as u128
    } else {
        (t as u128) + (0x1_0000_0000u128 - (v as u128))
    };
    if vt128 + 4 <= s.len() as u128 {
        let vt = vt128 as usize;
        let vt_size = read_u16(s, vt);
        if 4 <= vt_size && (vt_size as usize) <= s.len() - vt {
            Some(vt)
        } else {
            None
        }
    } else {
        None
    }
}

fn exec_field_pos(s: &[u8], t: usize, slot: u16) -> (r: Option<Option<usize>>)
    requires
        slot < 100,
    ensures
        match (r, field_pos(s@, t as int, slot as int)) {
            (Some(Some(v)), Some(Some(w))) => v as int == w,
            (Some(None), Some(None)) => true,
            (None, None) => true,
            _ => false,
        },
{
    let _n = s.len();
    match exec_vtable_pos(s, t) {
        Some(vt) => {
            let vt_size = read_u16(s, vt);
            if 4 + 2 * slot + 2 <= vt_size {
                let off = read_u16(s, vt + 4 + 2 * (slot as usize));
                if off == 0 {
                    Some(None)
                } else {
                    let p128 = (t as u128) + (off as u128);
                    if p128 <= s.len() as u128 {
                        Some(Some(t + (off as usize)))
                    } else {
                        None
                    }
                }
            } else {
                Some(None)
            }
        },
        None => None,
    }
}

fn exec_field_u8(s: &[u8], t: usize, slot: u16) -> (r: Option<u8>)
    requires
        slot < 100,
    ensures
        r == field_u8(s@, t as int, slot as int),
{
    match exec_field_pos(s, t, slot) {
        Some(Some(p)) => {
            if p < s.len() {
                Some(s[p])
            } else {
                None
            }
        },
        Some(None) => Some(0),
        None => None,
    }
}

fn exec_field_u32(s: &[u8], t: usize, slot: u16) -> (r: Option<u32>)
    requires
        slot < 100,
    ensures
        match (r, field_u32(s@, t as int, slot as int)) {
            (Some(v), Some(w)) => v as int == w,
            (None, None) => true,
            _ => false,
        },
{
    match exec_field_pos(s, t, slot) {
        Some(Some(p)) => {
            if p <= s.len() && s.len() - p >= 4 {
                Some(read_u32(s, p))
            } else {
                None
            }
        },
        Some(None) => Some(0),
        None => None,
    }
}

fn exec_field_u64(s: &[u8], t: usize, slot: u16) -> (r: Option<u64>)
    requires
        slot < 100,
    ensures
        match (r, field_u64(s@, t as int, slot as int)) {
            (Some(v), Some(w)) => v as int == w,
            (None, None) => true,
            _ => false,
        },
{
    match exec_field_pos(s, t, slot) {
        Some(Some(p)) => {
            if p <= s.len() && s.len() - p >= 8 {
                Some(read_u64(s, p))
            } else {
                None
            }
        },
        Some(None) => Some(0),
        None => None,
    }
}

fn exec_field_ref(s: &[u8], t: usize, slot: u16) -> (r: Option<Option<usize>>)
    requires
        slot < 100,
    ensures
        match (r, field_ref(s@, t as int, slot as int)) {
            (Some(Some(v)), Some(Some(w))) => v as int == w && v + 4 <= s@.len(),
            (Some(None), Some(None)) => true,
            (None, None) => true,
            _ => false,
        },
{
    match exec_field_pos(s, t, slot) {
        Some(Some(p)) => {
            if p <= s.len() && s.len() - p >= 4 {
                let off = read_u32(s, p);
                let q128 = (p as u128) + (off as u128);
                if q128 + 4 <= s.len() as u128 {
                    Some(Some(p + (off as usize)))
                } else {
                    None
                }
            } else {
                None
            }
        },
        Some(None) => Some(None),
        None => None,
    }
}

fn exec_fb_bytes(s: &[u8], p: usize) -> (r: Option<Vec<u8>>)
    ensures
        match (r, fb_bytes(s@, p as int)) {
            (Some(v), Some(w)) => v@ == w,
            (None, None) => true,
            _ => false,
        },
{
    if p <= s.len() && s.len() - p >= 4 {
        let n = read_u32(s, p);
        if (n as u128) <= (s.len() - p - 4) as u128 {
            let n = n as usize;
            let mut out: Vec<u8> = Vec::new();
            let mut k: usize = 0;
            while k < n
                invariant
                    p + 4 + n <= s@.len(),
                    s@.len() <= usize::MAX,
                    0 <= k <= n,
                    out@ == s@.subrange(p + 4, p + 4 + k),
                decreases n - k,
            {
                out.push(s[p + 4 + k]);
                proof {
                    assert(out@ =~= s@.subrange(p as int + 4, p as int + 4 + k + 1));
                }
                k = k + 1;
            }
            Some(out)
        } else {
            None
        }
    } else {
        None
    }
}

/// What a framed message's header says: the header type tag, the position
/// of the header table when one is present, and the stated body length.
pub struct MessageMeta {
    pub header_type: u8,
    pub header: Option<usize>,
    pub body_length: u64,
}

/// The message whose root table starts at `base` (the root offset stands
/// there). Header type tag 0 means none was written.
pub open spec fn message_at(s: Seq<u8>, base: int) -> Option<(u8, Option<int>, int)> {
    if !(0 <= base && base + 4 <= s.len()) {
        None
    } else {
        let t = base + le32(s, base);
        match (field_u8(s, t, 1), field_ref(s, t, 2), field_u64(s, t, 3)) {
            (Some(ht), Some(hdr), Some(bl)) => Some((ht, hdr, bl)),
            _ => None,
        }
    }
}

/// Reads the message whose root starts at `base`.
pub fn exec_message_at(s: &[u8], base: usize) -> (r: Option<MessageMeta>)
    ensures
        match (r, message_at(s@, base as int)) {
            (Some(m), Some((ht, hdr, bl))) => m.header_type == ht && bl == m.body_length as int
                && (match (m.header, hdr) {
                (Some(v), Some(w)) => v as int == w && v + 4 <= s@.len(),
                (None, None) => true,
                _ => false,
            }),
            (None, None) => true,
            _ => false,
        },
{
    if base <= s.len() && s.len() - base >= 4 {
        let off = read_u32(s, base);
        let t128 = (base as u128) + (off as u128);
        if t128 > usize::MAX as u128 {
            // the root table position itself cannot be addressed
            assert(vtable_pos(s@, base as int + le32(s@, base as int)) is None);
            return None;
        }
        let t = base + (off as usize);
        let ht = exec_field_u8(s, t, 1);
        let hdr = exec_field_ref(s, t, 2);
        let bl = exec_field_u64(s, t, 3);
        match (ht, hdr, bl) {
            (Some(ht), Some(hdr), Some(bl)) => Some(
                MessageMeta { header_type: ht, header: hdr, body_length: bl },
            ),
            _ => None,
        }
    } else {
        None
    }
}

/// The column types this reader tells apart. Anything else keeps its raw
/// type tag.
#[derive(Debug, Clone, Copy, PartialEq, Eq, Structural)]
pub enum DataType {
    Utf8,
    Binary,
    Boolean,
    Int { bits: u32, signed: bool },
    Timestamp,
    Other(u8),
}

/// One field of a column schema.
#[derive(Debug)]
pub struct Field {
    pub name: String,
    pub nullable: bool,
    pub dtype: DataType,
    pub children: Vec<Field>,
}

/// Mathematical model of a `Field`.
pub struct FieldV {
    pub name: Seq<char>,
    pub nullable: bool,
    pub dtype: DataType,
    pub children: Seq<FieldV>,
}

/// The models of a list of fields.
pub open spec fn view_fields(a: Seq<Field>) -> Seq<FieldV>
    decreases a,
{
    Seq::new(
        a.len(),
        |i: int|
            if 0 <= i < a.len() {
                a[i]@
            } else {
                FieldV {
                    name: Seq::empty(),
                    nullable: false,
                    dtype: DataType::Other(0),
                    children: Seq::empty(),
                }
            },
    )
}

impl View for Field {
    type V = FieldV;

    open spec fn view(&self) -> FieldV
        decreases self,
    {
        FieldV {
            name: self.name@,
            nullable: self.nullable,
            dtype: self.dtype,
            children: view_fields(self.children@),
        }
    }
}

/// The models of a list of string pairs.
pub open spec fn view_pairs(m: Seq<(String, String)>) -> Seq<(Seq<char>, Seq<char>)> {
    Seq::new(
        m.len(),
        |i: int|
            if 0 <= i < m.len() {
                (m[i].0@, m[i].1@)
            } else {
                (Seq::<char>::empty(), Seq::<char>::empty())
            },
    )
}

/// A decoded column schema: the fields in order, and the schema's own
/// metadata key/value map in the order it was written.
#[derive(Debug)]
pub struct ColumnSchema {
    pub fields: Vec<Field>,
    pub metadata: Vec<(String, String)>,
}

/// Mathematical model of a `ColumnSchema`.
pub struct ColumnSchemaV {
    pub fields: Seq<FieldV>,
    pub metadata: Seq<(Seq<char>, Seq<char>)>,
}

impl View for ColumnSchema {
    type V = ColumnSchemaV;

    open spec fn view(&self) -> ColumnSchemaV {
        ColumnSchemaV { fields: view_fields(self.fields@), metadata: view_pairs(self.metadata@) }
    }
}

/// The characters of the length-prefixed string at `q`, which must be
/// valid UTF-8.
pub open spec fn fb_string_at(s: Seq<u8>, q: int) -> Option<Seq<char>> {
    match fb_bytes(s, q) {
        Some(b) => if vstd::utf8::valid_utf8(b) {
            Some(vstd::utf8::decode_utf8(b))
        } else {
            None
        },
        None => None,
    }
}

fn exec_fb_string(s: &[u8], q: usize) -> (r: Option<String>)
    ensures
        match (r, fb_string_at(s@, q as int)) {
            (Some(v), Some(w)) => v@ == w,
            (None, None) => true,
            _ => false,
        },
{
    match exec_fb_bytes(s, q) {
        Some(b) => crate::text::string_from_utf8(b),
        None => None,
    }
}

/// The string field in slot `slot` of the table at `t`; empty when the
/// slot is absent.
pub open spec fn field_string(s: Seq<u8>, t: int, slot: int) -> Option<Seq<char>> {
    match field_ref(s, t, slot) {
        Some(Some(q)) => fb_string_at(s, q),
        Some(None) => Some(Seq::empty()),
        None => None,
    }
}

fn exec_field_string(s: &[u8], t: usize, slot: u16) -> (r: Option<String>)
    requires
        slot < 100,
    ensures
        match (r, field_string(s@, t as int, slot as int)) {
            (Some(v), Some(w)) => v@ == w,
            (None, None) => true,
            _ => false,
        },
{
    match exec_field_ref(s, t, slot) {
        Some(Some(q)) => exec_fb_string(s, q),
        Some(None) => Some(String::new()),
        None => None,
    }
}

/// The type of the field whose table stands at `t`: the type tag in slot
/// 2, with the bit width and signedness read from the type table for an
/// integer field.
pub open spec fn dtype_at(s: Seq<u8>, t: int) -> Option<DataType> {
    match field_u8(s, t, 2) {
        Some(tag) => if tag == 2 {
            match field_ref(s, t, 3) {
                Some(Some(q)) => match (field_u32(s, q, 0), field_u8(s, q, 1)) {
                    (Some(bits), Some(sg)) => Some(
                        DataType::Int { bits: bits as u32, signed: sg != 0 },
                    ),
                    _ => None,
                },
                Some(None) => None,
                None => None,
            }
        } else if tag == 4 {
            Some(DataType::Binary)
        } else if tag == 5 {
            Some(DataType::Utf8)
        } else if tag == 6 {
            Some(DataType::Boolean)
        } else if tag == 10 {
            Some(DataType::Timestamp)
        } else {
            Some(DataType::Other(tag))
        },
        None => None,
    }
}

fn exec_dtype_at(s: &[u8], t: usize) -> (r: Option<DataType>)
    ensures
        r == dtype_at(s@, t as int),
{
    match exec_field_u8(s, t, 2) {
        Some(tag) => {
            if tag == 2 {
                match exec_field_ref(s, t, 3) {
                    Some(Some(q)) => {
                        match (exec_field_u32(s, q, 0), exec_field_u8(s, q, 1)) {
                            (Some(bits), Some(sg)) => Some(
                                DataType::Int { bits, signed: sg != 0 },
                            ),
                            _ => None,
                        }
                    },
                    Some(None) => None,
                    None => None,
                }
            } else if tag == 4 {
                Some(DataType::Binary)
            } else if tag == 5 {
                Some(DataType::Utf8)
            } else if tag == 6 {
                Some(DataType::Boolean)
            } else if tag == 10 {
                Some(DataType::Timestamp)
            } else {
                Some(DataType::Other(tag))
            }
        },
        None => None,
    }
}

/// The field whose table stands at `t`: name, nullability, type and
/// children. `fuel` bounds the nesting of children.
pub open spec fn field_table_at(s: Seq<u8>, t: int, fuel: nat) -> Option<FieldV>
    decreases fuel, 0int, 0int,
{
    match (field_string(s, t, 0), field_u8(s, t, 1), dtype_at(s, t)) {
        (Some(name), Some(nl), Some(dt)) => {
            match field_ref(s, t, 5) {
                Some(Some(q)) => {
                    let n = le32(s, q);
                    if q + 4 + 4 * n <= s.len() && fuel > 0 {
                        match fields_vec_at(s, q, n, 0, (fuel - 1) as nat) {
                            Some(children) => Some(
                                FieldV { name, nullable: nl != 0, dtype: dt, children },
                            ),
                            None => None,
                        }
                    } else {
                        None
                    }
                },
                Some(None) => Some(
                    FieldV { name, nullable: nl != 0, dtype: dt, children: Seq::empty() },
                ),
                None => None,
            }
        },
        _ => None,
    }
}

/// The field tables of the vector at `q` from element `k` on: each element
/// is an offset to a field table.
pub open spec fn fields_vec_at(s: Seq<u8>, q: int, n: int, k: int, fuel: nat) -> Option<
    Seq<FieldV>,
>
    decreases fuel, 1int, n - k,
{
    if !(0 <= k && k <= n && q + 4 + 4 * n <= s.len() && 0 <= q) {
        None
    } else if k == n {
        Some(Seq::empty())
    } else {
        let ep = q + 4 + 4 * k;
        let te = ep + le32(s, ep);
        if te + 4 <= s.len() {
            match field_table_at(s, te, fuel) {
                Some(f) => match fields_vec_at(s, q, n, k + 1, fuel) {
                    Some(rest) => Some(seq![f] + rest),
                    None => None,
                },
                None => None,
            }
        } else {
            None
        }
    }
}

fn exec_field_table(s: &[u8], t: usize, fuel: u64) -> (r: Option<Field>)
    ensures
        match (r, field_table_at(s@, t as int, fuel as nat)) {
            (Some(v), Some(w)) => v@ == w,
            (None, None) => true,
            _ => false,
        },
    decreases fuel, 0int, 0int,
{
    let name = exec_field_string(s, t, 0);
    let nl = exec_field_u8(s, t, 1);
    let dt = exec_dtype_at(s, t);
    match (name, nl, dt) {
        (Some(name), Some(nl), Some(dt)) => {
            match exec_field_ref(s, t, 5) {
                Some(Some(q)) => {
                    let n = read_u32(s, q);
                    let ln = s.len();
                    if (n as u128) <= ((ln - q - 4) as u128) / 4 && fuel > 0 {
                        match exec_fields_vec(s, q, n as usize, 0, fuel - 1) {
                            Some(children) => Some(
                                Field { name, nullable: nl != 0, dtype: dt, children },
                            ),
                            None => None,
                        }
                    } else {
                        None
                    }
                },
                Some(None) => {
                    let ch: Vec<Field> = Vec::new();
                    proof {
                        assert(view_fields(ch@) =~= Seq::<FieldV>::empty());
                    }
                    Some(Field { name, nullable: nl != 0, dtype: dt, children: ch })
                },
                None => None,
            }
        },
        _ => None,
    }
}

fn exec_fields_vec(s: &[u8], q: usize, n: usize, k: usize, fuel: u64) -> (r: Option<Vec<Field>>)
    requires
        k <= n,
        q + 4 + 4 * n <= s@.len(),
    ensures
        match (r, fields_vec_at(s@, q as int, n as int, k as int, fuel as nat)) {
            (Some(v), Some(w)) => view_fields(v@) == w,
            (None, None) => true,
            _ => false,
        },
    decreases fuel, 1int, n - k,
{
    let ln = s.len();
    if k == n {
        let out: Vec<Field> = Vec::new();
        proof {
            assert(view_fields(out@) =~= Seq::<FieldV>::empty());
        }
        return Some(out);
    }
    let ep = q + 4 + 4 * k;
    let off = read_u32(s, ep);
    let te128 = (ep as u128) + (off as u128);
    if te128 + 4 <= ln as u128 {
        let te = ep + (off as usize);
        match exec_field_table(s, te, fuel) {
            Some(f) => {
                match exec_fields_vec(s, q, n, k + 1, fuel) {
                    Some(rest) => {
                        let mut out: Vec<Field> = Vec::new();
                        out.push(f);
                        let mut rest = rest;
                        out.append(&mut rest);
                        proof {
                            let spec_rest = fields_vec_at(
                                s@,
                                q as int,
                                n as int,
                                k as int + 1,
                                fuel as nat,
                            )->0;
                            assert(view_fields(out@) =~= seq![out@[0]@] + spec_rest);
                        }
                        Some(out)
                    },
                    None => None,
                }
            },
            None => None,
        }
    } else {
        None
    }
}

/// The key/value pairs of the metadata vector at `q` from element `k` on.
pub open spec fn kv_vec_at(s: Seq<u8>, q: int, n: int, k: int) -> Option<
    Seq<(Seq<char>, Seq<char>)>,
>
    decreases n - k,
{
    if !(0 <= k && k <= n && q + 4 + 4 * n <= s.len() && 0 <= q) {
        None
    } else if k == n {
        Some(Seq::empty())
    } else {
        let ep = q + 4 + 4 * k;
        let te = ep + le32(s, ep);
        if te + 4 <= s.len() {
            match (field_string(s, te, 0), field_string(s, te, 1)) {
                (Some(key), Some(val)) => match kv_vec_at(s, q, n, k + 1) {
                    Some(rest) => Some(seq![(key, val)] + rest),
                    None => None,
                },
                _ => None,
            }
        } else {
            None
        }
    }
}

fn exec_kv_vec(s: &[u8], q: usize, n: usize, k: usize) -> (r: Option<Vec<(String, String)>>)
    requires
        k <= n,
        q + 4 + 4 * n <= s@.len(),
    ensures
        match (r, kv_vec_at(s@, q as int, n as int, k as int)) {
            (Some(v), Some(w)) => view_pairs(v@) == w,
            (None, None) => true,
            _ => false,
        },
    decreases n - k,
{
    let ln = s.len();
    if k == n {
        let out: Vec<(String, String)> = Vec::new();
        proof {
            assert(view_pairs(out@) =~= Seq::<(Seq<char>, Seq<char>)>::empty());
        }
        return Some(out);
    }
    let ep = q + 4 + 4 * k;
    let off = read_u32(s, ep);
    let te128 = (ep as u128) + (off as u128);
    if te128 + 4 <= ln as u128 {
        let te = ep + (off as usize);
        match (exec_field_string(s, te, 0), exec_field_string(s, te, 1)) {
            (Some(key), Some(val)) => {
                match exec_kv_vec(s, q, n, k + 1) {
                    Some(rest) => {
                        let mut out: Vec<(String, String)> = Vec::new();
                        out.push((key, val));
                        let mut rest = rest;
                        out.append(&mut rest);
                        proof {
                            let spec_rest = kv_vec_at(s@, q as int, n as int, k as int + 1)->0;
                            assert(view_pairs(out@) =~= seq![(out@[0].0@, out@[0].1@)]
                                + spec_rest);
                        }
                        Some(out)
                    },
                    None => None,
                }
            },
            _ => None,
        }
    } else {
        None
    }
}

/// The column schema whose table stands at `t`: its fields (slot 1) and
/// its metadata map (slot 2).
pub open spec fn schema_at(s: Seq<u8>, t: int) -> Option<ColumnSchemaV> {
    let fields = match field_ref(s, t, 1) {
        Some(Some(q)) => {
            let n = le32(s, q);
            if q + 4 + 4 * n <= s.len() {
                fields_vec_at(s, q, n, 0, MAX_FIELD_DEPTH as nat)
            } else {
                None
            }
        },
        Some(None) => Some(Seq::empty()),
        None => None,
    };
    let metadata = match field_ref(s, t, 2) {
        Some(Some(q)) => {
            let n = le32(s, q);
            if q + 4 + 4 * n <= s.len() {
                kv_vec_at(s, q, n, 0)
            } else {
                None
            }
        },
        Some(None) => Some(Seq::empty()),
        None => None,
    };
    match (fields, metadata) {
        (Some(f), Some(m)) => Some(ColumnSchemaV { fields: f, metadata: m }),
        _ => None,
    }
}

/// Reads the column schema whose table stands at `t`.
pub fn exec_schema_at(s: &[u8], t: usize) -> (r: Option<ColumnSchema>)
    ensures
        match (r, schema_at(s@, t as int)) {
            (Some(v), Some(w)) => v@ == w,
            (None, None) => true,
            _ => false,
        },
{
    let ln = s.len();
    let fields: Option<Vec<Field>> = match exec_field_ref(s, t, 1) {
        Some(Some(q)) => {
            let n = read_u32(s, q);
            if (n as u128) <= ((ln - q - 4) as u128) / 4 {
                exec_fields_vec(s, q, n as usize, 0, MAX_FIELD_DEPTH)
            } else {
                None
            }
        },
        Some(None) => {
            let f: Vec<Field> = Vec::new();
            proof {
                assert(view_fields(f@) =~= Seq::<FieldV>::empty());
            }
            Some(f)
        },
        None => None,
    };
    let metadata: Option<Vec<(String, String)>> = match exec_field_ref(s, t, 2) {
        Some(Some(q)) => {
            let n = read_u32(s, q);
            if (n as u128) <= ((ln - q - 4) as u128) / 4 {
                exec_kv_vec(s, q, n as usize, 0)
            } else {
                None
            }
        },
        Some(None) => {
            let m: Vec<(String, String)> = Vec::new();
            proof {
                assert(view_pairs(m@) =~= Seq::<(Seq<char>, Seq<char>)>::empty());
            }
            Some(m)
        },
        None => None,
    };
    match (fields, metadata) {
        (Some(f), Some(m)) => Some(ColumnSchema { fields: f, metadata: m }),
        _ => None,
    }
}

/// The row count, field nodes and buffer regions of the record batch
/// whose table stands at `t`. Nodes are (length, null count) pairs;
/// buffers are (offset, length) pairs into the message body.
pub open spec fn record_batch_at(s: Seq<u8>, t: int) -> Option<
    (u64, Seq<(u64, u64)>, Seq<(u64, u64)>),
> {
    let rows = field_u64(s, t, 0);
    let nodes = match field_ref(s, t, 1) {
        Some(Some(q)) => struct16_vec_at(s, q),
        Some(None) => Some(Seq::empty()),
        None => None,
    };
    let buffers = match field_ref(s, t, 2) {
        Some(Some(q)) => struct16_vec_at(s, q),
        Some(None) => Some(Seq::empty()),
        None => None,
    };
    match (rows, nodes, buffers) {
        (Some(r), Some(ns), Some(bs)) => Some((r as u64, ns, bs)),
        _ => None,
    }
}

/// The vector of 16-byte pairs at `q`: each element two 64-bit values.
pub open spec fn struct16_vec_at(s: Seq<u8>, q: int) -> Option<Seq<(u64, u64)>> {
    if !(0 <= q && q + 4 <= s.len()) {
        None
    } else {
        let n = le32(s, q);
        if q + 4 + 16 * n <= s.len() {
            Some(
                Seq::new(
                    n as nat,
                    |k: int|
                        (
                            le64(s, q + 4 + 16 * k) as u64,
                            le64(s, q + 4 + 16 * k + 8) as u64,
                        ),
                ),
            )
        } else {
            None
        }
    }
}

fn exec_struct16_vec(s: &[u8], q: usize) -> (r: Option<Vec<(u64, u64)>>)
    requires
        q + 4 <= s@.len(),
    ensures
        match (r, struct16_vec_at(s@, q as int)) {
            (Some(v), Some(w)) => v@ == w,
            (None, None) => true,
            _ => false,
        },
{
    let ln = s.len();
    let n = read_u32(s, q);
    if (n as u128) <= ((ln - q - 4) as u128) / 16 {
        let n = n as usize;
        let ghost full = struct16_vec_at(s@, q as int)->0;
        let mut out: Vec<(u64, u64)> = Vec::new();
        let mut k: usize = 0;
        proof {
            assert(out@ =~= full.take(0));
        }
        while k < n
            invariant
                0 <= k <= n,
                q + 4 + 16 * n <= s@.len(),
                s@.len() <= usize::MAX,
                full == struct16_vec_at(s@, q as int)->0,
                struct16_vec_at(s@, q as int) is Some,
                full.len() == n,
                out@ == full.take(k as int),
            decreases n - k,
        {
            let a = read_u64(s, q + 4 + 16 * k);
            let b = read_u64(s, q + 4 + 16 * k + 8);
            out.push((a, b));
            proof {
                assert(out@ =~= full.take(k as int + 1));
            }
            k = k + 1;
        }
        proof {
            assert(full.take(n as int) =~= full);
        }
        Some(out)
    } else {
        None
    }
}

/// Reads the record batch whose table stands at `t`.
pub fn exec_record_batch_at(s: &[u8], t: usize) -> (r: Option<(u64, Vec<(u64, u64)>, Vec<(u64, u64)>)>)
    ensures
        match (r, record_batch_at(s@, t as int)) {
            (Some((rr, rn, rb)), Some((wr, wn, wb))) => rr == wr && rn@ == wn && rb@ == wb,
            (None, None) => true,
            _ => false,
        },
{
    let rows = exec_field_u64(s, t, 0);
    let nodes: Option<Vec<(u64, u64)>> = match exec_field_ref(s, t, 1) {
        Some(Some(q)) => exec_struct16_vec(s, q),
        Some(None) => Some(Vec::new()),
        None => None,
    };
    let buffers: Option<Vec<(u64, u64)>> = match exec_field_ref(s, t, 2) {
        Some(Some(q)) => exec_struct16_vec(s, q),
        Some(None) => Some(Vec::new()),
        None => None,
    };
    match (rows, nodes, buffers) {
        (Some(r), Some(ns), Some(bs)) => Some((r, ns, bs)),
        _ => None,
    }
}

/// The message of the size-prefixed frame that starts at `skip`: the
/// 4-byte size stands first, the root offset after it.
pub open spec fn framed_message(s: Seq<u8>, skip: int) -> Option<(u8, Option<int>, int)> {
    message_at(s, skip + 4)
}

/// Reads the message of the size-prefixed frame that starts at `skip`.
pub fn exec_framed_message(s: &[u8], skip: usize) -> (r: Option<MessageMeta>)
    requires
        skip <= 4,
    ensures
        match (r, framed_message(s@, skip as int)) {
            (Some(m), Some((ht, hdr, bl))) => m.header_type == ht && bl == m.body_length as int
                && (match (m.header, hdr) {
                (Some(v), Some(w)) => v as int == w && v + 4 <= s@.len(),
                (None, None) => true,
                _ => false,
            }),
            (None, None) => true,
            _ => false,
        },
{
    exec_message_at(s, skip + 4)
}

/// The message of a schema buffer, read under both framings: first as a
/// plain size-prefixed frame; if that fails or carries no header type, a
/// 4-byte marker is assumed before the frame and skipped.
pub open spec fn dual_message(s: Seq<u8>) -> Option<(u8, Option<int>, int)> {
    match framed_message(s, 0) {
        Some((ht, hdr, bl)) => if ht != 0 {
            Some((ht, hdr, bl))
        } else {
            framed_message(s, 4)
        },
        None => framed_message(s, 4),
    }
}

/// Reads a schema buffer's message under either framing.
pub fn exec_dual_message(s: &[u8]) -> (r: Option<MessageMeta>)
    ensures
        match (r, dual_message(s@)) {
            (Some(m), Some((ht, hdr, bl))) => m.header_type == ht && bl == m.body_length as int
                && (match (m.header, hdr) {
                (Some(v), Some(w)) => v as int == w && v + 4 <= s@.len(),
                (None, None) => true,
                _ => false,
            }),
            (None, None) => true,
            _ => false,
        },
{
    match exec_framed_message(s, 0) {
        Some(m) => {
            if m.header_type != 0 {
                Some(m)
            } else {
                exec_framed_message(s, 4)
            }
        },
        None => exec_framed_message(s, 4),
    }
}


/// A 4-byte marker before the buffer moves every read up by 4: the bytes
/// at and after any position are unchanged.
proof fn lemma_le_shift(p: Seq<u8>, s: Seq<u8>, i: int)
    requires
        p.len() == 4,
        0 <= i,
    ensures
        i + 2 <= s.len() ==> le16(p + s, i + 4) == le16(s, i),
        i + 4 <= s.len() ==> le32(p + s, i + 4) == le32(s, i),
        i + 8 <= s.len() ==> le64(p + s, i + 4) == le64(s, i),
{
    assert(forall|k: int|
        0 <= k < 8 && i + k < s.len() ==> #[trigger] (p + s)[i + 4 + k] == s[i + k]);
}

proof fn lemma_vtable_shift(p: Seq<u8>, s: Seq<u8>, t: int)
    requires
        p.len() == 4,
        vtable_pos(s, t) is Some,
    ensures
        vtable_pos(p + s, t + 4) == Some(vtable_pos(s, t)->0 + 4),
{
    let vt = vtable_pos(s, t)->0;
    lemma_le_shift(p, s, t);
    lemma_le_shift(p, s, vt);
}

proof fn lemma_field_pos_shift(p: Seq<u8>, s: Seq<u8>, t: int, slot: int)
    requires
        p.len() == 4,
        0 <= slot,
        field_pos(s, t, slot) is Some,
    ensures
        field_pos(p + s, t + 4, slot) == (match field_pos(s, t, slot)->0 {
            Some(q) => Some(Some(q + 4)),
            None => Some(None),
        }),
{
    let vt = vtable_pos(s, t)->0;
    lemma_vtable_shift(p, s, t);
    lemma_le_shift(p, s, vt);
    let vt_size = le16(s, vt);
    if 4 + 2 * slot + 2 <= vt_size {
        lemma_le_shift(p, s, vt + 4 + 2 * slot);
    }
}

proof fn lemma_field_u8_shift(p: Seq<u8>, s: Seq<u8>, t: int, slot: int)
    requires
        p.len() == 4,
        0 <= slot,
        field_u8(s, t, slot) is Some,
    ensures
        field_u8(p + s, t + 4, slot) == field_u8(s, t, slot),
{
    lemma_field_pos_shift(p, s, t, slot);
    match field_pos(s, t, slot)->0 {
        Some(q) => {
            assert((p + s)[q + 4] == s[q]);
        },
        None => {},
    }
}

proof fn lemma_field_u32_shift(p: Seq<u8>, s: Seq<u8>, t: int, slot: int)
    requires
        p.len() == 4,
        0 <= slot,
        field_u32(s, t, slot) is Some,
    ensures
        field_u32(p + s, t + 4, slot) == field_u32(s, t, slot),
{
    lemma_field_pos_shift(p, s, t, slot);
    match field_pos(s, t, slot)->0 {
        Some(q) => {
            lemma_le_shift(p, s, q);
        },
        None => {},
    }
}

proof fn lemma_field_u64_shift(p: Seq<u8>, s: Seq<u8>, t: int, slot: int)
    requires
        p.len() == 4,
        0 <= slot,
        field_u64(s, t, slot) is Some,
    ensures
        field_u64(p + s, t + 4, slot) == field_u64(s, t, slot),
{
    lemma_field_pos_shift(p, s, t, slot);
    match field_pos(s, t, slot)->0 {
        Some(q) => {
            lemma_le_shift(p, s, q);
        },
        None => {},
    }
}

proof fn lemma_field_ref_shift(p: Seq<u8>, s: Seq<u8>, t: int, slot: int)
    requires
        p.len() == 4,
        0 <= slot,
        field_ref(s, t, slot) is Some,
    ensures
        field_ref(p + s, t + 4, slot) == (match field_ref(s, t, slot)->0 {
            Some(q) => Some(Some(q + 4)),
            None => Some(None),
        }),
{
    lemma_field_pos_shift(p, s, t, slot);
    match field_pos(s, t, slot)->0 {
        Some(q) => {
            lemma_le_shift(p, s, q);
        },
        None => {},
    }
}

proof fn lemma_fb_bytes_shift(p: Seq<u8>, s: Seq<u8>, q: int)
    requires
        p.len() == 4,
        fb_bytes(s, q) is Some,
    ensures
        fb_bytes(p + s, q + 4) == fb_bytes(s, q),
{
    lemma_le_shift(p, s, q);
    let n = le32(s, q);
    assert((p + s).subrange(q + 8, q + 8 + n) =~= s.subrange(q + 4, q + 4 + n));
}

proof fn lemma_fb_string_shift(p: Seq<u8>, s: Seq<u8>, q: int)
    requires
        p.len() == 4,
        fb_string_at(s, q) is Some,
    ensures
        fb_string_at(p + s, q + 4) == fb_string_at(s, q),
{
    lemma_fb_bytes_shift(p, s, q);
}

proof fn lemma_field_string_shift(p: Seq<u8>, s: Seq<u8>, t: int, slot: int)
    requires
        p.len() == 4,
        0 <= slot,
        field_string(s, t, slot) is Some,
    ensures
        field_string(p + s, t + 4, slot) == field_string(s, t, slot),
{
    lemma_field_ref_shift(p, s, t, slot);
    match field_ref(s, t, slot)->0 {
        Some(q) => {
            lemma_fb_string_shift(p, s, q);
        },
        None => {},
    }
}

proof fn lemma_dtype_shift(p: Seq<u8>, s: Seq<u8>, t: int)
    requires
        p.len() == 4,
        dtype_at(s, t) is Some,
    ensures
        dtype_at(p + s, t + 4) == dtype_at(s, t),
{
    lemma_field_u8_shift(p, s, t, 2);
    let tag = field_u8(s, t, 2)->0;
    if tag == 2 {
        lemma_field_ref_shift(p, s, t, 3);
        match field_ref(s, t, 3)->0 {
            Some(q) => {
                lemma_field_u32_shift(p, s, q, 0);
                lemma_field_u8_shift(p, s, q, 1);
            },
            None => {},
        }
    }
}

proof fn lemma_field_table_shift(p: Seq<u8>, s: Seq<u8>, t: int, fuel: nat)
    requires
        p.len() == 4,
        field_table_at(s, t, fuel) is Some,
    ensures
        field_table_at(p + s, t + 4, fuel) == field_table_at(s, t, fuel),
    decreases fuel, 0int, 0int,
{
    lemma_field_string_shift(p, s, t, 0);
    lemma_field_u8_shift(p, s, t, 1);
    lemma_dtype_shift(p, s, t);
    lemma_field_ref_shift(p, s, t, 5);
    match field_ref(s, t, 5)->0 {
        Some(q) => {
            lemma_le_shift(p, s, q);
            let n = le32(s, q);
            lemma_fields_vec_shift(p, s, q, n, 0, (fuel - 1) as nat);
        },
        None => {},
    }
}

proof fn lemma_fields_vec_shift(p: Seq<u8>, s: Seq<u8>, q: int, n: int, k: int, fuel: nat)
    requires
        p.len() == 4,
        fields_vec_at(s, q, n, k, fuel) is Some,
    ensures
        fields_vec_at(p + s, q + 4, n, k, fuel) == fields_vec_at(s, q, n, k, fuel),
    decreases fuel, 1int, n - k,
{
    if k < n {
        let ep = q + 4 + 4 * k;
        lemma_le_shift(p, s, ep);
        let te = ep + le32(s, ep);
        lemma_field_table_shift(p, s, te, fuel);
        lemma_fields_vec_shift(p, s, q, n, k + 1, fuel);
    }
}

proof fn lemma_kv_vec_shift(p: Seq<u8>, s: Seq<u8>, q: int, n: int, k: int)
    requires
        p.len() == 4,
        kv_vec_at(s, q, n, k) is Some,
    ensures
        kv_vec_at(p + s, q + 4, n, k) == kv_vec_at(s, q, n, k),
    decreases n - k,
{
    if k < n {
        let ep = q + 4 + 4 * k;
        lemma_le_shift(p, s, ep);
        let te = ep + le32(s, ep);
        lemma_field_string_shift(p, s, te, 0);
        lemma_field_string_shift(p, s, te, 1);
        lemma_kv_vec_shift(p, s, q, n, k + 1);
    }
}

proof fn lemma_schema_shift(p: Seq<u8>, s: Seq<u8>, t: int)
    requires
        p.len() == 4,
        schema_at(s, t) is Some,
    ensures
        schema_at(p + s, t + 4) == schema_at(s, t),
{
    lemma_field_ref_shift(p, s, t, 1);
    match field_ref(s, t, 1)->0 {
        Some(q) => {
            lemma_le_shift(p, s, q);
            lemma_fields_vec_shift(p, s, q, le32(s, q), 0, MAX_FIELD_DEPTH as nat);
        },
        None => {},
    }
    lemma_field_ref_shift(p, s, t, 2);
    match field_ref(s, t, 2)->0 {
        Some(q) => {
            lemma_le_shift(p, s, q);
            lemma_kv_vec_shift(p, s, q, le32(s, q), 0);
        },
        None => {},
    }
}

proof fn lemma_message_shift(p: Seq<u8>, s: Seq<u8>, base: int)
    requires
        p.len() == 4,
        message_at(s, base) is Some,
    ensures
        message_at(p + s, base + 4) == (match message_at(s, base)->0 {
            (ht, hdr, bl) => Some(
                (
                    ht,
                    match hdr {
                        Some(h) => Some(h + 4),
                        None => None,
                    },
                    bl,
                ),
            ),
        }),
{
    lemma_le_shift(p, s, base);
    let t = base + le32(s, base);
    lemma_field_u8_shift(p, s, t, 1);
    lemma_field_ref_shift(p, s, t, 2);
    lemma_field_u64_shift(p, s, t, 3);
}

/// Dual schema framing: a legacy schema buffer `s` (no leading marker)
/// that parses as a schema under the plain size-prefixed framing parses
/// to the same typed schema after any 4-byte marker `p` is put before it,
/// whenever the first attempt on the marked buffer comes back without a
/// header, so that the reader strips the marker and retries.
pub proof fn lemma_dual_schema_framing(p: Seq<u8>, s: Seq<u8>)
    requires
        p.len() == 4,
        (match framed_message(s, 0) {
            Some((ht, hdr, bl)) => ht == 1 && hdr is Some && schema_at(s, hdr->0) is Some,
            None => false,
        }),
        (match framed_message(p + s, 0) {
            Some((ht, hdr, bl)) => ht == 0,
            None => true,
        }),
    ensures
        (match (dual_message(p + s), dual_message(s)) {
            (Some((ht2, hdr2, bl2)), Some((ht, hdr, bl))) => ht2 == ht && hdr2 is Some
                && schema_at(p + s, hdr2->0) == schema_at(s, hdr->0),
            _ => false,
        }),
{
    let (ht, hdr, bl) = framed_message(s, 0)->0;
    lemma_message_shift(p, s, 4);
    assert(framed_message(p + s, 4) == Some(
        (
            ht,
            match hdr {
                Some(h) => Some(h + 4),
                None => None,
            },
            bl,
        ),
    ));
    lemma_schema_shift(p, s, hdr->0);
}

} // verus!
