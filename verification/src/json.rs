//! A small JSON document model: the wire format of every message this
//! library exchanges is JSON, built and read through this module.

use crate::text::push_char;
use vstd::prelude::*;
use vstd::string::StringExecFns;

verus! {

broadcast use vstd::std_specs::vec::group_vec_axioms;

/// Mathematical model of a JSON document. Object members keep the order in
/// which the encoder emitted them; key lookup takes the first binding.
pub enum JsonV {
    Null,
    Bool(bool),
    Int(i64),
    Num(Seq<char>),
    Str(Seq<char>),
    Arr(Seq<JsonV>),
    Obj(Seq<(Seq<char>, JsonV)>),
}

/// A JSON document. The numbers this wire format works with are 64-bit
/// integers; any other number (a fraction, an exponent, an integer beyond
/// 64 bits) is carried opaquely as its literal text, so that a message
/// holding one in an ignored field still reads.
#[derive(Debug)]
pub enum JsonValue {
    Null,
    Bool(bool),
    Int(i64),
    Num(String),
    Str(String),
    Arr(Vec<JsonValue>),
    Obj(Vec<(String, JsonValue)>),
}

/// The models of the elements of a JSON array.
pub open spec fn view_elems(a: Seq<JsonValue>) -> Seq<JsonV>
    decreases a,
{
    Seq::new(
        a.len(),
        |i: int|
            if 0 <= i < a.len() {
                a[i]@
            } else {
                JsonV::Null
            },
    )
}

/// The models of the members of a JSON object.
pub open spec fn view_members(m: Seq<(String, JsonValue)>) -> Seq<(Seq<char>, JsonV)>
    decreases m,
{
    Seq::new(
        m.len(),
        |i: int|
            if 0 <= i < m.len() {
                (m[i].0@, m[i].1@)
            } else {
                (Seq::<char>::empty(), JsonV::Null)
            },
    )
}

impl View for JsonValue {
    type V = JsonV;

    open spec fn view(&self) -> JsonV
        decreases self,
    {
        match self {
            JsonValue::Null => JsonV::Null,
            JsonValue::Bool(b) => JsonV::Bool(*b),
            JsonValue::Int(n) => JsonV::Int(*n),
            JsonValue::Num(t) => JsonV::Num(t@),
            JsonValue::Str(s) => JsonV::Str(s@),
            JsonValue::Arr(a) => JsonV::Arr(view_elems(a@)),
            JsonValue::Obj(m) => JsonV::Obj(view_members(m@)),
        }
    }
}

/// Whether a document holds no opaquely carried number anywhere: every
/// document this library's encoders write is of this kind.
pub open spec fn num_free(v: JsonV) -> bool
    decreases v,
{
    match v {
        JsonV::Num(_) => false,
        JsonV::Arr(a) => forall|i: int| 0 <= i < a.len() ==> num_free(#[trigger] a[i]),
        JsonV::Obj(m) => forall|i: int| 0 <= i < m.len() ==> num_free((#[trigger] m[i]).1),
        _ => true,
    }
}

/// The first binding of `k` among the members `m`, if any.
pub open spec fn obj_get(m: Seq<(Seq<char>, JsonV)>, k: Seq<char>) -> Option<JsonV>
    decreases m.len(),
{
    if m.len() == 0 {
        None
    } else if m[0].0 == k {
        Some(m[0].1)
    } else {
        obj_get(m.drop_first(), k)
    }
}

proof fn lemma_obj_get_step(m: Seq<(Seq<char>, JsonV)>, k: Seq<char>, i: int)
    requires
        0 <= i < m.len(),
        obj_get(m, k) == obj_get(m.skip(i), k),
    ensures
        m[i].0 == k ==> obj_get(m, k) == Some(m[i].1),
        m[i].0 != k ==> obj_get(m, k) == obj_get(m.skip(i + 1), k),
{
    assert(m.skip(i).len() > 0);
    assert(m.skip(i)[0] == m[i]);
    if m[i].0 != k {
        assert(m.skip(i).drop_first() =~= m.skip(i + 1));
    }
}

/// A key that differs from every member's key is not bound.
pub proof fn lemma_obj_get_absent(m: Seq<(Seq<char>, JsonV)>, k: Seq<char>)
    requires
        forall|i: int| 0 <= i < m.len() ==> (#[trigger] m[i].0) != k,
    ensures
        obj_get(m, k) is None,
    decreases m.len(),
{
    if m.len() > 0 {
        assert(m[0].0 != k);
        assert(forall|i: int|
            0 <= i < m.drop_first().len() ==> (#[trigger] m.drop_first()[i].0) == m[i + 1].0);
        lemma_obj_get_absent(m.drop_first(), k);
    }
}

/// The first member whose key matches is the binding that lookup finds.
pub proof fn lemma_obj_get_found(m: Seq<(Seq<char>, JsonV)>, k: Seq<char>, i: int)
    requires
        0 <= i < m.len(),
        m[i].0 == k,
        forall|j: int| 0 <= j < i ==> (#[trigger] m[j].0) != k,
    ensures
        obj_get(m, k) == Some(m[i].1),
    decreases i,
{
    if i > 0 {
        assert(m[0].0 != k);
        assert(forall|j: int|
            0 <= j < m.drop_first().len() ==> (#[trigger] m.drop_first()[j].0) == m[j + 1].0);
        assert(m.drop_first()[i - 1] == m[i]);
        lemma_obj_get_found(m.drop_first(), k, i - 1);
    }
}

impl JsonValue {
    /// Looks `key` up among the members of an object; the first binding
    /// wins. Anything but an object has no members.
    pub fn get<'a>(&'a self, key: &str) -> (r: Option<&'a JsonValue>)
        ensures
            match *self {
                JsonValue::Obj(_) => match (r, obj_get(self@->Obj_0, key@)) {
                    (Some(v), Some(w)) => v@ == w,
                    (None, None) => true,
                    _ => false,
                },
                _ => r is None,
            },
    {
        match self {
            JsonValue::Obj(m) => {
                let k = key.to_owned();
                let n = m.len();
                let mut i: usize = 0;
                proof {
                    assert(view_members(m@).skip(0) =~= view_members(m@));
                }
                while i < n
                    invariant
                        n == m@.len(),
                        0 <= i <= n,
                        self@ == JsonV::Obj(view_members(m@)),
                        k@ == key@,
                        obj_get(view_members(m@), key@) == obj_get(
                            view_members(m@).skip(i as int),
                            key@,
                        ),
                    decreases n - i,
                {
                    proof {
                        lemma_obj_get_step(view_members(m@), key@, i as int);
                    }
                    if m[i].0 == k {
                        return Some(&m[i].1);
                    }
                    i = i + 1;
                }
                assert(view_members(m@).skip(n as int).len() == 0);
                None
            },
            _ => None,
        }
    }
}

/// The character for the decimal digit `d`.
pub open spec fn dec_digit(d: int) -> char {
    ((48 + d) as u8) as char
}

/// The character for the hexadecimal digit `d`, lower case.
pub open spec fn hex_digit(d: int) -> char {
    if d < 10 {
        ((48 + d) as u8) as char
    } else {
        ((87 + d) as u8) as char
    }
}

/// The decimal representation of `n >= 0`, without a sign.
pub open spec fn dec_rep(n: int) -> Seq<char>
    decreases n,
{
    if n < 10 {
        seq![dec_digit(n)]
    } else {
        dec_rep(n / 10).push(dec_digit(n % 10))
    }
}

/// The decimal representation of `n`, with a sign when negative.
pub open spec fn int_rep(n: int) -> Seq<char> {
    if n < 0 {
        seq!['-'] + dec_rep(-n)
    } else {
        dec_rep(n)
    }
}

/// Four hexadecimal digits for `n < 0x10000`.
pub open spec fn hex4(n: int) -> Seq<char> {
    seq![
        hex_digit(n / 4096 % 16),
        hex_digit(n / 256 % 16),
        hex_digit(n / 16 % 16),
        hex_digit(n % 16),
    ]
}

/// How one character is written inside a JSON string literal: printable
/// ASCII stands for itself, everything else becomes an escape. Characters
/// beyond the basic plane become a surrogate pair, as JSON asks.
pub open spec fn esc_char(c: char) -> Seq<char> {
    let u = c as int;
    if c == '"' {
        seq!['\\', '"']
    } else if c == '\\' {
        seq!['\\', '\\']
    } else if 0x20 <= u && u < 0x80 {
        seq![c]
    } else if u < 0x10000 {
        seq!['\\', 'u'] + hex4(u)
    } else {
        seq!['\\', 'u'] + hex4(0xd800 + (u - 0x10000) / 0x400) + seq!['\\', 'u'] + hex4(
            0xdc00 + (u - 0x10000) % 0x400,
        )
    }
}

/// The body of a JSON string literal.
pub open spec fn str_body_rep(s: Seq<char>) -> Seq<char>
    decreases s.len(),
{
    if s.len() == 0 {
        Seq::empty()
    } else {
        esc_char(s[0]) + str_body_rep(s.drop_first())
    }
}

/// A JSON string literal, quotes included.
pub open spec fn str_rep(s: Seq<char>) -> Seq<char> {
    seq!['"'] + str_body_rep(s) + seq!['"']
}

/// The text of a JSON document, as `to_text` writes it: no spaces, members
/// and elements in order.
pub open spec fn json_rep(v: JsonV) -> Seq<char>
    decreases v,
{
    match v {
        JsonV::Null => seq!['n', 'u', 'l', 'l'],
        JsonV::Bool(b) => if b {
            seq!['t', 'r', 'u', 'e']
        } else {
            seq!['f', 'a', 'l', 's', 'e']
        },
        JsonV::Int(n) => int_rep(n as int),
        JsonV::Num(t) => t,
        JsonV::Str(s) => str_rep(s),
        JsonV::Arr(a) => seq!['['] + arr_body_rep(a) + seq![']'],
        JsonV::Obj(m) => seq!['{'] + obj_body_rep(m) + seq!['}'],
    }
}

/// The elements of a JSON array, comma-separated.
pub open spec fn arr_body_rep(a: Seq<JsonV>) -> Seq<char>
    decreases a,
{
    if a.len() == 0 {
        Seq::empty()
    } else if a.len() == 1 {
        json_rep(a[0])
    } else {
        json_rep(a[0]) + seq![','] + arr_body_rep(a.drop_first())
    }
}

/// The members of a JSON object, comma-separated.
pub open spec fn obj_body_rep(m: Seq<(Seq<char>, JsonV)>) -> Seq<char>
    decreases m,
{
    if m.len() == 0 {
        Seq::empty()
    } else if m.len() == 1 {
        str_rep(m[0].0) + seq![':'] + json_rep(m[0].1)
    } else {
        str_rep(m[0].0) + seq![':'] + json_rep(m[0].1) + seq![','] + obj_body_rep(m.drop_first())
    }
}

fn dec_digit_ch(d: u64) -> (c: char)
    requires
        d < 10,
    ensures
        c == dec_digit(d as int),
{
    ((48 + d) as u8) as char
}

fn hex_digit_ch(d: u64) -> (c: char)
    requires
        d < 16,
    ensures
        c == hex_digit(d as int),
{
    if d < 10 {
        ((48 + d) as u8) as char
    } else {
        ((87 + d) as u8) as char
    }
}

fn push_dec(out: &mut String, n: u64)
    ensures
        final(out)@ == old(out)@ + dec_rep(n as int),
    decreases n,
{
    if n < 10 {
        push_char(out, dec_digit_ch(n));
        assert(final(out)@ =~= old(out)@ + dec_rep(n as int));
    } else {
        push_dec(out, n / 10);
        push_char(out, dec_digit_ch(n % 10));
        assert(final(out)@ =~= old(out)@ + dec_rep(n as int));
    }
}

fn push_int(out: &mut String, n: i64)
    ensures
        final(out)@ == old(out)@ + int_rep(n as int),
{
    if n < 0 {
        push_char(out, '-');
        let m: u64 = ((-(n as i128)) as u64);
        assert(m as int == -(n as int));
        push_dec(out, m);
        assert(final(out)@ =~= old(out)@ + int_rep(n as int));
    } else {
        push_dec(out, n as u64);
    }
}

fn push_hex4(out: &mut String, n: u64)
    requires
        n < 0x10000,
    ensures
        final(out)@ == old(out)@ + hex4(n as int),
{
    push_char(out, hex_digit_ch(n / 4096 % 16));
    push_char(out, hex_digit_ch(n / 256 % 16));
    push_char(out, hex_digit_ch(n / 16 % 16));
    push_char(out, hex_digit_ch(n % 16));
    assert(final(out)@ =~= old(out)@ + hex4(n as int));
}

fn push_esc_char(out: &mut String, c: char)
    ensures
        final(out)@ == old(out)@ + esc_char(c),
{
    let u = c as u32;
    if c == '"' {
        push_char(out, '\\');
        push_char(out, '"');
        assert(final(out)@ =~= old(out)@ + esc_char(c));
    } else if c == '\\' {
        push_char(out, '\\');
        push_char(out, '\\');
        assert(final(out)@ =~= old(out)@ + esc_char(c));
    } else if 0x20 <= u && u < 0x80 {
        push_char(out, c);
        assert(final(out)@ =~= old(out)@ + esc_char(c));
    } else if u < 0x10000 {
        push_char(out, '\\');
        push_char(out, 'u');
        push_hex4(out, u as u64);
        assert(final(out)@ =~= old(out)@ + esc_char(c));
    } else {
        let rest = u - 0x10000;
        push_char(out, '\\');
        push_char(out, 'u');
        push_hex4(out, (0xd800 + rest / 0x400) as u64);
        push_char(out, '\\');
        push_char(out, 'u');
        push_hex4(out, (0xdc00 + rest % 0x400) as u64);
        assert(final(out)@ =~= old(out)@ + esc_char(c));
    }
}

fn push_str_rep(out: &mut String, s: &String)
    ensures
        final(out)@ == old(out)@ + str_rep(s@),
{
    push_char(out, '"');
    let cs = crate::text::str_chars_vec(s.as_str());
    let n = cs.len();
    let mut i: usize = 0;
    proof {
        assert(s@.skip(0) =~= s@);
    }
    while i < n
        invariant
            n == cs@.len(),
            cs@ == s@,
            0 <= i <= n,
            out@ + str_body_rep(s@.skip(i as int)) == old(out)@ + seq!['"'] + str_body_rep(s@),
        decreases n - i,
    {
        proof {
            assert(s@.skip(i as int)[0] == s@[i as int]);
            assert(s@.skip(i as int).drop_first() =~= s@.skip(i as int + 1));
        }
        let ghost prev = out@;
        push_esc_char(out, cs[i]);
        proof {
            assert(out@ + str_body_rep(s@.skip(i as int + 1)) =~= prev + str_body_rep(
                s@.skip(i as int),
            ));
        }
        i = i + 1;
    }
    proof {
        assert(str_body_rep(s@.skip(n as int)).len() == 0);
        assert(out@ =~= old(out)@ + seq!['"'] + str_body_rep(s@));
    }
    push_char(out, '"');
    assert(final(out)@ =~= old(out)@ + str_rep(s@));
}

fn push_json(out: &mut String, v: &JsonValue)
    ensures
        final(out)@ == old(out)@ + json_rep(v@),
    decreases v,
{
    match v {
        JsonValue::Null => {
            push_char(out, 'n');
            push_char(out, 'u');
            push_char(out, 'l');
            push_char(out, 'l');
            assert(final(out)@ =~= old(out)@ + json_rep(v@));
        },
        JsonValue::Bool(b) => {
            if *b {
                push_char(out, 't');
                push_char(out, 'r');
                push_char(out, 'u');
                push_char(out, 'e');
            } else {
                push_char(out, 'f');
                push_char(out, 'a');
                push_char(out, 'l');
                push_char(out, 's');
                push_char(out, 'e');
            }
            assert(final(out)@ =~= old(out)@ + json_rep(v@));
        },
        JsonValue::Int(n) => {
            push_int(out, *n);
        },
        JsonValue::Num(t) => {
            out.append(t.as_str());
        },
        JsonValue::Str(s) => {
            push_str_rep(out, s);
        },
        JsonValue::Arr(a) => {
            push_char(out, '[');
            let n = a.len();
            let mut i: usize = 0;
            proof {
                assert(view_elems(a@).skip(0) =~= view_elems(a@));
            }
            while i < n
                invariant
                    n == a@.len(),
                    0 <= i <= n,
                    *v == JsonValue::Arr(*a),
                    v@ == JsonV::Arr(view_elems(a@)),
                    out@ + arr_sep_rep(view_elems(a@), i as int) == old(out)@ + seq!['[']
                        + arr_body_rep(view_elems(a@)),
                decreases n - i,
            {
                proof {
                    lemma_arr_body_step(view_elems(a@), i as int);
                    assert(decreases_to!(*v => v->Arr_0));
                    assert(decreases_to!(v->Arr_0 => v->Arr_0@));
                    assert(decreases_to!(v->Arr_0@ => v->Arr_0@[i as int]));
                }
                let ghost prev = out@;
                if i > 0 {
                    push_char(out, ',');
                }
                push_json(out, &a[i]);
                proof {
                    assert(out@ + arr_sep_rep(view_elems(a@), i as int + 1) =~= prev + arr_sep_rep(
                        view_elems(a@),
                        i as int,
                    ));
                }
                i = i + 1;
            }
            push_char(out, ']');
            assert(final(out)@ =~= old(out)@ + json_rep(v@));
        },
        JsonValue::Obj(m) => {
            push_char(out, '{');
            let n = m.len();
            let mut i: usize = 0;
            proof {
                assert(view_members(m@).skip(0) =~= view_members(m@));
            }
            while i < n
                invariant
                    n == m@.len(),
                    0 <= i <= n,
                    *v == JsonValue::Obj(*m),
                    v@ == JsonV::Obj(view_members(m@)),
                    out@ + obj_sep_rep(view_members(m@), i as int) == old(out)@ + seq!['{']
                        + obj_body_rep(view_members(m@)),
                decreases n - i,
            {
                proof {
                    lemma_obj_body_step(view_members(m@), i as int);
                    assert(decreases_to!(*v => v->Obj_0));
                    assert(decreases_to!(v->Obj_0 => v->Obj_0@));
                    assert(decreases_to!(v->Obj_0@ => v->Obj_0@[i as int]));
                    assert(decreases_to!(v->Obj_0@[i as int] => v->Obj_0@[i as int].1));
                }
                let ghost prev = out@;
                if i > 0 {
                    push_char(out, ',');
                }
                push_str_rep(out, &m[i].0);
                push_char(out, ':');
                push_json(out, &m[i].1);
                proof {
                    assert(out@ + obj_sep_rep(view_members(m@), i as int + 1) =~= prev
                        + obj_sep_rep(view_members(m@), i as int));
                }
                i = i + 1;
            }
            push_char(out, '}');
            assert(final(out)@ =~= old(out)@ + json_rep(v@));
        },
    }
}

/// What is still to be written once the first `i` elements of `a` stand in
/// the output: a leading comma separates them from what follows.
pub open spec fn arr_sep_rep(a: Seq<JsonV>, i: int) -> Seq<char> {
    if i == 0 {
        arr_body_rep(a)
    } else if i < a.len() {
        seq![','] + arr_body_rep(a.skip(i))
    } else {
        Seq::empty()
    }
}

/// As `arr_sep_rep`, for the members of an object.
pub open spec fn obj_sep_rep(m: Seq<(Seq<char>, JsonV)>, i: int) -> Seq<char> {
    if i == 0 {
        obj_body_rep(m)
    } else if i < m.len() {
        seq![','] + obj_body_rep(m.skip(i))
    } else {
        Seq::empty()
    }
}

proof fn lemma_arr_body_step(a: Seq<JsonV>, i: int)
    requires
        0 <= i < a.len(),
    ensures
        arr_sep_rep(a, i) == (if i == 0 {
            Seq::<char>::empty()
        } else {
            seq![',']
        }) + json_rep(a[i]) + arr_sep_rep(a, i + 1),
{
    assert(a.skip(i)[0] == a[i]);
    assert(a.skip(i).drop_first() =~= a.skip(i + 1));
    if i == 0 {
        assert(a.skip(0) =~= a);
        if a.len() == 1 {
            assert(arr_sep_rep(a, 0) =~= Seq::<char>::empty() + json_rep(a[0]) + arr_sep_rep(
                a,
                1,
            ));
        } else {
            assert(arr_body_rep(a) == json_rep(a[0]) + seq![','] + arr_body_rep(a.drop_first()));
            assert(a.drop_first() =~= a.skip(1));
            assert(arr_sep_rep(a, 0) =~= Seq::<char>::empty() + json_rep(a[0]) + arr_sep_rep(
                a,
                1,
            ));
        }
    } else {
        if a.skip(i).len() == 1 {
            assert(arr_sep_rep(a, i) =~= seq![','] + json_rep(a[i]) + arr_sep_rep(a, i + 1));
        } else {
            assert(arr_body_rep(a.skip(i)) == json_rep(a[i]) + seq![','] + arr_body_rep(
                a.skip(i + 1),
            ));
            assert(arr_sep_rep(a, i) =~= seq![','] + json_rep(a[i]) + arr_sep_rep(a, i + 1));
        }
    }
}

proof fn lemma_obj_body_step(m: Seq<(Seq<char>, JsonV)>, i: int)
    requires
        0 <= i < m.len(),
    ensures
        obj_sep_rep(m, i) == (if i == 0 {
            Seq::<char>::empty()
        } else {
            seq![',']
        }) + str_rep(m[i].0) + seq![':'] + json_rep(m[i].1) + obj_sep_rep(m, i + 1),
{
    assert(m.skip(i)[0] == m[i]);
    assert(m.skip(i).drop_first() =~= m.skip(i + 1));
    if i == 0 {
        assert(m.skip(0) =~= m);
        if m.len() == 1 {
            assert(obj_sep_rep(m, 0) =~= Seq::<char>::empty() + str_rep(m[0].0) + seq![':']
                + json_rep(m[0].1) + obj_sep_rep(m, 1));
        } else {
            assert(m.drop_first() =~= m.skip(1));
            assert(obj_sep_rep(m, 0) =~= Seq::<char>::empty() + str_rep(m[0].0) + seq![':']
                + json_rep(m[0].1) + obj_sep_rep(m, 1));
        }
    } else {
        if m.skip(i).len() == 1 {
            assert(obj_sep_rep(m, i) =~= seq![','] + str_rep(m[i].0) + seq![':'] + json_rep(
                m[i].1,
            ) + obj_sep_rep(m, i + 1));
        } else {
            assert(obj_sep_rep(m, i) =~= seq![','] + str_rep(m[i].0) + seq![':'] + json_rep(
                m[i].1,
            ) + obj_sep_rep(m, i + 1));
        }
    }
}

impl JsonValue {
    /// Writes the document as JSON text: no spaces, members and elements
    /// in the order they are held.
    pub fn to_text(&self) -> (r: String)
        ensures
            r@ == json_rep(self@),
    {
        let mut out = String::new();
        push_json(&mut out, self);
        proof {
            assert(out@ =~= json_rep(self@));
        }
        out
    }
}

} // verus!
