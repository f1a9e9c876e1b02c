//! A JSON document model with a verified writer and parser.
//!
//! The protocol payloads are JSON texts.  The library models a document
//! as [`JsonValue`]: strings are raw UTF-8 bytes, numbers are 64-bit
//! integers (the only numbers the protocol carries).  [`write_json`]
//! emits the compact form of a document and [`parse_json`] reads one
//! back; parsing the output of the writer gives back the original
//! document (see [`lemma_json_round_trip`]).
//!
//! The parser accepts compact JSON with optional whitespace between
//! tokens.  String escapes `\" \\ \/ \b \f \n \r \t` are understood, and
//! `\uXXXX` for codes up to `0x7F`; other characters arrive as raw UTF-8
//! bytes, which is how the peer's compact writer sends them.

use vstd::prelude::*;
use crate::framing::{
    all_digits, is_digit, lemma_dec_digits_all_digits, lemma_digits_value_of_dec_digits,
    spec_dec_digits, spec_digits_value, u64_to_dec,
};

verus! {

/// A JSON document: the executable form.
pub enum JsonValue {
    Null,
    Bool(bool),
    Int(i64),
    Str(Vec<u8>),
    Arr(Vec<JsonValue>),
    Obj(Vec<(Vec<u8>, JsonValue)>),
}

/// A JSON document: the mathematical form.
pub enum JsonVal {
    Null,
    Bool(bool),
    Int(int),
    Str(Seq<u8>),
    Arr(Seq<JsonVal>),
    Obj(Seq<(Seq<u8>, JsonVal)>),
}

pub open spec fn json_view(j: JsonValue) -> JsonVal
    decreases j,
{
    match j {
        JsonValue::Null => JsonVal::Null,
        JsonValue::Bool(b) => JsonVal::Bool(b),
        JsonValue::Int(i) => JsonVal::Int(i as int),
        JsonValue::Str(s) => JsonVal::Str(s@),
        JsonValue::Arr(elems) => JsonVal::Arr(json_view_list(elems, 0)),
        JsonValue::Obj(fields) => JsonVal::Obj(json_view_fields(fields, 0)),
    }
}

pub open spec fn json_view_list(elems: Vec<JsonValue>, i: int) -> Seq<JsonVal>
    decreases elems, elems.len() - i,
{
    if i < 0 || i >= elems.len() {
        Seq::empty()
    } else {
        seq![json_view(elems[i])] + json_view_list(elems, i + 1)
    }
}

pub open spec fn json_view_fields(fields: Vec<(Vec<u8>, JsonValue)>, i: int) -> Seq<
    (Seq<u8>, JsonVal),
>
    decreases fields, fields.len() - i,
{
    if i < 0 || i >= fields.len() {
        Seq::empty()
    } else {
        seq![(fields[i].0@, json_view(fields[i].1))] + json_view_fields(fields, i + 1)
    }
}

impl View for JsonValue {
    type V = JsonVal;

    open spec fn view(&self) -> JsonVal {
        json_view(*self)
    }
}

pub proof fn lemma_view_list_len(elems: Vec<JsonValue>, i: int)
    requires
        0 <= i <= elems.len(),
    ensures
        json_view_list(elems, i).len() == elems.len() - i,
        forall|d: int|
            0 <= d < elems.len() - i ==> #[trigger] json_view_list(elems, i)[d] == json_view(
                elems[d + i],
            ),
    decreases elems.len() - i,
{
    if i < elems.len() {
        lemma_view_list_len(elems, i + 1);
        assert forall|d: int|
            0 <= d < elems.len() - i implies #[trigger] json_view_list(elems, i)[d] == json_view(
            elems[d + i],
        ) by {
            if d > 0 {
                assert(json_view_list(elems, i)[d] == json_view_list(elems, i + 1)[d - 1]);
            }
        }
    }
}

pub proof fn lemma_view_fields_len(fields: Vec<(Vec<u8>, JsonValue)>, i: int)
    requires
        0 <= i <= fields.len(),
    ensures
        json_view_fields(fields, i).len() == fields.len() - i,
        forall|d: int|
            0 <= d < fields.len() - i ==> #[trigger] json_view_fields(fields, i)[d] == (
            fields[d + i].0@,
            json_view(fields[d + i].1),
            ),
    decreases fields.len() - i,
{
    if i < fields.len() {
        lemma_view_fields_len(fields, i + 1);
        assert forall|d: int|
            0 <= d < fields.len() - i implies #[trigger] json_view_fields(fields, i)[d] == (
            fields[d + i].0@,
            json_view(fields[d + i].1),
        ) by {
            if d > 0 {
                assert(json_view_fields(fields, i)[d] == json_view_fields(fields, i + 1)[d - 1]);
            }
        }
    }
}

// ---------------------------------------------------------------------
// Writing
// ---------------------------------------------------------------------

/// The hexadecimal digit for `n`, lower case.
pub open spec fn spec_hex_digit(n: nat) -> u8
    recommends
        n < 16,
{
    if n < 10 {
        (48 + n) as u8
    } else {
        (87 + n) as u8
    }
}

/// How one string byte appears inside a JSON string literal.
pub open spec fn spec_escape_byte(b: u8) -> Seq<u8> {
    if b == 34 {
        seq![92u8, 34]
    } else if b == 92 {
        seq![92u8, 92]
    } else if b < 32 {
        seq![92u8, 117, 48, 48, spec_hex_digit((b / 16) as nat), spec_hex_digit((b % 16) as nat)]
    } else {
        seq![b]
    }
}

/// The escaped form of a whole string.
pub open spec fn spec_escape(s: Seq<u8>) -> Seq<u8>
    decreases s.len(),
{
    if s.len() == 0 {
        Seq::empty()
    } else {
        spec_escape_byte(s[0]) + spec_escape(s.drop_first())
    }
}

/// The compact decimal form of an integer.
pub open spec fn spec_write_int(i: int) -> Seq<u8> {
    if i < 0 {
        seq![45u8] + spec_dec_digits((-i) as nat)
    } else {
        spec_dec_digits(i as nat)
    }
}

/// The compact text of a document.
pub open spec fn spec_write(v: JsonVal) -> Seq<u8>
    decreases v,
{
    match v {
        JsonVal::Null => seq![110u8, 117, 108, 108],
        JsonVal::Bool(b) => {
            if b {
                seq![116u8, 114, 117, 101]
            } else {
                seq![102u8, 97, 108, 115, 101]
            }
        },
        JsonVal::Int(i) => spec_write_int(i),
        JsonVal::Str(s) => seq![34u8] + spec_escape(s) + seq![34u8],
        JsonVal::Arr(elems) => seq![91u8] + spec_write_items(elems, 0) + seq![93u8],
        JsonVal::Obj(fields) => seq![123u8] + spec_write_fields(fields, 0) + seq![125u8],
    }
}

/// The text of the elements from index `i` on, comma separated.
pub open spec fn spec_write_items(elems: Seq<JsonVal>, i: int) -> Seq<u8>
    decreases elems, elems.len() - i,
{
    if i < 0 || i >= elems.len() {
        Seq::empty()
    } else if i == elems.len() - 1 {
        spec_write(elems[i])
    } else {
        spec_write(elems[i]) + seq![44u8] + spec_write_items(elems, i + 1)
    }
}

/// The text of the fields from index `i` on, comma separated.
pub open spec fn spec_write_fields(fields: Seq<(Seq<u8>, JsonVal)>, i: int) -> Seq<u8>
    decreases fields, fields.len() - i,
{
    if i < 0 || i >= fields.len() {
        Seq::empty()
    } else if i == fields.len() - 1 {
        spec_write_one_field(fields[i])
    } else {
        spec_write_one_field(fields[i]) + seq![44u8] + spec_write_fields(fields, i + 1)
    }
}

pub open spec fn spec_write_one_field(field: (Seq<u8>, JsonVal)) -> Seq<u8>
    decreases field,
{
    seq![34u8] + spec_escape(field.0) + seq![34u8, 58] + spec_write(field.1)
}

/// Escaping distributes over concatenation.
proof fn lemma_escape_append(a: Seq<u8>, b: Seq<u8>)
    ensures
        spec_escape(a + b) == spec_escape(a) + spec_escape(b),
    decreases a.len(),
{
    if a.len() == 0 {
        assert(a + b =~= b);
        assert(spec_escape(a) + spec_escape(b) =~= spec_escape(b));
    } else {
        lemma_escape_append(a.drop_first(), b);
        assert((a + b).drop_first() =~= a.drop_first() + b);
        assert((a + b)[0] == a[0]);
        assert(spec_escape(a + b) == spec_escape_byte(a[0]) + (spec_escape(a.drop_first())
            + spec_escape(b)));
        assert(spec_escape_byte(a[0]) + (spec_escape(a.drop_first()) + spec_escape(b)) =~= (
        spec_escape_byte(a[0]) + spec_escape(a.drop_first())) + spec_escape(b));
    }
}

/// Append the escaped form of `s` to `out`.
fn escape_into(s: &Vec<u8>, out: &mut Vec<u8>)
    ensures
        final(out)@ == old(out)@ + spec_escape(s@),
{
    let ghost base = old(out)@;
    let mut i: usize = 0;
    while i < s.len()
        invariant
            0 <= i <= s.len(),
            out@ == base + spec_escape(s@.subrange(0, i as int)),
        decreases s.len() - i,
    {
        let b = s[i];
        if b == 34 {
            out.push(92);
            out.push(34);
        } else if b == 92 {
            out.push(92);
            out.push(92);
        } else if b < 32 {
            out.push(92);
            out.push(117);
            out.push(48);
            out.push(48);
            let hi = b / 16;
            let lo = b % 16;
            if hi < 10 {
                out.push(48 + hi);
            } else {
                out.push(87 + hi);
            }
            if lo < 10 {
                out.push(48 + lo);
            } else {
                out.push(87 + lo);
            }
        } else {
            out.push(b);
        }
        proof {
            let pre = s@.subrange(0, i as int);
            let cur = s@.subrange(0, i + 1);
            assert(cur =~= pre + seq![b]);
            lemma_escape_append(pre, seq![b]);
            assert(seq![b].drop_first() =~= Seq::<u8>::empty());
            assert(seq![b][0] == b);
            assert(spec_escape(seq![b]) == spec_escape_byte(b) + spec_escape(Seq::<u8>::empty()));
            assert(spec_escape_byte(b) + spec_escape(Seq::<u8>::empty()) =~= spec_escape_byte(b));
            assert(out@ =~= base + spec_escape(cur));
        }
        i = i + 1;
    }
    proof {
        assert(s@.subrange(0, s@.len() as int) =~= s@);
    }
}

/// Append the compact decimal form of `i` to `out`.
fn write_int_into(i: i64, out: &mut Vec<u8>)
    ensures
        final(out)@ == old(out)@ + spec_write_int(i as int),
{
    if i < 0 {
        out.push(45);
        let mag: u64 = ((-(i + 1)) as u64) + 1;
        assert(mag as nat == (-(i as int)) as nat);
        let mut digits = u64_to_dec(mag);
        out.append(&mut digits);
        assert(out@ =~= old(out)@ + (seq![45u8] + spec_dec_digits((-(i as int)) as nat)));
    } else {
        let mut digits = u64_to_dec(i as u64);
        out.append(&mut digits);
    }
}

/// Append the compact text of `v` to `out`.
fn write_into(v: &JsonValue, out: &mut Vec<u8>)
    ensures
        final(out)@ == old(out)@ + spec_write(v@),
    decreases *v,
{
    match v {
        JsonValue::Null => {
            out.push(110);
            out.push(117);
            out.push(108);
            out.push(108);
            assert(out@ =~= old(out)@ + spec_write(v@));
        },
        JsonValue::Bool(b) => {
            if *b {
                out.push(116);
                out.push(114);
                out.push(117);
                out.push(101);
            } else {
                out.push(102);
                out.push(97);
                out.push(108);
                out.push(115);
                out.push(101);
            }
            assert(out@ =~= old(out)@ + spec_write(v@));
        },
        JsonValue::Int(i) => {
            write_int_into(*i, out);
        },
        JsonValue::Str(s) => {
            out.push(34);
            escape_into(s, out);
            out.push(34);
            assert(out@ =~= old(out)@ + spec_write(v@));
        },
        JsonValue::Arr(elems) => {
            out.push(91);
            let ghost base = out@;
            let n = elems.len();
            proof {
                lemma_view_list_len(*elems, 0);
            }
            let mut i: usize = 0;
            while i < n
                invariant
                    0 <= i <= n,
                    n == elems.len(),
                    json_view_list(*elems, 0).len() == n,
                    forall|k: int|
                        0 <= k < n ==> json_view_list(*elems, 0)[k] == json_view(elems@[k]),
                    out@ == base + spec_write_items_prefix(json_view_list(*elems, 0), 0, i as int),
                    decreases_to!(*v => *elems),
                decreases n - i,
            {
                proof {
                    assert(decreases_to!(*elems => elems@[i as int]));
                }
                write_into(&elems[i], out);
                if i + 1 < n {
                    out.push(44);
                }
                proof {
                    let vs = json_view_list(*elems, 0);
                    if i + 1 < n {
                        assert(out@ =~= base + (spec_write_items_prefix(vs, 0, i as int)
                            + spec_write(vs[i as int]) + seq![44u8]));
                        lemma_write_items_prefix_step(vs, i as int);
                    } else {
                        assert(out@ =~= base + (spec_write_items_prefix(vs, 0, i as int)
                            + spec_write(vs[i as int])));
                        lemma_write_items_prefix_last(vs, i as int);
                    }
                }
                i = i + 1;
            }
            out.push(93);
            proof {
                let vs = json_view_list(*elems, 0);
                lemma_write_items_prefix_full(vs);
                assert(out@ =~= old(out)@ + (seq![91u8] + spec_write_items(vs, 0) + seq![93u8]));
            }
        },
        JsonValue::Obj(fields) => {
            out.push(123);
            let ghost base = out@;
            let n = fields.len();
            proof {
                lemma_view_fields_len(*fields, 0);
            }
            let mut i: usize = 0;
            while i < n
                invariant
                    0 <= i <= n,
                    n == fields.len(),
                    json_view_fields(*fields, 0).len() == n,
                    forall|k: int|
                        0 <= k < n ==> json_view_fields(*fields, 0)[k] == (
                        fields@[k].0@,
                        json_view(fields@[k].1),
                        ),
                    out@ == base + spec_write_fields_prefix(
                        json_view_fields(*fields, 0),
                        0,
                        i as int,
                    ),
                    decreases_to!(*v => *fields),
                decreases n - i,
            {
                out.push(34);
                escape_into(&fields[i].0, out);
                out.push(34);
                out.push(58);
                proof {
                    assert(decreases_to!(*fields => fields@[i as int]));
                }
                write_into(&fields[i].1, out);
                if i + 1 < n {
                    out.push(44);
                }
                proof {
                    let fs = json_view_fields(*fields, 0);
                    if i + 1 < n {
                        assert(out@ =~= base + (spec_write_fields_prefix(fs, 0, i as int)
                            + spec_write_one_field(fs[i as int]) + seq![44u8]));
                        lemma_write_fields_prefix_step(fs, i as int);
                    } else {
                        assert(out@ =~= base + (spec_write_fields_prefix(fs, 0, i as int)
                            + spec_write_one_field(fs[i as int])));
                        lemma_write_fields_prefix_last(fs, i as int);
                    }
                }
                i = i + 1;
            }
            out.push(125);
            proof {
                let fs = json_view_fields(*fields, 0);
                lemma_write_fields_prefix_full(fs);
                assert(out@ =~= old(out)@ + (seq![123u8] + spec_write_fields(fs, 0) + seq![125u8]));
            }
        },
    }
}

/// The text of elements `[0, k)`, with a trailing comma unless `k` covers
/// the whole list.  Helper for the writer's loop.
pub open spec fn spec_write_items_prefix(elems: Seq<JsonVal>, i: int, k: int) -> Seq<u8>
    decreases k - i,
{
    if i < 0 || i >= k || k > elems.len() {
        Seq::empty()
    } else {
        let sep: Seq<u8> = if i == elems.len() - 1 {
            Seq::empty()
        } else {
            seq![44u8]
        };
        spec_write(elems[i]) + sep + spec_write_items_prefix(elems, i + 1, k)
    }
}

proof fn lemma_write_items_prefix_step(elems: Seq<JsonVal>, k: int)
    requires
        0 <= k < elems.len() - 1,
    ensures
        spec_write_items_prefix(elems, 0, k + 1) == spec_write_items_prefix(elems, 0, k)
            + spec_write(elems[k]) + seq![44u8],
{
    lemma_write_items_prefix_step_from(elems, 0, k);
}

proof fn lemma_write_items_prefix_step_from(elems: Seq<JsonVal>, i: int, k: int)
    requires
        0 <= i <= k < elems.len() - 1,
    ensures
        spec_write_items_prefix(elems, i, k + 1) == spec_write_items_prefix(elems, i, k)
            + spec_write(elems[k]) + seq![44u8],
    decreases k - i,
{
    if i == k {
        assert(spec_write_items_prefix(elems, k + 1, k + 1) =~= Seq::<u8>::empty());
        assert(spec_write_items_prefix(elems, i, k) =~= Seq::<u8>::empty());
        assert(spec_write_items_prefix(elems, i, k + 1) =~= spec_write(elems[k]) + seq![44u8]);
        assert(spec_write_items_prefix(elems, i, k) + spec_write(elems[k]) + seq![44u8] =~= spec_write(
            elems[k],
        ) + seq![44u8]);
    } else {
        lemma_write_items_prefix_step_from(elems, i + 1, k);
        let sep: Seq<u8> = if i == elems.len() - 1 {
            Seq::empty()
        } else {
            seq![44u8]
        };
        assert(spec_write_items_prefix(elems, i, k + 1) == spec_write(elems[i]) + sep + (
        spec_write_items_prefix(elems, i + 1, k) + spec_write(elems[k]) + seq![44u8]));
        assert(spec_write(elems[i]) + sep + (spec_write_items_prefix(elems, i + 1, k) + spec_write(
            elems[k],
        ) + seq![44u8]) =~= (spec_write(elems[i]) + sep + spec_write_items_prefix(elems, i + 1, k))
            + spec_write(elems[k]) + seq![44u8]);
    }
}

proof fn lemma_write_items_prefix_last(elems: Seq<JsonVal>, k: int)
    requires
        0 <= k,
        k == elems.len() - 1,
    ensures
        spec_write_items_prefix(elems, 0, k + 1) == spec_write_items_prefix(elems, 0, k)
            + spec_write(elems[k]),
{
    lemma_write_items_prefix_last_from(elems, 0, k);
}

proof fn lemma_write_items_prefix_last_from(elems: Seq<JsonVal>, i: int, k: int)
    requires
        0 <= i <= k,
        k == elems.len() - 1,
    ensures
        spec_write_items_prefix(elems, i, k + 1) == spec_write_items_prefix(elems, i, k)
            + spec_write(elems[k]),
    decreases k - i,
{
    if i == k {
        assert(spec_write_items_prefix(elems, k + 1, k + 1) =~= Seq::<u8>::empty());
        assert(spec_write_items_prefix(elems, i, k) =~= Seq::<u8>::empty());
        assert(spec_write_items_prefix(elems, i, k + 1) =~= spec_write(elems[k]));
        assert(spec_write_items_prefix(elems, i, k) + spec_write(elems[k]) =~= spec_write(
            elems[k],
        ));
    } else {
        lemma_write_items_prefix_last_from(elems, i + 1, k);
        let sep: Seq<u8> = if i == elems.len() - 1 {
            Seq::empty()
        } else {
            seq![44u8]
        };
        assert(spec_write_items_prefix(elems, i, k + 1) == spec_write(elems[i]) + sep + (
        spec_write_items_prefix(elems, i + 1, k) + spec_write(elems[k])));
        assert(spec_write(elems[i]) + sep + (spec_write_items_prefix(elems, i + 1, k) + spec_write(
            elems[k],
        )) =~= (spec_write(elems[i]) + sep + spec_write_items_prefix(elems, i + 1, k)) + spec_write(
            elems[k],
        ));
    }
}

proof fn lemma_write_items_prefix_full(elems: Seq<JsonVal>)
    ensures
        spec_write_items_prefix(elems, 0, elems.len() as int) == spec_write_items(elems, 0),
{
    lemma_write_items_prefix_full_from(elems, 0);
}

proof fn lemma_write_items_prefix_full_from(elems: Seq<JsonVal>, i: int)
    requires
        0 <= i,
    ensures
        spec_write_items_prefix(elems, i, elems.len() as int) == spec_write_items(elems, i),
    decreases elems.len() - i,
{
    if i >= elems.len() {
        assert(spec_write_items_prefix(elems, i, elems.len() as int) =~= spec_write_items(
            elems,
            i,
        ));
    } else if i == elems.len() - 1 {
        assert(spec_write_items_prefix(elems, i + 1, elems.len() as int) =~= Seq::<u8>::empty());
        assert(spec_write_items_prefix(elems, i, elems.len() as int) =~= spec_write(elems[i]));
    } else {
        lemma_write_items_prefix_full_from(elems, i + 1);
        assert(spec_write(elems[i]) + seq![44u8] + spec_write_items(elems, i + 1)
            =~= spec_write_items(elems, i));
        assert(spec_write_items_prefix(elems, i, elems.len() as int) =~= spec_write(elems[i])
            + seq![44u8] + spec_write_items_prefix(elems, i + 1, elems.len() as int));
    }
}

/// As [`spec_write_items_prefix`], for object fields.
pub open spec fn spec_write_fields_prefix(fields: Seq<(Seq<u8>, JsonVal)>, i: int, k: int) -> Seq<
    u8,
>
    decreases k - i,
{
    if i < 0 || i >= k || k > fields.len() {
        Seq::empty()
    } else {
        let sep: Seq<u8> = if i == fields.len() - 1 {
            Seq::empty()
        } else {
            seq![44u8]
        };
        spec_write_one_field(fields[i]) + sep + spec_write_fields_prefix(fields, i + 1, k)
    }
}

proof fn lemma_write_fields_prefix_step(fields: Seq<(Seq<u8>, JsonVal)>, k: int)
    requires
        0 <= k < fields.len() - 1,
    ensures
        spec_write_fields_prefix(fields, 0, k + 1) == spec_write_fields_prefix(fields, 0, k)
            + spec_write_one_field(fields[k]) + seq![44u8],
{
    lemma_write_fields_prefix_step_from(fields, 0, k);
}

proof fn lemma_write_fields_prefix_step_from(fields: Seq<(Seq<u8>, JsonVal)>, i: int, k: int)
    requires
        0 <= i <= k < fields.len() - 1,
    ensures
        spec_write_fields_prefix(fields, i, k + 1) == spec_write_fields_prefix(fields, i, k)
            + spec_write_one_field(fields[k]) + seq![44u8],
    decreases k - i,
{
    if i == k {
        assert(spec_write_fields_prefix(fields, k + 1, k + 1) =~= Seq::<u8>::empty());
        assert(spec_write_fields_prefix(fields, i, k) =~= Seq::<u8>::empty());
        assert(spec_write_fields_prefix(fields, i, k + 1) =~= spec_write_one_field(fields[k])
            + seq![44u8]);
        assert(spec_write_fields_prefix(fields, i, k) + spec_write_one_field(fields[k])
            + seq![44u8] =~= spec_write_one_field(fields[k]) + seq![44u8]);
    } else {
        lemma_write_fields_prefix_step_from(fields, i + 1, k);
        let sep: Seq<u8> = if i == fields.len() - 1 {
            Seq::empty()
        } else {
            seq![44u8]
        };
        assert(spec_write_fields_prefix(fields, i, k + 1) == spec_write_one_field(fields[i]) + sep
            + (spec_write_fields_prefix(fields, i + 1, k) + spec_write_one_field(fields[k])
            + seq![44u8]));
        assert(spec_write_one_field(fields[i]) + sep + (spec_write_fields_prefix(fields, i + 1, k)
            + spec_write_one_field(fields[k]) + seq![44u8]) =~= (spec_write_one_field(fields[i])
            + sep + spec_write_fields_prefix(fields, i + 1, k)) + spec_write_one_field(fields[k])
            + seq![44u8]);
    }
}

proof fn lemma_write_fields_prefix_last(fields: Seq<(Seq<u8>, JsonVal)>, k: int)
    requires
        0 <= k,
        k == fields.len() - 1,
    ensures
        spec_write_fields_prefix(fields, 0, k + 1) == spec_write_fields_prefix(fields, 0, k)
            + spec_write_one_field(fields[k]),
{
    lemma_write_fields_prefix_last_from(fields, 0, k);
}

proof fn lemma_write_fields_prefix_last_from(fields: Seq<(Seq<u8>, JsonVal)>, i: int, k: int)
    requires
        0 <= i <= k,
        k == fields.len() - 1,
    ensures
        spec_write_fields_prefix(fields, i, k + 1) == spec_write_fields_prefix(fields, i, k)
            + spec_write_one_field(fields[k]),
    decreases k - i,
{
    if i == k {
        assert(spec_write_fields_prefix(fields, k + 1, k + 1) =~= Seq::<u8>::empty());
        assert(spec_write_fields_prefix(fields, i, k) =~= Seq::<u8>::empty());
        assert(spec_write_fields_prefix(fields, i, k + 1) =~= spec_write_one_field(fields[k]));
        assert(spec_write_fields_prefix(fields, i, k) + spec_write_one_field(fields[k])
            =~= spec_write_one_field(fields[k]));
    } else {
        lemma_write_fields_prefix_last_from(fields, i + 1, k);
        let sep: Seq<u8> = if i == fields.len() - 1 {
            Seq::empty()
        } else {
            seq![44u8]
        };
        assert(spec_write_fields_prefix(fields, i, k + 1) == spec_write_one_field(fields[i]) + sep
            + (spec_write_fields_prefix(fields, i + 1, k) + spec_write_one_field(fields[k])));
        assert(spec_write_one_field(fields[i]) + sep + (spec_write_fields_prefix(fields, i + 1, k)
            + spec_write_one_field(fields[k])) =~= (spec_write_one_field(fields[i]) + sep
            + spec_write_fields_prefix(fields, i + 1, k)) + spec_write_one_field(fields[k]));
    }
}

proof fn lemma_write_fields_prefix_full(fields: Seq<(Seq<u8>, JsonVal)>)
    ensures
        spec_write_fields_prefix(fields, 0, fields.len() as int) == spec_write_fields(fields, 0),
{
    lemma_write_fields_prefix_full_from(fields, 0);
}

proof fn lemma_write_fields_prefix_full_from(fields: Seq<(Seq<u8>, JsonVal)>, i: int)
    requires
        0 <= i,
    ensures
        spec_write_fields_prefix(fields, i, fields.len() as int) == spec_write_fields(fields, i),
    decreases fields.len() - i,
{
    if i >= fields.len() {
        assert(spec_write_fields_prefix(fields, i, fields.len() as int) =~= spec_write_fields(
            fields,
            i,
        ));
    } else if i == fields.len() - 1 {
        assert(spec_write_fields_prefix(fields, i + 1, fields.len() as int) =~= Seq::<
            u8,
        >::empty());
        assert(spec_write_fields_prefix(fields, i, fields.len() as int) =~= spec_write_one_field(
            fields[i],
        ));
    } else {
        lemma_write_fields_prefix_full_from(fields, i + 1);
        assert(spec_write_one_field(fields[i]) + seq![44u8] + spec_write_fields(fields, i + 1)
            =~= spec_write_fields(fields, i));
        assert(spec_write_fields_prefix(fields, i, fields.len() as int) =~= spec_write_one_field(
            fields[i],
        ) + seq![44u8] + spec_write_fields_prefix(fields, i + 1, fields.len() as int));
    }
}

// ---------------------------------------------------------------------
// Parsing: specification
// ---------------------------------------------------------------------

pub open spec fn is_ws(b: u8) -> bool {
    b == 32 || b == 9 || b == 10 || b == 13
}

/// The input with leading whitespace removed.
pub open spec fn spec_skip_ws(s: Seq<u8>) -> Seq<u8>
    decreases s.len(),
{
    if s.len() > 0 && is_ws(s[0]) {
        spec_skip_ws(s.drop_first())
    } else {
        s
    }
}

/// The value of an ASCII hex digit.
pub open spec fn spec_hex_val(b: u8) -> Option<nat> {
    if 48 <= b <= 57 {
        Some((b - 48) as nat)
    } else if 97 <= b <= 102 {
        Some((b - 87) as nat)
    } else if 65 <= b <= 70 {
        Some((b - 55) as nat)
    } else {
        None
    }
}

/// The byte for a one-character escape, if `e` names one.
pub open spec fn spec_simple_escape(e: u8) -> Option<u8> {
    if e == 34 {
        Some(34u8)
    } else if e == 92 {
        Some(92u8)
    } else if e == 47 {
        Some(47u8)
    } else if e == 110 {
        Some(10u8)
    } else if e == 116 {
        Some(9u8)
    } else if e == 114 {
        Some(13u8)
    } else if e == 98 {
        Some(8u8)
    } else if e == 102 {
        Some(12u8)
    } else {
        None
    }
}

/// Parse a string literal's content; `s` starts after the opening quote.
/// Yields the unescaped content and the input after the closing quote.
pub open spec fn spec_parse_string_body(s: Seq<u8>) -> Option<(Seq<u8>, Seq<u8>)>
    decreases s.len(),
{
    if s.len() == 0 {
        None
    } else if s[0] == 34 {
        Some((Seq::empty(), s.drop_first()))
    } else if s[0] == 92 {
        if s.len() < 2 {
            None
        } else if s[1] == 117 {
            // \uXXXX; only codes below 0x80 stand for a single byte
            if s.len() < 6 {
                None
            } else {
                match (spec_hex_val(s[2]), spec_hex_val(s[3]), spec_hex_val(s[4]), spec_hex_val(
                    s[5],
                )) {
                    (Some(h0), Some(h1), Some(h2), Some(h3)) => {
                        let code = ((h0 * 16 + h1) * 16 + h2) * 16 + h3;
                        if code < 128 {
                            match spec_parse_string_body(s.skip(6)) {
                                Some((c, r)) => Some((seq![code as u8] + c, r)),
                                None => None,
                            }
                        } else {
                            None
                        }
                    },
                    _ => None,
                }
            }
        } else {
            match spec_simple_escape(s[1]) {
                Some(b) => match spec_parse_string_body(s.skip(2)) {
                    Some((c, r)) => Some((seq![b] + c, r)),
                    None => None,
                },
                None => None,
            }
        }
    } else {
        match spec_parse_string_body(s.drop_first()) {
            Some((c, r)) => Some((seq![s[0]] + c, r)),
            None => None,
        }
    }
}

/// How many digits the input begins with.
pub open spec fn spec_digit_run(s: Seq<u8>) -> int
    decreases s.len(),
{
    if s.len() > 0 && is_digit(s[0]) {
        1 + spec_digit_run(s.drop_first())
    } else {
        0
    }
}

/// The largest magnitude a negative number may have.
pub open spec fn neg_bound() -> nat {
    9223372036854775808
}

/// Parse a decimal integer with optional leading minus.  Numbers beyond
/// the 64-bit signed range are rejected.
pub open spec fn spec_parse_int(s: Seq<u8>) -> Option<(int, Seq<u8>)> {
    if s.len() > 0 && s[0] == 45 {
        let t = s.drop_first();
        let run = spec_digit_run(t);
        if run == 0 {
            None
        } else {
            let n = spec_digits_value(t.subrange(0, run));
            if n <= neg_bound() {
                Some((-(n as int), t.skip(run)))
            } else {
                None
            }
        }
    } else {
        let run = spec_digit_run(s);
        if run == 0 {
            None
        } else {
            let n = spec_digits_value(s.subrange(0, run));
            if n <= i64::MAX as nat {
                Some((n as int, s.skip(run)))
            } else {
                None
            }
        }
    }
}

/// Parse one value.  `fuel` bounds the recursion; one unit is spent for
/// each nested value, and the input length plus one is always enough.
pub open spec fn spec_parse_val(s0: Seq<u8>, fuel: nat) -> Option<(JsonVal, Seq<u8>)>
    decreases fuel,
{
    if fuel == 0 {
        None
    } else {
        let s = spec_skip_ws(s0);
        if s.len() == 0 {
            None
        } else if s[0] == 110 {
            if s.len() >= 4 && s[1] == 117 && s[2] == 108 && s[3] == 108 {
                Some((JsonVal::Null, s.skip(4)))
            } else {
                None
            }
        } else if s[0] == 116 {
            if s.len() >= 4 && s[1] == 114 && s[2] == 117 && s[3] == 101 {
                Some((JsonVal::Bool(true), s.skip(4)))
            } else {
                None
            }
        } else if s[0] == 102 {
            if s.len() >= 5 && s[1] == 97 && s[2] == 108 && s[3] == 115 && s[4] == 101 {
                Some((JsonVal::Bool(false), s.skip(5)))
            } else {
                None
            }
        } else if s[0] == 45 || is_digit(s[0]) {
            match spec_parse_int(s) {
                Some((n, r)) => Some((JsonVal::Int(n), r)),
                None => None,
            }
        } else if s[0] == 34 {
            match spec_parse_string_body(s.drop_first()) {
                Some((c, r)) => Some((JsonVal::Str(c), r)),
                None => None,
            }
        } else if s[0] == 91 {
            let s1 = spec_skip_ws(s.drop_first());
            if s1.len() > 0 && s1[0] == 93 {
                Some((JsonVal::Arr(Seq::empty()), s1.drop_first()))
            } else {
                match spec_parse_arr_items(s.drop_first(), (fuel - 1) as nat) {
                    Some((elems, r)) => Some((JsonVal::Arr(elems), r)),
                    None => None,
                }
            }
        } else if s[0] == 123 {
            let s1 = spec_skip_ws(s.drop_first());
            if s1.len() > 0 && s1[0] == 125 {
                Some((JsonVal::Obj(Seq::empty()), s1.drop_first()))
            } else {
                match spec_parse_obj_items(s.drop_first(), (fuel - 1) as nat) {
                    Some((fields, r)) => Some((JsonVal::Obj(fields), r)),
                    None => None,
                }
            }
        } else {
            None
        }
    }
}

/// Parse one or more comma-separated array elements and the closing
/// bracket.
pub open spec fn spec_parse_arr_items(s: Seq<u8>, fuel: nat) -> Option<(Seq<JsonVal>, Seq<u8>)>
    decreases fuel,
{
    if fuel == 0 {
        None
    } else {
        match spec_parse_val(s, (fuel - 1) as nat) {
            None => None,
            Some((v, r0)) => {
                let r = spec_skip_ws(r0);
                if r.len() > 0 && r[0] == 44 {
                    match spec_parse_arr_items(r.drop_first(), (fuel - 1) as nat) {
                        Some((rest_elems, r2)) => Some((seq![v] + rest_elems, r2)),
                        None => None,
                    }
                } else if r.len() > 0 && r[0] == 93 {
                    Some((seq![v], r.drop_first()))
                } else {
                    None
                }
            },
        }
    }
}

/// Parse one or more `"key": value` fields and the closing brace.
pub open spec fn spec_parse_obj_items(s: Seq<u8>, fuel: nat) -> Option<
    (Seq<(Seq<u8>, JsonVal)>, Seq<u8>),
>
    decreases fuel,
{
    if fuel == 0 {
        None
    } else {
        let s1 = spec_skip_ws(s);
        if s1.len() > 0 && s1[0] == 34 {
            match spec_parse_string_body(s1.drop_first()) {
                None => None,
                Some((key, r0)) => {
                    let r1 = spec_skip_ws(r0);
                    if r1.len() > 0 && r1[0] == 58 {
                        match spec_parse_val(r1.drop_first(), (fuel - 1) as nat) {
                            None => None,
                            Some((v, r2)) => {
                                let r3 = spec_skip_ws(r2);
                                if r3.len() > 0 && r3[0] == 44 {
                                    match spec_parse_obj_items(r3.drop_first(), (fuel - 1) as nat) {
                                        Some((fs, r4)) => Some((seq![(key, v)] + fs, r4)),
                                        None => None,
                                    }
                                } else if r3.len() > 0 && r3[0] == 125 {
                                    Some((seq![(key, v)], r3.drop_first()))
                                } else {
                                    None
                                }
                            },
                        }
                    } else {
                        None
                    }
                },
            }
        } else {
            None
        }
    }
}

/// Parse a whole document: one value, with nothing but whitespace after.
pub open spec fn spec_parse_json(s: Seq<u8>) -> Option<JsonVal> {
    match spec_parse_val(s, s.len() + 1) {
        Some((v, r)) => {
            if spec_skip_ws(r).len() == 0 {
                Some(v)
            } else {
                None
            }
        },
        None => None,
    }
}

/// The compact JSON text of `v`.
pub fn write_json(v: &JsonValue) -> (r: Vec<u8>)
    ensures
        r@ == spec_write(v@),
{
    let mut out: Vec<u8> = Vec::new();
    write_into(v, &mut out);
    proof {
        assert(out@ =~= spec_write(v@));
    }
    out
}

// ---------------------------------------------------------------------
// Parsing: execution
// ---------------------------------------------------------------------

/// Advance past leading whitespace.
fn skip_ws_from(buf: &Vec<u8>, pos: usize) -> (r: usize)
    requires
        pos <= buf.len(),
    ensures
        pos <= r <= buf.len(),
        buf@.skip(r as int) == spec_skip_ws(buf@.skip(pos as int)),
{
    let mut i: usize = pos;
    loop
        invariant
            pos <= i <= buf.len(),
            spec_skip_ws(buf@.skip(pos as int)) == spec_skip_ws(buf@.skip(i as int)),
        decreases buf.len() - i,
    {
        if i >= buf.len() {
            proof {
                assert(buf@.skip(i as int).len() == 0);
            }
            return i;
        }
        let b = buf[i];
        if !(b == 32 || b == 9 || b == 10 || b == 13) {
            proof {
                assert(buf@.skip(i as int)[0] == b);
            }
            return i;
        }
        proof {
            let s = buf@.skip(i as int);
            assert(s[0] == b);
            assert(s.drop_first() =~= buf@.skip(i + 1));
        }
        i = i + 1;
    }
}

fn hex_val(b: u8) -> (r: Option<u8>)
    ensures
        match spec_hex_val(b) {
            Some(v) => r == Some(v as u8),
            None => r is None,
        },
{
    if 48 <= b && b <= 57 {
        Some(b - 48)
    } else if 97 <= b && b <= 102 {
        Some(b - 87)
    } else if 65 <= b && b <= 70 {
        Some(b - 55)
    } else {
        None
    }
}

/// Parse a string literal's content; `pos` is just after the opening
/// quote.  Yields the content and the position after the closing quote.
fn parse_string_body(buf: &Vec<u8>, pos: usize) -> (r: Option<(Vec<u8>, usize)>)
    requires
        pos <= buf.len(),
    ensures
        ({
            match spec_parse_string_body(buf@.skip(pos as int)) {
                Some((c, rest)) => match r {
                    Some((cv, p)) => cv@ == c && pos <= p <= buf.len() && buf@.skip(p as int)
                        == rest,
                    None => false,
                },
                None => r is None,
            }
        }),
{
    let mut content: Vec<u8> = Vec::new();
    let mut i: usize = pos;
    loop
        invariant
            pos <= i <= buf.len(),
            match spec_parse_string_body(buf@.skip(i as int)) {
                Some((c2, rest)) => spec_parse_string_body(buf@.skip(pos as int)) == Some(
                    (content@ + c2, rest),
                ),
                None => spec_parse_string_body(buf@.skip(pos as int)) is None,
            },
        decreases buf.len() - i,
    {
        if i >= buf.len() {
            proof {
                assert(buf@.skip(i as int).len() == 0);
            }
            return None;
        }
        let b = buf[i];
        proof {
            assert(buf@.skip(i as int)[0] == b);
        }
        if b == 34 {
            proof {
                let s = buf@.skip(i as int);
                assert(s.drop_first() =~= buf@.skip(i + 1));
                assert(content@ + Seq::<u8>::empty() =~= content@);
            }
            return Some((content, i + 1));
        } else if b == 92 {
            if buf.len() - i < 2 {
                proof {
                    assert(buf@.skip(i as int).len() < 2);
                }
                return None;
            }
            let e = buf[i + 1];
            proof {
                assert(buf@.skip(i as int)[1] == e);
            }
            if e == 117 {
                if buf.len() - i < 6 {
                    proof {
                        assert(buf@.skip(i as int).len() < 6);
                    }
                    return None;
                }
                proof {
                    let s = buf@.skip(i as int);
                    assert(s[2] == buf@[i + 2]);
                    assert(s[3] == buf@[i + 3]);
                    assert(s[4] == buf@[i + 4]);
                    assert(s[5] == buf@[i + 5]);
                }
                let h0 = hex_val(buf[i + 2]);
                let h1 = hex_val(buf[i + 3]);
                let h2 = hex_val(buf[i + 4]);
                let h3 = hex_val(buf[i + 5]);
                match (h0, h1, h2, h3) {
                    (Some(a0), Some(a1), Some(a2), Some(a3)) => {
                        let code: u32 = ((a0 as u32 * 16 + a1 as u32) * 16 + a2 as u32) * 16
                            + a3 as u32;
                        if code < 128 {
                            let ghost old_content = content@;
                            content.push(code as u8);
                            proof {
                                let s = buf@.skip(i as int);
                                assert(s.skip(6) =~= buf@.skip(i + 6));
                                match spec_parse_string_body(buf@.skip(i + 6)) {
                                    Some((c2, rest)) => {
                                        assert(spec_parse_string_body(s) == Some(
                                            (seq![code as u8] + c2, rest),
                                        ));
                                        assert(old_content + (seq![code as u8] + c2) =~= content@
                                            + c2);
                                    },
                                    None => {},
                                }
                            }
                            i = i + 6;
                        } else {
                            return None;
                        }
                    },
                    _ => {
                        return None;
                    },
                }
            } else {
                let decoded: Option<u8> = if e == 34 {
                    Some(34)
                } else if e == 92 {
                    Some(92)
                } else if e == 47 {
                    Some(47)
                } else if e == 110 {
                    Some(10)
                } else if e == 116 {
                    Some(9)
                } else if e == 114 {
                    Some(13)
                } else if e == 98 {
                    Some(8)
                } else if e == 102 {
                    Some(12)
                } else {
                    None
                };
                match decoded {
                    Some(x) => {
                        let ghost old_content = content@;
                        content.push(x);
                        proof {
                            let s = buf@.skip(i as int);
                            assert(spec_simple_escape(e) == Some(x));
                            assert(s.skip(2) =~= buf@.skip(i + 2));
                            match spec_parse_string_body(buf@.skip(i + 2)) {
                                Some((c2, rest)) => {
                                    assert(spec_parse_string_body(s) == Some(
                                        (seq![x] + c2, rest),
                                    ));
                                    assert(old_content + (seq![x] + c2) =~= content@ + c2);
                                },
                                None => {},
                            }
                        }
                        i = i + 2;
                    },
                    None => {
                        return None;
                    },
                }
            }
        } else {
            let ghost old_content = content@;
            content.push(b);
            proof {
                let s = buf@.skip(i as int);
                assert(s.drop_first() =~= buf@.skip(i + 1));
                match spec_parse_string_body(buf@.skip(i + 1)) {
                    Some((c2, rest)) => {
                        assert(spec_parse_string_body(s) == Some((seq![b] + c2, rest)));
                        assert(old_content + (seq![b] + c2) =~= content@ + c2);
                    },
                    None => {},
                }
            }
            i = i + 1;
        }
    }
}

proof fn lemma_digit_run_value(s: Seq<u8>, k: int)
    requires
        0 <= k <= s.len(),
        forall|i: int| 0 <= i < k ==> is_digit(#[trigger] s[i]),
        k == s.len() || !is_digit(s[k]),
    ensures
        spec_digit_run(s) == k,
    decreases k,
{
    if k == 0 {
    } else {
        assert(is_digit(s[0]));
        let t = s.drop_first();
        assert(forall|i: int| 0 <= i < k - 1 ==> t[i] == s[i + 1]);
        lemma_digit_run_value(t, k - 1);
    }
}

/// Parse a decimal integer with optional leading minus.
fn parse_int(buf: &Vec<u8>, pos: usize) -> (r: Option<(i64, usize)>)
    requires
        pos <= buf.len(),
    ensures
        ({
            match spec_parse_int(buf@.skip(pos as int)) {
                Some((n, rest)) => match r {
                    Some((v, p)) => v as int == n && pos <= p <= buf.len() && buf@.skip(p as int)
                        == rest,
                    None => false,
                },
                None => r is None,
            }
        }),
{
    let ghost s = buf@.skip(pos as int);
    let neg = pos < buf.len() && buf[pos] == 45;
    proof {
        if pos < buf.len() {
            assert(s[0] == buf@[pos as int]);
        }
    }
    let dstart: usize = if neg {
        pos + 1
    } else {
        pos
    };
    let ghost t = buf@.skip(dstart as int);
    proof {
        if neg {
            assert(t =~= s.drop_first());
        }
    }
    let mut dend: usize = dstart;
    while dend < buf.len() && 48 <= buf[dend] && buf[dend] <= 57
        invariant
            dstart <= dend <= buf.len(),
            forall|k: int| dstart <= k < dend ==> is_digit(#[trigger] buf@[k]),
        decreases buf.len() - dend,
    {
        dend = dend + 1;
    }
    proof {
        assert(forall|i: int| 0 <= i < dend - dstart ==> is_digit(#[trigger] t[i]));
        if dend < buf.len() {
            assert(t[dend - dstart] == buf@[dend as int]);
        }
        lemma_digit_run_value(t, dend - dstart);
    }
    if dend == dstart {
        return None;
    }
    let ghost digits = t.subrange(0, (dend - dstart) as int);
    proof {
        assert(digits =~= buf@.subrange(dstart as int, dend as int));
        assert(forall|i: int| 0 <= i < digits.len() ==> is_digit(#[trigger] digits[i]));
    }
    match crate::framing::parse_digits(buf, dstart, dend) {
        Some(v) => {
            proof {
                assert(t.skip((dend - dstart) as int) =~= buf@.skip(dend as int));
            }
            if neg {
                if v <= 9223372036854775808u64 {
                    let value: i64 = if v == 9223372036854775808u64 {
                        i64::MIN
                    } else {
                        -(v as i64)
                    };
                    Some((value, dend))
                } else {
                    None
                }
            } else {
                if v <= 9223372036854775807u64 {
                    Some((v as i64, dend))
                } else {
                    None
                }
            }
        },
        None => {
            proof {
                // the run is all digits and non-empty, so its value is
                // beyond u64, hence beyond either signed bound
                assert(spec_digits_value(digits) > u64::MAX);
            }
            None
        },
    }
}

/// Parse one value; mirrors `spec_parse_val` exactly, fuel included.
fn parse_value(buf: &Vec<u8>, pos: usize, fuel: u64) -> (r: Option<(JsonValue, usize)>)
    requires
        pos <= buf.len(),
    ensures
        ({
            match spec_parse_val(buf@.skip(pos as int), fuel as nat) {
                Some((sv, srest)) => match r {
                    Some((v, p)) => v@ == sv && pos <= p <= buf.len() && buf@.skip(p as int)
                        == srest,
                    None => false,
                },
                None => r is None,
            }
        }),
    decreases fuel,
{
    if fuel == 0 {
        return None;
    }
    let q = skip_ws_from(buf, pos);
    let ghost s = spec_skip_ws(buf@.skip(pos as int));
    proof {
        assert(s == buf@.skip(q as int));
    }
    if q >= buf.len() {
        proof {
            assert(s.len() == 0);
        }
        return None;
    }
    let b = buf[q];
    proof {
        assert(s[0] == b);
        assert(s.len() == buf@.len() - q);
    }
    if b == 110 {
        if buf.len() - q >= 4 && buf[q + 1] == 117 && buf[q + 2] == 108 && buf[q + 3] == 108 {
            proof {
                assert(s[1] == buf@[q + 1] && s[2] == buf@[q + 2] && s[3] == buf@[q + 3]);
                assert(s.skip(4) =~= buf@.skip(q + 4));
            }
            Some((JsonValue::Null, q + 4))
        } else {
            proof {
                if s.len() >= 4 {
                    assert(s[1] == buf@[q + 1] && s[2] == buf@[q + 2] && s[3] == buf@[q + 3]);
                }
            }
            None
        }
    } else if b == 116 {
        if buf.len() - q >= 4 && buf[q + 1] == 114 && buf[q + 2] == 117 && buf[q + 3] == 101 {
            proof {
                assert(s[1] == buf@[q + 1] && s[2] == buf@[q + 2] && s[3] == buf@[q + 3]);
                assert(s.skip(4) =~= buf@.skip(q + 4));
            }
            Some((JsonValue::Bool(true), q + 4))
        } else {
            proof {
                if s.len() >= 4 {
                    assert(s[1] == buf@[q + 1] && s[2] == buf@[q + 2] && s[3] == buf@[q + 3]);
                }
            }
            None
        }
    } else if b == 102 {
        if buf.len() - q >= 5 && buf[q + 1] == 97 && buf[q + 2] == 108 && buf[q + 3] == 115 && buf[q
            + 4] == 101 {
            proof {
                assert(s[1] == buf@[q + 1] && s[2] == buf@[q + 2] && s[3] == buf@[q + 3] && s[4]
                    == buf@[q + 4]);
                assert(s.skip(5) =~= buf@.skip(q + 5));
            }
            Some((JsonValue::Bool(false), q + 5))
        } else {
            proof {
                if s.len() >= 5 {
                    assert(s[1] == buf@[q + 1] && s[2] == buf@[q + 2] && s[3] == buf@[q + 3] && s[4]
                        == buf@[q + 4]);
                }
            }
            None
        }
    } else if b == 45 || (48 <= b && b <= 57) {
        match parse_int(buf, q) {
            Some((v, p)) => Some((JsonValue::Int(v), p)),
            None => None,
        }
    } else if b == 34 {
        proof {
            assert(s.drop_first() =~= buf@.skip(q + 1));
        }
        match parse_string_body(buf, q + 1) {
            Some((c, p)) => Some((JsonValue::Str(c), p)),
            None => None,
        }
    } else if b == 91 {
        proof {
            assert(s.drop_first() =~= buf@.skip(q + 1));
        }
        let q1 = skip_ws_from(buf, q + 1);
        let ghost s1 = spec_skip_ws(s.drop_first());
        proof {
            assert(s1 == buf@.skip(q1 as int));
        }
        if q1 < buf.len() && buf[q1] == 93 {
            proof {
                assert(s1[0] == buf@[q1 as int]);
                assert(s1.drop_first() =~= buf@.skip(q1 + 1));
            }
            let elems: Vec<JsonValue> = Vec::new();
            proof {
                assert(json_view_list(elems, 0) =~= Seq::<JsonVal>::empty());
            }
            Some((JsonValue::Arr(elems), q1 + 1))
        } else {
            proof {
                if q1 < buf.len() {
                    assert(s1[0] == buf@[q1 as int]);
                } else {
                    assert(s1.len() == 0);
                }
            }
            match parse_arr_items(buf, q + 1, fuel - 1) {
                Some((elems, p)) => Some((JsonValue::Arr(elems), p)),
                None => None,
            }
        }
    } else if b == 123 {
        proof {
            assert(s.drop_first() =~= buf@.skip(q + 1));
        }
        let q1 = skip_ws_from(buf, q + 1);
        let ghost s1 = spec_skip_ws(s.drop_first());
        proof {
            assert(s1 == buf@.skip(q1 as int));
        }
        if q1 < buf.len() && buf[q1] == 125 {
            proof {
                assert(s1[0] == buf@[q1 as int]);
                assert(s1.drop_first() =~= buf@.skip(q1 + 1));
            }
            let fields: Vec<(Vec<u8>, JsonValue)> = Vec::new();
            proof {
                assert(json_view_fields(fields, 0) =~= Seq::<(Seq<u8>, JsonVal)>::empty());
            }
            Some((JsonValue::Obj(fields), q1 + 1))
        } else {
            proof {
                if q1 < buf.len() {
                    assert(s1[0] == buf@[q1 as int]);
                } else {
                    assert(s1.len() == 0);
                }
            }
            match parse_obj_items(buf, q + 1, fuel - 1) {
                Some((fields, p)) => Some((JsonValue::Obj(fields), p)),
                None => None,
            }
        }
    } else {
        None
    }
}

/// Parse one or more array elements and the closing bracket.
fn parse_arr_items(buf: &Vec<u8>, pos: usize, fuel: u64) -> (r: Option<(Vec<JsonValue>, usize)>)
    requires
        pos <= buf.len(),
    ensures
        ({
            match spec_parse_arr_items(buf@.skip(pos as int), fuel as nat) {
                Some((selems, srest)) => match r {
                    Some((elems, p)) => json_view_list(elems, 0) == selems && pos <= p <= buf.len()
                        && buf@.skip(p as int) == srest,
                    None => false,
                },
                None => r is None,
            }
        }),
    decreases fuel,
{
    if fuel == 0 {
        return None;
    }
    match parse_value(buf, pos, fuel - 1) {
        None => None,
        Some((v, p0)) => {
            let p1 = skip_ws_from(buf, p0);
            let ghost rr = spec_skip_ws(buf@.skip(p0 as int));
            proof {
                assert(rr == buf@.skip(p1 as int));
            }
            if p1 < buf.len() && buf[p1] == 44 {
                proof {
                    assert(rr[0] == buf@[p1 as int]);
                    assert(rr.drop_first() =~= buf@.skip(p1 + 1));
                }
                match parse_arr_items(buf, p1 + 1, fuel - 1) {
                    Some((more, p2)) => {
                        proof {
                            lemma_view_list_len(more, 0);
                        }
                        let ghost more_seq = more@;
                        let ghost more_views = json_view_list(more, 0);
                        let ghost vview = v@;
                        let mut elems = more;
                        elems.insert(0, v);
                        proof {
                            assert(elems@ =~= seq![v] + more_seq);
                            lemma_view_list_len(elems, 0);
                            assert forall|k: int|
                                0 <= k < json_view_list(elems, 0).len() implies json_view_list(
                                elems,
                                0,
                            )[k] == (seq![vview] + more_views)[k] by {
                                assert(json_view_list(elems, 0)[k] == json_view(elems@[k]));
                                if k == 0 {
                                    assert(elems@[0] == v);
                                } else {
                                    assert(elems@[k] == more_seq[k - 1]);
                                    assert(more_views[k - 1] == json_view(more_seq[k - 1]));
                                }
                            }
                            assert(json_view_list(elems, 0) =~= seq![vview] + more_views);
                        }
                        Some((elems, p2))
                    },
                    None => None,
                }
            } else if p1 < buf.len() && buf[p1] == 93 {
                proof {
                    assert(rr[0] == buf@[p1 as int]);
                    assert(rr.drop_first() =~= buf@.skip(p1 + 1));
                }
                let mut elems: Vec<JsonValue> = Vec::new();
                elems.push(v);
                proof {
                    lemma_view_list_len(elems, 0);
                    assert(json_view_list(elems, 0) =~= seq![v@]);
                }
                Some((elems, p1 + 1))
            } else {
                proof {
                    if p1 < buf.len() {
                        assert(rr[0] == buf@[p1 as int]);
                    } else {
                        assert(rr.len() == 0);
                    }
                }
                None
            }
        },
    }
}

/// Parse one or more object fields and the closing brace.
fn parse_obj_items(buf: &Vec<u8>, pos: usize, fuel: u64) -> (r: Option<
    (Vec<(Vec<u8>, JsonValue)>, usize),
>)
    requires
        pos <= buf.len(),
    ensures
        ({
            match spec_parse_obj_items(buf@.skip(pos as int), fuel as nat) {
                Some((sfields, srest)) => match r {
                    Some((fields, p)) => json_view_fields(fields, 0) == sfields && pos <= p
                        <= buf.len() && buf@.skip(p as int) == srest,
                    None => false,
                },
                None => r is None,
            }
        }),
    decreases fuel,
{
    if fuel == 0 {
        return None;
    }
    let q1 = skip_ws_from(buf, pos);
    let ghost s1 = spec_skip_ws(buf@.skip(pos as int));
    proof {
        assert(s1 == buf@.skip(q1 as int));
    }
    if !(q1 < buf.len()) {
        proof {
            assert(s1.len() == 0);
        }
        return None;
    }
    if buf[q1] != 34 {
        proof {
            assert(s1[0] == buf@[q1 as int]);
        }
        return None;
    }
    proof {
        assert(s1[0] == buf@[q1 as int]);
        assert(s1.drop_first() =~= buf@.skip(q1 + 1));
    }
    match parse_string_body(buf, q1 + 1) {
        None => None,
        Some((key, k0)) => {
            let p1 = skip_ws_from(buf, k0);
            let ghost r1 = spec_skip_ws(buf@.skip(k0 as int));
            proof {
                assert(r1 == buf@.skip(p1 as int));
            }
            if !(p1 < buf.len() && buf[p1] == 58) {
                proof {
                    if p1 < buf.len() {
                        assert(r1[0] == buf@[p1 as int]);
                    } else {
                        assert(r1.len() == 0);
                    }
                }
                return None;
            }
            proof {
                assert(r1[0] == buf@[p1 as int]);
                assert(r1.drop_first() =~= buf@.skip(p1 + 1));
            }
            match parse_value(buf, p1 + 1, fuel - 1) {
                None => None,
                Some((v, v0)) => {
                    let p3 = skip_ws_from(buf, v0);
                    let ghost r3 = spec_skip_ws(buf@.skip(v0 as int));
                    proof {
                        assert(r3 == buf@.skip(p3 as int));
                    }
                    if p3 < buf.len() && buf[p3] == 44 {
                        proof {
                            assert(r3[0] == buf@[p3 as int]);
                            assert(r3.drop_first() =~= buf@.skip(p3 + 1));
                        }
                        match parse_obj_items(buf, p3 + 1, fuel - 1) {
                            Some((more, p4)) => {
                                proof {
                                    lemma_view_fields_len(more, 0);
                                }
                                let ghost more_seq = more@;
                                let ghost more_views = json_view_fields(more, 0);
                                let ghost kview = key@;
                                let ghost vview = v@;
                                let mut fields = more;
                                fields.insert(0, (key, v));
                                proof {
                                    assert(fields@ =~= seq![(key, v)] + more_seq);
                                    lemma_view_fields_len(fields, 0);
                                    assert forall|k: int|
                                        0 <= k < json_view_fields(fields, 0).len() implies
                                        json_view_fields(fields, 0)[k] == (seq![(kview, vview)]
                                        + more_views)[k] by {
                                        assert(json_view_fields(fields, 0)[k] == (
                                        fields@[k].0@,
                                        json_view(fields@[k].1),
                                        ));
                                        if k == 0 {
                                            assert(fields@[0] == (key, v));
                                        } else {
                                            assert(fields@[k] == more_seq[k - 1]);
                                            assert(more_views[k - 1] == (
                                            more_seq[k - 1].0@,
                                            json_view(more_seq[k - 1].1),
                                            ));
                                        }
                                    }
                                    assert(json_view_fields(fields, 0) =~= seq![(kview, vview)]
                                        + more_views);
                                }
                                Some((fields, p4))
                            },
                            None => None,
                        }
                    } else if p3 < buf.len() && buf[p3] == 125 {
                        proof {
                            assert(r3[0] == buf@[p3 as int]);
                            assert(r3.drop_first() =~= buf@.skip(p3 + 1));
                        }
                        let mut fields: Vec<(Vec<u8>, JsonValue)> = Vec::new();
                        fields.push((key, v));
                        proof {
                            lemma_view_fields_len(fields, 0);
                            assert(json_view_fields(fields, 0) =~= seq![(key@, v@)]);
                        }
                        Some((fields, p3 + 1))
                    } else {
                        proof {
                            if p3 < buf.len() {
                                assert(r3[0] == buf@[p3 as int]);
                            } else {
                                assert(r3.len() == 0);
                            }
                        }
                        None
                    }
                },
            }
        },
    }
}

// ---------------------------------------------------------------------
// Reading documents
// ---------------------------------------------------------------------

/// The value under `key` among `fields`, first match.
pub open spec fn spec_fields_get(fields: Seq<(Seq<u8>, JsonVal)>, key: Seq<u8>) -> Option<JsonVal>
    decreases fields.len(),
{
    if fields.len() == 0 {
        None
    } else if fields[0].0 == key {
        Some(fields[0].1)
    } else {
        spec_fields_get(fields.drop_first(), key)
    }
}

/// The value under `key`, when the document is an object holding it.
pub open spec fn spec_obj_get(v: JsonVal, key: Seq<u8>) -> Option<JsonVal> {
    match v {
        JsonVal::Obj(fields) => spec_fields_get(fields, key),
        _ => None,
    }
}

/// Do two byte strings hold the same bytes?
pub fn bytes_eq(a: &Vec<u8>, b: &[u8]) -> (r: bool)
    ensures
        r == (a@ == b@),
{
    if a.len() != b.len() {
        proof {
            assert(a@.len() != b@.len());
        }
        return false;
    }
    let n = a.len();
    let mut i: usize = 0;
    while i < n
        invariant
            0 <= i <= n,
            n == a@.len() == b@.len(),
            forall|k: int| 0 <= k < i ==> a@[k] == b@[k],
        decreases n - i,
    {
        if a[i] != b[i] {
            return false;
        }
        i = i + 1;
    }
    proof {
        assert(a@ =~= b@);
    }
    true
}

impl JsonValue {
    /// The field under `key`, when this is an object that has it.
    pub fn obj_get(&self, key: &[u8]) -> (r: Option<&JsonValue>)
        ensures
            match spec_obj_get(self@, key@) {
                Some(sv) => match r {
                    Some(x) => x@ == sv,
                    None => false,
                },
                None => r is None,
            },
    {
        match self {
            JsonValue::Obj(fields) => {
                proof {
                    lemma_view_fields_len(*fields, 0);
                    assert(*self == JsonValue::Obj(*fields));
                    assert(self@ == JsonVal::Obj(json_view_fields(*fields, 0)));
                    assert(spec_obj_get(self@, key@) == spec_fields_get(
                        json_view_fields(*fields, 0),
                        key@,
                    ));
                }
                let n = fields.len();
                proof {
                    assert(json_view_fields(*fields, 0).skip(0) =~= json_view_fields(*fields, 0));
                }
                let mut i: usize = 0;
                while i < n
                    invariant
                        0 <= i <= n,
                        n == fields@.len(),
                        json_view_fields(*fields, 0).len() == n,
                        forall|k: int|
                            0 <= k < n ==> json_view_fields(*fields, 0)[k] == (
                            fields@[k].0@,
                            json_view(fields@[k].1),
                            ),
                        spec_obj_get(self@, key@) == spec_fields_get(
                            json_view_fields(*fields, 0).skip(i as int),
                            key@,
                        ),
                    decreases n - i,
                {
                    let hit = bytes_eq(&fields[i].0, key);
                    proof {
                        let fs = json_view_fields(*fields, 0);
                        assert(fs.skip(i as int)[0] == fs[i as int]);
                        assert(fs.skip(i as int).drop_first() =~= fs.skip(i + 1));
                        assert(fs[i as int] == (fields@[i as int].0@, json_view(
                            fields@[i as int].1,
                        )));
                    }
                    if hit {
                        proof {
                            let fs = json_view_fields(*fields, 0);
                            assert(fs.skip(i as int)[0].0 == key@);
                            assert(fs.skip(i as int).len() > 0);
                            assert(spec_fields_get(fs.skip(i as int), key@) == Some(
                                fs.skip(i as int)[0].1,
                            ));
                            assert(fs.skip(i as int)[0].1 == json_view(fields@[i as int].1));
                            assert(spec_obj_get(self@, key@) == Some(
                                json_view(fields@[i as int].1),
                            ));
                        }
                        let out = &fields[i].1;
                        proof {
                            assert(out@ == json_view(fields@[i as int].1));
                        }
                        return Some(out);
                    }
                    proof {
                        let fs = json_view_fields(*fields, 0);
                        assert(fs.skip(i as int)[0].0 != key@);
                    }
                    i = i + 1;
                }
                proof {
                    let fs = json_view_fields(*fields, 0);
                    assert(fs.skip(n as int).len() == 0);
                }
                None
            },
            _ => None,
        }
    }

    /// The number this document holds, if it is a number.
    pub fn as_int(&self) -> (r: Option<i64>)
        ensures
            match self@ {
                JsonVal::Int(i) => r == Some(i as i64) && i64::MIN <= i <= i64::MAX,
                _ => r is None,
            },
    {
        proof {
            lemma_view_wf(*self);
        }
        match self {
            JsonValue::Int(i) => Some(*i),
            _ => None,
        }
    }

    /// The bytes of the string this document holds, if it is a string.
    pub fn str_bytes(&self) -> (r: Option<&Vec<u8>>)
        ensures
            match self@ {
                JsonVal::Str(s) => match r {
                    Some(b) => b@ == s,
                    None => false,
                },
                _ => r is None,
            },
    {
        match self {
            JsonValue::Str(s) => Some(s),
            _ => None,
        }
    }

    /// The elements of the array this document holds, if it is an array.
    pub fn arr_items(&self) -> (r: Option<&Vec<JsonValue>>)
        ensures
            match self@ {
                JsonVal::Arr(elems) => match r {
                    Some(v) => json_view_list(*v, 0) == elems,
                    None => false,
                },
                _ => r is None,
            },
    {
        match self {
            JsonValue::Arr(elems) => Some(elems),
            _ => None,
        }
    }

    /// An exact copy of the document.
    pub fn deep_clone(&self) -> (r: JsonValue)
        ensures
            r@ == self@,
        decreases *self,
    {
        match self {
            JsonValue::Null => JsonValue::Null,
            JsonValue::Bool(b) => JsonValue::Bool(*b),
            JsonValue::Int(i) => JsonValue::Int(*i),
            JsonValue::Str(s) => {
                let mut c: Vec<u8> = Vec::new();
                let mut i: usize = 0;
                while i < s.len()
                    invariant
                        0 <= i <= s@.len(),
                        c@ == s@.subrange(0, i as int),
                    decreases s@.len() - i,
                {
                    c.push(s[i]);
                    i = i + 1;
                    assert(c@ =~= s@.subrange(0, i as int));
                }
                proof {
                    assert(s@.subrange(0, s@.len() as int) =~= s@);
                }
                JsonValue::Str(c)
            },
            JsonValue::Arr(elems) => {
                proof {
                    lemma_view_list_len(*elems, 0);
                }
                let mut c: Vec<JsonValue> = Vec::new();
                let n = elems.len();
                let mut i: usize = 0;
                while i < n
                    invariant
                        0 <= i <= n,
                        n == elems@.len(),
                        c@.len() == i,
                        json_view_list(*elems, 0).len() == n,
                        forall|k: int|
                            0 <= k < n ==> json_view_list(*elems, 0)[k] == json_view(elems@[k]),
                        forall|k: int|
                            0 <= k < i ==> json_view(#[trigger] c@[k]) == json_view(elems@[k]),
                        decreases_to!(*self => *elems),
                    decreases n - i,
                {
                    proof {
                        assert(decreases_to!(*elems => elems@[i as int]));
                    }
                    let e = elems[i].deep_clone();
                    c.push(e);
                    i = i + 1;
                }
                proof {
                    lemma_view_list_len(c, 0);
                    assert forall|k: int|
                        0 <= k < n implies json_view_list(c, 0)[k] == json_view_list(
                        *elems,
                        0,
                    )[k] by {
                        assert(json_view_list(c, 0)[k] == json_view(c@[k]));
                        assert(json_view(c@[k]) == json_view(elems@[k]));
                    }
                    assert(json_view_list(c, 0) =~= json_view_list(*elems, 0));
                }
                JsonValue::Arr(c)
            },
            JsonValue::Obj(fields) => {
                proof {
                    lemma_view_fields_len(*fields, 0);
                }
                let mut c: Vec<(Vec<u8>, JsonValue)> = Vec::new();
                let n = fields.len();
                let mut i: usize = 0;
                while i < n
                    invariant
                        0 <= i <= n,
                        n == fields@.len(),
                        c@.len() == i,
                        json_view_fields(*fields, 0).len() == n,
                        forall|k: int|
                            0 <= k < n ==> json_view_fields(*fields, 0)[k] == (
                            fields@[k].0@,
                            json_view(fields@[k].1),
                            ),
                        forall|k: int|
                            0 <= k < i ==> (#[trigger] c@[k]).0@ == fields@[k].0@ && json_view(
                                c@[k].1,
                            ) == json_view(fields@[k].1),
                        decreases_to!(*self => *fields),
                    decreases n - i,
                {
                    proof {
                        assert(decreases_to!(*fields => fields@[i as int]));
                    }
                    let kb = &fields[i].0;
                    let mut key: Vec<u8> = Vec::new();
                    let mut j: usize = 0;
                    while j < kb.len()
                        invariant
                            0 <= j <= kb@.len(),
                            key@ == kb@.subrange(0, j as int),
                        decreases kb@.len() - j,
                    {
                        key.push(kb[j]);
                        j = j + 1;
                        assert(key@ =~= kb@.subrange(0, j as int));
                    }
                    proof {
                        assert(kb@.subrange(0, kb@.len() as int) =~= kb@);
                    }
                    let v = fields[i].1.deep_clone();
                    c.push((key, v));
                    i = i + 1;
                }
                proof {
                    lemma_view_fields_len(c, 0);
                    assert forall|k: int|
                        0 <= k < n implies json_view_fields(c, 0)[k] == json_view_fields(
                        *fields,
                        0,
                    )[k] by {
                        assert(json_view_fields(c, 0)[k] == (c@[k].0@, json_view(c@[k].1)));
                        assert(c@[k].0@ == fields@[k].0@ && json_view(c@[k].1) == json_view(
                            fields@[k].1,
                        ));
                    }
                    assert(json_view_fields(c, 0) =~= json_view_fields(*fields, 0));
                }
                JsonValue::Obj(c)
            },
        }
    }
}

// ---------------------------------------------------------------------
// Round trip: parsing the writer's output gives the document back
// ---------------------------------------------------------------------

/// A well-formed document: every number fits in 64 signed bits.  The
/// view of every executable document is well formed.
pub open spec fn wf_json(v: JsonVal) -> bool
    decreases v,
{
    match v {
        JsonVal::Int(i) => i64::MIN <= i <= i64::MAX,
        JsonVal::Arr(elems) => forall|k: int|
            0 <= k < elems.len() ==> wf_json(#[trigger] elems[k]),
        JsonVal::Obj(fields) => forall|k: int|
            0 <= k < fields.len() ==> wf_json(#[trigger] fields[k].1),
        _ => true,
    }
}

/// Views of executable documents are always well formed.
pub proof fn lemma_view_wf(j: JsonValue)
    ensures
        wf_json(json_view(j)),
    decreases j,
{
    match j {
        JsonValue::Arr(elems) => {
            lemma_view_list_len(elems, 0);
            let vs = json_view_list(elems, 0);
            assert forall|k: int| 0 <= k < vs.len() implies wf_json(#[trigger] vs[k]) by {
                assert(vs[k] == json_view(elems[k]));
                lemma_view_wf(elems[k]);
            }
        },
        JsonValue::Obj(fields) => {
            lemma_view_fields_len(fields, 0);
            let fs = json_view_fields(fields, 0);
            assert forall|k: int| 0 <= k < fs.len() implies wf_json(#[trigger] fs[k].1) by {
                assert(fs[k] == (fields[k].0@, json_view(fields[k].1)));
                lemma_view_wf(fields[k].1);
            }
        },
        _ => {},
    }
}

/// May a byte begin the text of a value?
pub open spec fn is_value_start(b: u8) -> bool {
    b == 110 || b == 116 || b == 102 || b == 45 || is_digit(b) || b == 34 || b == 91 || b == 123
}

/// A document's text is never empty, and begins with a value starter:
/// never whitespace, and none of `, ] } :`.
proof fn lemma_write_starts(v: JsonVal)
    ensures
        spec_write(v).len() >= 1,
        is_value_start(spec_write(v)[0]),
    decreases v,
{
    match v {
        JsonVal::Int(i) => {
            if i < 0 {
                assert(spec_write(v)[0] == 45);
            } else {
                lemma_dec_digits_all_digits(i as nat);
                assert(spec_write(v) == spec_dec_digits(i as nat));
                assert(is_digit(spec_dec_digits(i as nat)[0]));
            }
        },
        _ => {},
    }
}

proof fn lemma_skip_ws_id(s: Seq<u8>)
    requires
        s.len() == 0 || !is_ws(s[0]),
    ensures
        spec_skip_ws(s) == s,
{
}

/// Unescaping the escaped form of `c`, a closing quote appended, yields
/// `c` itself, whatever follows the quote.
proof fn lemma_parse_string_of_escape(c: Seq<u8>, rest: Seq<u8>)
    ensures
        spec_parse_string_body(spec_escape(c) + seq![34u8] + rest) == Some((c, rest)),
    decreases c.len(),
{
    let s = spec_escape(c) + seq![34u8] + rest;
    if c.len() == 0 {
        assert(spec_escape(c) =~= Seq::<u8>::empty());
        assert(s =~= seq![34u8] + rest);
        assert(s[0] == 34);
        assert(s.drop_first() =~= rest);
    } else {
        let b = c[0];
        let c2 = c.drop_first();
        lemma_parse_string_of_escape(c2, rest);
        let tail = spec_escape(c2) + seq![34u8] + rest;
        assert(spec_escape(c) == spec_escape_byte(b) + spec_escape(c2));
        assert(s =~= spec_escape_byte(b) + tail);
        if b == 34 {
            assert(s[0] == 92 && s[1] == 34);
            assert(s.len() >= 2);
            assert(spec_simple_escape(34u8) == Some(34u8));
            assert(s.skip(2) =~= tail);
            assert(seq![34u8] + c2 =~= c);
        } else if b == 92 {
            assert(s[0] == 92 && s[1] == 92);
            assert(spec_simple_escape(92u8) == Some(92u8));
            assert(s.skip(2) =~= tail);
            assert(seq![92u8] + c2 =~= c);
        } else if b < 32 {
            let hi = (b / 16) as nat;
            let lo = (b % 16) as nat;
            assert(s[0] == 92 && s[1] == 117 && s[2] == 48 && s[3] == 48);
            assert(s[4] == spec_hex_digit(hi));
            assert(s[5] == spec_hex_digit(lo));
            assert(s.len() >= 6);
            assert(spec_hex_val(48u8) == Some(0nat));
            assert(hi < 2);
            assert(lo < 16);
            assert(spec_hex_val(spec_hex_digit(hi)) == Some(hi));
            assert(spec_hex_val(spec_hex_digit(lo)) == Some(lo));
            let code = ((0nat * 16 + 0nat) * 16 + hi) * 16 + lo;
            assert(code == hi * 16 + lo);
            assert(code == b) by {
                assert(b / 16 * 16 + b % 16 == b);
            }
            assert(code < 128);
            assert(s.skip(6) =~= tail);
            assert(seq![code as u8] + c2 =~= c);
        } else {
            assert(s[0] == b);
            assert(b != 34 && b != 92);
            assert(s.drop_first() =~= tail);
            assert(seq![b] + c2 =~= c);
        }
    }
}

/// Parsing the canonical decimal text of `i` stops exactly at its end.
proof fn lemma_parse_int_of_write(i: int, rest: Seq<u8>)
    requires
        i64::MIN <= i <= i64::MAX,
        rest.len() == 0 || !is_digit(rest[0]),
    ensures
        spec_parse_int(spec_write_int(i) + rest) == Some((i, rest)),
{
    let s = spec_write_int(i) + rest;
    if i < 0 {
        let mag = (-i) as nat;
        let digits = spec_dec_digits(mag);
        lemma_dec_digits_all_digits(mag);
        lemma_digits_value_of_dec_digits(mag);
        assert(spec_write_int(i) == seq![45u8] + digits);
        assert(s[0] == 45);
        let t = s.drop_first();
        assert(t =~= digits + rest);
        assert(forall|k: int| 0 <= k < digits.len() ==> is_digit(#[trigger] t[k]));
        if digits.len() < t.len() {
            assert(t[digits.len() as int] == rest[0]);
        }
        lemma_digit_run_value(t, digits.len() as int);
        assert(spec_digit_run(t) == digits.len());
        assert(t.subrange(0, digits.len() as int) =~= digits);
        assert(spec_digits_value(digits) == mag);
        assert(mag <= neg_bound());
        assert(t.skip(digits.len() as int) =~= rest);
        assert(-(mag as int) == i);
    } else {
        let digits = spec_dec_digits(i as nat);
        lemma_dec_digits_all_digits(i as nat);
        lemma_digits_value_of_dec_digits(i as nat);
        assert(s =~= digits + rest);
        assert(s[0] == digits[0]);
        assert(is_digit(s[0]));
        assert(s[0] != 45);
        assert(forall|k: int| 0 <= k < digits.len() ==> is_digit(#[trigger] s[k]));
        if digits.len() < s.len() {
            assert(s[digits.len() as int] == rest[0]);
        }
        lemma_digit_run_value(s, digits.len() as int);
        assert(s.subrange(0, digits.len() as int) =~= digits);
        assert(s.skip(digits.len() as int) =~= rest);
    }
}

/// Parsing the writer's text of `v`, with anything non-numeric appended,
/// yields `v` and stops exactly at the end of the text.
#[verifier::rlimit(100)]
proof fn lemma_parse_of_write(v: JsonVal, rest: Seq<u8>, fuel: nat)
    requires
        wf_json(v),
        fuel >= spec_write(v).len() + 1,
        rest.len() == 0 || !is_digit(rest[0]),
    ensures
        spec_parse_val(spec_write(v) + rest, fuel) == Some((v, rest)),
    decreases v,
{
    let w = spec_write(v);
    let s = w + rest;
    lemma_write_starts(v);
    assert(s[0] == w[0]);
    assert(!is_ws(s[0]));
    lemma_skip_ws_id(s);
    assert(fuel > 0);
    match v {
        JsonVal::Null => {
            assert(s[0] == 110 && s[1] == 117 && s[2] == 108 && s[3] == 108);
            assert(s.len() >= 4);
            assert(s.skip(4) =~= rest);
        },
        JsonVal::Bool(b) => {
            if b {
                assert(s[0] == 116 && s[1] == 114 && s[2] == 117 && s[3] == 101);
                assert(s.skip(4) =~= rest);
            } else {
                assert(s[0] == 102 && s[1] == 97 && s[2] == 108 && s[3] == 115 && s[4] == 101);
                assert(s.skip(5) =~= rest);
            }
        },
        JsonVal::Int(i) => {
            lemma_parse_int_of_write(i, rest);
            assert(s =~= spec_write_int(i) + rest);
            assert(s[0] == 45 || is_digit(s[0]));
            assert(s[0] != 110 && s[0] != 116 && s[0] != 102);
        },
        JsonVal::Str(c) => {
            assert(w == seq![34u8] + spec_escape(c) + seq![34u8]);
            assert(s[0] == 34);
            assert(!is_digit(34u8) && 34u8 != 45);
            lemma_parse_string_of_escape(c, rest);
            assert(s.drop_first() =~= spec_escape(c) + seq![34u8] + rest);
        },
        JsonVal::Arr(elems) => {
            assert(w == seq![91u8] + spec_write_items(elems, 0) + seq![93u8]);
            assert(s[0] == 91);
            assert(!is_digit(91u8));
            let inner = spec_write_items(elems, 0) + seq![93u8] + rest;
            assert(s.drop_first() =~= inner);
            if elems.len() == 0 {
                assert(elems =~= Seq::<JsonVal>::empty());
                assert(spec_write_items(elems, 0) =~= Seq::<u8>::empty());
                assert(inner =~= seq![93u8] + rest);
                assert(inner[0] == 93);
                assert(!is_ws(93u8));
                lemma_skip_ws_id(inner);
                assert(inner.drop_first() =~= rest);
            } else {
                lemma_write_starts(elems[0]);
                assert(spec_write_items(elems, 0)[0] == spec_write(elems[0])[0]);
                assert(inner[0] == spec_write(elems[0])[0]);
                assert(is_value_start(inner[0]));
                assert(!is_ws(inner[0]));
                lemma_skip_ws_id(inner);
                assert(inner[0] != 93);
                lemma_parse_items_of_write(elems, 0, rest, (fuel - 1) as nat);
                assert(elems.skip(0) =~= elems);
            }
        },
        JsonVal::Obj(fields) => {
            assert(w == seq![123u8] + spec_write_fields(fields, 0) + seq![125u8]);
            assert(s[0] == 123);
            assert(!is_digit(123u8));
            let inner = spec_write_fields(fields, 0) + seq![125u8] + rest;
            assert(s.drop_first() =~= inner);
            if fields.len() == 0 {
                assert(fields =~= Seq::<(Seq<u8>, JsonVal)>::empty());
                assert(spec_write_fields(fields, 0) =~= Seq::<u8>::empty());
                assert(inner =~= seq![125u8] + rest);
                assert(inner[0] == 125);
                assert(!is_ws(125u8));
                lemma_skip_ws_id(inner);
                assert(inner.drop_first() =~= rest);
            } else {
                assert(spec_write_fields(fields, 0)[0] == spec_write_one_field(fields[0])[0]);
                assert(spec_write_one_field(fields[0])[0] == 34);
                assert(inner[0] == 34);
                assert(!is_ws(34u8));
                lemma_skip_ws_id(inner);
                assert(inner[0] != 125);
                lemma_parse_fields_of_write(fields, 0, rest, (fuel - 1) as nat);
                assert(fields.skip(0) =~= fields);
            }
        },
    }
}

/// As [`lemma_parse_of_write`], for the elements of an array from index
/// `i` on, up to and including the closing bracket.
#[verifier::rlimit(100)]
proof fn lemma_parse_items_of_write(elems: Seq<JsonVal>, i: int, rest: Seq<u8>, fuel: nat)
    requires
        0 <= i < elems.len(),
        forall|k: int| 0 <= k < elems.len() ==> wf_json(#[trigger] elems[k]),
        fuel >= spec_write_items(elems, i).len() + 2,
    ensures
        spec_parse_arr_items(spec_write_items(elems, i) + seq![93u8] + rest, fuel) == Some(
            (elems.skip(i), rest),
        ),
    decreases elems, elems.len() - i,
{
    let wi = spec_write_items(elems, i);
    let s = wi + seq![93u8] + rest;
    let wv = spec_write(elems[i]);
    lemma_write_starts(elems[i]);
    assert(fuel > 0);
    if i == elems.len() - 1 {
        assert(wi == wv);
        let tail = seq![93u8] + rest;
        assert(s =~= wv + tail);
        assert(tail[0] == 93);
        assert(!is_digit(93u8));
        lemma_parse_of_write(elems[i], tail, (fuel - 1) as nat);
        assert(spec_parse_val(s, (fuel - 1) as nat) == Some((elems[i], tail)));
        lemma_skip_ws_id(tail);
        assert(tail.drop_first() =~= rest);
        assert(seq![elems[i]] =~= elems.skip(i));
    } else {
        assert(wi == wv + seq![44u8] + spec_write_items(elems, i + 1));
        let tail = seq![44u8] + spec_write_items(elems, i + 1) + seq![93u8] + rest;
        assert(s =~= wv + tail);
        assert(tail[0] == 44);
        assert(!is_digit(44u8));
        assert(fuel - 1 >= wv.len() + 1);
        lemma_parse_of_write(elems[i], tail, (fuel - 1) as nat);
        assert(spec_parse_val(s, (fuel - 1) as nat) == Some((elems[i], tail)));
        lemma_skip_ws_id(tail);
        let after = spec_write_items(elems, i + 1) + seq![93u8] + rest;
        assert(tail.drop_first() =~= after);
        assert(fuel - 1 >= spec_write_items(elems, i + 1).len() + 2);
        lemma_parse_items_of_write(elems, i + 1, rest, (fuel - 1) as nat);
        assert(spec_parse_arr_items(after, (fuel - 1) as nat) == Some((elems.skip(i + 1), rest)));
        assert(seq![elems[i]] + elems.skip(i + 1) =~= elems.skip(i));
    }
}

/// As [`lemma_parse_of_write`], for the fields of an object from index
/// `i` on, up to and including the closing brace.
#[verifier::rlimit(100)]
#[verifier::spinoff_prover]
proof fn lemma_parse_fields_of_write(
    fields: Seq<(Seq<u8>, JsonVal)>,
    i: int,
    rest: Seq<u8>,
    fuel: nat,
)
    requires
        0 <= i < fields.len(),
        forall|k: int| 0 <= k < fields.len() ==> wf_json(#[trigger] fields[k].1),
        fuel >= spec_write_fields(fields, i).len() + 2,
    ensures
        spec_parse_obj_items(spec_write_fields(fields, i) + seq![125u8] + rest, fuel) == Some(
            (fields.skip(i), rest),
        ),
    decreases fields, fields.len() - i,
{
    let wi = spec_write_fields(fields, i);
    let s = wi + seq![125u8] + rest;
    let key = fields[i].0;
    let val = fields[i].1;
    let wf = spec_write_one_field(fields[i]);
    let wv = spec_write(val);
    lemma_write_starts(val);
    assert(fuel > 0);
    assert(wf == seq![34u8] + spec_escape(key) + seq![34u8, 58] + wv);
    let tail: Seq<u8> = if i == fields.len() - 1 {
        seq![125u8] + rest
    } else {
        seq![44u8] + spec_write_fields(fields, i + 1) + seq![125u8] + rest
    };
    assert(s =~= wf + tail) by {
        if i == fields.len() - 1 {
            assert(wi == wf);
        } else {
            assert(wi == wf + seq![44u8] + spec_write_fields(fields, i + 1));
        }
    }
    assert(s[0] == 34);
    assert(!is_ws(34u8));
    lemma_skip_ws_id(s);
    // the key string
    let after_key = seq![58u8] + wv + tail;
    assert(s.drop_first() =~= spec_escape(key) + seq![34u8] + after_key);
    lemma_parse_string_of_escape(key, after_key);
    // the colon
    assert(after_key[0] == 58);
    assert(!is_ws(58u8));
    lemma_skip_ws_id(after_key);
    assert(after_key.drop_first() =~= wv + tail);
    // the value
    assert(tail[0] == 125 || tail[0] == 44);
    assert(!is_digit(tail[0]));
    assert(fuel - 1 >= wv.len() + 1);
    lemma_parse_of_write(val, tail, (fuel - 1) as nat);
    assert(spec_parse_val(wv + tail, (fuel - 1) as nat) == Some((val, tail)));
    lemma_skip_ws_id(tail);
    if i == fields.len() - 1 {
        assert(tail.drop_first() =~= rest);
        assert(seq![(key, val)] =~= fields.skip(i));
    } else {
        let after = spec_write_fields(fields, i + 1) + seq![125u8] + rest;
        assert(tail.drop_first() =~= after);
        assert(fuel - 1 >= spec_write_fields(fields, i + 1).len() + 2);
        lemma_parse_fields_of_write(fields, i + 1, rest, (fuel - 1) as nat);
        assert(spec_parse_obj_items(after, (fuel - 1) as nat) == Some(
            (fields.skip(i + 1), rest),
        ));
        assert(seq![(key, val)] + fields.skip(i + 1) =~= fields.skip(i));
    }
}

/// Round trip: parsing the written text of any well-formed document
/// yields a document deep-equal to the original.
pub proof fn lemma_json_round_trip(v: JsonVal)
    requires
        wf_json(v),
    ensures
        spec_parse_json(spec_write(v)) == Some(v),
{
    let s = spec_write(v);
    lemma_write_starts(v);
    lemma_parse_of_write(v, Seq::empty(), s.len() + 1);
    assert(s + Seq::<u8>::empty() =~= s);
    assert(spec_parse_val(s, s.len() + 1) == Some((v, Seq::<u8>::empty())));
}

/// Parse a whole document.
pub fn parse_json(buf: &Vec<u8>) -> (r: Option<JsonValue>)
    requires
        buf@.len() < u64::MAX,
    ensures
        match spec_parse_json(buf@) {
            Some(sv) => match r {
                Some(v) => v@ == sv,
                None => false,
            },
            None => r is None,
        },
{
    let fuel: u64 = buf.len() as u64 + 1;
    proof {
        assert(buf@.skip(0) =~= buf@);
    }
    match parse_value(buf, 0, fuel) {
        Some((v, p)) => {
            let q = skip_ws_from(buf, p);
            if q == buf.len() {
                Some(v)
            } else {
                proof {
                    assert(buf@.skip(q as int).len() > 0);
                }
                None
            }
        },
        None => None,
    }
}

} // verus!
