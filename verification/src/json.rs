//! A model of JSON values and a canonical serializer.
//!
//! A value's string and number contents are held as raw UTF-8 bytes; a number
//! is kept as the literal token text, so serialization never needs floating
//! point and reproduces a value byte for byte.

use vstd::prelude::*;

verus! {

broadcast use vstd::std_specs::vec::axiom_vec_index_decreases;

/// ASCII bytes used by the JSON grammar.
pub const B_QUOTE: u8 = 34;
pub const B_BACKSLASH: u8 = 92;
pub const B_COMMA: u8 = 44;
pub const B_COLON: u8 = 58;
pub const B_LBRACKET: u8 = 91;
pub const B_RBRACKET: u8 = 93;
pub const B_LBRACE: u8 = 123;
pub const B_RBRACE: u8 = 125;
pub const B_U: u8 = 117;
pub const B_ZERO: u8 = 48;
pub const B_LOWER_A: u8 = 97;

/// A JSON value. String contents are unescaped UTF-8 bytes; a number is the
/// raw token (for example `-12.5e3`) as it appears on the wire.
pub enum JsonValue {
    Null,
    Bool(bool),
    Num(Vec<u8>),
    Str(Vec<u8>),
    Arr(Vec<JsonValue>),
    Obj(Vec<(Vec<u8>, JsonValue)>),
}

/// Canonical serialization of one value, as a byte sequence.
pub open spec fn spec_ser(v: JsonValue) -> Seq<u8>
    decreases v,
{
    match v {
        JsonValue::Null => seq![110u8, 117, 108, 108],
        JsonValue::Bool(b) => if b {
            seq![116u8, 114, 117, 101]
        } else {
            seq![102u8, 97, 108, 115, 101]
        },
        JsonValue::Num(tok) => tok@,
        JsonValue::Str(s) => seq![B_QUOTE] + spec_escape(s@) + seq![B_QUOTE],
        JsonValue::Arr(items) => seq![B_LBRACKET] + spec_ser_list(items@) + seq![B_RBRACKET],
        JsonValue::Obj(fields) => seq![B_LBRACE] + spec_ser_fields(fields@) + seq![B_RBRACE],
    }
}

/// Comma-separated serialization of a sequence of values.
pub open spec fn spec_ser_list(items: Seq<JsonValue>) -> Seq<u8>
    decreases items,
{
    if items.len() == 0 {
        Seq::<u8>::empty()
    } else if items.len() == 1 {
        spec_ser(items[0])
    } else {
        spec_ser(items[0]) + seq![B_COMMA] + spec_ser_list(items.drop_first())
    }
}

/// Comma-separated serialization of an object's fields.
pub open spec fn spec_ser_fields(fields: Seq<(Vec<u8>, JsonValue)>) -> Seq<u8>
    decreases fields,
{
    if fields.len() == 0 {
        Seq::<u8>::empty()
    } else if fields.len() == 1 {
        spec_ser_field(fields[0])
    } else {
        spec_ser_field(fields[0]) + seq![B_COMMA] + spec_ser_fields(fields.drop_first())
    }
}

/// One `"key":value` pair.
pub open spec fn spec_ser_field(field: (Vec<u8>, JsonValue)) -> Seq<u8>
    decreases field,
{
    seq![B_QUOTE] + spec_escape(field.0@) + seq![B_QUOTE, B_COLON] + spec_ser(field.1)
}

/// Escaped form of string contents: `"` and `\` get a backslash, control
/// bytes become `\u00XX`, everything else passes through.
pub open spec fn spec_escape(s: Seq<u8>) -> Seq<u8>
    decreases s.len(),
{
    if s.len() == 0 {
        Seq::<u8>::empty()
    } else {
        spec_escape_byte(s[0]) + spec_escape(s.drop_first())
    }
}

/// Escaped form of a single content byte.
pub open spec fn spec_escape_byte(b: u8) -> Seq<u8> {
    if b == B_QUOTE {
        seq![B_BACKSLASH, B_QUOTE]
    } else if b == B_BACKSLASH {
        seq![B_BACKSLASH, B_BACKSLASH]
    } else if b < 0x20 {
        seq![B_BACKSLASH, B_U, B_ZERO, B_ZERO, spec_hex_digit((b >> 4) as u8), spec_hex_digit((b & 0xf) as u8)]
    } else {
        seq![b]
    }
}

/// Lower-case hexadecimal digit for a value below 16.
pub open spec fn spec_hex_digit(n: u8) -> u8 {
    if n < 10 {
        (B_ZERO + n) as u8
    } else {
        (B_LOWER_A + (n - 10)) as u8
    }
}

/// Escaping distributes over appending one byte.
pub proof fn lemma_escape_snoc(s: Seq<u8>, b: u8)
    ensures
        spec_escape(s.push(b)) == spec_escape(s) + spec_escape_byte(b),
    decreases s.len(),
{
    if s.len() == 0 {
        assert(s.push(b)[0] == b);
        assert(s.push(b).drop_first() =~= Seq::<u8>::empty());
        assert(spec_escape(s.push(b)) == spec_escape_byte(b) + spec_escape(Seq::<u8>::empty()));
        assert(spec_escape_byte(b) + spec_escape(Seq::<u8>::empty()) =~= spec_escape_byte(b));
        assert(spec_escape(s) + spec_escape_byte(b) =~= spec_escape_byte(b));
    } else {
        assert(s.push(b).drop_first() =~= s.drop_first().push(b));
        lemma_escape_snoc(s.drop_first(), b);
        assert(s.push(b)[0] == s[0]);
        assert(spec_escape(s.push(b)) =~= spec_escape(s) + spec_escape_byte(b));
    }
}

/// List serialization distributes over appending one value to a
/// non-empty list.
pub proof fn lemma_ser_list_snoc(items: Seq<JsonValue>, v: JsonValue)
    requires
        items.len() >= 1,
    ensures
        spec_ser_list(items.push(v)) == spec_ser_list(items) + seq![B_COMMA] + spec_ser(v),
    decreases items.len(),
{
    if items.len() == 1 {
        assert(items.push(v).drop_first() =~= seq![v]);
        assert(spec_ser_list(seq![v]) == spec_ser(v));
        assert(spec_ser_list(items.push(v)) =~= spec_ser(items[0]) + seq![B_COMMA] + spec_ser(v));
        assert(spec_ser_list(items) == spec_ser(items[0]));
    } else {
        assert(items.push(v).drop_first() =~= items.drop_first().push(v));
        lemma_ser_list_snoc(items.drop_first(), v);
        assert(spec_ser_list(items.push(v)) =~= spec_ser_list(items) + seq![B_COMMA] + spec_ser(v));
    }
}

/// Field serialization distributes over appending one field to a
/// non-empty field list.
pub proof fn lemma_ser_fields_snoc(fields: Seq<(Vec<u8>, JsonValue)>, f: (Vec<u8>, JsonValue))
    requires
        fields.len() >= 1,
    ensures
        spec_ser_fields(fields.push(f)) == spec_ser_fields(fields) + seq![B_COMMA]
            + spec_ser_field(f),
    decreases fields.len(),
{
    if fields.len() == 1 {
        assert(fields.push(f).drop_first() =~= seq![f]);
        assert(spec_ser_fields(seq![f]) == spec_ser_field(f));
        assert(spec_ser_fields(fields.push(f)) =~= spec_ser_field(fields[0]) + seq![B_COMMA]
            + spec_ser_field(f));
        assert(spec_ser_fields(fields) == spec_ser_field(fields[0]));
    } else {
        assert(fields.push(f).drop_first() =~= fields.drop_first().push(f));
        lemma_ser_fields_snoc(fields.drop_first(), f);
        assert(spec_ser_fields(fields.push(f)) =~= spec_ser_fields(fields) + seq![B_COMMA]
            + spec_ser_field(f));
    }
}

/// Appends the escaped, quoted form of `s` to `out`.
pub fn ser_string(s: &Vec<u8>, out: &mut Vec<u8>)
    ensures
        final(out)@ == old(out)@ + seq![B_QUOTE] + spec_escape(s@) + seq![B_QUOTE],
{
    out.push(B_QUOTE);
    let ghost base = out@;
    let mut i: usize = 0;
    while i < s.len()
        invariant
            i <= s.len(),
            out@ == base + spec_escape(s@.take(i as int)),
        decreases s.len() - i,
    {
        let b = s[i];
        if b == B_QUOTE || b == B_BACKSLASH {
            out.push(B_BACKSLASH);
            out.push(b);
        } else if b < 0x20 {
            proof {
                assert(b >> 4 < 16 && b & 0xf < 16) by (bit_vector);
            }
            out.push(B_BACKSLASH);
            out.push(B_U);
            out.push(B_ZERO);
            out.push(B_ZERO);
            out.push(hex_digit(b >> 4));
            out.push(hex_digit(b & 0xf));
        } else {
            out.push(b);
        }
        proof {
            lemma_escape_snoc(s@.take(i as int), s@[i as int]);
            assert(s@.take(i + 1) =~= s@.take(i as int).push(s@[i as int]));
        }
        i = i + 1;
    }
    out.push(B_QUOTE);
    proof {
        assert(s@.take(s@.len() as int) =~= s@);
        assert(out@ =~= old(out)@ + seq![B_QUOTE] + spec_escape(s@) + seq![B_QUOTE]);
    }
}

/// Lower-case hexadecimal digit for a value below 16.
pub fn hex_digit(n: u8) -> (r: u8)
    requires
        n < 16,
    ensures
        r == spec_hex_digit(n),
{
    if n < 10 {
        B_ZERO + n
    } else {
        B_LOWER_A + (n - 10)
    }
}

/// Appends the canonical serialization of `v` to `out`.
pub fn ser_value(v: &JsonValue, out: &mut Vec<u8>)
    ensures
        final(out)@ == old(out)@ + spec_ser(*v),
    decreases *v,
{
    match v {
        JsonValue::Null => {
            out.push(110);
            out.push(117);
            out.push(108);
            out.push(108);
            proof {
                assert(out@ =~= old(out)@ + spec_ser(*v));
            }
        },
        JsonValue::Bool(b) => {
            if *b {
                out.push(116);
                out.push(114);
                out.push(117);
                out.push(101);
            } else {
                out.push(102);
                out.push(97);
                out.push(108);
                out.push(115);
                out.push(101);
            }
            proof {
                assert(out@ =~= old(out)@ + spec_ser(*v));
            }
        },
        JsonValue::Num(tok) => {
            let mut i: usize = 0;
            while i < tok.len()
                invariant
                    i <= tok.len(),
                    out@ == old(out)@ + tok@.take(i as int),
                decreases tok.len() - i,
            {
                out.push(tok[i]);
                proof {
                    assert(tok@.take(i + 1) =~= tok@.take(i as int).push(tok@[i as int]));
                }
                i = i + 1;
            }
            proof {
                assert(tok@.take(tok@.len() as int) =~= tok@);
            }
        },
        JsonValue::Str(s) => {
            ser_string(s, out);
            proof {
                assert(out@ =~= old(out)@ + spec_ser(*v));
            }
        },
        JsonValue::Arr(items) => {
            out.push(B_LBRACKET);
            let ghost base = out@;
            let mut i: usize = 0;
            while i < items.len()
                invariant
                    i <= items.len(),
                    out@ == base + spec_ser_list(items@.take(i as int)),
                    *v == JsonValue::Arr(*items),
                decreases items.len() - i,
            {
                if i > 0 {
                    out.push(B_COMMA);
                }
                proof {
                    assert(*v == JsonValue::Arr(*items));
                    assert(decreases_to!(*v => v->Arr_0));
                    assert(decreases_to!(*items => items@[i as int]));
                    assert(decreases_to!(*v => items@[i as int]));
                }
                ser_value(&items[i], out);
                proof {
                    if i == 0 {
                        assert(items@.take(1) =~= seq![items@[0]]);
                        assert(spec_ser_list(items@.take(1)) == spec_ser(items@[0]));
                        assert(out@ =~= base + spec_ser_list(items@.take(1)));
                    } else {
                        lemma_ser_list_snoc(items@.take(i as int), items@[i as int]);
                        assert(items@.take(i + 1) =~= items@.take(i as int).push(items@[i as int]));
                        assert(out@ =~= base + spec_ser_list(items@.take(i + 1)));
                    }
                }
                i = i + 1;
            }
            out.push(B_RBRACKET);
            proof {
                assert(items@.take(items@.len() as int) =~= items@);
                assert(out@ =~= old(out)@ + spec_ser(*v));
            }
        },
        JsonValue::Obj(fields) => {
            out.push(B_LBRACE);
            let ghost base = out@;
            let mut i: usize = 0;
            while i < fields.len()
                invariant
                    i <= fields.len(),
                    out@ == base + spec_ser_fields(fields@.take(i as int)),
                    *v == JsonValue::Obj(*fields),
                decreases fields.len() - i,
            {
                if i > 0 {
                    out.push(B_COMMA);
                }
                ser_string(&fields[i].0, out);
                out.push(B_COLON);
                proof {
                    assert(*v == JsonValue::Obj(*fields));
                    assert(decreases_to!(*v => v->Obj_0));
                    assert(decreases_to!(*fields => fields@[i as int]));
                    assert(decreases_to!(*v => fields@[i as int].1));
                }
                ser_value(&fields[i].1, out);
                proof {
                    assert(fields@[i as int] == (fields@[i as int].0, fields@[i as int].1));
                    if i == 0 {
                        assert(fields@.take(1) =~= seq![fields@[0]]);
                        assert(spec_ser_fields(fields@.take(1)) == spec_ser_field(fields@[0]));
                        assert(out@ =~= base + spec_ser_fields(fields@.take(1)));
                    } else {
                        lemma_ser_fields_snoc(fields@.take(i as int), fields@[i as int]);
                        assert(fields@.take(i + 1) =~= fields@.take(i as int).push(
                            fields@[i as int]));
                        assert(out@ =~= base + spec_ser_fields(fields@.take(i + 1)));
                    }
                }
                i = i + 1;
            }
            out.push(B_RBRACE);
            proof {
                assert(fields@.take(fields@.len() as int) =~= fields@);
                assert(out@ =~= old(out)@ + spec_ser(*v));
            }
        },
    }
}

/// The canonical serialization of `v` as a fresh byte vector.
pub fn serialize_value(v: &JsonValue) -> (r: Vec<u8>)
    ensures
        r@ == spec_ser(*v),
{
    let mut out: Vec<u8> = Vec::new();
    ser_value(v, &mut out);
    out
}

/// Serialization of a params-style array: brackets around the list.
pub open spec fn spec_ser_array(items: Seq<JsonValue>) -> Seq<u8>
    decreases items,
{
    seq![B_LBRACKET] + spec_ser_list(items) + seq![B_RBRACKET]
}

/// Appends the serialization of `items` as a JSON array to `out`.
pub fn ser_array(items: &Vec<JsonValue>, out: &mut Vec<u8>)
    ensures
        final(out)@ == old(out)@ + spec_ser_array(items@),
{
    out.push(B_LBRACKET);
    let ghost base = out@;
    let mut i: usize = 0;
    while i < items.len()
        invariant
            i <= items.len(),
            out@ == base + spec_ser_list(items@.take(i as int)),
        decreases items.len() - i,
    {
        if i > 0 {
            out.push(B_COMMA);
        }
        ser_value(&items[i], out);
        proof {
            if i == 0 {
                assert(items@.take(1) =~= seq![items@[0]]);
                assert(spec_ser_list(items@.take(1)) == spec_ser(items@[0]));
                assert(out@ =~= base + spec_ser_list(items@.take(1)));
            } else {
                lemma_ser_list_snoc(items@.take(i as int), items@[i as int]);
                assert(items@.take(i + 1) =~= items@.take(i as int).push(items@[i as int]));
                assert(out@ =~= base + spec_ser_list(items@.take(i + 1)));
            }
        }
        i = i + 1;
    }
    out.push(B_RBRACKET);
    proof {
        assert(items@.take(items@.len() as int) =~= items@);
        assert(out@ =~= old(out)@ + spec_ser_array(items@));
    }
}

/// Decimal digits of `n`, most significant first.
pub open spec fn spec_dec(n: nat) -> Seq<u8>
    decreases n,
{
    if n < 10 {
        seq![(B_ZERO + n) as u8]
    } else {
        spec_dec(n / 10) + seq![(B_ZERO + n % 10) as u8]
    }
}

/// Appends the decimal form of `n` to `out`.
pub fn ser_u64(n: u64, out: &mut Vec<u8>)
    ensures
        final(out)@ == old(out)@ + spec_dec(n as nat),
    decreases n,
{
    if n < 10 {
        out.push(B_ZERO + (n as u8));
        proof {
            assert(out@ =~= old(out)@ + spec_dec(n as nat));
        }
    } else {
        ser_u64(n / 10, out);
        out.push(B_ZERO + ((n % 10) as u8));
        proof {
            assert(out@ =~= old(out)@ + spec_dec(n as nat));
        }
    }
}

/// A fresh vector with the same bytes.
pub fn copy_bytes(v: &Vec<u8>) -> (r: Vec<u8>)
    ensures
        r@ == v@,
{
    let mut out: Vec<u8> = Vec::new();
    let mut i: usize = 0;
    while i < v.len()
        invariant
            i <= v.len(),
            out@ == v@.take(i as int),
        decreases v.len() - i,
    {
        out.push(v[i]);
        proof {
            assert(v@.take(i + 1) =~= v@.take(i as int).push(v@[i as int]));
        }
        i = i + 1;
    }
    proof {
        assert(v@.take(v@.len() as int) =~= v@);
    }
    out
}

/// A deep copy of `v`. The copy serializes to the same bytes, which is the
/// notion of value equality the proxy works with.
pub fn clone_value(v: &JsonValue) -> (r: JsonValue)
    ensures
        spec_ser(r) == spec_ser(*v),
    decreases *v,
{
    match v {
        JsonValue::Null => JsonValue::Null,
        JsonValue::Bool(b) => JsonValue::Bool(*b),
        JsonValue::Num(tok) => JsonValue::Num(copy_bytes(tok)),
        JsonValue::Str(s) => JsonValue::Str(copy_bytes(s)),
        JsonValue::Arr(items) => {
            let mut out: Vec<JsonValue> = Vec::new();
            let mut i: usize = 0;
            while i < items.len()
                invariant
                    i <= items.len(),
                    out@.len() == i,
                    spec_ser_list(out@) == spec_ser_list(items@.take(i as int)),
                    *v == JsonValue::Arr(*items),
                decreases items.len() - i,
            {
                proof {
                    assert(decreases_to!(*v => v->Arr_0));
                    assert(decreases_to!(*items => items@[i as int]));
                    assert(decreases_to!(*v => items@[i as int]));
                }
                let c = clone_value(&items[i]);
                proof {
                    if i == 0 {
                        assert(items@.take(1) =~= seq![items@[0]]);
                        assert(out@.push(c) =~= seq![c]);
                        assert(spec_ser_list(seq![c]) == spec_ser(c));
                    } else {
                        lemma_ser_list_snoc(out@, c);
                        lemma_ser_list_snoc(items@.take(i as int), items@[i as int]);
                        assert(items@.take(i + 1) =~= items@.take(i as int).push(items@[i as int]));
                    }
                }
                out.push(c);
                i = i + 1;
            }
            proof {
                assert(items@.take(items@.len() as int) =~= items@);
            }
            JsonValue::Arr(out)
        },
        JsonValue::Obj(fields) => {
            let mut out: Vec<(Vec<u8>, JsonValue)> = Vec::new();
            let mut i: usize = 0;
            while i < fields.len()
                invariant
                    i <= fields.len(),
                    out@.len() == i,
                    spec_ser_fields(out@) == spec_ser_fields(fields@.take(i as int)),
                    *v == JsonValue::Obj(*fields),
                decreases fields.len() - i,
            {
                proof {
                    assert(decreases_to!(*v => v->Obj_0));
                    assert(decreases_to!(*fields => fields@[i as int]));
                    assert(decreases_to!(*v => fields@[i as int].1));
                }
                let k = copy_bytes(&fields[i].0);
                let c = clone_value(&fields[i].1);
                proof {
                    assert(fields@[i as int] == (fields@[i as int].0, fields@[i as int].1));
                    assert(spec_ser_field((k, c)) == spec_ser_field(fields@[i as int]));
                    if i == 0 {
                        assert(fields@.take(1) =~= seq![fields@[0]]);
                        assert(out@.push((k, c)) =~= seq![(k, c)]);
                        assert(spec_ser_fields(seq![(k, c)]) == spec_ser_field((k, c)));
                    } else {
                        lemma_ser_fields_snoc(out@, (k, c));
                        lemma_ser_fields_snoc(fields@.take(i as int), fields@[i as int]);
                        assert(fields@.take(i + 1) =~= fields@.take(i as int).push(
                            fields@[i as int]));
                    }
                }
                out.push((k, c));
                i = i + 1;
            }
            proof {
                assert(fields@.take(fields@.len() as int) =~= fields@);
            }
            JsonValue::Obj(out)
        },
    }
}

/// Whether two byte vectors hold the same bytes.
pub fn bytes_eq(a: &Vec<u8>, b: &Vec<u8>) -> (r: bool)
    ensures
        r == (a@ == b@),
{
    if a.len() != b.len() {
        return false;
    }
    let mut i: usize = 0;
    while i < a.len()
        invariant
            a@.len() == b@.len(),
            i <= a@.len(),
            forall|j: int| 0 <= j < i ==> a@[j] == b@[j],
        decreases a@.len() - i,
    {
        if a[i] != b[i] {
            return false;
        }
        i = i + 1;
    }
    proof {
        assert(a@ =~= b@);
    }
    true
}

} // verus!
