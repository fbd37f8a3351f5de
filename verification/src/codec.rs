//! Canonical binary payload codec.
//!
//! A payload is encoded into a deterministic byte sequence: the same logical
//! payload always encodes to the same bytes, so hashes and signatures over the
//! encoding are reproducible. Integers are little-endian and fixed-width;
//! strings are a character count followed by one 32-bit scalar per character;
//! sequences are a count followed by the elements. `decode` accepts exactly
//! the encodings that `encode` produces and is its inverse.

use vstd::prelude::*;

use crate::errors::{BuildError, DecodeError};
use crate::model::{
    Action, ActionModel, LatLong, ProductCreateAction, ProductCreateActionModel,
    ProductDeleteAction, ProductDeleteActionModel, ProductPayload, ProductPayloadModel,
    ProductType, ProductUpdateAction, ProductUpdateActionModel, PropertyData, PropertyDataModel,
    PropertyValue, PropertyValueModel, view_data, view_prop, view_props, lemma_view_props,
};

verus! {

/// The four little-endian bytes of a 32-bit integer.
pub open spec fn u32_le(n: u32) -> Seq<u8> {
    seq![
        (n & 0xff) as u8,
        ((n >> 8) & 0xff) as u8,
        ((n >> 16) & 0xff) as u8,
        ((n >> 24) & 0xff) as u8,
    ]
}

/// The eight little-endian bytes of a 64-bit integer.
pub open spec fn u64_le(n: u64) -> Seq<u8> {
    u32_le((n & 0xffff_ffff) as u32) + u32_le(((n >> 32) & 0xffff_ffff) as u32)
}

/// Reads a 32-bit little-endian integer at `pos`; `None` past the end.
pub open spec fn dec_u32_at(b: Seq<u8>, pos: int) -> Option<(u32, int)> {
    if 0 <= pos && pos + 4 <= b.len() {
        let b0 = b[pos] as u32;
        let b1 = b[pos + 1] as u32;
        let b2 = b[pos + 2] as u32;
        let b3 = b[pos + 3] as u32;
        Some((b0 | (b1 << 8) | (b2 << 16) | (b3 << 24), pos + 4))
    } else {
        None
    }
}

/// Reads a 64-bit little-endian integer at `pos`; `None` past the end.
pub open spec fn dec_u64_at(b: Seq<u8>, pos: int) -> Option<(u64, int)> {
    match dec_u32_at(b, pos) {
        Option::None => Option::None,
        Option::Some((lo, p1)) => match dec_u32_at(b, p1) {
            Option::None => Option::None,
            Option::Some((hi, p2)) => Option::Some(((lo as u64) | ((hi as u64) << 32), p2)),
        },
    }
}

/// Decoding four encoded bytes inside a larger buffer yields the integer back.
pub proof fn lemma_dec_u32_at(b: Seq<u8>, pos: int, n: u32)
    requires
        0 <= pos,
        pos + 4 <= b.len(),
        b.subrange(pos, pos + 4) =~= u32_le(n),
    ensures
        dec_u32_at(b, pos) == Some((n, pos + 4)),
{
    assert(b[pos] == u32_le(n)[0]) by {
        assert(b.subrange(pos, pos + 4)[0] == b[pos]);
    }
    assert(b[pos + 1] == u32_le(n)[1]) by {
        assert(b.subrange(pos, pos + 4)[1] == b[pos + 1]);
    }
    assert(b[pos + 2] == u32_le(n)[2]) by {
        assert(b.subrange(pos, pos + 4)[2] == b[pos + 2]);
    }
    assert(b[pos + 3] == u32_le(n)[3]) by {
        assert(b.subrange(pos, pos + 4)[3] == b[pos + 3]);
    }
    assert((((n & 0xff) as u8) as u32) | ((((n >> 8) & 0xff) as u8) as u32) << 8 | ((((n >> 16)
        & 0xff) as u8) as u32) << 16 | ((((n >> 24) & 0xff) as u8) as u32) << 24 == n)
        by (bit_vector);
}

/// Decoding eight encoded bytes inside a larger buffer yields the integer back.
pub proof fn lemma_dec_u64_at(b: Seq<u8>, pos: int, n: u64)
    requires
        0 <= pos,
        pos + 8 <= b.len(),
        b.subrange(pos, pos + 8) =~= u64_le(n),
    ensures
        dec_u64_at(b, pos) == Some((n, pos + 8)),
{
    let lo = (n & 0xffff_ffff) as u32;
    let hi = ((n >> 32) & 0xffff_ffff) as u32;
    assert(b.subrange(pos, pos + 4) =~= u32_le(lo)) by {
        assert(forall|i: int|
            0 <= i < 4 ==> b.subrange(pos, pos + 8)[i] == #[trigger] b.subrange(pos, pos + 4)[i]);
    }
    assert(b.subrange(pos + 4, pos + 8) =~= u32_le(hi)) by {
        assert(forall|i: int|
            0 <= i < 4 ==> b.subrange(pos, pos + 8)[i + 4] == #[trigger] b.subrange(
                pos + 4,
                pos + 8,
            )[i]);
    }
    lemma_dec_u32_at(b, pos, lo);
    lemma_dec_u32_at(b, pos + 4, hi);
    assert(((((n & 0xffff_ffff) as u32) as u64) | ((((n >> 32) & 0xffff_ffff) as u32) as u64) << 32)
        == n) by (bit_vector);
}

/// Splitting a known subrange of a buffer into its two halves.
pub proof fn lemma_subrange_split(b: Seq<u8>, pos: int, s1: Seq<u8>, s2: Seq<u8>)
    requires
        0 <= pos,
        pos + s1.len() + s2.len() <= b.len(),
        b.subrange(pos, pos + s1.len() + s2.len()) =~= s1 + s2,
    ensures
        b.subrange(pos, pos + s1.len()) =~= s1,
        b.subrange(pos + s1.len(), pos + s1.len() + s2.len()) =~= s2,
{
    let whole = b.subrange(pos, pos + s1.len() + s2.len());
    assert forall|i: int| 0 <= i < s1.len() implies b.subrange(pos, pos + s1.len())[i] == s1[i] by {
        assert(whole[i] == (s1 + s2)[i]);
    }
    assert forall|i: int| 0 <= i < s2.len() implies b.subrange(
        pos + s1.len(),
        pos + s1.len() + s2.len(),
    )[i] == s2[i] by {
        assert(whole[s1.len() + i] == (s1 + s2)[s1.len() + i]);
    }
}

/// Whether a 32-bit value is a Unicode scalar value, i.e. the code of a char.
pub open spec fn is_scalar_u32(n: u32) -> bool {
    n < 0xD800 || (0xE000 <= n && n < 0x11_0000)
}

/// One 32-bit little-endian scalar per character, in order.
pub open spec fn enc_chars(s: Seq<char>) -> Seq<u8>
    decreases s.len(),
{
    if s.len() == 0 {
        Seq::empty()
    } else {
        u32_le(s[0] as u32) + enc_chars(s.drop_first())
    }
}

/// A character count followed by the characters.
pub open spec fn enc_str(s: Seq<char>) -> Seq<u8> {
    u32_le(s.len() as u32) + enc_chars(s)
}

/// A string is encodable when its character count fits the 32-bit prefix.
pub open spec fn str_encodable(s: Seq<char>) -> bool {
    s.len() <= 0xffff_ffff
}

/// A byte count followed by the raw bytes.
pub open spec fn enc_bytes(v: Seq<u8>) -> Seq<u8> {
    u32_le(v.len() as u32) + v
}

/// A byte sequence is encodable when its length fits the 32-bit prefix.
pub open spec fn bytes_encodable(v: Seq<u8>) -> bool {
    v.len() <= 0xffff_ffff
}

/// Reads `count` characters at `pos`; `None` on a non-scalar code or past the end.
pub open spec fn dec_chars_at(b: Seq<u8>, pos: int, count: int) -> Option<(Seq<char>, int)>
    decreases count,
{
    if count <= 0 {
        Some((Seq::empty(), pos))
    } else {
        match dec_u32_at(b, pos) {
            Option::None => Option::None,
            Option::Some((n, p1)) => if is_scalar_u32(n) {
                match dec_chars_at(b, p1, count - 1) {
                    Option::None => Option::None,
                    Option::Some((rest, p2)) => Option::Some((seq![n as char] + rest, p2)),
                }
            } else {
                Option::None
            },
        }
    }
}

/// Reads a length-prefixed string at `pos`.
pub open spec fn dec_str_at(b: Seq<u8>, pos: int) -> Option<(Seq<char>, int)> {
    match dec_u32_at(b, pos) {
        Option::None => Option::None,
        Option::Some((n, p1)) => dec_chars_at(b, p1, n as int),
    }
}

/// Reads a length-prefixed byte sequence at `pos`.
pub open spec fn dec_bytes_at(b: Seq<u8>, pos: int) -> Option<(Seq<u8>, int)> {
    match dec_u32_at(b, pos) {
        Option::None => Option::None,
        Option::Some((n, p1)) => if p1 + n <= b.len() {
            Option::Some((b.subrange(p1, p1 + n), p1 + n))
        } else {
            Option::None
        },
    }
}

/// Encoded characters occupy four bytes each.
pub proof fn lemma_enc_chars_len(s: Seq<char>)
    ensures
        enc_chars(s).len() == 4 * s.len(),
    decreases s.len(),
{
    if s.len() > 0 {
        lemma_enc_chars_len(s.drop_first());
    }
}

/// Decoding encoded characters inside a larger buffer yields them back.
pub proof fn lemma_dec_chars_at(b: Seq<u8>, pos: int, s: Seq<char>)
    requires
        0 <= pos,
        pos + enc_chars(s).len() <= b.len(),
        b.subrange(pos, pos + enc_chars(s).len()) =~= enc_chars(s),
    ensures
        dec_chars_at(b, pos, s.len() as int) == Some((s, pos + enc_chars(s).len())),
    decreases s.len(),
{
    if s.len() > 0 {
        let c0 = s[0];
        let head = u32_le(c0 as u32);
        let tail = enc_chars(s.drop_first());
        lemma_enc_chars_len(s);
        lemma_enc_chars_len(s.drop_first());
        lemma_subrange_split(b, pos, head, tail);
        lemma_dec_u32_at(b, pos, c0 as u32);
        assert(is_scalar_u32(c0 as u32)) by {
            vstd::utf8::char_is_scalar(c0);
        }
        lemma_dec_chars_at(b, pos + 4, s.drop_first());
        assert((c0 as u32) as char == c0) by {
            vstd::utf8::char_u32_cast(c0, c0 as u32);
        }
        assert(seq![c0] + s.drop_first() =~= s);
    }
}

/// Decoding an encoded string inside a larger buffer yields it back.
pub proof fn lemma_dec_str_at(b: Seq<u8>, pos: int, s: Seq<char>)
    requires
        0 <= pos,
        pos + enc_str(s).len() <= b.len(),
        b.subrange(pos, pos + enc_str(s).len()) =~= enc_str(s),
        str_encodable(s),
    ensures
        dec_str_at(b, pos) == Some((s, pos + enc_str(s).len())),
{
    lemma_subrange_split(b, pos, u32_le(s.len() as u32), enc_chars(s));
    lemma_dec_u32_at(b, pos, s.len() as u32);
    lemma_dec_chars_at(b, pos + 4, s);
}

/// Decoding an encoded byte sequence inside a larger buffer yields it back.
pub proof fn lemma_dec_bytes_at(b: Seq<u8>, pos: int, v: Seq<u8>)
    requires
        0 <= pos,
        pos + enc_bytes(v).len() <= b.len(),
        b.subrange(pos, pos + enc_bytes(v).len()) =~= enc_bytes(v),
        bytes_encodable(v),
    ensures
        dec_bytes_at(b, pos) == Some((v, pos + enc_bytes(v).len())),
{
    lemma_subrange_split(b, pos, u32_le(v.len() as u32), v);
    lemma_dec_u32_at(b, pos, v.len() as u32);
}

/// The stable wire tag of a property value's type. Tags must never be
/// renumbered; schema evolution is additive only.
pub open spec fn data_tag(d: PropertyDataModel) -> u8 {
    match d {
        PropertyDataModel::Bytes(_) => 0u8,
        PropertyDataModel::Boolean(_) => 1u8,
        PropertyDataModel::Number(_) => 2u8,
        PropertyDataModel::Str(_) => 3u8,
        PropertyDataModel::Enum(_) => 4u8,
        PropertyDataModel::Struct(_) => 5u8,
        PropertyDataModel::LatLong(_) => 6u8,
    }
}

/// The stable wire tag of a product identifier standard.
pub open spec fn product_type_tag(t: ProductType) -> u8 {
    match t {
        ProductType::GS1 => 0u8,
    }
}

/// The stable wire tag of an action kind.
pub open spec fn action_tag(a: ActionModel) -> u8 {
    match a {
        ActionModel::ProductCreate(_) => 0u8,
        ActionModel::ProductUpdate(_) => 1u8,
        ActionModel::ProductDelete(_) => 2u8,
    }
}

/// The encoding of one property value: its name, then its typed payload.
pub open spec fn enc_prop(pv: PropertyValueModel) -> Seq<u8>
    decreases pv,
{
    enc_str(pv.name) + enc_data(pv.data)
}

/// The encoding of a property value's typed payload: a type tag, then the
/// value in the fixed shape of that type.
pub open spec fn enc_data(d: PropertyDataModel) -> Seq<u8>
    decreases d,
{
    match d {
        PropertyDataModel::Bytes(v) => seq![0u8] + enc_bytes(v),
        PropertyDataModel::Boolean(x) => seq![
            1u8,
            if x {
                1u8
            } else {
                0u8
            },
        ],
        PropertyDataModel::Number(x) => seq![2u8] + u64_le(x as u64),
        PropertyDataModel::Str(s) => seq![3u8] + enc_str(s),
        PropertyDataModel::Enum(x) => seq![4u8] + u32_le(x),
        PropertyDataModel::Struct(vs) => seq![5u8] + u32_le(vs.len() as u32) + enc_props(vs),
        PropertyDataModel::LatLong(ll) => seq![6u8] + u64_le(ll.latitude as u64) + u64_le(
            ll.longitude as u64,
        ),
    }
}

/// The concatenated encodings of a sequence of property values.
pub open spec fn enc_props(vs: Seq<PropertyValueModel>) -> Seq<u8>
    decreases vs,
{
    if vs.len() == 0 {
        Seq::empty()
    } else {
        enc_prop(vs[0]) + enc_props(vs.drop_first())
    }
}

/// Whether every count inside one property value fits its 32-bit prefix.
pub open spec fn prop_encodable(pv: PropertyValueModel) -> bool
    decreases pv,
{
    str_encodable(pv.name) && data_encodable(pv.data)
}

/// Whether every count inside a typed payload fits its 32-bit prefix.
pub open spec fn data_encodable(d: PropertyDataModel) -> bool
    decreases d,
{
    match d {
        PropertyDataModel::Bytes(v) => bytes_encodable(v),
        PropertyDataModel::Str(s) => str_encodable(s),
        PropertyDataModel::Struct(vs) => vs.len() <= 0xffff_ffff && props_encodable(vs),
        _ => true,
    }
}

/// Whether every count inside a sequence of property values fits.
pub open spec fn props_encodable(vs: Seq<PropertyValueModel>) -> bool
    decreases vs,
{
    if vs.len() == 0 {
        true
    } else {
        prop_encodable(vs[0]) && props_encodable(vs.drop_first())
    }
}

/// Reads one property value at `pos`.
pub open spec fn dec_prop_at(b: Seq<u8>, pos: int) -> Option<(PropertyValueModel, int)>
    decreases b.len() - pos, 2int,
{
    if pos < 0 || pos > b.len() {
        Option::None
    } else {
        match dec_str_at(b, pos) {
            Option::None => Option::None,
            Option::Some((name, p1)) => if pos < p1 && p1 <= b.len() {
                match dec_data_at(b, p1) {
                    Option::None => Option::None,
                    Option::Some((data, p2)) => Option::Some(
                        (PropertyValueModel { name, data }, p2),
                    ),
                }
            } else {
                Option::None
            },
        }
    }
}

/// Reads one typed property payload at `pos`.
pub open spec fn dec_data_at(b: Seq<u8>, pos: int) -> Option<(PropertyDataModel, int)>
    decreases b.len() - pos, 1int,
{
    if pos < 0 || pos + 1 > b.len() {
        Option::None
    } else {
        let tag = b[pos];
        let p1 = pos + 1;
        if tag == 0 {
            match dec_bytes_at(b, p1) {
                Option::None => Option::None,
                Option::Some((v, p2)) => Option::Some((PropertyDataModel::Bytes(v), p2)),
            }
        } else if tag == 1 {
            if p1 + 1 <= b.len() {
                if b[p1] == 0 {
                    Option::Some((PropertyDataModel::Boolean(false), p1 + 1))
                } else if b[p1] == 1 {
                    Option::Some((PropertyDataModel::Boolean(true), p1 + 1))
                } else {
                    Option::None
                }
            } else {
                Option::None
            }
        } else if tag == 2 {
            match dec_u64_at(b, p1) {
                Option::None => Option::None,
                Option::Some((n, p2)) => Option::Some((PropertyDataModel::Number(n as i64), p2)),
            }
        } else if tag == 3 {
            match dec_str_at(b, p1) {
                Option::None => Option::None,
                Option::Some((s, p2)) => Option::Some((PropertyDataModel::Str(s), p2)),
            }
        } else if tag == 4 {
            match dec_u32_at(b, p1) {
                Option::None => Option::None,
                Option::Some((x, p2)) => Option::Some((PropertyDataModel::Enum(x), p2)),
            }
        } else if tag == 5 {
            match dec_u32_at(b, p1) {
                Option::None => Option::None,
                Option::Some((count, p2)) => match dec_props_at(b, p2, count as int) {
                    Option::None => Option::None,
                    Option::Some((vs, p3)) => Option::Some((PropertyDataModel::Struct(vs), p3)),
                },
            }
        } else if tag == 6 {
            match dec_u64_at(b, p1) {
                Option::None => Option::None,
                Option::Some((la, p2)) => match dec_u64_at(b, p2) {
                    Option::None => Option::None,
                    Option::Some((lo, p3)) => Option::Some(
                        (
                            PropertyDataModel::LatLong(
                                LatLong { latitude: la as i64, longitude: lo as i64 },
                            ),
                            p3,
                        ),
                    ),
                },
            }
        } else {
            Option::None
        }
    }
}

/// Reads `count` property values at `pos`.
pub open spec fn dec_props_at(b: Seq<u8>, pos: int, count: int) -> Option<
    (Seq<PropertyValueModel>, int),
>
    decreases b.len() - pos, 3int,
{
    if pos < 0 || pos > b.len() {
        Option::None
    } else if count <= 0 {
        Option::Some((Seq::empty(), pos))
    } else {
        match dec_prop_at(b, pos) {
            Option::None => Option::None,
            Option::Some((pv, p1)) => if pos < p1 && p1 <= b.len() {
                match dec_props_at(b, p1, count - 1) {
                    Option::None => Option::None,
                    Option::Some((rest, p2)) => Option::Some((seq![pv] + rest, p2)),
                }
            } else {
                Option::None
            },
        }
    }
}

/// Decoding one encoded property value inside a larger buffer yields it back.
pub proof fn lemma_dec_prop_at(b: Seq<u8>, pos: int, pv: PropertyValueModel)
    requires
        0 <= pos,
        pos + enc_prop(pv).len() <= b.len(),
        b.subrange(pos, pos + enc_prop(pv).len()) =~= enc_prop(pv),
        prop_encodable(pv),
    ensures
        dec_prop_at(b, pos) == Some((pv, pos + enc_prop(pv).len())),
    decreases pv, 2int,
{
    lemma_subrange_split(b, pos, enc_str(pv.name), enc_data(pv.data));
    lemma_dec_str_at(b, pos, pv.name);
    let p1 = pos + enc_str(pv.name).len();
    lemma_dec_data_at(b, p1, pv.data);
}

/// Decoding one encoded typed payload inside a larger buffer yields it back.
pub proof fn lemma_dec_data_at(b: Seq<u8>, pos: int, d: PropertyDataModel)
    requires
        0 <= pos,
        pos + enc_data(d).len() <= b.len(),
        b.subrange(pos, pos + enc_data(d).len()) =~= enc_data(d),
        data_encodable(d),
    ensures
        dec_data_at(b, pos) == Some((d, pos + enc_data(d).len())),
    decreases d, 1int,
{
    let e = enc_data(d);
    assert(b[pos] == e[0]) by {
        assert(b.subrange(pos, pos + e.len())[0] == b[pos]);
    }
    match d {
        PropertyDataModel::Bytes(v) => {
            assert(e =~= seq![0u8] + enc_bytes(v));
            lemma_subrange_split(b, pos, seq![0u8], enc_bytes(v));
            lemma_dec_bytes_at(b, pos + 1, v);
        },
        PropertyDataModel::Boolean(x) => {
            assert(b[pos + 1] == e[1]) by {
                assert(b.subrange(pos, pos + e.len())[1] == b[pos + 1]);
            }
        },
        PropertyDataModel::Number(x) => {
            assert(e =~= seq![2u8] + u64_le(x as u64));
            lemma_subrange_split(b, pos, seq![2u8], u64_le(x as u64));
            lemma_dec_u64_at(b, pos + 1, x as u64);
            assert(((x as u64) as i64) == x) by (bit_vector);
        },
        PropertyDataModel::Str(s) => {
            assert(e =~= seq![3u8] + enc_str(s));
            lemma_subrange_split(b, pos, seq![3u8], enc_str(s));
            lemma_dec_str_at(b, pos + 1, s);
        },
        PropertyDataModel::Enum(x) => {
            assert(e =~= seq![4u8] + u32_le(x));
            lemma_subrange_split(b, pos, seq![4u8], u32_le(x));
            lemma_dec_u32_at(b, pos + 1, x);
        },
        PropertyDataModel::Struct(vs) => {
            let head = seq![5u8] + u32_le(vs.len() as u32);
            assert(e =~= head + enc_props(vs));
            lemma_subrange_split(b, pos, head, enc_props(vs));
            assert(b.subrange(pos + 1, pos + 5) =~= u32_le(vs.len() as u32)) by {
                assert(forall|i: int|
                    0 <= i < 4 ==> b.subrange(pos, pos + head.len())[i + 1] == #[trigger] b.subrange(
                        pos + 1,
                        pos + 5,
                    )[i]);
            }
            lemma_dec_u32_at(b, pos + 1, vs.len() as u32);
            lemma_dec_props_at(b, pos + 5, vs);
        },
        PropertyDataModel::LatLong(ll) => {
            let la = u64_le(ll.latitude as u64);
            let lo = u64_le(ll.longitude as u64);
            assert(e =~= seq![6u8] + (la + lo));
            lemma_subrange_split(b, pos, seq![6u8], la + lo);
            lemma_subrange_split(b, pos + 1, la, lo);
            lemma_dec_u64_at(b, pos + 1, ll.latitude as u64);
            lemma_dec_u64_at(b, pos + 9, ll.longitude as u64);
            let x = ll.latitude;
            let y = ll.longitude;
            assert(((x as u64) as i64) == x) by (bit_vector);
            assert(((y as u64) as i64) == y) by (bit_vector);
        },
    }
}

/// Decoding a run of encoded property values inside a larger buffer yields
/// them back, in order.
pub proof fn lemma_dec_props_at(b: Seq<u8>, pos: int, vs: Seq<PropertyValueModel>)
    requires
        0 <= pos,
        pos + enc_props(vs).len() <= b.len(),
        b.subrange(pos, pos + enc_props(vs).len()) =~= enc_props(vs),
        props_encodable(vs),
    ensures
        dec_props_at(b, pos, vs.len() as int) == Some((vs, pos + enc_props(vs).len())),
    decreases vs, 3int,
{
    if vs.len() > 0 {
        lemma_subrange_split(b, pos, enc_prop(vs[0]), enc_props(vs.drop_first()));
        lemma_dec_prop_at(b, pos, vs[0]);
        let p1 = pos + enc_prop(vs[0]).len();
        lemma_dec_props_at(b, p1, vs.drop_first());
        assert(seq![vs[0]] + vs.drop_first() =~= vs);
    }
}

/// The encoding of a create action: identifier, standard, owner, properties.
pub open spec fn enc_create(a: ProductCreateActionModel) -> Seq<u8> {
    enc_str(a.product_id) + seq![product_type_tag(a.product_type)] + enc_str(a.owner) + u32_le(
        a.properties.len() as u32,
    ) + enc_props(a.properties)
}

/// The encoding of an update action: identifier, standard, properties.
pub open spec fn enc_update(a: ProductUpdateActionModel) -> Seq<u8> {
    enc_str(a.product_id) + seq![product_type_tag(a.product_type)] + u32_le(
        a.properties.len() as u32,
    ) + enc_props(a.properties)
}

/// The encoding of a delete action: identifier and standard only.
pub open spec fn enc_delete(a: ProductDeleteActionModel) -> Seq<u8> {
    enc_str(a.product_id) + seq![product_type_tag(a.product_type)]
}

/// The encoding of an action: its kind tag, then its fields.
pub open spec fn enc_action(a: ActionModel) -> Seq<u8> {
    seq![action_tag(a)] + match a {
        ActionModel::ProductCreate(c) => enc_create(c),
        ActionModel::ProductUpdate(u) => enc_update(u),
        ActionModel::ProductDelete(d) => enc_delete(d),
    }
}

/// The canonical encoding of a payload: the timestamp, then the action.
pub open spec fn enc_payload(p: ProductPayloadModel) -> Seq<u8> {
    u64_le(p.timestamp) + enc_action(p.action)
}

/// Whether every count inside an action fits its 32-bit prefix.
pub open spec fn action_encodable(a: ActionModel) -> bool {
    match a {
        ActionModel::ProductCreate(c) => str_encodable(c.product_id) && str_encodable(c.owner)
            && c.properties.len() <= 0xffff_ffff && props_encodable(c.properties),
        ActionModel::ProductUpdate(u) => str_encodable(u.product_id) && u.properties.len()
            <= 0xffff_ffff && props_encodable(u.properties),
        ActionModel::ProductDelete(d) => str_encodable(d.product_id),
    }
}

/// Whether a payload can be encoded at all: every string, byte sequence and
/// property list inside it fits its 32-bit count prefix.
pub open spec fn payload_encodable(p: ProductPayloadModel) -> bool {
    action_encodable(p.action)
}

/// Reads a product standard tag at `pos`.
pub open spec fn dec_product_type_at(b: Seq<u8>, pos: int) -> Option<(ProductType, int)> {
    if 0 <= pos && pos + 1 <= b.len() {
        if b[pos] == 0 {
            Option::Some((ProductType::GS1, pos + 1))
        } else {
            Option::None
        }
    } else {
        Option::None
    }
}

/// Reads a length-prefixed run of property values at `pos`.
pub open spec fn dec_prop_list_at(b: Seq<u8>, pos: int) -> Option<(Seq<PropertyValueModel>, int)> {
    match dec_u32_at(b, pos) {
        Option::None => Option::None,
        Option::Some((count, p1)) => dec_props_at(b, p1, count as int),
    }
}

/// Reads a create action's fields at `pos`.
pub open spec fn dec_create_at(b: Seq<u8>, pos: int) -> Option<(ProductCreateActionModel, int)> {
    match dec_str_at(b, pos) {
        Option::None => Option::None,
        Option::Some((product_id, p1)) => match dec_product_type_at(b, p1) {
            Option::None => Option::None,
            Option::Some((product_type, p2)) => match dec_str_at(b, p2) {
                Option::None => Option::None,
                Option::Some((owner, p3)) => match dec_prop_list_at(b, p3) {
                    Option::None => Option::None,
                    Option::Some((properties, p4)) => Option::Some(
                        (
                            ProductCreateActionModel { product_id, product_type, owner, properties },
                            p4,
                        ),
                    ),
                },
            },
        },
    }
}

/// Reads an update action's fields at `pos`.
pub open spec fn dec_update_at(b: Seq<u8>, pos: int) -> Option<(ProductUpdateActionModel, int)> {
    match dec_str_at(b, pos) {
        Option::None => Option::None,
        Option::Some((product_id, p1)) => match dec_product_type_at(b, p1) {
            Option::None => Option::None,
            Option::Some((product_type, p2)) => match dec_prop_list_at(b, p2) {
                Option::None => Option::None,
                Option::Some((properties, p3)) => Option::Some(
                    (ProductUpdateActionModel { product_id, product_type, properties }, p3),
                ),
            },
        },
    }
}

/// Reads a delete action's fields at `pos`.
pub open spec fn dec_delete_at(b: Seq<u8>, pos: int) -> Option<(ProductDeleteActionModel, int)> {
    match dec_str_at(b, pos) {
        Option::None => Option::None,
        Option::Some((product_id, p1)) => match dec_product_type_at(b, p1) {
            Option::None => Option::None,
            Option::Some((product_type, p2)) => Option::Some(
                (ProductDeleteActionModel { product_id, product_type }, p2),
            ),
        },
    }
}

/// Reads a whole payload at `pos`: timestamp, action tag, action fields.
pub open spec fn dec_payload_at(b: Seq<u8>, pos: int) -> Option<(ProductPayloadModel, int)> {
    match dec_u64_at(b, pos) {
        Option::None => Option::None,
        Option::Some((timestamp, p1)) => if 0 <= p1 && p1 + 1 <= b.len() {
            let tag = b[p1];
            let p2 = p1 + 1;
            if tag == 0 {
                match dec_create_at(b, p2) {
                    Option::None => Option::None,
                    Option::Some((a, p3)) => Option::Some(
                        (
                            ProductPayloadModel {
                                action: ActionModel::ProductCreate(a),
                                timestamp,
                            },
                            p3,
                        ),
                    ),
                }
            } else if tag == 1 {
                match dec_update_at(b, p2) {
                    Option::None => Option::None,
                    Option::Some((a, p3)) => Option::Some(
                        (
                            ProductPayloadModel {
                                action: ActionModel::ProductUpdate(a),
                                timestamp,
                            },
                            p3,
                        ),
                    ),
                }
            } else if tag == 2 {
                match dec_delete_at(b, p2) {
                    Option::None => Option::None,
                    Option::Some((a, p3)) => Option::Some(
                        (
                            ProductPayloadModel {
                                action: ActionModel::ProductDelete(a),
                                timestamp,
                            },
                            p3,
                        ),
                    ),
                }
            } else {
                Option::None
            }
        } else {
            Option::None
        },
    }
}

/// What `decode` accepts: a payload whose encoding is exactly the whole input,
/// with no trailing bytes.
pub open spec fn spec_decode(b: Seq<u8>) -> Option<ProductPayloadModel> {
    match dec_payload_at(b, 0) {
        Option::None => Option::None,
        Option::Some((p, n)) => if n == b.len() {
            Option::Some(p)
        } else {
            Option::None
        },
    }
}

/// Decoding an encoded length-prefixed property list yields it back.
proof fn lemma_dec_prop_list_at(b: Seq<u8>, pos: int, vs: Seq<PropertyValueModel>)
    requires
        0 <= pos,
        vs.len() <= 0xffff_ffff,
        pos + 4 + enc_props(vs).len() <= b.len(),
        b.subrange(pos, pos + 4 + enc_props(vs).len()) =~= u32_le(vs.len() as u32) + enc_props(vs),
        props_encodable(vs),
    ensures
        dec_prop_list_at(b, pos) == Some((vs, pos + 4 + enc_props(vs).len())),
{
    lemma_subrange_split(b, pos, u32_le(vs.len() as u32), enc_props(vs));
    lemma_dec_u32_at(b, pos, vs.len() as u32);
    lemma_dec_props_at(b, pos + 4, vs);
}

/// Decoding an encoded product standard tag yields it back.
proof fn lemma_dec_product_type_at(b: Seq<u8>, pos: int, t: ProductType)
    requires
        0 <= pos,
        pos + 1 <= b.len(),
        b[pos] == product_type_tag(t),
    ensures
        dec_product_type_at(b, pos) == Some((t, pos + 1)),
{
}

/// Decoding an encoded create action inside a larger buffer yields it back.
proof fn lemma_dec_create_at(b: Seq<u8>, pos: int, a: ProductCreateActionModel)
    requires
        0 <= pos,
        pos + enc_create(a).len() <= b.len(),
        b.subrange(pos, pos + enc_create(a).len()) =~= enc_create(a),
        action_encodable(ActionModel::ProductCreate(a)),
    ensures
        dec_create_at(b, pos) == Some((a, pos + enc_create(a).len())),
{
    let s1 = enc_str(a.product_id);
    let s2 = seq![product_type_tag(a.product_type)];
    let s3 = enc_str(a.owner);
    let s4 = u32_le(a.properties.len() as u32);
    let s5 = enc_props(a.properties);
    assert(enc_create(a) =~= s1 + (s2 + (s3 + (s4 + s5))));
    lemma_subrange_split(b, pos, s1, s2 + (s3 + (s4 + s5)));
    let p1 = pos + s1.len();
    lemma_subrange_split(b, p1, s2, s3 + (s4 + s5));
    let p2 = p1 + 1;
    lemma_subrange_split(b, p2, s3, s4 + s5);
    let p3 = p2 + s3.len();
    lemma_dec_str_at(b, pos, a.product_id);
    assert(b[p1] == product_type_tag(a.product_type)) by {
        assert(b.subrange(p1, p1 + 1)[0] == b[p1]);
    }
    lemma_dec_product_type_at(b, p1, a.product_type);
    lemma_dec_str_at(b, p2, a.owner);
    assert(b.subrange(p3, p3 + 4 + s5.len()) =~= s4 + s5);
    lemma_dec_prop_list_at(b, p3, a.properties);
}

/// Decoding an encoded update action inside a larger buffer yields it back.
proof fn lemma_dec_update_at(b: Seq<u8>, pos: int, a: ProductUpdateActionModel)
    requires
        0 <= pos,
        pos + enc_update(a).len() <= b.len(),
        b.subrange(pos, pos + enc_update(a).len()) =~= enc_update(a),
        action_encodable(ActionModel::ProductUpdate(a)),
    ensures
        dec_update_at(b, pos) == Some((a, pos + enc_update(a).len())),
{
    let s1 = enc_str(a.product_id);
    let s2 = seq![product_type_tag(a.product_type)];
    let s4 = u32_le(a.properties.len() as u32);
    let s5 = enc_props(a.properties);
    assert(enc_update(a) =~= s1 + (s2 + (s4 + s5)));
    lemma_subrange_split(b, pos, s1, s2 + (s4 + s5));
    let p1 = pos + s1.len();
    lemma_subrange_split(b, p1, s2, s4 + s5);
    let p2 = p1 + 1;
    lemma_dec_str_at(b, pos, a.product_id);
    assert(b[p1] == product_type_tag(a.product_type)) by {
        assert(b.subrange(p1, p1 + 1)[0] == b[p1]);
    }
    lemma_dec_product_type_at(b, p1, a.product_type);
    assert(b.subrange(p2, p2 + 4 + s5.len()) =~= s4 + s5);
    lemma_dec_prop_list_at(b, p2, a.properties);
}

/// Decoding an encoded delete action inside a larger buffer yields it back.
proof fn lemma_dec_delete_at(b: Seq<u8>, pos: int, a: ProductDeleteActionModel)
    requires
        0 <= pos,
        pos + enc_delete(a).len() <= b.len(),
        b.subrange(pos, pos + enc_delete(a).len()) =~= enc_delete(a),
        action_encodable(ActionModel::ProductDelete(a)),
    ensures
        dec_delete_at(b, pos) == Some((a, pos + enc_delete(a).len())),
{
    let s1 = enc_str(a.product_id);
    let s2 = seq![product_type_tag(a.product_type)];
    lemma_subrange_split(b, pos, s1, s2);
    let p1 = pos + s1.len();
    lemma_dec_str_at(b, pos, a.product_id);
    assert(b[p1] == product_type_tag(a.product_type)) by {
        assert(b.subrange(p1, p1 + 1)[0] == b[p1]);
    }
    lemma_dec_product_type_at(b, p1, a.product_type);
}

/// Decoding an encoded payload inside a larger buffer yields it back.
pub proof fn lemma_dec_payload_at(b: Seq<u8>, pos: int, p: ProductPayloadModel)
    requires
        0 <= pos,
        pos + enc_payload(p).len() <= b.len(),
        b.subrange(pos, pos + enc_payload(p).len()) =~= enc_payload(p),
        payload_encodable(p),
    ensures
        dec_payload_at(b, pos) == Some((p, pos + enc_payload(p).len())),
{
    let ts = u64_le(p.timestamp);
    let tg = seq![action_tag(p.action)];
    let body = match p.action {
        ActionModel::ProductCreate(c) => enc_create(c),
        ActionModel::ProductUpdate(u) => enc_update(u),
        ActionModel::ProductDelete(d) => enc_delete(d),
    };
    assert(enc_payload(p) =~= ts + (tg + body));
    lemma_subrange_split(b, pos, ts, tg + body);
    let p1 = pos + 8;
    lemma_subrange_split(b, p1, tg, body);
    let p2 = p1 + 1;
    lemma_dec_u64_at(b, pos, p.timestamp);
    assert(b[p1] == action_tag(p.action)) by {
        assert(b.subrange(p1, p1 + 1)[0] == b[p1]);
    }
    match p.action {
        ActionModel::ProductCreate(c) => lemma_dec_create_at(b, p2, c),
        ActionModel::ProductUpdate(u) => lemma_dec_update_at(b, p2, u),
        ActionModel::ProductDelete(d) => lemma_dec_delete_at(b, p2, d),
    }
}

/// Round trip: decoding the canonical encoding of any encodable payload
/// yields exactly that payload.
pub proof fn lemma_round_trip(p: ProductPayloadModel)
    requires
        payload_encodable(p),
    ensures
        spec_decode(enc_payload(p)) == Some(p),
{
    let b = enc_payload(p);
    assert(b.subrange(0, b.len() as int) =~= b);
    lemma_dec_payload_at(b, 0, p);
}

/// Relies on core's `char::from_u32`: its documentation promises `Some`
/// exactly for Unicode scalar values (not a surrogate, at most `char::MAX`),
/// and that the resulting char has the given code.
pub assume_specification[ char::from_u32 ](n: u32) -> (r: Option<char>)
    ensures
        r is Some <==> is_scalar_u32(n),
        r matches Some(c) ==> c as u32 == n,
;

/// Relies on std's `String::push`: appends the given character to the end of
/// the string.
pub assume_specification[ String::push ](s: &mut String, c: char)
    ensures
        final(s)@ == old(s)@.push(c),
;

/// Character encodings concatenate.
proof fn lemma_enc_chars_concat(s1: Seq<char>, s2: Seq<char>)
    ensures
        enc_chars(s1 + s2) == enc_chars(s1) + enc_chars(s2),
    decreases s1.len(),
{
    if s1.len() == 0 {
        assert(s1 + s2 =~= s2);
        assert(enc_chars(s1) + enc_chars(s2) =~= enc_chars(s2));
    } else {
        assert((s1 + s2).len() > 0);
        assert((s1 + s2)[0] == s1[0]);
        assert((s1 + s2).drop_first() =~= s1.drop_first() + s2);
        lemma_enc_chars_concat(s1.drop_first(), s2);
        assert(u32_le(s1[0] as u32) + (enc_chars(s1.drop_first()) + enc_chars(s2)) =~= (u32_le(
            s1[0] as u32,
        ) + enc_chars(s1.drop_first())) + enc_chars(s2));
    }
}

/// Extending an encoded prefix of a string by its next character.
pub(crate) proof fn lemma_enc_chars_take(s: Seq<char>, i: int)
    requires
        0 <= i < s.len(),
    ensures
        enc_chars(s.take(i + 1)) == enc_chars(s.take(i)) + u32_le(s[i] as u32),
{
    let c = s[i];
    assert(s.take(i + 1) =~= s.take(i) + seq![c]);
    lemma_enc_chars_concat(s.take(i), seq![c]);
    assert(seq![c].len() == 1 && seq![c][0] == c);
    assert(seq![c].drop_first() =~= Seq::<char>::empty());
    assert(enc_chars(Seq::<char>::empty()) =~= Seq::<u8>::empty());
    assert(enc_chars(seq![c]) =~= u32_le(c as u32) + Seq::<u8>::empty());
    assert(u32_le(c as u32) + Seq::<u8>::empty() =~= u32_le(c as u32));
}

/// Property-run encodings concatenate.
proof fn lemma_enc_props_concat(s1: Seq<PropertyValueModel>, s2: Seq<PropertyValueModel>)
    ensures
        enc_props(s1 + s2) == enc_props(s1) + enc_props(s2),
    decreases s1.len(),
{
    if s1.len() == 0 {
        assert(s1 + s2 =~= s2);
        assert(enc_props(s1) + enc_props(s2) =~= enc_props(s2));
    } else {
        assert((s1 + s2).len() > 0);
        assert((s1 + s2)[0] == s1[0]);
        assert((s1 + s2).drop_first() =~= s1.drop_first() + s2);
        lemma_enc_props_concat(s1.drop_first(), s2);
        assert(enc_prop(s1[0]) + (enc_props(s1.drop_first()) + enc_props(s2)) =~= (enc_prop(s1[0])
            + enc_props(s1.drop_first())) + enc_props(s2));
    }
}

/// Extending an encoded prefix of a property run by its next element.
proof fn lemma_enc_props_take(s: Seq<PropertyValueModel>, i: int)
    requires
        0 <= i < s.len(),
    ensures
        enc_props(s.take(i + 1)) == enc_props(s.take(i)) + enc_prop(s[i]),
{
    let p = s[i];
    assert(s.take(i + 1) =~= s.take(i) + seq![p]);
    lemma_enc_props_concat(s.take(i), seq![p]);
    assert(seq![p].len() == 1 && seq![p][0] == p);
    assert(seq![p].drop_first() =~= Seq::<PropertyValueModel>::empty());
    assert(enc_props(Seq::<PropertyValueModel>::empty()) =~= Seq::<u8>::empty());
    assert(enc_props(seq![p]) =~= enc_prop(p) + Seq::<u8>::empty());
    assert(enc_prop(p) + Seq::<u8>::empty() =~= enc_prop(p));
}

/// A property run is encodable exactly when each element is.
proof fn lemma_props_encodable_forall(vs: Seq<PropertyValueModel>)
    ensures
        props_encodable(vs) <==> (forall|i: int| 0 <= i < vs.len() ==> prop_encodable(vs[i])),
    decreases vs.len(),
{
    if vs.len() > 0 {
        let tail = vs.drop_first();
        lemma_props_encodable_forall(tail);
        assert(forall|i: int| 0 <= i < tail.len() ==> tail[i] == vs[i + 1]);
        if props_encodable(vs) {
            assert forall|i: int| 0 <= i < vs.len() implies prop_encodable(#[trigger] vs[i]) by {
                if i > 0 {
                    assert(vs[i] == tail[i - 1]);
                }
            }
        }
        if forall|i: int| 0 <= i < vs.len() ==> prop_encodable(#[trigger] vs[i]) {
            assert forall|i: int| 0 <= i < tail.len() implies prop_encodable(
                #[trigger] tail[i],
            ) by {
                assert(tail[i] == vs[i + 1]);
            }
            assert(props_encodable(tail));
            assert(prop_encodable(vs[0]));
        }
    }
}

/// Appends the four little-endian bytes of a 32-bit integer.
pub(crate) fn push_u32_le(out: &mut Vec<u8>, n: u32)
    ensures
        final(out)@ == old(out)@ + u32_le(n),
{
    out.push((n & 0xff) as u8);
    out.push(((n >> 8) & 0xff) as u8);
    out.push(((n >> 16) & 0xff) as u8);
    out.push(((n >> 24) & 0xff) as u8);
    proof {
        assert(out@ =~= old(out)@ + u32_le(n));
    }
}

/// Appends the eight little-endian bytes of a 64-bit integer.
fn push_u64_le(out: &mut Vec<u8>, n: u64)
    ensures
        final(out)@ == old(out)@ + u64_le(n),
{
    push_u32_le(out, (n & 0xffff_ffff) as u32);
    push_u32_le(out, ((n >> 32) & 0xffff_ffff) as u32);
    proof {
        assert(out@ =~= old(out)@ + u64_le(n));
    }
}

/// Appends a length-prefixed string; fails when its character count does not
/// fit the 32-bit prefix, leaving the buffer unchanged.
pub(crate) fn push_str(out: &mut Vec<u8>, s: &String) -> (r: Result<(), BuildError>)
    ensures
        r is Ok <==> str_encodable(s@),
        r is Ok ==> final(out)@ == old(out)@ + enc_str(s@),
        r is Err ==> final(out)@ == old(out)@,
{
    let n = s.as_str().unicode_len();
    if n > 0xffff_ffffusize {
        return Err(BuildError::InvalidField(String::from_str("string length")));
    }
    let ghost start = out@;
    push_u32_le(out, n as u32);
    let mut i: usize = 0;
    while i < n
        invariant
            i <= n,
            n == s@.len(),
            n <= 0xffff_ffff,
            out@ == start + u32_le(n as u32) + enc_chars(s@.take(i as int)),
        decreases n - i,
    {
        let c = s.as_str().get_char(i);
        push_u32_le(out, c as u32);
        proof {
            lemma_enc_chars_take(s@, i as int);
            assert(out@ =~= start + u32_le(n as u32) + enc_chars(s@.take(i as int + 1)));
        }
        i = i + 1;
    }
    proof {
        assert(s@.take(n as int) =~= s@);
        assert(out@ =~= start + enc_str(s@));
    }
    Ok(())
}

/// Appends a length-prefixed byte sequence; fails when its length does not
/// fit the 32-bit prefix, leaving the buffer unchanged.
pub(crate) fn push_bytes(out: &mut Vec<u8>, v: &Vec<u8>) -> (r: Result<(), BuildError>)
    ensures
        r is Ok <==> bytes_encodable(v@),
        r is Ok ==> final(out)@ == old(out)@ + enc_bytes(v@),
        r is Err ==> final(out)@ == old(out)@,
{
    let n = v.len();
    if n > 0xffff_ffffusize {
        return Err(BuildError::InvalidField(String::from_str("bytes length")));
    }
    let ghost start = out@;
    push_u32_le(out, n as u32);
    let mut i: usize = 0;
    while i < n
        invariant
            i <= n,
            n == v@.len(),
            out@ == start + u32_le(n as u32) + v@.take(i as int),
        decreases n - i,
    {
        let byte = v[i];
        out.push(byte);
        proof {
            assert(v@.take(i as int + 1) =~= v@.take(i as int).push(v@[i as int]));
            assert(out@ =~= start + u32_le(n as u32) + v@.take(i as int + 1));
        }
        i = i + 1;
    }
    proof {
        assert(v@.take(n as int) =~= v@);
        assert(out@ =~= start + enc_bytes(v@));
    }
    Ok(())
}

/// Appends the encoding of one property value; fails when some count inside
/// it does not fit its 32-bit prefix.
fn encode_prop(out: &mut Vec<u8>, pv: &PropertyValue) -> (r: Result<(), BuildError>)
    ensures
        r is Ok <==> prop_encodable(view_prop(*pv)),
        r is Ok ==> final(out)@ == old(out)@ + enc_prop(view_prop(*pv)),
    decreases *pv, 1int,
{
    let ghost start = out@;
    match push_str(out, &pv.name) {
        Ok(_) => (),
        Err(e) => {
            return Err(e);
        },
    }
    match &pv.data {
        PropertyData::Bytes(v) => {
            out.push(0u8);
            match push_bytes(out, v) {
                Ok(_) => (),
                Err(e) => {
                    return Err(e);
                },
            }
            proof {
                assert(out@ =~= start + enc_prop(view_prop(*pv)));
            }
        },
        PropertyData::Boolean(x) => {
            out.push(1u8);
            if *x {
                out.push(1u8);
            } else {
                out.push(0u8);
            }
            proof {
                assert(out@ =~= start + enc_prop(view_prop(*pv)));
            }
        },
        PropertyData::Number(x) => {
            out.push(2u8);
            push_u64_le(out, *x as u64);
            proof {
                assert(out@ =~= start + enc_prop(view_prop(*pv)));
            }
        },
        PropertyData::Str(s) => {
            out.push(3u8);
            match push_str(out, s) {
                Ok(_) => (),
                Err(e) => {
                    return Err(e);
                },
            }
            proof {
                assert(out@ =~= start + enc_prop(view_prop(*pv)));
            }
        },
        PropertyData::Enum(x) => {
            out.push(4u8);
            push_u32_le(out, *x);
            proof {
                assert(out@ =~= start + enc_prop(view_prop(*pv)));
            }
        },
        PropertyData::Struct(vs) => {
            out.push(5u8);
            proof {
                lemma_view_props(vs@);
            }
            if vs.len() > 0xffff_ffffusize {
                return Err(BuildError::InvalidField(String::from_str("struct length")));
            }
            push_u32_le(out, vs.len() as u32);
            match encode_props(out, vs) {
                Ok(_) => (),
                Err(e) => {
                    return Err(e);
                },
            }
            proof {
                assert(out@ =~= start + enc_prop(view_prop(*pv)));
            }
        },
        PropertyData::LatLong(ll) => {
            out.push(6u8);
            push_u64_le(out, ll.latitude as u64);
            push_u64_le(out, ll.longitude as u64);
            proof {
                assert(out@ =~= start + enc_prop(view_prop(*pv)));
            }
        },
    }
    Ok(())
}

/// Appends the encodings of a run of property values, in order; fails when
/// some count inside one of them does not fit its 32-bit prefix.
fn encode_props(out: &mut Vec<u8>, vs: &Vec<PropertyValue>) -> (r: Result<(), BuildError>)
    ensures
        r is Ok <==> props_encodable(view_props(vs@)),
        r is Ok ==> final(out)@ == old(out)@ + enc_props(view_props(vs@)),
    decreases vs@, 0int,
{
    let ghost start = out@;
    let ghost model = view_props(vs@);
    proof {
        lemma_view_props(vs@);
        lemma_props_encodable_forall(model);
    }
    let n = vs.len();
    let mut i: usize = 0;
    while i < n
        invariant
            i <= n,
            n == vs@.len(),
            model == view_props(vs@),
            model.len() == n,
            forall|j: int| 0 <= j < n ==> model[j] == view_prop(vs@[j]),
            out@ == start + enc_props(model.take(i as int)),
            forall|j: int| 0 <= j < i ==> prop_encodable(#[trigger] model[j]),
        decreases n - i,
    {
        match encode_prop(out, &vs[i]) {
            Ok(_) => (),
            Err(e) => {
                proof {
                    assert(model[i as int] == view_prop(vs@[i as int]));
                    assert(!prop_encodable(model[i as int]));
                    lemma_props_encodable_forall(model);
                }
                return Err(e);
            },
        }
        proof {
            lemma_enc_props_take(model, i as int);
            assert(out@ =~= start + enc_props(model.take(i as int + 1)));
        }
        i = i + 1;
    }
    proof {
        assert(model.take(n as int) =~= model);
        lemma_props_encodable_forall(model);
    }
    Ok(())
}

/// The wire tag of a product identifier standard.
fn product_type_byte(t: ProductType) -> (r: u8)
    ensures
        r == product_type_tag(t),
{
    match t {
        ProductType::GS1 => 0u8,
    }
}

/// Encodes a payload into its canonical byte sequence. Fails with
/// `BuildError` exactly when some string, byte sequence or property list
/// inside the payload is too long for its 32-bit count prefix.
pub fn encode(payload: &ProductPayload) -> (r: Result<Vec<u8>, BuildError>)
    ensures
        r is Ok <==> payload_encodable(payload@),
        r matches Ok(v) ==> v@ == enc_payload(payload@),
{
    let mut out: Vec<u8> = Vec::new();
    push_u64_le(&mut out, payload.timestamp);
    match &payload.action {
        Action::ProductCreate(a) => {
            out.push(0u8);
            match push_str(&mut out, &a.product_id) {
                Ok(_) => (),
                Err(e) => {
                    return Err(e);
                },
            }
            let tag = product_type_byte(a.product_type);
            out.push(tag);
            match push_str(&mut out, &a.owner) {
                Ok(_) => (),
                Err(e) => {
                    return Err(e);
                },
            }
            proof {
                lemma_view_props(a.properties@);
            }
            if a.properties.len() > 0xffff_ffffusize {
                return Err(BuildError::InvalidField(String::from_str("properties length")));
            }
            push_u32_le(&mut out, a.properties.len() as u32);
            match encode_props(&mut out, &a.properties) {
                Ok(_) => (),
                Err(e) => {
                    return Err(e);
                },
            }
            proof {
                assert(out@ =~= enc_payload(payload@));
            }
        },
        Action::ProductUpdate(a) => {
            out.push(1u8);
            match push_str(&mut out, &a.product_id) {
                Ok(_) => (),
                Err(e) => {
                    return Err(e);
                },
            }
            let tag = product_type_byte(a.product_type);
            out.push(tag);
            proof {
                lemma_view_props(a.properties@);
            }
            if a.properties.len() > 0xffff_ffffusize {
                return Err(BuildError::InvalidField(String::from_str("properties length")));
            }
            push_u32_le(&mut out, a.properties.len() as u32);
            match encode_props(&mut out, &a.properties) {
                Ok(_) => (),
                Err(e) => {
                    return Err(e);
                },
            }
            proof {
                assert(out@ =~= enc_payload(payload@));
            }
        },
        Action::ProductDelete(a) => {
            out.push(2u8);
            match push_str(&mut out, &a.product_id) {
                Ok(_) => (),
                Err(e) => {
                    return Err(e);
                },
            }
            let tag = product_type_byte(a.product_type);
            out.push(tag);
            proof {
                assert(out@ =~= enc_payload(payload@));
            }
        },
    }
    Ok(out)
}

/// Reads a 32-bit little-endian integer.
fn decode_u32_at(b: &Vec<u8>, pos: usize) -> (r: Result<(u32, usize), DecodeError>)
    ensures
        r matches Ok(x) ==> dec_u32_at(b@, pos as int) == Some((x.0, x.1 as int)) && pos < x.1
            && x.1 <= b@.len(),
        r is Err ==> dec_u32_at(b@, pos as int) is None,
{
    if b.len() < 4 || pos > b.len() - 4 {
        return Err(DecodeError::Malformed);
    }
    let b0 = b[pos] as u32;
    let b1 = b[pos + 1] as u32;
    let b2 = b[pos + 2] as u32;
    let b3 = b[pos + 3] as u32;
    Ok((b0 | (b1 << 8) | (b2 << 16) | (b3 << 24), pos + 4))
}

/// Reads a 64-bit little-endian integer.
fn decode_u64_at(b: &Vec<u8>, pos: usize) -> (r: Result<(u64, usize), DecodeError>)
    ensures
        r matches Ok(x) ==> dec_u64_at(b@, pos as int) == Some((x.0, x.1 as int)) && pos < x.1
            && x.1 <= b@.len(),
        r is Err ==> dec_u64_at(b@, pos as int) is None,
{
    let (lo, p1) = match decode_u32_at(b, pos) {
        Ok(x) => x,
        Err(e) => {
            return Err(e);
        },
    };
    let (hi, p2) = match decode_u32_at(b, p1) {
        Ok(x) => x,
        Err(e) => {
            return Err(e);
        },
    };
    Ok(((lo as u64) | ((hi as u64) << 32), p2))
}

/// Reads a length-prefixed string.
fn decode_str_at(b: &Vec<u8>, pos: usize) -> (r: Result<(String, usize), DecodeError>)
    ensures
        r matches Ok(x) ==> dec_str_at(b@, pos as int) == Some((x.0@, x.1 as int)) && pos < x.1
            && x.1 <= b@.len(),
        r is Err ==> dec_str_at(b@, pos as int) is None,
{
    let (n, p1) = match decode_u32_at(b, pos) {
        Ok(x) => x,
        Err(e) => {
            return Err(e);
        },
    };
    let mut s = String::new();
    let mut cur = p1;
    let mut i: u32 = 0;
    proof {
        if dec_chars_at(b@, p1 as int, n as int) is Some {
            let (rest, p) = dec_chars_at(b@, p1 as int, n as int).unwrap();
            assert(Seq::<char>::empty() + rest =~= rest);
        }
    }
    while i < n
        invariant
            i <= n,
            pos < p1 <= cur <= b@.len(),
            dec_u32_at(b@, pos as int) == Some((n, p1 as int)),
            match dec_chars_at(b@, cur as int, (n - i) as int) {
                Option::Some((rest, p)) => dec_chars_at(b@, p1 as int, n as int) == Option::Some(
                    (s@ + rest, p),
                ),
                Option::None => dec_chars_at(b@, p1 as int, n as int) is None,
            },
        decreases n - i,
    {
        let (code, p2) = match decode_u32_at(b, cur) {
            Ok(x) => x,
            Err(_) => {
                return Err(DecodeError::Malformed);
            },
        };
        let c = match char::from_u32(code) {
            Some(c) => c,
            None => {
                return Err(DecodeError::Malformed);
            },
        };
        let ghost prev = s@;
        s.push(c);
        proof {
            assert((code as char) == c) by {
                vstd::utf8::char_u32_cast(c, code);
            }
            if dec_chars_at(b@, p2 as int, (n - i - 1) as int) is Some {
                let (rest2, pp) = dec_chars_at(b@, p2 as int, (n - i - 1) as int).unwrap();
                assert(dec_chars_at(b@, cur as int, (n - i) as int) == Option::Some(
                    (seq![code as char] + rest2, pp),
                ));
                assert(prev + (seq![c] + rest2) =~= s@ + rest2);
            }
        }
        cur = p2;
        i = i + 1;
    }
    proof {
        assert(dec_chars_at(b@, cur as int, 0) == Option::Some((Seq::<char>::empty(), cur as int)));
        assert(s@ + Seq::<char>::empty() =~= s@);
    }
    Ok((s, cur))
}

/// Reads a length-prefixed byte sequence.
fn decode_bytes_at(b: &Vec<u8>, pos: usize) -> (r: Result<(Vec<u8>, usize), DecodeError>)
    ensures
        r matches Ok(x) ==> dec_bytes_at(b@, pos as int) == Some((x.0@, x.1 as int)) && pos < x.1
            && x.1 <= b@.len(),
        r is Err ==> dec_bytes_at(b@, pos as int) is None,
{
    let (n, p1) = match decode_u32_at(b, pos) {
        Ok(x) => x,
        Err(e) => {
            return Err(e);
        },
    };
    let count = n as usize;
    if count > b.len() - p1 {
        return Err(DecodeError::Malformed);
    }
    let blen = b.len();
    let mut v: Vec<u8> = Vec::new();
    let mut i: usize = 0;
    while i < count
        invariant
            i <= count,
            pos < p1,
            p1 + count <= b@.len(),
            b@.len() == blen,
            v@ == b@.subrange(p1 as int, p1 as int + i as int),
        decreases count - i,
    {
        let byte = b[p1 + i];
        v.push(byte);
        proof {
            assert(v@ =~= b@.subrange(p1 as int, p1 as int + i as int + 1));
        }
        i = i + 1;
    }
    Ok((v, p1 + count))
}

/// Reads a product standard tag.
fn decode_product_type_at(b: &Vec<u8>, pos: usize) -> (r: Result<
    (ProductType, usize),
    DecodeError,
>)
    ensures
        r matches Ok(x) ==> dec_product_type_at(b@, pos as int) == Some((x.0, x.1 as int)) && pos
            < x.1 && x.1 <= b@.len(),
        r is Err ==> dec_product_type_at(b@, pos as int) is None,
{
    if pos >= b.len() {
        return Err(DecodeError::Malformed);
    }
    if b[pos] == 0 {
        Ok((ProductType::GS1, pos + 1))
    } else {
        Err(DecodeError::Malformed)
    }
}

/// Reads one property value.
fn decode_prop_at(b: &Vec<u8>, pos: usize) -> (r: Result<(PropertyValue, usize), DecodeError>)
    ensures
        r matches Ok(x) ==> dec_prop_at(b@, pos as int) == Some((view_prop(x.0), x.1 as int))
            && pos < x.1 && x.1 <= b@.len(),
        r is Err ==> dec_prop_at(b@, pos as int) is None,
    decreases b@.len() - pos, 2int,
{
    if pos > b.len() {
        return Err(DecodeError::Malformed);
    }
    let (name, p1) = match decode_str_at(b, pos) {
        Ok(x) => x,
        Err(e) => {
            return Err(e);
        },
    };
    let (data, p2) = match decode_data_at(b, p1) {
        Ok(x) => x,
        Err(e) => {
            return Err(e);
        },
    };
    Ok((PropertyValue { name, data }, p2))
}

/// Reads one typed property payload.
fn decode_data_at(b: &Vec<u8>, pos: usize) -> (r: Result<(PropertyData, usize), DecodeError>)
    ensures
        r matches Ok(x) ==> dec_data_at(b@, pos as int) == Some((view_data(x.0), x.1 as int))
            && pos < x.1 && x.1 <= b@.len(),
        r is Err ==> dec_data_at(b@, pos as int) is None,
    decreases b@.len() - pos, 1int,
{
    if pos >= b.len() {
        return Err(DecodeError::Malformed);
    }
    let tag = b[pos];
    let p1 = pos + 1;
    if tag == 0 {
        let (v, p2) = match decode_bytes_at(b, p1) {
            Ok(x) => x,
            Err(e) => {
                return Err(e);
            },
        };
        Ok((PropertyData::Bytes(v), p2))
    } else if tag == 1 {
        if p1 >= b.len() {
            return Err(DecodeError::Malformed);
        }
        if b[p1] == 0 {
            Ok((PropertyData::Boolean(false), p1 + 1))
        } else if b[p1] == 1 {
            Ok((PropertyData::Boolean(true), p1 + 1))
        } else {
            Err(DecodeError::Malformed)
        }
    } else if tag == 2 {
        let (n, p2) = match decode_u64_at(b, p1) {
            Ok(x) => x,
            Err(e) => {
                return Err(e);
            },
        };
        Ok((PropertyData::Number(n as i64), p2))
    } else if tag == 3 {
        let (s, p2) = match decode_str_at(b, p1) {
            Ok(x) => x,
            Err(e) => {
                return Err(e);
            },
        };
        Ok((PropertyData::Str(s), p2))
    } else if tag == 4 {
        let (x, p2) = match decode_u32_at(b, p1) {
            Ok(y) => y,
            Err(e) => {
                return Err(e);
            },
        };
        Ok((PropertyData::Enum(x), p2))
    } else if tag == 5 {
        let (count, p2) = match decode_u32_at(b, p1) {
            Ok(x) => x,
            Err(e) => {
                return Err(e);
            },
        };
        let (vs, p3) = match decode_props_at(b, p2, count) {
            Ok(x) => x,
            Err(e) => {
                return Err(e);
            },
        };
        Ok((PropertyData::Struct(vs), p3))
    } else if tag == 6 {
        let (la, p2) = match decode_u64_at(b, p1) {
            Ok(x) => x,
            Err(e) => {
                return Err(e);
            },
        };
        let (lo, p3) = match decode_u64_at(b, p2) {
            Ok(x) => x,
            Err(e) => {
                return Err(e);
            },
        };
        Ok((PropertyData::LatLong(LatLong { latitude: la as i64, longitude: lo as i64 }), p3))
    } else {
        Err(DecodeError::Malformed)
    }
}

/// Reads `count` property values, in order.
fn decode_props_at(b: &Vec<u8>, pos: usize, count: u32) -> (r: Result<
    (Vec<PropertyValue>, usize),
    DecodeError,
>)
    ensures
        r matches Ok(x) ==> dec_props_at(b@, pos as int, count as int) == Some(
            (view_props(x.0@), x.1 as int),
        ) && pos <= x.1 && x.1 <= b@.len(),
        r is Err ==> dec_props_at(b@, pos as int, count as int) is None,
    decreases b@.len() - pos, 3int,
{
    if pos > b.len() {
        return Err(DecodeError::Malformed);
    }
    let mut vs: Vec<PropertyValue> = Vec::new();
    let mut cur = pos;
    let mut i: u32 = 0;
    proof {
        assert(view_props(Seq::<PropertyValue>::empty()) =~= Seq::<PropertyValueModel>::empty());
        if dec_props_at(b@, pos as int, count as int) is Some {
            let (rest, p) = dec_props_at(b@, pos as int, count as int).unwrap();
            assert(Seq::<PropertyValueModel>::empty() + rest =~= rest);
        }
    }
    while i < count
        invariant
            i <= count,
            pos <= cur <= b@.len(),
            match dec_props_at(b@, cur as int, (count - i) as int) {
                Option::Some((rest, p)) => dec_props_at(b@, pos as int, count as int)
                    == Option::Some((view_props(vs@) + rest, p)),
                Option::None => dec_props_at(b@, pos as int, count as int) is None,
            },
        decreases count - i,
    {
        let (p, newpos) = match decode_prop_at(b, cur) {
            Ok(x) => x,
            Err(e) => {
                return Err(e);
            },
        };
        let ghost prev = vs@;
        let ghost vp = view_prop(p);
        vs.push(p);
        proof {
            lemma_view_props(prev);
            lemma_view_props(vs@);
            assert(view_props(vs@) =~= view_props(prev) + seq![vp]);
            if dec_props_at(b@, newpos as int, (count - i - 1) as int) is Some {
                let (rest2, p2) = dec_props_at(b@, newpos as int, (count - i - 1) as int).unwrap();
                assert(dec_props_at(b@, cur as int, (count - i) as int) == Option::Some(
                    (seq![vp] + rest2, p2),
                ));
                assert(view_props(prev) + (seq![vp] + rest2) =~= view_props(vs@) + rest2);
            }
        }
        cur = newpos;
        i = i + 1;
    }
    proof {
        assert(dec_props_at(b@, cur as int, 0) == Option::Some(
            (Seq::<PropertyValueModel>::empty(), cur as int),
        ));
        assert(view_props(vs@) + Seq::<PropertyValueModel>::empty() =~= view_props(vs@));
    }
    Ok((vs, cur))
}

/// Reads a create action's fields.
fn decode_create_at(b: &Vec<u8>, pos: usize) -> (r: Result<
    (ProductCreateAction, usize),
    DecodeError,
>)
    ensures
        r matches Ok(x) ==> dec_create_at(b@, pos as int) == Some((x.0@, x.1 as int)) && pos < x.1
            && x.1 <= b@.len(),
        r is Err ==> dec_create_at(b@, pos as int) is None,
{
    let (product_id, p1) = match decode_str_at(b, pos) {
        Ok(x) => x,
        Err(e) => {
            return Err(e);
        },
    };
    let (product_type, p2) = match decode_product_type_at(b, p1) {
        Ok(x) => x,
        Err(e) => {
            return Err(e);
        },
    };
    let (owner, p3) = match decode_str_at(b, p2) {
        Ok(x) => x,
        Err(e) => {
            return Err(e);
        },
    };
    let (count, p4) = match decode_u32_at(b, p3) {
        Ok(x) => x,
        Err(e) => {
            return Err(e);
        },
    };
    let (properties, p5) = match decode_props_at(b, p4, count) {
        Ok(x) => x,
        Err(e) => {
            return Err(e);
        },
    };
    Ok((ProductCreateAction { product_id, product_type, owner, properties }, p5))
}

/// Reads an update action's fields.
fn decode_update_at(b: &Vec<u8>, pos: usize) -> (r: Result<
    (ProductUpdateAction, usize),
    DecodeError,
>)
    ensures
        r matches Ok(x) ==> dec_update_at(b@, pos as int) == Some((x.0@, x.1 as int)) && pos < x.1
            && x.1 <= b@.len(),
        r is Err ==> dec_update_at(b@, pos as int) is None,
{
    let (product_id, p1) = match decode_str_at(b, pos) {
        Ok(x) => x,
        Err(e) => {
            return Err(e);
        },
    };
    let (product_type, p2) = match decode_product_type_at(b, p1) {
        Ok(x) => x,
        Err(e) => {
            return Err(e);
        },
    };
    let (count, p3) = match decode_u32_at(b, p2) {
        Ok(x) => x,
        Err(e) => {
            return Err(e);
        },
    };
    let (properties, p4) = match decode_props_at(b, p3, count) {
        Ok(x) => x,
        Err(e) => {
            return Err(e);
        },
    };
    Ok((ProductUpdateAction { product_id, product_type, properties }, p4))
}

/// Reads a delete action's fields.
fn decode_delete_at(b: &Vec<u8>, pos: usize) -> (r: Result<
    (ProductDeleteAction, usize),
    DecodeError,
>)
    ensures
        r matches Ok(x) ==> dec_delete_at(b@, pos as int) == Some((x.0@, x.1 as int)) && pos < x.1
            && x.1 <= b@.len(),
        r is Err ==> dec_delete_at(b@, pos as int) is None,
{
    let (product_id, p1) = match decode_str_at(b, pos) {
        Ok(x) => x,
        Err(e) => {
            return Err(e);
        },
    };
    let (product_type, p2) = match decode_product_type_at(b, p1) {
        Ok(x) => x,
        Err(e) => {
            return Err(e);
        },
    };
    Ok((ProductDeleteAction { product_id, product_type }, p2))
}

/// Decodes a canonical byte sequence back into a payload: the exact inverse
/// of `encode`. Fails with `DecodeError` exactly when the bytes are not the
/// complete canonical encoding of some payload.
pub fn decode(bytes: &Vec<u8>) -> (r: Result<ProductPayload, DecodeError>)
    ensures
        r is Ok <==> spec_decode(bytes@) is Some,
        r matches Ok(p) ==> spec_decode(bytes@) == Some(p@),
{
    let (timestamp, p1) = match decode_u64_at(bytes, 0) {
        Ok(x) => x,
        Err(e) => {
            return Err(e);
        },
    };
    if p1 >= bytes.len() {
        return Err(DecodeError::Malformed);
    }
    let tag = bytes[p1];
    let p2 = p1 + 1;
    let action: Action;
    let end: usize;
    if tag == 0 {
        let (a, p3) = match decode_create_at(bytes, p2) {
            Ok(x) => x,
            Err(e) => {
                return Err(e);
            },
        };
        action = Action::ProductCreate(a);
        end = p3;
    } else if tag == 1 {
        let (a, p3) = match decode_update_at(bytes, p2) {
            Ok(x) => x,
            Err(e) => {
                return Err(e);
            },
        };
        action = Action::ProductUpdate(a);
        end = p3;
    } else if tag == 2 {
        let (a, p3) = match decode_delete_at(bytes, p2) {
            Ok(x) => x,
            Err(e) => {
                return Err(e);
            },
        };
        action = Action::ProductDelete(a);
        end = p3;
    } else {
        return Err(DecodeError::Malformed);
    }
    if end != bytes.len() {
        return Err(DecodeError::Malformed);
    }
    Ok(ProductPayload { action, timestamp })
}

} // verus!
