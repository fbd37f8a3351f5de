//! Deterministic address scheme.
//!
//! A state address is a fixed 70-character hexadecimal string: the owning
//! namespace's constant prefix followed by the leading hex digits of the
//! SHA-512 digest of the identifier. The function is pure: the same namespace
//! and identifier always yield the same address, on the client and on the
//! ledger alike, and every address self-describes its namespace by its prefix.

use vstd::prelude::*;

use crate::codec::{enc_chars, lemma_enc_chars_take, push_u32_le};
use crate::crypto::{sha512, sha512_of};

verus! {

/// The namespaces of the global state address space: the identity registry,
/// the schema registry, and the product registry.
#[derive(Debug, Clone, Copy, PartialEq, Eq, Structural)]
pub enum Namespace {
    Pike,
    Schema,
    Product,
}

/// The length of every address, in hex characters.
pub open spec fn address_len() -> int {
    70
}

/// The constant prefix of each namespace.
pub open spec fn spec_namespace_prefix(ns: Namespace) -> Seq<char> {
    match ns {
        Namespace::Pike => "cad11d"@,
        Namespace::Schema => "621dee01"@,
        Namespace::Product => "621dee02"@,
    }
}

/// The prefixes are 6 characters (identity) or 8 characters (schema,
/// product), and no prefix is a prefix of another.
pub proof fn lemma_namespace_prefix_facts()
    ensures
        spec_namespace_prefix(Namespace::Pike).len() == 6,
        spec_namespace_prefix(Namespace::Schema).len() == 8,
        spec_namespace_prefix(Namespace::Product).len() == 8,
        spec_namespace_prefix(Namespace::Pike)[0] == 'c',
        spec_namespace_prefix(Namespace::Schema)[0] == '6',
        spec_namespace_prefix(Namespace::Product)[0] == '6',
        spec_namespace_prefix(Namespace::Schema)[7] == '1',
        spec_namespace_prefix(Namespace::Product)[7] == '2',
{
    reveal_strlit("cad11d");
    reveal_strlit("621dee01");
    reveal_strlit("621dee02");
}

/// The constant prefix of each namespace.
pub fn namespace_prefix(ns: Namespace) -> (r: String)
    ensures
        r@ == spec_namespace_prefix(ns),
{
    match ns {
        Namespace::Pike => String::from_str("cad11d"),
        Namespace::Schema => String::from_str("621dee01"),
        Namespace::Product => String::from_str("621dee02"),
    }
}

/// The lower-case hexadecimal digit of a value below sixteen.
pub open spec fn spec_hex_digit(n: u8) -> char {
    if n == 0 {
        '0'
    } else if n == 1 {
        '1'
    } else if n == 2 {
        '2'
    } else if n == 3 {
        '3'
    } else if n == 4 {
        '4'
    } else if n == 5 {
        '5'
    } else if n == 6 {
        '6'
    } else if n == 7 {
        '7'
    } else if n == 8 {
        '8'
    } else if n == 9 {
        '9'
    } else if n == 10 {
        'a'
    } else if n == 11 {
        'b'
    } else if n == 12 {
        'c'
    } else if n == 13 {
        'd'
    } else if n == 14 {
        'e'
    } else {
        'f'
    }
}

/// The lower-case hex expansion of a byte sequence, two digits per byte.
pub open spec fn hex_of(data: Seq<u8>) -> Seq<char>
    decreases data.len(),
{
    if data.len() == 0 {
        Seq::empty()
    } else {
        seq![spec_hex_digit(data[0] / 16), spec_hex_digit(data[0] % 16)] + hex_of(
            data.drop_first(),
        )
    }
}

/// The hex expansion is twice as long as its input.
pub proof fn lemma_hex_of_len(data: Seq<u8>)
    ensures
        hex_of(data).len() == 2 * data.len(),
    decreases data.len(),
{
    if data.len() > 0 {
        lemma_hex_of_len(data.drop_first());
    }
}

/// Hex expansions concatenate.
proof fn lemma_hex_of_concat(s1: Seq<u8>, s2: Seq<u8>)
    ensures
        hex_of(s1 + s2) == hex_of(s1) + hex_of(s2),
    decreases s1.len(),
{
    if s1.len() == 0 {
        assert(s1 + s2 =~= s2);
        assert(hex_of(s1) + hex_of(s2) =~= hex_of(s2));
    } else {
        assert((s1 + s2)[0] == s1[0]);
        assert((s1 + s2).drop_first() =~= s1.drop_first() + s2);
        lemma_hex_of_concat(s1.drop_first(), s2);
        let head = seq![spec_hex_digit(s1[0] / 16), spec_hex_digit(s1[0] % 16)];
        assert(head + (hex_of(s1.drop_first()) + hex_of(s2)) =~= (head + hex_of(s1.drop_first()))
            + hex_of(s2));
    }
}

/// Extending a hex expansion by one byte.
proof fn lemma_hex_of_take(data: Seq<u8>, i: int)
    requires
        0 <= i < data.len(),
    ensures
        hex_of(data.take(i + 1)) == hex_of(data.take(i)) + seq![
            spec_hex_digit(data[i] / 16),
            spec_hex_digit(data[i] % 16),
        ],
{
    let b = data[i];
    assert(data.take(i + 1) =~= data.take(i) + seq![b]);
    lemma_hex_of_concat(data.take(i), seq![b]);
    assert(seq![b].len() == 1 && seq![b][0] == b);
    assert(seq![b].drop_first() =~= Seq::<u8>::empty());
    assert(hex_of(Seq::<u8>::empty()) =~= Seq::<char>::empty());
    let head = seq![spec_hex_digit(b / 16), spec_hex_digit(b % 16)];
    assert(hex_of(seq![b]) =~= head + Seq::<char>::empty());
    assert(head + Seq::<char>::empty() =~= head);
}

/// The lower-case hexadecimal digit of a value below sixteen.
fn hex_digit(n: u8) -> (r: char)
    requires
        n < 16,
    ensures
        r == spec_hex_digit(n),
{
    match n {
        0 => '0',
        1 => '1',
        2 => '2',
        3 => '3',
        4 => '4',
        5 => '5',
        6 => '6',
        7 => '7',
        8 => '8',
        9 => '9',
        10 => 'a',
        11 => 'b',
        12 => 'c',
        13 => 'd',
        14 => 'e',
        _ => 'f',
    }
}

/// The lower-case hex expansion of a byte sequence, two digits per byte.
pub fn to_hex(data: &Vec<u8>) -> (r: String)
    ensures
        r@ == hex_of(data@),
        r@.len() == 2 * data@.len(),
{
    let mut s = String::new();
    let n = data.len();
    let mut i: usize = 0;
    while i < n
        invariant
            i <= n,
            n == data@.len(),
            s@ == hex_of(data@.take(i as int)),
        decreases n - i,
    {
        let b = data[i];
        let hi = hex_digit(b / 16);
        let lo = hex_digit(b % 16);
        s.push(hi);
        s.push(lo);
        proof {
            lemma_hex_of_take(data@, i as int);
            assert(s@ =~= hex_of(data@.take(i as int + 1)));
        }
        i = i + 1;
    }
    proof {
        assert(data@.take(n as int) =~= data@);
        lemma_hex_of_len(data@);
    }
    s
}

/// The fixed-width character encoding of an identifier: the bytes that are
/// hashed to derive its address.
fn id_bytes(id: &str) -> (r: Vec<u8>)
    ensures
        r@ == enc_chars(id@),
{
    let mut out: Vec<u8> = Vec::new();
    let n = id.unicode_len();
    let mut i: usize = 0;
    while i < n
        invariant
            i <= n,
            n == id@.len(),
            out@ == enc_chars(id@.take(i as int)),
        decreases n - i,
    {
        let c = id.get_char(i);
        push_u32_le(&mut out, c as u32);
        proof {
            lemma_enc_chars_take(id@, i as int);
            assert(out@ =~= enc_chars(id@.take(i as int + 1)));
        }
        i = i + 1;
    }
    proof {
        assert(id@.take(n as int) =~= id@);
    }
    out
}

/// The address of `id` under `ns`: the namespace's prefix followed by the
/// leading hex digits of the SHA-512 digest of the identifier, 70 characters
/// in all.
pub open spec fn spec_address(ns: Namespace, id: Seq<char>) -> Seq<char> {
    spec_namespace_prefix(ns) + hex_of(sha512_of(enc_chars(id))).take(
        address_len() - spec_namespace_prefix(ns).len(),
    )
}

/// Every address is exactly 70 characters and starts with its namespace's
/// prefix. The hypothesis is the digest length, which the digest wrapper
/// guarantees at every call site.
pub proof fn lemma_address_shape(ns: Namespace, id: Seq<char>)
    requires
        sha512_of(enc_chars(id)).len() == 64,
    ensures
        spec_address(ns, id).len() == address_len(),
        spec_address(ns, id).take(spec_namespace_prefix(ns).len() as int) == spec_namespace_prefix(
            ns,
        ),
{
    lemma_namespace_prefix_facts();
    lemma_hex_of_len(sha512_of(enc_chars(id)));
    assert(spec_address(ns, id).take(spec_namespace_prefix(ns).len() as int)
        =~= spec_namespace_prefix(ns));
}

/// Determinism: the address is a pure function of the namespace and the
/// identifier — equal inputs always yield the equal address, across repeated
/// calls and across the client and ledger sides.
pub proof fn lemma_address_deterministic(
    ns1: Namespace,
    id1: Seq<char>,
    ns2: Namespace,
    id2: Seq<char>,
)
    requires
        ns1 == ns2,
        id1 == id2,
    ensures
        spec_address(ns1, id1) == spec_address(ns2, id2),
{
}

/// Namespace scoping: an address derived under one namespace never begins
/// with another namespace's prefix.
pub proof fn lemma_address_prefix_distinct(ns1: Namespace, ns2: Namespace, id: Seq<char>)
    requires
        ns1 != ns2,
        sha512_of(enc_chars(id)).len() == 64,
    ensures
        spec_address(ns1, id).take(spec_namespace_prefix(ns2).len() as int)
            != spec_namespace_prefix(ns2),
{
    lemma_namespace_prefix_facts();
    lemma_hex_of_len(sha512_of(enc_chars(id)));
    let a = spec_address(ns1, id);
    let p1 = spec_namespace_prefix(ns1);
    let p2 = spec_namespace_prefix(ns2);
    assert(a.len() == 70);
    if p1[0] != p2[0] {
        assert(a.take(p2.len() as int)[0] == p1[0]);
    } else {
        // the schema and product prefixes share "621dee0" and differ at
        // their last character
        assert(a.take(p2.len() as int)[7] == p1[7]);
    }
}

/// The address of `id` under `ns`.
pub fn address(ns: Namespace, id: &str) -> (r: String)
    ensures
        r@ == spec_address(ns, id@),
        r@.len() == address_len(),
{
    let mut out = namespace_prefix(ns);
    let keep: usize = match ns {
        Namespace::Pike => 64,
        Namespace::Schema => 62,
        Namespace::Product => 62,
    };
    let digest = sha512(&id_bytes(id));
    let hex = to_hex(&digest);
    let ghost hex_view = hex@;
    let mut i: usize = 0;
    proof {
        lemma_namespace_prefix_facts();
    }
    while i < keep
        invariant
            i <= keep,
            keep <= hex_view.len(),
            hex@ == hex_view,
            out@ == spec_namespace_prefix(ns) + hex_view.take(i as int),
        decreases keep - i,
    {
        let c = hex.as_str().get_char(i);
        out.push(c);
        proof {
            assert(hex_view.take(i as int + 1) =~= hex_view.take(i as int).push(hex_view[i as int]));
            assert(out@ =~= spec_namespace_prefix(ns) + hex_view.take(i as int + 1));
        }
        i = i + 1;
    }
    proof {
        lemma_address_shape(ns, id@);
    }
    out
}

} // verus!
