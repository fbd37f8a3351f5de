//! Transaction builder.
//!
//! A transaction wraps one encoded payload with the signer's public key, the
//! addresses it may read and write, and a signature over a canonical header.
//! The declared addresses are computed here, by applying the address scheme
//! to the payload's own identifier under the caller's namespace lists, so a
//! payload can never touch an address its transaction does not declare. The
//! signer's private key is used only to sign and never appears in the output.

use vstd::prelude::*;

use crate::address::{
    address, hex_of, spec_address, spec_namespace_prefix, to_hex, lemma_address_prefix_distinct,
    Namespace,
};
use crate::codec::{
    enc_bytes, enc_chars, enc_payload, enc_str, encode, payload_encodable, push_bytes, push_str,
    push_u32_le, str_encodable, u32_le,
};
use crate::crypto::{
    ecdsa_public_key, ecdsa_sign, is_valid_secret, public_key_of, sha512, sha512_of, sig_of,
};
use crate::errors::{BuildError, ClientError};
use crate::model::{ProductPayload, ProductPayloadModel};
use crate::validation::{action_product_id, view_strs};

verus! {

/// One signed unit wrapping a payload with its declared readable and
/// writable addresses.
pub struct Transaction {
    pub payload_bytes: Vec<u8>,
    pub payload_hash: String,
    pub signer_public_key: Vec<u8>,
    pub input_addresses: Vec<String>,
    pub output_addresses: Vec<String>,
    pub dependencies: Vec<String>,
    pub header_bytes: Vec<u8>,
    pub signature: Vec<u8>,
}

/// The mathematical model of a transaction.
pub struct TransactionModel {
    pub payload_bytes: Seq<u8>,
    pub payload_hash: Seq<char>,
    pub signer_public_key: Seq<u8>,
    pub input_addresses: Seq<Seq<char>>,
    pub output_addresses: Seq<Seq<char>>,
    pub dependencies: Seq<Seq<char>>,
    pub header_bytes: Seq<u8>,
    pub signature: Seq<u8>,
}

impl View for Transaction {
    type V = TransactionModel;

    open spec fn view(&self) -> TransactionModel {
        TransactionModel {
            payload_bytes: self.payload_bytes@,
            payload_hash: self.payload_hash@,
            signer_public_key: self.signer_public_key@,
            input_addresses: view_strs(self.input_addresses@),
            output_addresses: view_strs(self.output_addresses@),
            dependencies: view_strs(self.dependencies@),
            header_bytes: self.header_bytes@,
            signature: self.signature@,
        }
    }
}

/// The concatenated encodings of a run of strings.
pub open spec fn enc_strs(ss: Seq<Seq<char>>) -> Seq<u8>
    decreases ss.len(),
{
    if ss.len() == 0 {
        Seq::empty()
    } else {
        enc_str(ss[0]) + enc_strs(ss.drop_first())
    }
}

/// A count followed by length-prefixed strings.
pub open spec fn enc_str_list(ss: Seq<Seq<char>>) -> Seq<u8> {
    u32_le(ss.len() as u32) + enc_strs(ss)
}

/// Whether a string list fits its 32-bit count prefixes.
pub open spec fn str_list_encodable(ss: Seq<Seq<char>>) -> bool {
    ss.len() <= 0xffff_ffff && (forall|i: int| 0 <= i < ss.len() ==> str_encodable(#[trigger] ss[i]))
}

/// The canonical transaction header: what the transaction signature covers.
pub open spec fn enc_txn_header(
    payload_hash: Seq<char>,
    signer_public_key: Seq<u8>,
    inputs: Seq<Seq<char>>,
    outputs: Seq<Seq<char>>,
    dependencies: Seq<Seq<char>>,
) -> Seq<u8> {
    enc_bytes(signer_public_key) + enc_str(payload_hash) + enc_str_list(inputs) + enc_str_list(
        outputs,
    ) + enc_str_list(dependencies)
}

/// String-run encodings concatenate.
proof fn lemma_enc_strs_concat(s1: Seq<Seq<char>>, s2: Seq<Seq<char>>)
    ensures
        enc_strs(s1 + s2) == enc_strs(s1) + enc_strs(s2),
    decreases s1.len(),
{
    if s1.len() == 0 {
        assert(s1 + s2 =~= s2);
        assert(enc_strs(s1) + enc_strs(s2) =~= enc_strs(s2));
    } else {
        assert((s1 + s2)[0] == s1[0]);
        assert((s1 + s2).drop_first() =~= s1.drop_first() + s2);
        lemma_enc_strs_concat(s1.drop_first(), s2);
        assert(enc_str(s1[0]) + (enc_strs(s1.drop_first()) + enc_strs(s2)) =~= (enc_str(s1[0])
            + enc_strs(s1.drop_first())) + enc_strs(s2));
    }
}

/// Extending an encoded prefix of a string run by its next element.
proof fn lemma_enc_strs_take(s: Seq<Seq<char>>, i: int)
    requires
        0 <= i < s.len(),
    ensures
        enc_strs(s.take(i + 1)) == enc_strs(s.take(i)) + enc_str(s[i]),
{
    let x = s[i];
    assert(s.take(i + 1) =~= s.take(i) + seq![x]);
    lemma_enc_strs_concat(s.take(i), seq![x]);
    assert(seq![x].len() == 1 && seq![x][0] == x);
    assert(seq![x].drop_first() =~= Seq::<Seq<char>>::empty());
    assert(enc_strs(Seq::<Seq<char>>::empty()) =~= Seq::<u8>::empty());
    assert(enc_strs(seq![x]) =~= enc_str(x) + Seq::<u8>::empty());
    assert(enc_str(x) + Seq::<u8>::empty() =~= enc_str(x));
}

/// Appends a count-prefixed run of strings; fails when the count or some
/// string's length does not fit its 32-bit prefix.
pub(crate) fn push_str_list(out: &mut Vec<u8>, ss: &Vec<String>) -> (r: Result<(), BuildError>)
    ensures
        r is Ok <==> str_list_encodable(view_strs(ss@)),
        r is Ok ==> final(out)@ == old(out)@ + enc_str_list(view_strs(ss@)),
{
    let ghost start = out@;
    let ghost model = view_strs(ss@);
    let n = ss.len();
    if n > 0xffff_ffffusize {
        return Err(BuildError::InvalidField(String::from_str("list length")));
    }
    push_u32_le(out, n as u32);
    let mut i: usize = 0;
    while i < n
        invariant
            i <= n,
            n <= 0xffff_ffff,
            n == ss@.len(),
            model == view_strs(ss@),
            out@ == start + u32_le(n as u32) + enc_strs(model.take(i as int)),
            forall|j: int| 0 <= j < i ==> str_encodable(#[trigger] model[j]),
        decreases n - i,
    {
        match push_str(out, &ss[i]) {
            Ok(_) => (),
            Err(e) => {
                proof {
                    assert(!str_encodable(model[i as int]));
                }
                return Err(e);
            },
        }
        proof {
            lemma_enc_strs_take(model, i as int);
            assert(out@ =~= start + u32_le(n as u32) + enc_strs(model.take(i as int + 1)));
        }
        i = i + 1;
    }
    proof {
        assert(model.take(n as int) =~= model);
        assert(out@ =~= start + enc_str_list(model));
    }
    Ok(())
}

/// The addresses of one identifier under each namespace in a list, in order.
pub open spec fn spec_addresses(nss: Seq<Namespace>, id: Seq<char>) -> Seq<Seq<char>> {
    Seq::new(nss.len(), |i: int| spec_address(nss[i], id))
}

/// Computes the address of `id` under each namespace, in order.
fn compute_addresses(namespaces: &Vec<Namespace>, id: &str) -> (r: Vec<String>)
    ensures
        view_strs(r@) == spec_addresses(namespaces@, id@),
        forall|j: int| 0 <= j < r@.len() ==> (#[trigger] r@[j])@.len() == 70,
{
    let n = namespaces.len();
    let mut out: Vec<String> = Vec::new();
    let mut i: usize = 0;
    while i < n
        invariant
            i <= n,
            n == namespaces@.len(),
            out@.len() == i,
            forall|j: int|
                0 <= j < i ==> (#[trigger] out@[j])@ == spec_address(namespaces@[j], id@),
            forall|j: int| 0 <= j < i ==> (#[trigger] out@[j])@.len() == 70,
        decreases n - i,
    {
        let a = address(namespaces[i], id);
        out.push(a);
        i = i + 1;
    }
    proof {
        assert(view_strs(out@) =~= spec_addresses(namespaces@, id@));
    }
    out
}

/// Whether a transaction can be built at all: the payload is encodable, the
/// signing key is a valid 32-byte secret key, and the namespace lists fit
/// their count prefixes.
pub open spec fn txn_buildable(
    p: ProductPayloadModel,
    key: Seq<u8>,
    ins: Seq<Namespace>,
    outs: Seq<Namespace>,
) -> bool {
    &&& payload_encodable(p)
    &&& key.len() == 32
    &&& is_valid_secret(key)
    &&& ins.len() <= 0xffff_ffff
    &&& outs.len() <= 0xffff_ffff
}

/// What a built transaction holds, field by field: the canonical payload
/// encoding, its SHA-512 hash in hex, the signer's public key, the addresses
/// of the payload's identifier under the declared namespaces, no
/// dependencies, the canonical header over those fields, and the signature
/// over the header's truncated SHA-512 digest.
pub open spec fn spec_txn_ok(
    t: TransactionModel,
    p: ProductPayloadModel,
    key: Seq<u8>,
    ins: Seq<Namespace>,
    outs: Seq<Namespace>,
) -> bool {
    &&& t.payload_bytes == enc_payload(p)
    &&& t.payload_hash == hex_of(sha512_of(enc_payload(p)))
    &&& t.signer_public_key == public_key_of(key)
    &&& t.input_addresses == spec_addresses(ins, action_product_id(p.action))
    &&& t.output_addresses == spec_addresses(outs, action_product_id(p.action))
    &&& t.dependencies == Seq::<Seq<char>>::empty()
    &&& t.header_bytes == enc_txn_header(
        t.payload_hash,
        t.signer_public_key,
        t.input_addresses,
        t.output_addresses,
        t.dependencies,
    )
    &&& t.signature == sig_of(sha512_of(t.header_bytes).take(32), key)
    &&& t.signature.len() == 64
}

/// Builds one signed transaction from a payload: encodes it, hashes the
/// encoding, derives the declared addresses from the payload's identifier
/// under the given namespaces, and signs the canonical header. Fails with a
/// build error exactly when the payload or a namespace list is too large to
/// encode, and with a signing error exactly when the key is not a valid
/// 32-byte secret key.
pub fn build_transaction(
    payload: &ProductPayload,
    signer_key: &Vec<u8>,
    input_namespaces: &Vec<Namespace>,
    output_namespaces: &Vec<Namespace>,
) -> (r: Result<Transaction, ClientError>)
    ensures
        (r is Ok) <==> txn_buildable(
            payload@,
            signer_key@,
            input_namespaces@,
            output_namespaces@,
        ),
        r matches Ok(t) ==> spec_txn_ok(
            t@,
            payload@,
            signer_key@,
            input_namespaces@,
            output_namespaces@,
        ),
{
    let payload_bytes = match encode(payload) {
        Ok(v) => v,
        Err(e) => {
            return Err(ClientError::Build(e));
        },
    };
    let payload_digest = sha512(&payload_bytes);
    let payload_hash = to_hex(&payload_digest);
    let signer_public_key = match ecdsa_public_key(signer_key) {
        Ok(p) => p,
        Err(e) => {
            return Err(ClientError::Signing(e));
        },
    };
    if input_namespaces.len() > 0xffff_ffffusize {
        return Err(ClientError::Build(BuildError::InvalidField(String::from_str("inputs"))));
    }
    if output_namespaces.len() > 0xffff_ffffusize {
        return Err(ClientError::Build(BuildError::InvalidField(String::from_str("outputs"))));
    }
    let input_addresses = compute_addresses(input_namespaces, payload.action.product_id().as_str());
    let output_addresses = compute_addresses(
        output_namespaces,
        payload.action.product_id().as_str(),
    );
    let dependencies: Vec<String> = Vec::new();
    let mut header: Vec<u8> = Vec::new();
    match push_bytes(&mut header, &signer_public_key) {
        Ok(_) => (),
        Err(e) => {
            return Err(ClientError::Build(e));
        },
    }
    match push_str(&mut header, &payload_hash) {
        Ok(_) => (),
        Err(e) => {
            return Err(ClientError::Build(e));
        },
    }
    match push_str_list(&mut header, &input_addresses) {
        Ok(_) => (),
        Err(e) => {
            return Err(ClientError::Build(e));
        },
    }
    match push_str_list(&mut header, &output_addresses) {
        Ok(_) => (),
        Err(e) => {
            return Err(ClientError::Build(e));
        },
    }
    match push_str_list(&mut header, &dependencies) {
        Ok(_) => (),
        Err(e) => {
            return Err(ClientError::Build(e));
        },
    }
    proof {
        assert(view_strs(dependencies@) =~= Seq::<Seq<char>>::empty());
        assert(header@ =~= enc_txn_header(
            payload_hash@,
            signer_public_key@,
            view_strs(input_addresses@),
            view_strs(output_addresses@),
            view_strs(dependencies@),
        ));
    }
    let header_digest = sha512(&header);
    let mut digest32: Vec<u8> = Vec::new();
    let mut i: usize = 0;
    while i < 32
        invariant
            i <= 32,
            header_digest@.len() == 64,
            digest32@ == header_digest@.take(i as int),
        decreases 32 - i,
    {
        let b = header_digest[i];
        digest32.push(b);
        proof {
            assert(digest32@ =~= header_digest@.take(i as int + 1));
        }
        i = i + 1;
    }
    let signature = match ecdsa_sign(&digest32, signer_key) {
        Ok(s) => s,
        Err(e) => {
            return Err(ClientError::Signing(e));
        },
    };
    Ok(
        Transaction {
            payload_bytes,
            payload_hash,
            signer_public_key,
            input_addresses,
            output_addresses,
            dependencies,
            header_bytes: header,
            signature,
        },
    )
}

/// Namespace scoping law: a transaction built without the product namespace
/// among its output namespaces never receives an output address carrying the
/// product namespace's prefix. The digest-length hypothesis is what the
/// digest wrapper guarantees at every call site.
pub proof fn lemma_output_namespace_scoping(
    t: TransactionModel,
    p: ProductPayloadModel,
    key: Seq<u8>,
    ins: Seq<Namespace>,
    outs: Seq<Namespace>,
)
    requires
        spec_txn_ok(t, p, key, ins, outs),
        forall|i: int| 0 <= i < outs.len() ==> outs[i] != Namespace::Product,
        sha512_of(enc_chars(action_product_id(p.action))).len() == 64,
    ensures
        forall|i: int|
            0 <= i < t.output_addresses.len() ==> (#[trigger] t.output_addresses[i]).take(
                spec_namespace_prefix(Namespace::Product).len() as int,
            ) != spec_namespace_prefix(Namespace::Product),
{
    assert forall|i: int|
        0 <= i < t.output_addresses.len() implies (#[trigger] t.output_addresses[i]).take(
        spec_namespace_prefix(Namespace::Product).len() as int,
    ) != spec_namespace_prefix(Namespace::Product) by {
        assert(t.output_addresses[i] == spec_address(outs[i], action_product_id(p.action)));
        lemma_address_prefix_distinct(outs[i], Namespace::Product, action_product_id(p.action));
    }
}

} // verus!
