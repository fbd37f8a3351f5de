//! Batch builder.
//!
//! A batch aggregates the transactions of one construction run into a single
//! signed, atomic unit. The order of `add_transaction` calls is preserved
//! exactly: the batch signature covers the ordered transaction id list, so
//! reordering invalidates it. Any failure while adding aborts the whole
//! construction; no partial batch is ever returned.

use vstd::prelude::*;

use crate::address::{hex_of, to_hex, Namespace};
use crate::codec::{enc_bytes, push_bytes, u32_le};
use crate::crypto::{ecdsa_public_key, ecdsa_sign, is_valid_secret, public_key_of, sha512, sha512_of, sig_of};
use crate::errors::{BuildError, ClientError};
use crate::model::ProductPayload;
use crate::transaction::{
    build_transaction, enc_str_list, push_str_list, spec_txn_ok, txn_buildable, Transaction,
    TransactionModel,
};
use crate::validation::view_strs;

verus! {

/// An atomically applied, signed, ordered group of transactions.
pub struct Batch {
    pub transactions: Vec<Transaction>,
    pub signer_public_key: Vec<u8>,
    pub header_bytes: Vec<u8>,
    pub signature: Vec<u8>,
}

/// The mathematical model of a batch.
pub struct BatchModel {
    pub transactions: Seq<TransactionModel>,
    pub signer_public_key: Seq<u8>,
    pub header_bytes: Seq<u8>,
    pub signature: Seq<u8>,
}

/// The models of a run of transactions, in order.
pub open spec fn view_txns(ts: Seq<Transaction>) -> Seq<TransactionModel> {
    Seq::new(ts.len(), |i: int| ts[i]@)
}

impl View for Batch {
    type V = BatchModel;

    open spec fn view(&self) -> BatchModel {
        BatchModel {
            transactions: view_txns(self.transactions@),
            signer_public_key: self.signer_public_key@,
            header_bytes: self.header_bytes@,
            signature: self.signature@,
        }
    }
}

/// The envelope the external transport expects: a list of batches.
pub struct BatchList {
    pub batches: Vec<Batch>,
}

/// The models of the batches in a list, in order.
pub open spec fn view_batches(bs: Seq<Batch>) -> Seq<BatchModel> {
    Seq::new(bs.len(), |i: int| bs[i]@)
}

impl View for BatchList {
    type V = Seq<BatchModel>;

    open spec fn view(&self) -> Seq<BatchModel> {
        view_batches(self.batches@)
    }
}

/// A transaction's id: the hex expansion of its signature.
pub open spec fn txn_id(t: TransactionModel) -> Seq<char> {
    hex_of(t.signature)
}

/// The ordered transaction id list of a run of transactions.
pub open spec fn txn_ids(ts: Seq<TransactionModel>) -> Seq<Seq<char>> {
    Seq::new(ts.len(), |i: int| txn_id(ts[i]))
}

/// The canonical batch header: what the batch signature covers. Because the
/// id list is ordered, reordering the transactions changes the header and
/// invalidates the signature.
pub open spec fn enc_batch_header(signer_public_key: Seq<u8>, ids: Seq<Seq<char>>) -> Seq<u8> {
    enc_bytes(signer_public_key) + enc_str_list(ids)
}

/// Whether a batch can be finalized: at least one transaction, a count that
/// fits its prefix, and a valid signing key.
pub open spec fn batch_signable(key: Seq<u8>, ts: Seq<TransactionModel>) -> bool {
    &&& 1 <= ts.len() <= 0xffff_ffff
    &&& key.len() == 32
    &&& is_valid_secret(key)
}

/// What a finalized batch holds: exactly the builder's transactions in their
/// original order, the signer's public key, the canonical header over the
/// ordered id list, and the signature over the header's truncated SHA-512
/// digest.
pub open spec fn spec_batch_ok(b: BatchModel, key: Seq<u8>, ts: Seq<TransactionModel>) -> bool {
    &&& b.transactions == ts
    &&& b.signer_public_key == public_key_of(key)
    &&& b.header_bytes == enc_batch_header(public_key_of(key), txn_ids(ts))
    &&& b.signature == sig_of(sha512_of(b.header_bytes).take(32), key)
}

/// Accumulates transactions, in call order, for one atomic batch.
pub struct BatchBuilder {
    signer_key: Vec<u8>,
    transactions: Vec<Transaction>,
}

impl BatchBuilder {
    /// The signing key this builder holds; it never appears in any output.
    pub closed spec fn key(&self) -> Seq<u8> {
        self.signer_key@
    }

    /// The models of the transactions added so far, in call order.
    pub closed spec fn txns(&self) -> Seq<TransactionModel> {
        view_txns(self.transactions@)
    }

    /// Every accumulated transaction carries a 64-byte signature, so its id
    /// fits a 32-bit length prefix.
    pub closed spec fn wf(&self) -> bool {
        forall|i: int|
            0 <= i < self.transactions@.len() ==> (#[trigger] self.transactions@[i])@.signature.len()
                == 64
    }

    /// An empty builder around a signing key.
    pub fn new(signer_key: Vec<u8>) -> (r: BatchBuilder)
        ensures
            r.key() == signer_key@,
            r.txns() == Seq::<TransactionModel>::empty(),
            r.wf(),
    {
        let r = BatchBuilder { signer_key, transactions: Vec::new() };
        proof {
            assert(r.txns() =~= Seq::<TransactionModel>::empty());
        }
        r
    }

    /// Builds one transaction from a payload and appends it, preserving call
    /// order. A failure leaves the builder unchanged, so the caller can
    /// abort the whole batch (fail-fast).
    pub fn add_transaction(
        &mut self,
        payload: &ProductPayload,
        input_namespaces: &Vec<Namespace>,
        output_namespaces: &Vec<Namespace>,
    ) -> (r: Result<(), ClientError>)
        ensures
            (r is Ok) <==> txn_buildable(
                payload@,
                old(self).key(),
                input_namespaces@,
                output_namespaces@,
            ),
            final(self).key() == old(self).key(),
            old(self).wf() ==> final(self).wf(),
            r is Ok ==> ({
                &&& final(self).txns().len() == old(self).txns().len() + 1
                &&& final(self).txns().take(old(self).txns().len() as int) == old(self).txns()
                &&& spec_txn_ok(
                    final(self).txns().last(),
                    payload@,
                    old(self).key(),
                    input_namespaces@,
                    output_namespaces@,
                )
            }),
            r is Err ==> final(self).txns() == old(self).txns(),
    {
        let txn = match build_transaction(
            payload,
            &self.signer_key,
            input_namespaces,
            output_namespaces,
        ) {
            Ok(t) => t,
            Err(e) => {
                return Err(e);
            },
        };
        let ghost prev = self.transactions@;
        self.transactions.push(txn);
        proof {
            assert(view_txns(self.transactions@).take(prev.len() as int) =~= view_txns(prev));
        }
        Ok(())
    }

    /// Finalizes the batch: computes the header over the ordered transaction
    /// id list, signs it, and returns the batch wrapped in the transport's
    /// list envelope. The transactions appear exactly in the order they were
    /// added. Fails when no transaction was added or the key is invalid.
    pub fn create_batch_list(self) -> (r: Result<BatchList, ClientError>)
        requires
            self.wf(),
        ensures
            (r is Ok) <==> batch_signable(self.key(), self.txns()),
            r matches Ok(bl) ==> bl@.len() == 1 && spec_batch_ok(bl@[0], self.key(), self.txns()),
    {
        if self.transactions.len() == 0 {
            return Err(
                ClientError::Build(BuildError::MissingField(String::from_str("transactions"))),
            );
        }
        if self.transactions.len() > 0xffff_ffffusize {
            return Err(
                ClientError::Build(BuildError::InvalidField(String::from_str("transactions"))),
            );
        }
        let n = self.transactions.len();
        let mut ids: Vec<String> = Vec::new();
        let mut i: usize = 0;
        while i < n
            invariant
                i <= n,
                n == self.transactions@.len(),
                self.wf(),
                ids@.len() == i,
                forall|j: int|
                    0 <= j < i ==> (#[trigger] ids@[j])@ == txn_id(view_txns(self.transactions@)[j])
                        && ids@[j]@.len() == 128,
            decreases n - i,
        {
            let id = to_hex(&self.transactions[i].signature);
            ids.push(id);
            i = i + 1;
        }
        let signer_public_key = match ecdsa_public_key(&self.signer_key) {
            Ok(p) => p,
            Err(e) => {
                return Err(ClientError::Signing(e));
            },
        };
        let mut header: Vec<u8> = Vec::new();
        match push_bytes(&mut header, &signer_public_key) {
            Ok(_) => (),
            Err(e) => {
                return Err(ClientError::Build(e));
            },
        }
        proof {
            assert(view_strs(ids@) =~= txn_ids(self.txns()));
        }
        match push_str_list(&mut header, &ids) {
            Ok(_) => (),
            Err(e) => {
                return Err(ClientError::Build(e));
            },
        }
        proof {
            assert(header@ =~= enc_batch_header(signer_public_key@, txn_ids(self.txns())));
        }
        let header_digest = sha512(&header);
        let mut digest32: Vec<u8> = Vec::new();
        let mut k: usize = 0;
        while k < 32
            invariant
                k <= 32,
                header_digest@.len() == 64,
                digest32@ == header_digest@.take(k as int),
            decreases 32 - k,
        {
            let b = header_digest[k];
            digest32.push(b);
            proof {
                assert(digest32@ =~= header_digest@.take(k as int + 1));
            }
            k = k + 1;
        }
        let signature = match ecdsa_sign(&digest32, &self.signer_key) {
            Ok(s) => s,
            Err(e) => {
                return Err(ClientError::Signing(e));
            },
        };
        let batch = Batch {
            transactions: self.transactions,
            signer_public_key,
            header_bytes: header,
            signature,
        };
        let ghost batch_model = batch@;
        let mut batches: Vec<Batch> = Vec::new();
        batches.push(batch);
        let bl = BatchList { batches };
        proof {
            assert(bl@.len() == 1);
            assert(bl@[0] == batch_model);
        }
        Ok(bl)
    }
}

/// A builder for product batches around a signing key.
pub fn product_batch_builder(key: Vec<u8>) -> (r: BatchBuilder)
    ensures
        r.key() == key@,
        r.txns() == Seq::<TransactionModel>::empty(),
        r.wf(),
{
    BatchBuilder::new(key)
}

/// Builds one atomic batch from the given payloads: each payload becomes one
/// transaction reading the identity and schema namespaces and writing the
/// product namespace, in exactly the order given. Construction fails fast:
/// the first payload that cannot be encoded, or an invalid key, aborts the
/// whole batch and nothing is returned.
pub fn build_batches_from_payloads(payloads: Vec<ProductPayload>, key: Vec<u8>) -> (r: Result<
    BatchList,
    ClientError,
>)
    ensures
        r matches Ok(bl) ==> {
            &&& bl@.len() == 1
            &&& bl@[0].transactions.len() == payloads@.len()
            &&& forall|i: int|
                0 <= i < payloads@.len() ==> spec_txn_ok(
                    #[trigger] bl@[0].transactions[i],
                    payloads@[i]@,
                    key@,
                    seq![Namespace::Pike, Namespace::Schema],
                    seq![Namespace::Product],
                )
        },
        r is Err ==> ({
            ||| payloads@.len() == 0
            ||| payloads@.len() > 0xffff_ffff
            ||| key@.len() != 32
            ||| !is_valid_secret(key@)
            ||| exists|i: int|
                0 <= i < payloads@.len() && !crate::codec::payload_encodable(
                    #[trigger] payloads@[i]@,
                )
        }),
{
    let mut builder = product_batch_builder(key);
    let ghost key_view = builder.key();
    let mut input_namespaces: Vec<Namespace> = Vec::new();
    input_namespaces.push(Namespace::Pike);
    input_namespaces.push(Namespace::Schema);
    let mut output_namespaces: Vec<Namespace> = Vec::new();
    output_namespaces.push(Namespace::Product);
    proof {
        assert(input_namespaces@ =~= seq![Namespace::Pike, Namespace::Schema]);
        assert(output_namespaces@ =~= seq![Namespace::Product]);
    }
    let n = payloads.len();
    let mut i: usize = 0;
    while i < n
        invariant
            i <= n,
            n == payloads@.len(),
            builder.key() == key_view,
            key_view == key@,
            builder.wf(),
            input_namespaces@ == seq![Namespace::Pike, Namespace::Schema],
            output_namespaces@ == seq![Namespace::Product],
            builder.txns().len() == i,
            forall|j: int|
                0 <= j < i ==> spec_txn_ok(
                    #[trigger] builder.txns()[j],
                    payloads@[j]@,
                    key_view,
                    seq![Namespace::Pike, Namespace::Schema],
                    seq![Namespace::Product],
                ),
        decreases n - i,
    {
        let ghost prev = builder.txns();
        match builder.add_transaction(&payloads[i], &input_namespaces, &output_namespaces) {
            Ok(_) => (),
            Err(e) => {
                proof {
                    assert(!crate::codec::payload_encodable(payloads@[i as int]@) || key_view.len()
                        != 32 || !is_valid_secret(key_view));
                }
                return Err(e);
            },
        }
        proof {
            assert forall|j: int| 0 <= j < prev.len() implies #[trigger] builder.txns()[j]
                == prev[j] by {
                assert(builder.txns().take(prev.len() as int)[j] == builder.txns()[j]);
            }
            assert(builder.txns()[i as int] == builder.txns().last());
            assert(spec_txn_ok(
                builder.txns()[i as int],
                payloads@[i as int]@,
                key_view,
                seq![Namespace::Pike, Namespace::Schema],
                seq![Namespace::Product],
            ));
        }
        i = i + 1;
    }
    builder.create_batch_list()
}

} // verus!
