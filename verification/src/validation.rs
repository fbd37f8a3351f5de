//! Ledger-side validation and state application.
//!
//! Each transaction is checked in two steps — structural validation of the
//! decoded payload, then the semantic rules of its action — and only then
//! applied. Every read and write goes to the product address derived from the
//! payload's identifier, and the apply is attempted only when that address is
//! among the transaction's declared inputs and outputs: the component never
//! attempts a state access outside the declared sets.

use vstd::prelude::*;

use crate::address::{address, spec_address, Namespace};
use crate::errors::ApplyError;
use crate::model::{
    Action, ActionModel, ProductCreateAction, ProductCreateActionModel, ProductPayload,
    ProductPayloadModel, ProductType, ProductUpdateActionModel, PropertyValue, PropertyValueModel,
    view_props,
};

verus! {

/// One product as stored under its address in ledger state.
pub struct Product {
    pub product_id: String,
    pub product_type: ProductType,
    pub owner: String,
    pub properties: Vec<PropertyValue>,
}

/// The mathematical model of a stored product.
pub struct ProductModel {
    pub product_id: Seq<char>,
    pub product_type: ProductType,
    pub owner: Seq<char>,
    pub properties: Seq<PropertyValueModel>,
}

impl View for Product {
    type V = ProductModel;

    open spec fn view(&self) -> ProductModel {
        ProductModel {
            product_id: self.product_id@,
            product_type: self.product_type,
            owner: self.owner@,
            properties: view_props(self.properties@),
        }
    }
}

/// The view of a run of state entries as a map from address to product,
/// later entries shadowing earlier ones.
pub open spec fn entries_view(s: Seq<(String, Product)>) -> Map<Seq<char>, ProductModel>
    decreases s.len(),
{
    if s.len() == 0 {
        Map::empty()
    } else {
        entries_view(s.drop_last()).insert(s.last().0@, s.last().1@)
    }
}

/// The slice of ledger state a transaction works on: entries addressed by
/// state address. Viewed as a map from address to product.
pub struct LedgerState {
    pub entries: Vec<(String, Product)>,
}

impl View for LedgerState {
    type V = Map<Seq<char>, ProductModel>;

    open spec fn view(&self) -> Map<Seq<char>, ProductModel> {
        entries_view(self.entries@)
    }
}

/// Entries beyond `i` that never match `k` do not affect the lookup of `k`.
proof fn lemma_entries_view_skip(s: Seq<(String, Product)>, i: int, k: Seq<char>)
    requires
        0 <= i <= s.len(),
        forall|j: int| i <= j < s.len() ==> s[j].0@ != k,
    ensures
        entries_view(s).contains_key(k) == entries_view(s.take(i)).contains_key(k),
        entries_view(s).contains_key(k) ==> entries_view(s)[k] == entries_view(s.take(i))[k],
    decreases s.len() - i,
{
    if i < s.len() {
        lemma_entries_view_skip(s, i + 1, k);
        assert(s.take(i + 1).drop_last() =~= s.take(i));
        assert(s.take(i + 1).last() == s[i]);
    } else {
        assert(s.take(i) =~= s);
    }
}

/// A match at `i` with no later match determines the lookup of `k`.
proof fn lemma_entries_view_found(s: Seq<(String, Product)>, i: int, k: Seq<char>)
    requires
        0 <= i < s.len(),
        s[i].0@ == k,
        forall|j: int| i < j < s.len() ==> s[j].0@ != k,
    ensures
        entries_view(s).contains_key(k),
        entries_view(s)[k] == s[i].1@,
{
    lemma_entries_view_skip(s, i + 1, k);
    assert(s.take(i + 1).drop_last() =~= s.take(i));
    assert(s.take(i + 1).last() == s[i]);
}

impl LedgerState {
    /// An empty state slice.
    pub fn new() -> (r: LedgerState)
        ensures
            r@ == Map::<Seq<char>, ProductModel>::empty(),
    {
        LedgerState { entries: Vec::new() }
    }

    /// The product stored at `addr`, if any.
    pub fn get(&self, addr: &String) -> (r: Option<&Product>)
        ensures
            match r {
                Option::Some(p) => self@.contains_key(addr@) && p@ == self@[addr@],
                Option::None => !self@.contains_key(addr@),
            },
    {
        let n = self.entries.len();
        let mut i: usize = n;
        while i > 0
            invariant
                i <= n,
                n == self.entries@.len(),
                forall|j: int| i <= j < n ==> self.entries@[j].0@ != addr@,
            decreases i,
        {
            i = i - 1;
            if self.entries[i].0 == *addr {
                proof {
                    lemma_entries_view_found(self.entries@, i as int, addr@);
                }
                return Some(&self.entries[i].1);
            }
        }
        proof {
            lemma_entries_view_skip(self.entries@, 0, addr@);
            assert(self.entries@.take(0) =~= Seq::<(String, Product)>::empty());
        }
        None
    }

    /// Stores `product` at `addr`, replacing any earlier entry.
    pub fn set(&mut self, addr: String, product: Product)
        ensures
            final(self)@ == old(self)@.insert(addr@, product@),
    {
        let ghost prev = self.entries@;
        self.entries.push((addr, product));
        proof {
            assert(self.entries@.drop_last() =~= prev);
        }
    }

    /// Removes the entry at `addr`, if any.
    pub fn remove(&mut self, addr: &String)
        ensures
            final(self)@ == old(self)@.remove(addr@),
    {
        let ghost orig = self.entries@;
        let mut rev: Vec<(String, Product)> = Vec::new();
        while self.entries.len() > 0
            invariant
                orig == self.entries@ + rev@.reverse(),
            decreases self.entries@.len(),
        {
            let ghost pre_entries = self.entries@;
            let ghost pre_rev = rev@;
            let e = self.entries.pop().unwrap();
            rev.push(e);
            proof {
                assert(rev@.reverse() =~= seq![rev@.last()] + pre_rev.reverse());
                assert(self.entries@ + rev@.reverse() =~= (self.entries@ + seq![pre_entries.last()])
                    + pre_rev.reverse());
                assert(self.entries@ + seq![pre_entries.last()] =~= pre_entries);
            }
        }
        proof {
            assert(self.entries@ + rev@.reverse() =~= rev@.reverse());
            assert(entries_view(self.entries@) =~= Map::<Seq<char>, ProductModel>::empty());
        }
        while rev.len() > 0
            invariant
                rev@.len() <= orig.len(),
                orig.skip(orig.len() - rev@.len()) == rev@.reverse(),
                entries_view(self.entries@) == entries_view(
                    orig.take(orig.len() - rev@.len()),
                ).remove(addr@),
            decreases rev@.len(),
        {
            let ghost pre_rev = rev@;
            let ghost plen = orig.len() - pre_rev.len();
            let ghost p = orig.take(plen);
            let e = rev.pop().unwrap();
            proof {
                assert(pre_rev.last() == pre_rev.reverse()[0]);
                assert(orig[plen] == orig.skip(plen)[0]);
                assert(orig.take(plen + 1).drop_last() =~= p);
                assert(orig.take(plen + 1).last() == orig[plen]);
                assert(rev@.reverse() =~= orig.skip(plen + 1)) by {
                    assert(forall|j: int|
                        0 <= j < rev@.len() ==> rev@.reverse()[j] == pre_rev.reverse()[j + 1]);
                    assert(forall|j: int|
                        0 <= j < rev@.len() ==> orig.skip(plen + 1)[j] == #[trigger] orig.skip(
                            plen,
                        )[j + 1]);
                }
            }
            if e.0 == *addr {
                proof {
                    assert(entries_view(orig.take(plen + 1)) == entries_view(p).insert(
                        addr@,
                        e.1@,
                    ));
                    assert(entries_view(p).insert(addr@, e.1@).remove(addr@) =~= entries_view(
                        p,
                    ).remove(addr@));
                }
            } else {
                let ghost k2 = e.0@;
                let ghost pv = e.1@;
                let ghost pre_entries = self.entries@;
                self.entries.push(e);
                proof {
                    assert(self.entries@.drop_last() =~= pre_entries);
                    assert(entries_view(orig.take(plen + 1)) == entries_view(p).insert(k2, pv));
                    assert(entries_view(p).insert(k2, pv).remove(addr@) =~= entries_view(p).remove(
                        addr@,
                    ).insert(k2, pv));
                }
            }
        }
        proof {
            assert(orig.take(orig.len() as int) =~= orig);
        }
    }
}

/// Whether a payload passes structural and semantic validation: the timestamp
/// is set, and a create action names a product and an owner.
pub open spec fn spec_payload_valid(p: ProductPayloadModel) -> bool {
    &&& p.timestamp != 0
    &&& match p.action {
        ActionModel::ProductCreate(a) => a.product_id.len() > 0 && a.owner.len() > 0,
        _ => true,
    }
}

/// Rejects the unset timestamp, which marks a payload that was never
/// finalized by a client.
pub fn validate_timestamp(timestamp: u64) -> (r: Result<(), ApplyError>)
    ensures
        r is Ok <==> timestamp != 0,
{
    match timestamp {
        0 => Err(ApplyError::InvalidTransaction(String::from_str("Timestamp is not set"))),
        _ => Ok(()),
    }
}

/// Rejects a create action whose product identifier or owner is empty.
fn validate_product_create_action(product_create_action: &ProductCreateAction) -> (r: Result<
    (),
    ApplyError,
>)
    ensures
        r is Ok <==> product_create_action.product_id@.len() > 0
            && product_create_action.owner@.len() > 0,
{
    if product_create_action.product_id.as_str().is_empty() {
        return Err(
            ApplyError::InvalidTransaction(String::from_str("product_id cannot be empty string")),
        );
    }
    if product_create_action.owner.as_str().is_empty() {
        return Err(
            ApplyError::InvalidTransaction(String::from_str("Owner cannot be empty string")),
        );
    }
    Ok(())
}

/// Validates one decoded payload: fails exactly when the timestamp is unset
/// or a create action has an empty product identifier or owner.
pub fn validate_payload(payload: &ProductPayload) -> (r: Result<(), ApplyError>)
    ensures
        r is Ok <==> spec_payload_valid(payload@),
{
    match validate_timestamp(payload.timestamp) {
        Ok(_) => (),
        Err(e) => {
            return Err(e);
        },
    }
    match &payload.action {
        Action::ProductCreate(action_payload) => validate_product_create_action(action_payload),
        _ => Ok(()),
    }
}

/// The product identifier an action names.
pub open spec fn action_product_id(a: ActionModel) -> Seq<char> {
    match a {
        ActionModel::ProductCreate(x) => x.product_id,
        ActionModel::ProductUpdate(x) => x.product_id,
        ActionModel::ProductDelete(x) => x.product_id,
    }
}

/// The state entry a create action proposes.
pub open spec fn created_product(a: ProductCreateActionModel) -> ProductModel {
    ProductModel {
        product_id: a.product_id,
        product_type: a.product_type,
        owner: a.owner,
        properties: a.properties,
    }
}

/// The state entry an update action proposes: new properties, same owner.
pub open spec fn updated_product(a: ProductUpdateActionModel, old_p: ProductModel) -> ProductModel {
    ProductModel {
        product_id: a.product_id,
        product_type: a.product_type,
        owner: old_p.owner,
        properties: a.properties,
    }
}

/// Whether a sequence of addresses contains `x`.
pub open spec fn seq_contains_str(ss: Seq<Seq<char>>, x: Seq<char>) -> bool {
    exists|i: int| 0 <= i < ss.len() && ss[i] == x
}

/// The views of a sequence of strings.
pub open spec fn view_strs(ss: Seq<String>) -> Seq<Seq<char>> {
    Seq::new(ss.len(), |i: int| ss[i]@)
}

/// What applying one payload does to the declared slice of state: `None`
/// when the transaction is rejected, otherwise the new state. The only
/// address read or written is the product address derived from the payload's
/// identifier, and it must be among the declared inputs and outputs.
pub open spec fn spec_apply(
    p: ProductPayloadModel,
    st: Map<Seq<char>, ProductModel>,
    inputs: Seq<Seq<char>>,
    outputs: Seq<Seq<char>>,
) -> Option<Map<Seq<char>, ProductModel>> {
    if !spec_payload_valid(p) {
        Option::None
    } else {
        let addr = spec_address(Namespace::Product, action_product_id(p.action));
        if !seq_contains_str(inputs, addr) || !seq_contains_str(outputs, addr) {
            Option::None
        } else {
            match p.action {
                ActionModel::ProductCreate(a) => if st.contains_key(addr) {
                    Option::None
                } else {
                    Option::Some(st.insert(addr, created_product(a)))
                },
                ActionModel::ProductUpdate(a) => if !st.contains_key(addr) {
                    Option::None
                } else {
                    Option::Some(st.insert(addr, updated_product(a, st[addr])))
                },
                ActionModel::ProductDelete(_) => if !st.contains_key(addr) {
                    Option::None
                } else {
                    Option::Some(st.remove(addr))
                },
            }
        }
    }
}

/// Whether `addr` is among the declared addresses.
fn contains_address(addresses: &Vec<String>, addr: &String) -> (r: bool)
    ensures
        r == seq_contains_str(view_strs(addresses@), addr@),
{
    let n = addresses.len();
    let mut i: usize = 0;
    while i < n
        invariant
            i <= n,
            n == addresses@.len(),
            forall|j: int| 0 <= j < i ==> view_strs(addresses@)[j] != addr@,
        decreases n - i,
    {
        if addresses[i] == *addr {
            proof {
                assert(view_strs(addresses@)[i as int] == addr@);
            }
            return true;
        }
        i = i + 1;
    }
    false
}

/// Validates one payload and applies its effect to the declared slice of
/// state. Succeeds exactly when the payload is valid, the derived product
/// address is declared as both input and output, and the action's existence
/// rule holds: create requires the product to be absent, update and delete
/// require it to exist. On failure the state is untouched.
pub fn validate_and_apply(
    payload: ProductPayload,
    state: &mut LedgerState,
    input_addresses: &Vec<String>,
    output_addresses: &Vec<String>,
) -> (r: Result<(), ApplyError>)
    ensures
        r is Ok <==> spec_apply(
            payload@,
            old(state)@,
            view_strs(input_addresses@),
            view_strs(output_addresses@),
        ) is Some,
        r matches Ok(_) ==> Option::Some(final(state)@) == spec_apply(
            payload@,
            old(state)@,
            view_strs(input_addresses@),
            view_strs(output_addresses@),
        ),
        r is Err ==> final(state)@ == old(state)@,
{
    match validate_payload(&payload) {
        Ok(_) => (),
        Err(e) => {
            return Err(e);
        },
    }
    let addr = address(Namespace::Product, payload.action.product_id().as_str());
    if !contains_address(input_addresses, &addr) {
        return Err(
            ApplyError::InvalidTransaction(
                String::from_str("product address is not a declared input"),
            ),
        );
    }
    if !contains_address(output_addresses, &addr) {
        return Err(
            ApplyError::InvalidTransaction(
                String::from_str("product address is not a declared output"),
            ),
        );
    }
    match payload.action {
        Action::ProductCreate(a) => {
            match state.get(&addr) {
                Some(_) => Err(
                    ApplyError::InvalidTransaction(String::from_str("Product already exists")),
                ),
                None => {
                    state.set(
                        addr,
                        Product {
                            product_id: a.product_id,
                            product_type: a.product_type,
                            owner: a.owner,
                            properties: a.properties,
                        },
                    );
                    Ok(())
                },
            }
        },
        Action::ProductUpdate(a) => {
            let owner = match state.get(&addr) {
                Some(p) => p.owner.clone(),
                None => {
                    return Err(
                        ApplyError::InvalidTransaction(
                            String::from_str("No product exists to update"),
                        ),
                    );
                },
            };
            state.set(
                addr,
                Product {
                    product_id: a.product_id,
                    product_type: a.product_type,
                    owner,
                    properties: a.properties,
                },
            );
            Ok(())
        },
        Action::ProductDelete(_) => {
            match state.get(&addr) {
                None => Err(
                    ApplyError::InvalidTransaction(String::from_str("No product exists to delete")),
                ),
                Some(_) => {
                    state.remove(&addr);
                    Ok(())
                },
            }
        },
    }
}

} // verus!
