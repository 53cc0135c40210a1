//! The composition root: one object that owns the balance ledger and the
//! asset registry, dispatches validated calls into them and returns a
//! result/event pair. Each operation is a single atomic state transition:
//! it commits with an event, or fails with a typed error and unchanged
//! state. Callers are assumed to be authenticated by a collaborator; the
//! accounts given here are trusted as resolved identities.

use vstd::prelude::*;

use crate::attribute::{spec_category_of, Category};
use crate::balances::BalanceLedger;
use crate::errors::LedgerError;
use crate::events::Event;
use crate::ident::{clone_id, spec_asset_id};
use crate::registry::{AssetRecord, AssetRegistry};

verus! {

/// The combined ledger state and its operations.
pub struct LedgerService {
    /// The fungible value store.
    pub balances: BalanceLedger,
    /// The unique-asset registry.
    pub assets: AssetRegistry,
}

impl LedgerService {
    /// Both components are well-formed.
    pub open spec fn wf(self) -> bool {
        self.balances.wf() && self.assets.wf()
    }

    /// The balance of account `a`.
    pub open spec fn balance_of(self, a: u64) -> u64 {
        self.balances.balance_of(a)
    }

    /// The total supply of fungible value.
    pub open spec fn total_supply(self) -> u64 {
        self.balances.spec_total()
    }

    /// The record keyed by `id`, if any.
    pub open spec fn asset(self, id: Seq<u8>) -> Option<AssetRecord> {
        self.assets.asset(id)
    }

    /// Whether an asset with id `id` exists.
    pub open spec fn has_asset(self, id: Seq<u8>) -> bool {
        self.assets.has_asset(id)
    }

    /// The owner of the asset keyed by `id`.
    pub open spec fn owner_of(self, id: Seq<u8>) -> u64 {
        self.assets.owner_of(id)
    }

    /// The ids account `o` currently owns.
    pub open spec fn owned(self, o: u64) -> Seq<Seq<u8>> {
        self.assets.owned(o)
    }

    /// The nonce the next asset creation will consume.
    pub open spec fn spec_nonce(self) -> u64 {
        self.assets.spec_nonce()
    }

    /// The bound on every owner's asset list.
    pub open spec fn spec_capacity(self) -> usize {
        self.assets.spec_capacity()
    }

    /// The two services hold byte-for-byte the same state.
    pub open spec fn eq_state(self, other: LedgerService) -> bool {
        self.balances.eq_state(other.balances) && self.assets.eq_state(other.assets)
    }

    /// A fresh ledger: no balances, zero supply, no assets, owner lists
    /// bounded by `capacity`.
    pub fn new(capacity: usize) -> (l: LedgerService)
        ensures
            l.wf(),
            l.total_supply() == 0,
            forall|a: u64| l.balance_of(a) == 0,
            forall|x: Seq<u8>| !l.has_asset(x),
            forall|o: u64| #[trigger] l.owned(o) == Seq::<Seq<u8>>::empty(),
            l.spec_nonce() == 0,
            l.spec_capacity() == capacity,
    {
        LedgerService { balances: BalanceLedger::new(), assets: AssetRegistry::new(capacity) }
    }

    /// Creates `amount` units for `account` and reports `Minted`; fails
    /// with `Overflow` when the new supply would not fit, changing nothing.
    pub fn mint(&mut self, account: u64, amount: u64) -> (r: Result<Event, LedgerError>)
        requires
            old(self).wf(),
        ensures
            final(self).wf(),
            final(self).assets.eq_state(old(self).assets),
            old(self).total_supply() + amount <= u64::MAX ==> {
                &&& r == Ok::<Event, LedgerError>((Event::Minted { account, amount }))
                &&& final(self).balance_of(account) == old(self).balance_of(account) + amount
                &&& forall|a: u64|
                    a != account ==> final(self).balance_of(a) == old(self).balance_of(a)
                &&& final(self).total_supply() == old(self).total_supply() + amount
            },
            old(self).total_supply() + amount > u64::MAX ==> {
                &&& r == Err::<Event, LedgerError>(LedgerError::Overflow)
                &&& final(self).eq_state(*old(self))
            },
    {
        match self.balances.mint(account, amount) {
            Ok(()) => Ok(Event::Minted { account, amount }),
            Err(e) => Err(e),
        }
    }

    /// Moves `amount` from `from` to `to` and reports `Transferred`; the
    /// sender must hold strictly more than `amount`, otherwise the call
    /// fails with `InsufficientBalance`, changing nothing.
    pub fn transfer_balance(&mut self, from: u64, to: u64, amount: u64) -> (r: Result<
        Event,
        LedgerError,
    >)
        requires
            old(self).wf(),
        ensures
            final(self).wf(),
            final(self).assets.eq_state(old(self).assets),
            old(self).balance_of(from) > amount ==> {
                &&& r == Ok::<Event, LedgerError>((Event::Transferred { from, to, amount }))
                &&& forall|a: u64|
                    final(self).balance_of(a) as int == old(self).balance_of(a) as int - (
                    if a == from {
                        amount as int
                    } else {
                        0
                    }) + (if a == to {
                        amount as int
                    } else {
                        0
                    })
                &&& final(self).total_supply() == old(self).total_supply()
            },
            old(self).balance_of(from) <= amount ==> {
                &&& r == Err::<Event, LedgerError>(LedgerError::InsufficientBalance)
                &&& final(self).eq_state(*old(self))
            },
    {
        match self.balances.transfer(from, to, amount) {
            Ok(()) => Ok(Event::Transferred { from, to, amount }),
            Err(e) => Err(e),
        }
    }

    /// Destroys `amount` units held by `account` and reports `Burned`; the
    /// account must hold at least `amount`, otherwise the call fails with
    /// `InsufficientBalance`, changing nothing.
    pub fn burn(&mut self, account: u64, amount: u64) -> (r: Result<Event, LedgerError>)
        requires
            old(self).wf(),
        ensures
            final(self).wf(),
            final(self).assets.eq_state(old(self).assets),
            old(self).balance_of(account) >= amount ==> {
                &&& r == Ok::<Event, LedgerError>((Event::Burned { account, amount }))
                &&& final(self).balance_of(account) == old(self).balance_of(account) - amount
                &&& forall|a: u64|
                    a != account ==> final(self).balance_of(a) == old(self).balance_of(a)
                &&& final(self).total_supply() == old(self).total_supply() - amount
            },
            old(self).balance_of(account) < amount ==> {
                &&& r == Err::<Event, LedgerError>(LedgerError::InsufficientBalance)
                &&& final(self).eq_state(*old(self))
            },
    {
        match self.balances.burn(account, amount) {
            Ok(()) => Ok(Event::Burned { account, amount }),
            Err(e) => Err(e),
        }
    }

    /// Creates a new asset for `owner` from the current nonce, the given
    /// timestamp and the beacon's entropy, and reports `AssetCreated` with
    /// the derived id. Fails with `DuplicateAsset` on an id collision,
    /// `Overflow` when the nonce is spent, or `CapacityExceeded` when the
    /// owner's list is full — each time changing nothing.
    pub fn create_asset(&mut self, owner: u64, price: u64, stamp: u64, entropy: &[u8]) -> (r:
        Result<Event, LedgerError>)
        requires
            old(self).wf(),
        ensures
            final(self).wf(),
            final(self).balances.eq_state(old(self).balances),
            final(self).spec_capacity() == old(self).spec_capacity(),
            ({
                let id = spec_asset_id(old(self).spec_nonce(), stamp, entropy@);
                let dup = old(self).has_asset(id);
                let nonce_spent = old(self).spec_nonce() == u64::MAX;
                let full = old(self).owned(owner).len() >= old(self).spec_capacity();
                &&& dup ==> r == Err::<Event, LedgerError>(LedgerError::DuplicateAsset)
                    && final(self).eq_state(*old(self))
                &&& !dup && nonce_spent ==> r == Err::<Event, LedgerError>(LedgerError::Overflow)
                    && final(self).eq_state(*old(self))
                &&& !dup && !nonce_spent && full ==> r == Err::<Event, LedgerError>(
                    LedgerError::CapacityExceeded,
                ) && final(self).eq_state(*old(self))
                &&& !dup && !nonce_spent && !full ==> {
                    &&& r matches Ok(e) && e matches Event::AssetCreated { id: v, owner: o }
                        && v@ == id && o == owner
                    &&& final(self).has_asset(id)
                    &&& final(self).owner_of(id) == owner
                    &&& final(self).asset(id)->0.price == price
                    &&& final(self).asset(id)->0.created_at == stamp
                    &&& final(self).asset(id)->0.attribute == spec_category_of(id)
                    &&& forall|x: Seq<u8>| x != id ==> final(self).asset(x) == old(self).asset(x)
                    &&& final(self).owned(owner) == old(self).owned(owner).push(id)
                    &&& forall|o: u64| o != owner ==> final(self).owned(o) == old(self).owned(o)
                    &&& final(self).spec_nonce() == old(self).spec_nonce() + 1
                }
            }),
    {
        match self.assets.create(owner, price, stamp, entropy) {
            Ok(id) => Ok(Event::AssetCreated { id, owner }),
            Err(e) => Err(e),
        }
    }

    /// Transfers the asset keyed by `id` from `from` to `to` and reports
    /// `AssetTransferred`. Fails with `NotFound` when no record exists,
    /// `NotOwner` when `from` does not own it, `SelfTransfer` when sender
    /// and receiver coincide, or `CapacityExceeded` when the receiver's
    /// list is full — each time changing nothing.
    pub fn transfer_asset(&mut self, from: u64, to: u64, id: &Vec<u8>) -> (r: Result<
        Event,
        LedgerError,
    >)
        requires
            old(self).wf(),
        ensures
            final(self).wf(),
            final(self).balances.eq_state(old(self).balances),
            final(self).spec_capacity() == old(self).spec_capacity(),
            final(self).spec_nonce() == old(self).spec_nonce(),
            ({
                let missing = !old(self).has_asset(id@);
                let wrong = !missing && old(self).owner_of(id@) != from;
                let selfsame = from == to;
                let full = old(self).owned(to).len() >= old(self).spec_capacity();
                &&& missing ==> r == Err::<Event, LedgerError>(LedgerError::NotFound)
                    && final(self).eq_state(*old(self))
                &&& wrong ==> r == Err::<Event, LedgerError>(LedgerError::NotOwner)
                    && final(self).eq_state(*old(self))
                &&& !missing && !wrong && selfsame ==> r == Err::<Event, LedgerError>(
                    LedgerError::SelfTransfer,
                ) && final(self).eq_state(*old(self))
                &&& !missing && !wrong && !selfsame && full ==> r == Err::<Event, LedgerError>(
                    LedgerError::CapacityExceeded,
                ) && final(self).eq_state(*old(self))
                &&& !missing && !wrong && !selfsame && !full ==> {
                    &&& r matches Ok(e) && e matches Event::AssetTransferred {
                        id: v,
                        from: f,
                        to: t,
                    } && v@ == id@ && f == from && t == to
                    &&& final(self).has_asset(id@)
                    &&& final(self).owner_of(id@) == to
                    &&& final(self).asset(id@)->0.price == old(self).asset(id@)->0.price
                    &&& final(self).asset(id@)->0.attribute == old(self).asset(id@)->0.attribute
                    &&& final(self).asset(id@)->0.created_at == old(self).asset(
                        id@,
                    )->0.created_at
                    &&& forall|x: Seq<u8>| x != id@ ==> final(self).asset(x) == old(self).asset(x)
                    &&& !final(self).owned(from).contains(id@)
                    &&& final(self).owned(from).len() == old(self).owned(from).len() - 1
                    &&& forall|x: Seq<u8>|
                        x != id@ ==> (final(self).owned(from).contains(x) <==> old(self).owned(
                            from,
                        ).contains(x))
                    &&& final(self).owned(to) == old(self).owned(to).push(id@)
                    &&& forall|o: u64|
                        o != from && o != to ==> final(self).owned(o) == old(self).owned(o)
                }
            }),
    {
        match self.assets.transfer(id, from, to) {
            Ok(()) => {
                let v = clone_id(id);
                Ok(Event::AssetTransferred { id: v, from, to })
            },
            Err(e) => Err(e),
        }
    }

    /// Reads the balance of account `a`.
    pub fn balance(&self, a: u64) -> (r: u64)
        requires
            self.wf(),
        ensures
            r == self.balance_of(a),
    {
        self.balances.balance(a)
    }

    /// Reads the total supply.
    pub fn total(&self) -> (r: u64)
        ensures
            r == self.total_supply(),
    {
        self.balances.total()
    }

    /// Whether an asset with the given id exists.
    pub fn has(&self, id: &Vec<u8>) -> (r: bool)
        requires
            self.wf(),
        ensures
            r == self.has_asset(id@),
    {
        self.assets.has(id)
    }

    /// The owner of the asset keyed by `id`, if the asset exists.
    pub fn asset_owner(&self, id: &Vec<u8>) -> (r: Option<u64>)
        requires
            self.wf(),
        ensures
            self.has_asset(id@) ==> r == Some(self.owner_of(id@)),
            !self.has_asset(id@) ==> r is None,
    {
        self.assets.asset_owner(id)
    }

    /// The price of the asset keyed by `id`, if the asset exists.
    pub fn asset_price(&self, id: &Vec<u8>) -> (r: Option<u64>)
        requires
            self.wf(),
        ensures
            self.has_asset(id@) ==> r == Some(self.asset(id@)->0.price),
            !self.has_asset(id@) ==> r is None,
    {
        self.assets.asset_price(id)
    }

    /// The attribute of the asset keyed by `id`, if the asset exists.
    pub fn asset_attribute(&self, id: &Vec<u8>) -> (r: Option<Category>)
        requires
            self.wf(),
        ensures
            self.has_asset(id@) ==> r == Some(self.asset(id@)->0.attribute),
            !self.has_asset(id@) ==> r is None,
    {
        self.assets.asset_attribute(id)
    }

    /// The creation time of the asset keyed by `id`, if the asset exists.
    pub fn asset_created_at(&self, id: &Vec<u8>) -> (r: Option<u64>)
        requires
            self.wf(),
        ensures
            self.has_asset(id@) ==> r == Some(self.asset(id@)->0.created_at),
            !self.has_asset(id@) ==> r is None,
    {
        self.assets.asset_created_at(id)
    }

    /// How many assets have ever been created.
    pub fn asset_count(&self) -> (r: usize)
        ensures
            r == self.assets.records@.len(),
    {
        self.assets.asset_count()
    }

    /// How many assets `o` currently owns.
    pub fn owned_len(&self, o: u64) -> (r: usize)
        requires
            self.wf(),
        ensures
            r == self.owned(o).len(),
    {
        self.assets.owned_len(o)
    }

    /// A copy of the ids `o` currently owns.
    pub fn owned_ids(&self, o: u64) -> (r: Vec<Vec<u8>>)
        requires
            self.wf(),
        ensures
            r.deep_view() == self.owned(o),
    {
        self.assets.owned_ids(o)
    }

    /// The nonce the next asset creation will consume.
    pub fn next_nonce(&self) -> (r: u64)
        ensures
            r == self.spec_nonce(),
    {
        self.assets.nonce()
    }

    /// The capacity every owner list is bounded by.
    pub fn capacity(&self) -> (r: usize)
        ensures
            r == self.spec_capacity(),
    {
        self.assets.list_capacity()
    }
}

} // verus!
