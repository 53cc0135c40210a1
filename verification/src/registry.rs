//! The non-fungible side of the ledger: a registry of unique assets, each
//! owned by exactly one account, kept in two mutually consistent indexes.
//! The primary index maps an asset id to its record; the secondary index
//! keeps, per owner, a bounded list of the ids that account owns. Removal
//! from a list swaps with the end, so list order is not a meaningful
//! property. Assets are never destroyed; a transfer only changes the owner.

use vstd::prelude::*;

use crate::attribute::{category_of, spec_category_of, Category};
use crate::errors::LedgerError;
use crate::guard::checked_add;
use crate::ident::{
    clone_id, derive_asset_id, ids_equal, lemma_bytes_deep_view, spec_asset_id, ASSET_ID_LEN,
};

verus! {

/// One unique asset: its identity bytes, current owner, derived attribute,
/// price and creation time.
pub struct AssetRecord {
    /// The identity bytes, fixed length, unique across all records.
    pub id: Vec<u8>,
    /// The account that currently owns the asset.
    pub owner: u64,
    /// The attribute derived from the identity bytes.
    pub attribute: Category,
    /// The price given at creation.
    pub price: u64,
    /// The timestamp given at creation.
    pub created_at: u64,
}

/// The record whose id is `id`, if one exists.
pub open spec fn rec_find(s: Seq<AssetRecord>, id: Seq<u8>) -> Option<AssetRecord>
    decreases s.len(),
{
    if s.len() == 0 {
        None
    } else if s.last().id@ == id {
        Some(s.last())
    } else {
        rec_find(s.drop_last(), id)
    }
}

/// No two records share an id.
pub open spec fn ids_distinct(s: Seq<AssetRecord>) -> bool {
    forall|i: int, j: int| 0 <= i < j < s.len() ==> s[i].id@ != s[j].id@
}

/// The id list of owner `o`; an absent owner has an empty list.
pub open spec fn list_find(s: Seq<(u64, Vec<Vec<u8>>)>, o: u64) -> Seq<Seq<u8>>
    decreases s.len(),
{
    if s.len() == 0 {
        Seq::empty()
    } else if s.last().0 == o {
        s.last().1.deep_view()
    } else {
        list_find(s.drop_last(), o)
    }
}

/// No two owner-index entries share an account.
pub open spec fn owners_distinct(s: Seq<(u64, Vec<Vec<u8>>)>) -> bool {
    forall|i: int, j: int| 0 <= i < j < s.len() ==> s[i].0 != s[j].0
}

proof fn lemma_rec_at_index(s: Seq<AssetRecord>, i: int)
    requires
        ids_distinct(s),
        0 <= i < s.len(),
    ensures
        rec_find(s, s[i].id@) == Some(s[i]),
    decreases s.len(),
{
    if i < s.len() - 1 {
        assert(ids_distinct(s.drop_last()));
        assert(s.drop_last()[i] == s[i]);
        lemma_rec_at_index(s.drop_last(), i);
    }
}

proof fn lemma_rec_absent(s: Seq<AssetRecord>, id: Seq<u8>)
    requires
        forall|j: int| 0 <= j < s.len() ==> s[j].id@ != id,
    ensures
        rec_find(s, id) is None,
    decreases s.len(),
{
    if s.len() > 0 {
        lemma_rec_absent(s.drop_last(), id);
    }
}

/// Replacing the record at index `i` by one with the same id keeps the ids
/// distinct and changes only that id's lookup.
proof fn lemma_rec_update(s: Seq<AssetRecord>, i: int, r2: AssetRecord)
    requires
        ids_distinct(s),
        0 <= i < s.len(),
        r2.id@ == s[i].id@,
    ensures
        ids_distinct(s.update(i, r2)),
        forall|x: Seq<u8>|
            rec_find(s.update(i, r2), x) == if x == s[i].id@ {
                Some(r2)
            } else {
                rec_find(s, x)
            },
    decreases s.len(),
{
    let t = s.update(i, r2);
    if i == s.len() - 1 {
        assert(t.drop_last() =~= s.drop_last());
        assert forall|x: Seq<u8>|
            rec_find(t, x) == (if x == s[i].id@ {
                Some(r2)
            } else {
                rec_find(s, x)
            }) by {
            if x != s[i].id@ {
                assert(rec_find(t, x) == rec_find(t.drop_last(), x));
                assert(rec_find(s, x) == rec_find(s.drop_last(), x));
            }
        }
    } else {
        assert(ids_distinct(s.drop_last()));
        assert(s.drop_last()[i] == s[i]);
        lemma_rec_update(s.drop_last(), i, r2);
        assert(t.drop_last() =~= s.drop_last().update(i, r2));
        assert(t.last() == s.last());
        assert forall|x: Seq<u8>|
            rec_find(t, x) == (if x == s[i].id@ {
                Some(r2)
            } else {
                rec_find(s, x)
            }) by {
            if s.last().id@ == x {
                assert(x != s[i].id@);
            } else {
                assert(rec_find(t, x) == rec_find(t.drop_last(), x));
                assert(rec_find(s, x) == rec_find(s.drop_last(), x));
            }
        }
    }
}

/// Appending a record with a fresh id keeps the ids distinct and changes
/// only that id's lookup.
proof fn lemma_rec_push(s: Seq<AssetRecord>, r: AssetRecord)
    requires
        ids_distinct(s),
        forall|j: int| 0 <= j < s.len() ==> s[j].id@ != r.id@,
    ensures
        ids_distinct(s.push(r)),
        forall|x: Seq<u8>|
            rec_find(s.push(r), x) == if x == r.id@ {
                Some(r)
            } else {
                rec_find(s, x)
            },
{
    let t = s.push(r);
    assert(t.drop_last() =~= s);
    assert(forall|i: int, j: int| 0 <= i < j < t.len() ==> t[i].id@ != t[j].id@) by {
        assert(forall|i: int| 0 <= i < s.len() ==> t[i] == s[i]);
    }
}

proof fn lemma_list_at_index(s: Seq<(u64, Vec<Vec<u8>>)>, i: int)
    requires
        owners_distinct(s),
        0 <= i < s.len(),
    ensures
        list_find(s, s[i].0) == s[i].1.deep_view(),
    decreases s.len(),
{
    if i < s.len() - 1 {
        assert(owners_distinct(s.drop_last()));
        assert(s.drop_last()[i] == s[i]);
        lemma_list_at_index(s.drop_last(), i);
    }
}

proof fn lemma_list_absent(s: Seq<(u64, Vec<Vec<u8>>)>, o: u64)
    requires
        forall|j: int| 0 <= j < s.len() ==> s[j].0 != o,
    ensures
        list_find(s, o) == Seq::<Seq<u8>>::empty(),
    decreases s.len(),
{
    if s.len() > 0 {
        lemma_list_absent(s.drop_last(), o);
    }
}

/// Replacing the list at index `i` keeps the owners distinct and changes
/// only that owner's list.
proof fn lemma_list_update(s: Seq<(u64, Vec<Vec<u8>>)>, i: int, nl: Vec<Vec<u8>>)
    requires
        owners_distinct(s),
        0 <= i < s.len(),
    ensures
        owners_distinct(s.update(i, (s[i].0, nl))),
        forall|o: u64|
            list_find(s.update(i, (s[i].0, nl)), o) == if o == s[i].0 {
                nl.deep_view()
            } else {
                list_find(s, o)
            },
    decreases s.len(),
{
    let t = s.update(i, (s[i].0, nl));
    if i == s.len() - 1 {
        assert(t.drop_last() =~= s.drop_last());
        assert forall|o: u64|
            list_find(t, o) == (if o == s[i].0 {
                nl.deep_view()
            } else {
                list_find(s, o)
            }) by {
            if o != s[i].0 {
                assert(list_find(t, o) == list_find(t.drop_last(), o));
                assert(list_find(s, o) == list_find(s.drop_last(), o));
            }
        }
    } else {
        assert(owners_distinct(s.drop_last()));
        assert(s.drop_last()[i] == s[i]);
        lemma_list_update(s.drop_last(), i, nl);
        assert(t.drop_last() =~= s.drop_last().update(i, (s[i].0, nl)));
        assert(t.last() == s.last());
        assert forall|o: u64|
            list_find(t, o) == (if o == s[i].0 {
                nl.deep_view()
            } else {
                list_find(s, o)
            }) by {
            if s.last().0 == o {
                assert(o != s[i].0);
            } else {
                assert(list_find(t, o) == list_find(t.drop_last(), o));
                assert(list_find(s, o) == list_find(s.drop_last(), o));
            }
        }
    }
}

/// Appending an entry for a fresh owner keeps the owners distinct and
/// changes only that owner's list.
proof fn lemma_list_push(s: Seq<(u64, Vec<Vec<u8>>)>, k: u64, nl: Vec<Vec<u8>>)
    requires
        owners_distinct(s),
        forall|j: int| 0 <= j < s.len() ==> s[j].0 != k,
    ensures
        owners_distinct(s.push((k, nl))),
        forall|o: u64|
            list_find(s.push((k, nl)), o) == if o == k {
                nl.deep_view()
            } else {
                list_find(s, o)
            },
{
    let t = s.push((k, nl));
    assert(t.drop_last() =~= s);
    assert(forall|i: int, j: int| 0 <= i < j < t.len() ==> t[i].0 != t[j].0) by {
        assert(forall|i: int| 0 <= i < s.len() ==> t[i] == s[i]);
    }
}

/// What a swap-with-the-end removal at position `p` does to a
/// duplicate-free sequence: the element at `p` is gone, everything else is
/// kept, and no duplicate appears.
proof fn lemma_swap_remove_model<A>(l: Seq<A>, p: int)
    requires
        0 <= p < l.len(),
        l.no_duplicates(),
    ensures
        ({
            let l2 = l.update(p, l.last()).drop_last();
            &&& l2.len() == l.len() - 1
            &&& l2.no_duplicates()
            &&& !l2.contains(l[p])
            &&& forall|x: A| x != l[p] ==> (l2.contains(x) <==> l.contains(x))
        }),
{
    let l2 = l.update(p, l.last()).drop_last();
    assert forall|k: int| 0 <= k < l2.len() implies l2[k] != l[p] by {
        if k == p {
            assert(l2[k] == l.last());
        } else {
            assert(l2[k] == l[k]);
        }
    }
    assert forall|x: A| x != l[p] && l.contains(x) implies l2.contains(x) by {
        let q = choose|q: int| 0 <= q < l.len() && l[q] == x;
        if q < l.len() - 1 {
            if q == p {
                assert(l2[p] == l.last());
                assert(l.last() == l[q]);
            } else {
                assert(l2[q] == x);
            }
        } else {
            if p < l.len() - 1 {
                assert(l2[p] == x);
            } else {
                assert(l[p] == x);
            }
        }
    }
    assert forall|x: A| l2.contains(x) implies l.contains(x) by {
        let k = choose|k: int| 0 <= k < l2.len() && l2[k] == x;
        if k == p {
            assert(l[l.len() - 1] == x);
        } else {
            assert(l[k] == x);
        }
    }
    assert forall|i: int, j: int| 0 <= i < j < l2.len() implies l2[i] != l2[j] by {
        let a = if i == p {
            l.len() - 1
        } else {
            i
        };
        let b = if j == p {
            l.len() - 1
        } else {
            j
        };
        assert(l2[i] == l[a]);
        assert(l2[j] == l[b]);
        assert(a != b);
    }
}

/// Appending a fresh element keeps a sequence duplicate-free.
proof fn lemma_push_no_dup<A>(l: Seq<A>, x: A)
    requires
        l.no_duplicates(),
        !l.contains(x),
    ensures
        l.push(x).no_duplicates(),
{
    let t = l.push(x);
    assert forall|i: int, j: int| 0 <= i < j < t.len() implies t[i] != t[j] by {
        if j == l.len() {
            assert(t[i] == l[i]);
        } else {
            assert(t[i] == l[i] && t[j] == l[j]);
        }
    }
}

/// A sequence that contains `x` somewhere before its freshly pushed last
/// element also contained `x` before the push.
proof fn lemma_push_contains<A>(l: Seq<A>, y: A, x: A)
    requires
        l.push(y).contains(x),
        x != y,
    ensures
        l.contains(x),
{
    let k = choose|k: int| 0 <= k < l.push(y).len() && l.push(y)[k] == x;
    assert(k < l.len());
    assert(l[k] == x);
}

/// Commits a creation: adding one fresh record and appending its id to the
/// owner's list preserves well-formedness.
proof fn lemma_registry_extend(
    pre: AssetRegistry,
    post: AssetRegistry,
    owner: u64,
    id: Seq<u8>,
    rec: AssetRecord,
)
    requires
        pre.wf(),
        !pre.has_asset(id),
        rec.id@ == id,
        rec.owner == owner,
        rec.attribute == spec_category_of(id),
        id.len() == ASSET_ID_LEN,
        pre.owned(owner).len() < pre.spec_capacity(),
        owners_distinct(post.owners@),
        ids_distinct(post.records@),
        post.capacity == pre.capacity,
        forall|x: Seq<u8>|
            #![trigger post.asset(x)]
            post.asset(x) == if x == id {
                Some(rec)
            } else {
                pre.asset(x)
            },
        forall|o: u64|
            #![trigger post.owned(o)]
            post.owned(o) == if o == owner {
                pre.owned(owner).push(id)
            } else {
                pre.owned(o)
            },
    ensures
        post.wf(),
{
    assert(!pre.owned(owner).contains(id));
    assert forall|o: u64| (#[trigger] post.owned(o)).len() <= post.capacity by {
        if o == owner {
            assert(post.owned(o).len() == pre.owned(owner).len() + 1);
        } else {
            assert(pre.owned(o).len() <= pre.capacity);
        }
    }
    assert forall|o: u64| (#[trigger] post.owned(o)).no_duplicates() by {
        if o == owner {
            lemma_push_no_dup(pre.owned(owner), id);
        } else {
            assert(pre.owned(o).no_duplicates());
        }
    }
    assert forall|o: u64, x: Seq<u8>| #[trigger]
        post.owned(o).contains(x) implies post.has_asset(x) && post.owner_of(x) == o by {
        if o == owner {
            if x != id {
                lemma_push_contains(pre.owned(owner), id, x);
                assert(pre.owned(owner).contains(x));
            }
        } else {
            assert(pre.owned(o).contains(x));
            assert(x != id);
        }
    }
    assert forall|x: Seq<u8>| #[trigger]
        post.has_asset(x) implies post.owned(post.owner_of(x)).contains(x) by {
        if x == id {
            assert(post.owned(owner).last() == id);
        } else {
            assert(pre.has_asset(x));
            let o = pre.owner_of(x);
            assert(pre.owned(o).contains(x));
            if o == owner {
                assert(post.owned(o)[pre.owned(o).index_of(x)] == x);
            }
        }
    }
    assert forall|x: Seq<u8>| #[trigger]
        post.has_asset(x) implies post.asset(x)->0.id@ == x && x.len() == ASSET_ID_LEN
        && post.asset(x)->0.attribute == spec_category_of(x) by {
        if x != id {
            assert(pre.has_asset(x));
        }
    }
}

/// The position of `id` inside a list of ids, if present.
fn find_id_position(l: &Vec<Vec<u8>>, id: &Vec<u8>) -> (r: Option<usize>)
    ensures
        match r {
            Some(p) => p < l@.len() && l.deep_view()[p as int] == id@,
            None => forall|q: int| 0 <= q < l@.len() ==> l.deep_view()[q] != id@,
        },
{
    let mut q: usize = 0;
    while q < l.len()
        invariant
            q <= l@.len(),
            forall|j: int| 0 <= j < q ==> l.deep_view()[j] != id@,
        decreases l@.len() - q,
    {
        proof {
            lemma_bytes_deep_view(l@[q as int]);
        }
        if ids_equal(&l[q], id) {
            return Some(q);
        }
        q = q + 1;
    }
    None
}

/// Commits a transfer: moving one id from the sender's list to the
/// receiver's and rewriting the record's owner preserves well-formedness.
proof fn lemma_registry_move(
    pre: AssetRegistry,
    post: AssetRegistry,
    id: Seq<u8>,
    from: u64,
    to: u64,
    rec2: AssetRecord,
)
    requires
        pre.wf(),
        pre.has_asset(id),
        pre.owner_of(id) == from,
        from != to,
        pre.owned(to).len() < pre.spec_capacity(),
        rec2.id@ == id,
        rec2.owner == to,
        rec2.attribute == pre.asset(id)->0.attribute,
        owners_distinct(post.owners@),
        ids_distinct(post.records@),
        post.capacity == pre.capacity,
        forall|x: Seq<u8>|
            #![trigger post.asset(x)]
            post.asset(x) == if x == id {
                Some(rec2)
            } else {
                pre.asset(x)
            },
        forall|o: u64|
            #![trigger post.owned(o)]
            o != from && o != to ==> post.owned(o) == pre.owned(o),
        post.owned(to) == pre.owned(to).push(id),
        post.owned(from).len() == pre.owned(from).len() - 1,
        post.owned(from).no_duplicates(),
        !post.owned(from).contains(id),
        forall|x: Seq<u8>|
            x != id ==> (post.owned(from).contains(x) <==> pre.owned(from).contains(x)),
    ensures
        post.wf(),
{
    assert(!pre.owned(to).contains(id));
    assert forall|o: u64| (#[trigger] post.owned(o)).len() <= post.capacity by {
        if o == from {
            assert(pre.owned(from).len() <= pre.capacity);
        } else if o == to {
            assert(post.owned(to).len() == pre.owned(to).len() + 1);
        } else {
            assert(pre.owned(o).len() <= pre.capacity);
        }
    }
    assert forall|o: u64| (#[trigger] post.owned(o)).no_duplicates() by {
        if o == to {
            lemma_push_no_dup(pre.owned(to), id);
        } else if o != from {
            assert(pre.owned(o).no_duplicates());
        }
    }
    assert forall|o: u64, x: Seq<u8>| #[trigger]
        post.owned(o).contains(x) implies post.has_asset(x) && post.owner_of(x) == o by {
        if o == from {
            assert(x != id);
            assert(pre.owned(from).contains(x));
        } else if o == to {
            if x != id {
                lemma_push_contains(pre.owned(to), id, x);
                assert(pre.owned(to).contains(x));
            }
        } else {
            assert(pre.owned(o).contains(x));
            assert(x != id);
        }
    }
    assert forall|x: Seq<u8>| #[trigger]
        post.has_asset(x) implies post.owned(post.owner_of(x)).contains(x) by {
        if x == id {
            assert(post.owned(to).last() == id);
        } else {
            assert(pre.has_asset(x));
            let o = pre.owner_of(x);
            assert(pre.owned(o).contains(x));
            if o == to {
                assert(post.owned(o)[pre.owned(o).index_of(x)] == x);
            }
        }
    }
    assert forall|x: Seq<u8>| #[trigger]
        post.has_asset(x) implies post.asset(x)->0.id@ == x && x.len() == ASSET_ID_LEN
        && post.asset(x)->0.attribute == spec_category_of(x) by {
        if x != id {
            assert(pre.has_asset(x));
        }
    }
}

/// The dual-indexed asset store.
pub struct AssetRegistry {
    /// All records ever created, ids unique.
    pub records: Vec<AssetRecord>,
    /// Per-owner lists of asset ids, owners unique, each list bounded by
    /// `capacity` and free of duplicates.
    pub owners: Vec<(u64, Vec<Vec<u8>>)>,
    /// The monotonic counter fed into id derivation.
    pub next_nonce: u64,
    /// The bound on every owner's list.
    pub capacity: usize,
}

impl AssetRegistry {
    /// The record keyed by `id`, if any.
    pub open spec fn asset(self, id: Seq<u8>) -> Option<AssetRecord> {
        rec_find(self.records@, id)
    }

    /// Whether a record with id `id` exists.
    pub open spec fn has_asset(self, id: Seq<u8>) -> bool {
        self.asset(id) is Some
    }

    /// The owner of the asset keyed by `id`.
    pub open spec fn owner_of(self, id: Seq<u8>) -> u64 {
        self.asset(id)->0.owner
    }

    /// The ids owned by `o`, in index order.
    pub open spec fn owned(self, o: u64) -> Seq<Seq<u8>> {
        list_find(self.owners@, o)
    }

    /// The nonce the next creation will use.
    pub open spec fn spec_nonce(self) -> u64 {
        self.next_nonce
    }

    /// The capacity bound of every owner list.
    pub open spec fn spec_capacity(self) -> usize {
        self.capacity
    }

    /// Well-formedness: the two indexes are mutually consistent, ids are
    /// globally unique, every list is bounded and duplicate-free, and every
    /// record's attribute is the one derived from its id.
    pub open spec fn wf(self) -> bool {
        &&& owners_distinct(self.owners@)
        &&& ids_distinct(self.records@)
        &&& forall|o: u64| (#[trigger] self.owned(o)).len() <= self.capacity
        &&& forall|o: u64| (#[trigger] self.owned(o)).no_duplicates()
        &&& forall|o: u64, x: Seq<u8>|
            #[trigger] self.owned(o).contains(x) ==> self.has_asset(x) && self.owner_of(x) == o
        &&& forall|x: Seq<u8>|
            #[trigger] self.has_asset(x) ==> self.owned(self.owner_of(x)).contains(x)
        &&& forall|x: Seq<u8>|
            #[trigger] self.has_asset(x) ==> self.asset(x)->0.id@ == x && x.len() == ASSET_ID_LEN
                && self.asset(x)->0.attribute == spec_category_of(x)
    }

    /// The two registries hold exactly the same records, indexes, nonce and
    /// capacity.
    pub open spec fn eq_state(self, other: AssetRegistry) -> bool {
        &&& self.records@ == other.records@
        &&& self.owners@ == other.owners@
        &&& self.next_nonce == other.next_nonce
        &&& self.capacity == other.capacity
    }

    /// An empty registry whose owner lists are bounded by `capacity`.
    pub fn new(capacity: usize) -> (r: AssetRegistry)
        ensures
            r.wf(),
            r.spec_nonce() == 0,
            r.spec_capacity() == capacity,
            forall|x: Seq<u8>| !r.has_asset(x),
            forall|o: u64| #[trigger] r.owned(o) == Seq::<Seq<u8>>::empty(),
            r.records@.len() == 0,
    {
        AssetRegistry { records: Vec::new(), owners: Vec::new(), next_nonce: 0, capacity }
    }

    /// The index of the record keyed by `id`, if any.
    fn find_record_index(&self, id: &Vec<u8>) -> (r: Option<usize>)
        ensures
            match r {
                Some(i) => i < self.records@.len() && self.records@[i as int].id@ == id@,
                None => forall|j: int| 0 <= j < self.records@.len() ==> self.records@[j].id@ != id@,
            },
    {
        let mut i: usize = 0;
        while i < self.records.len()
            invariant
                i <= self.records@.len(),
                forall|j: int| 0 <= j < i ==> self.records@[j].id@ != id@,
            decreases self.records@.len() - i,
        {
            if ids_equal(&self.records[i].id, id) {
                return Some(i);
            }
            i = i + 1;
        }
        None
    }

    /// The index of owner `o`'s entry, if any.
    fn find_owner_index(&self, o: u64) -> (r: Option<usize>)
        ensures
            match r {
                Some(i) => i < self.owners@.len() && self.owners@[i as int].0 == o,
                None => forall|j: int| 0 <= j < self.owners@.len() ==> self.owners@[j].0 != o,
            },
    {
        let mut i: usize = 0;
        while i < self.owners.len()
            invariant
                i <= self.owners@.len(),
                forall|j: int| 0 <= j < i ==> self.owners@[j].0 != o,
            decreases self.owners@.len() - i,
        {
            if self.owners[i].0 == o {
                return Some(i);
            }
            i = i + 1;
        }
        None
    }

    /// Whether an asset with the given id exists.
    pub fn has(&self, id: &Vec<u8>) -> (r: bool)
        requires
            self.wf(),
        ensures
            r == self.has_asset(id@),
    {
        match self.find_record_index(id) {
            Some(i) => {
                proof {
                    lemma_rec_at_index(self.records@, i as int);
                }
                true
            },
            None => {
                proof {
                    lemma_rec_absent(self.records@, id@);
                }
                false
            },
        }
    }

    /// The owner of the asset keyed by `id`, if the asset exists.
    pub fn asset_owner(&self, id: &Vec<u8>) -> (r: Option<u64>)
        requires
            self.wf(),
        ensures
            self.has_asset(id@) ==> r == Some(self.owner_of(id@)),
            !self.has_asset(id@) ==> r is None,
    {
        match self.find_record_index(id) {
            Some(i) => {
                proof {
                    lemma_rec_at_index(self.records@, i as int);
                }
                Some(self.records[i].owner)
            },
            None => {
                proof {
                    lemma_rec_absent(self.records@, id@);
                }
                None
            },
        }
    }

    /// The price of the asset keyed by `id`, if the asset exists.
    pub fn asset_price(&self, id: &Vec<u8>) -> (r: Option<u64>)
        requires
            self.wf(),
        ensures
            self.has_asset(id@) ==> r == Some(self.asset(id@)->0.price),
            !self.has_asset(id@) ==> r is None,
    {
        match self.find_record_index(id) {
            Some(i) => {
                proof {
                    lemma_rec_at_index(self.records@, i as int);
                }
                Some(self.records[i].price)
            },
            None => {
                proof {
                    lemma_rec_absent(self.records@, id@);
                }
                None
            },
        }
    }

    /// The attribute of the asset keyed by `id`, if the asset exists.
    pub fn asset_attribute(&self, id: &Vec<u8>) -> (r: Option<Category>)
        requires
            self.wf(),
        ensures
            self.has_asset(id@) ==> r == Some(self.asset(id@)->0.attribute),
            !self.has_asset(id@) ==> r is None,
    {
        match self.find_record_index(id) {
            Some(i) => {
                proof {
                    lemma_rec_at_index(self.records@, i as int);
                }
                Some(self.records[i].attribute)
            },
            None => {
                proof {
                    lemma_rec_absent(self.records@, id@);
                }
                None
            },
        }
    }

    /// The creation time of the asset keyed by `id`, if the asset exists.
    pub fn asset_created_at(&self, id: &Vec<u8>) -> (r: Option<u64>)
        requires
            self.wf(),
        ensures
            self.has_asset(id@) ==> r == Some(self.asset(id@)->0.created_at),
            !self.has_asset(id@) ==> r is None,
    {
        match self.find_record_index(id) {
            Some(i) => {
                proof {
                    lemma_rec_at_index(self.records@, i as int);
                }
                Some(self.records[i].created_at)
            },
            None => {
                proof {
                    lemma_rec_absent(self.records@, id@);
                }
                None
            },
        }
    }

    /// How many assets have ever been created.
    pub fn asset_count(&self) -> (r: usize)
        ensures
            r == self.records@.len(),
    {
        self.records.len()
    }

    /// How many assets `o` currently owns.
    pub fn owned_len(&self, o: u64) -> (r: usize)
        requires
            self.wf(),
        ensures
            r == self.owned(o).len(),
    {
        match self.find_owner_index(o) {
            Some(i) => {
                proof {
                    lemma_list_at_index(self.owners@, i as int);
                }
                self.owners[i].1.len()
            },
            None => {
                proof {
                    lemma_list_absent(self.owners@, o);
                }
                0
            },
        }
    }

    /// A copy of the ids `o` currently owns.
    pub fn owned_ids(&self, o: u64) -> (r: Vec<Vec<u8>>)
        requires
            self.wf(),
        ensures
            r.deep_view() == self.owned(o),
    {
        match self.find_owner_index(o) {
            Some(i) => {
                proof {
                    lemma_list_at_index(self.owners@, i as int);
                }
                let r = self.owners[i].1.clone();
                proof {
                    lemma_vec_vec_clone_deep(&self.owners[i as int].1, &r);
                }
                r
            },
            None => {
                let r: Vec<Vec<u8>> = Vec::new();
                proof {
                    lemma_list_absent(self.owners@, o);
                    assert(r.deep_view() =~= Seq::<Seq<u8>>::empty());
                }
                r
            },
        }
    }

    /// Creates a new asset for `owner`: derives the id from the current
    /// nonce, `stamp` and `entropy`, refuses a duplicate id, appends the id
    /// to the owner's bounded list, writes the record and advances the
    /// nonce — all of it, or nothing.
    pub fn create(&mut self, owner: u64, price: u64, stamp: u64, entropy: &[u8]) -> (r: Result<
        Vec<u8>,
        LedgerError,
    >)
        requires
            old(self).wf(),
        ensures
            final(self).wf(),
            final(self).spec_capacity() == old(self).spec_capacity(),
            ({
                let id = spec_asset_id(old(self).spec_nonce(), stamp, entropy@);
                let dup = old(self).has_asset(id);
                let nonce_spent = old(self).spec_nonce() == u64::MAX;
                let full = old(self).owned(owner).len() >= old(self).spec_capacity();
                &&& dup ==> r == Err::<Vec<u8>, LedgerError>(LedgerError::DuplicateAsset)
                    && final(self).eq_state(*old(self))
                &&& !dup && nonce_spent ==> r == Err::<Vec<u8>, LedgerError>(LedgerError::Overflow)
                    && final(self).eq_state(*old(self))
                &&& !dup && !nonce_spent && full ==> r == Err::<Vec<u8>, LedgerError>(
                    LedgerError::CapacityExceeded,
                ) && final(self).eq_state(*old(self))
                &&& !dup && !nonce_spent && !full ==> {
                    &&& r matches Ok(v) && v@ == id
                    &&& final(self).has_asset(id)
                    &&& final(self).owner_of(id) == owner
                    &&& final(self).asset(id)->0.price == price
                    &&& final(self).asset(id)->0.created_at == stamp
                    &&& final(self).asset(id)->0.attribute == spec_category_of(id)
                    &&& forall|x: Seq<u8>| x != id ==> final(self).asset(x) == old(self).asset(x)
                    &&& final(self).owned(owner) == old(self).owned(owner).push(id)
                    &&& forall|o: u64| o != owner ==> final(self).owned(o) == old(self).owned(o)
                    &&& final(self).spec_nonce() == old(self).spec_nonce() + 1
                    &&& final(self).records@.len() == old(self).records@.len() + 1
                }
            }),
    {
        let id = derive_asset_id(self.next_nonce, stamp, entropy);
        match self.find_record_index(&id) {
            Some(i) => {
                proof {
                    lemma_rec_at_index(self.records@, i as int);
                }
                return Err(LedgerError::DuplicateAsset);
            },
            None => {
                proof {
                    lemma_rec_absent(self.records@, id@);
                }
            },
        }
        let next = match checked_add(self.next_nonce, 1) {
            Ok(v) => v,
            Err(e) => {
                return Err(e);
            },
        };
        let attribute = category_of(id.as_slice());
        let ghost owners0 = self.owners@;
        let ghost records0 = self.records@;
        let ghost spec_id = id@;
        match self.find_owner_index(owner) {
            Some(oi) => {
                proof {
                    lemma_list_at_index(owners0, oi as int);
                }
                if self.owners[oi].1.len() >= self.capacity {
                    return Err(LedgerError::CapacityExceeded);
                }
                let id_list = clone_id(&id);
                proof {
                    lemma_bytes_deep_view(id_list);
                }
                let mut entry = self.owners.remove(oi);
                let ghost list0 = entry.1.deep_view();
                entry.1.push(id_list);
                self.owners.insert(oi, entry);
                proof {
                    assert(self.owners@[oi as int].1.deep_view() =~= list0.push(spec_id));
                    assert(self.owners@ =~= owners0.update(
                        oi as int,
                        (owner, self.owners@[oi as int].1),
                    ));
                    lemma_list_update(owners0, oi as int, self.owners@[oi as int].1);
                }
            },
            None => {
                proof {
                    lemma_list_absent(owners0, owner);
                }
                if self.capacity == 0 {
                    return Err(LedgerError::CapacityExceeded);
                }
                let id_list = clone_id(&id);
                proof {
                    lemma_bytes_deep_view(id_list);
                }
                let mut l: Vec<Vec<u8>> = Vec::new();
                l.push(id_list);
                self.owners.push((owner, l));
                proof {
                    assert(self.owners@.last().1.deep_view() =~= Seq::<
                        Seq<u8>,
                    >::empty().push(spec_id));
                    lemma_list_push(owners0, owner, self.owners@.last().1);
                    assert(self.owners@ =~= owners0.push((owner, self.owners@.last().1)));
                }
            },
        }
        let id_ret = clone_id(&id);
        let record = AssetRecord { id, owner, attribute, price, created_at: stamp };
        let ghost grec = record;
        proof {
            lemma_rec_push(records0, grec);
        }
        self.records.push(record);
        self.next_nonce = next;
        proof {
            lemma_registry_extend(*old(self), *self, owner, spec_id, grec);
        }
        Ok(id_ret)
    }

    /// Transfers the asset keyed by `id` from `from` to `to`: checks that
    /// the record exists, that `from` owns it and is not `to`, and that the
    /// receiver's list has room; then removes the id from the sender's list
    /// (swapping with the end), appends it to the receiver's and rewrites
    /// the record's owner — all of it, or nothing.
    pub fn transfer(&mut self, id: &Vec<u8>, from: u64, to: u64) -> (r: Result<(), LedgerError>)
        requires
            old(self).wf(),
        ensures
            final(self).wf(),
            final(self).spec_capacity() == old(self).spec_capacity(),
            final(self).spec_nonce() == old(self).spec_nonce(),
            ({
                let missing = !old(self).has_asset(id@);
                let wrong = !missing && old(self).owner_of(id@) != from;
                let selfsame = from == to;
                let full = old(self).owned(to).len() >= old(self).spec_capacity();
                &&& missing ==> r == Err::<(), LedgerError>(LedgerError::NotFound)
                    && final(self).eq_state(*old(self))
                &&& wrong ==> r == Err::<(), LedgerError>(LedgerError::NotOwner)
                    && final(self).eq_state(*old(self))
                &&& !missing && !wrong && selfsame ==> r == Err::<(), LedgerError>(
                    LedgerError::SelfTransfer,
                ) && final(self).eq_state(*old(self))
                &&& !missing && !wrong && !selfsame && full ==> r == Err::<(), LedgerError>(
                    LedgerError::CapacityExceeded,
                ) && final(self).eq_state(*old(self))
                &&& !missing && !wrong && !selfsame && !full ==> {
                    &&& r == Ok::<(), LedgerError>(())
                    &&& final(self).has_asset(id@)
                    &&& final(self).owner_of(id@) == to
                    &&& final(self).asset(id@)->0.price == old(self).asset(id@)->0.price
                    &&& final(self).asset(id@)->0.attribute == old(self).asset(id@)->0.attribute
                    &&& final(self).asset(id@)->0.created_at == old(self).asset(id@)->0.created_at
                    &&& forall|x: Seq<u8>| x != id@ ==> final(self).asset(x) == old(self).asset(x)
                    &&& !final(self).owned(from).contains(id@)
                    &&& final(self).owned(from).len() == old(self).owned(from).len() - 1
                    &&& forall|x: Seq<u8>|
                        x != id@ ==> (final(self).owned(from).contains(x) <==> old(self).owned(
                            from,
                        ).contains(x))
                    &&& final(self).owned(to) == old(self).owned(to).push(id@)
                    &&& forall|o: u64|
                        o != from && o != to ==> final(self).owned(o) == old(self).owned(o)
                }
            }),
    {
        let ri = match self.find_record_index(id) {
            Some(i) => {
                proof {
                    lemma_rec_at_index(self.records@, i as int);
                }
                i
            },
            None => {
                proof {
                    lemma_rec_absent(self.records@, id@);
                }
                return Err(LedgerError::NotFound);
            },
        };
        if self.records[ri].owner != from {
            return Err(LedgerError::NotOwner);
        }
        if from == to {
            return Err(LedgerError::SelfTransfer);
        }
        proof {
            assert(self.has_asset(id@));
            assert(self.owner_of(id@) == from);
            assert(self.owned(from).contains(id@));
        }
        let fi = match self.find_owner_index(from) {
            Some(i) => i,
            None => {
                proof {
                    lemma_list_absent(self.owners@, from);
                    assert(false);
                }
                return Err(LedgerError::NotOwner);
            },
        };
        proof {
            lemma_list_at_index(self.owners@, fi as int);
        }
        let p = match find_id_position(&self.owners[fi].1, id) {
            Some(p) => p,
            None => {
                proof {
                    let q = choose|q: int|
                        0 <= q < self.owned(from).len() && self.owned(from)[q] == id@;
                    assert(false);
                }
                return Err(LedgerError::NotOwner);
            },
        };
        let ti_opt = self.find_owner_index(to);
        let to_len = match ti_opt {
            Some(ti) => {
                proof {
                    lemma_list_at_index(self.owners@, ti as int);
                }
                self.owners[ti].1.len()
            },
            None => {
                proof {
                    lemma_list_absent(self.owners@, to);
                }
                0
            },
        };
        if to_len >= self.capacity {
            return Err(LedgerError::CapacityExceeded);
        }
        let ghost pre = *self;
        let ghost owners0 = self.owners@;
        let ghost records0 = self.records@;
        let ghost spec_id = id@;
        // Remove the id from the sender's list, swapping with the end.
        let mut fentry = self.owners.remove(fi);
        let ghost flist0 = fentry.1.deep_view();
        fentry.1.swap_remove(p);
        self.owners.insert(fi, fentry);
        proof {
            assert(self.owners@[fi as int].1.deep_view() =~= flist0.update(
                p as int,
                flist0.last(),
            ).drop_last());
            lemma_swap_remove_model(flist0, p as int);
            assert(self.owners@ =~= owners0.update(fi as int, (from, self.owners@[fi as int].1)));
            lemma_list_update(owners0, fi as int, self.owners@[fi as int].1);
        }
        let ghost owners1 = self.owners@;
        // Append the id to the receiver's list.
        match ti_opt {
            Some(ti) => {
                proof {
                    assert(ti != fi);
                    assert(owners1[ti as int] == owners0[ti as int]);
                    lemma_list_at_index(owners1, ti as int);
                }
                let id_list = clone_id(id);
                proof {
                    lemma_bytes_deep_view(id_list);
                }
                let mut tentry = self.owners.remove(ti);
                let ghost tlist1 = tentry.1.deep_view();
                tentry.1.push(id_list);
                self.owners.insert(ti, tentry);
                proof {
                    assert(self.owners@[ti as int].1.deep_view() =~= tlist1.push(spec_id));
                    assert(self.owners@ =~= owners1.update(
                        ti as int,
                        (to, self.owners@[ti as int].1),
                    ));
                    lemma_list_update(owners1, ti as int, self.owners@[ti as int].1);
                }
            },
            None => {
                proof {
                    assert(forall|j: int| 0 <= j < owners1.len() ==> owners1[j].0 == owners0[j].0);
                }
                let id_list = clone_id(id);
                proof {
                    lemma_bytes_deep_view(id_list);
                }
                let mut l: Vec<Vec<u8>> = Vec::new();
                l.push(id_list);
                self.owners.push((to, l));
                proof {
                    assert(self.owners@.last().1.deep_view() =~= Seq::<
                        Seq<u8>,
                    >::empty().push(spec_id));
                    lemma_list_push(owners1, to, self.owners@.last().1);
                    assert(self.owners@ =~= owners1.push((to, self.owners@.last().1)));
                }
            },
        }
        // Rewrite the record's owner.
        let mut rec = self.records.remove(ri);
        rec.owner = to;
        let ghost grec2 = rec;
        self.records.insert(ri, rec);
        proof {
            assert(self.records@ =~= records0.update(ri as int, grec2));
            lemma_rec_update(records0, ri as int, grec2);
            lemma_registry_move(pre, *self, spec_id, from, to, grec2);
        }
        Ok(())
    }

    /// The nonce the next creation will consume.
    pub fn nonce(&self) -> (r: u64)
        ensures
            r == self.spec_nonce(),
    {
        self.next_nonce
    }

    /// The capacity every owner list is bounded by.
    pub fn list_capacity(&self) -> (r: usize)
        ensures
            r == self.spec_capacity(),
    {
        self.capacity
    }
}

/// An owned asset's id appears in its owner's list, never twice there, and
/// in no other account's list. Every operation requires and re-establishes
/// `wf`, so this holds after any sequence of creations and transfers.
pub proof fn lemma_owner_index_consistent(r: AssetRegistry, id: Seq<u8>, other: u64)
    requires
        r.wf(),
        r.has_asset(id),
        other != r.owner_of(id),
    ensures
        r.owned(r.owner_of(id)).contains(id),
        r.owned(r.owner_of(id)).no_duplicates(),
        !r.owned(other).contains(id),
{
    if r.owned(other).contains(id) {
        assert(r.owner_of(id) == other);
    }
}

/// No two records ever share an asset id. Every operation requires and
/// re-establishes `wf`, so no sequence of creations produces a duplicate.
pub proof fn lemma_asset_ids_unique(r: AssetRegistry, i: int, j: int)
    requires
        r.wf(),
        0 <= i < j < r.records@.len(),
    ensures
        r.records@[i].id@ != r.records@[j].id@,
{
}

/// No owner's list ever exceeds the capacity bound. Every operation
/// requires and re-establishes `wf`, so no sequence of calls grows a list
/// past it.
pub proof fn lemma_owner_lists_bounded(r: AssetRegistry, o: u64)
    requires
        r.wf(),
    ensures
        r.owned(o).len() <= r.spec_capacity(),
{
}

/// A clone of a vector of byte vectors carries the same deep view.
proof fn lemma_vec_vec_clone_deep(a: &Vec<Vec<u8>>, b: &Vec<Vec<u8>>)
    requires
        b.len() == a.len(),
        forall|i: int| #![all_triggers] 0 <= i < a.len() ==> cloned::<Vec<u8>>(a[i], b[i]),
    ensures
        b.deep_view() == a.deep_view(),
{
    assert forall|i: int| 0 <= i < a.len() implies a@[i]@ == b@[i]@ by {
        let x = a@[i];
        let y = b@[i];
        if x == y {
        } else {
            assert(call_ensures(Vec::<u8>::clone, (&x,), y));
            assert(y@ =~= x@);
        }
    }
    assert(a.deep_view() =~= b.deep_view());
}

} // verus!
