use vstd::prelude::*;

use crate::wallet::Wallet;
use crate::wallet::WalletError;
use crate::wallet::WalletView;
use crate::wallet::with_balance;

verus! {

/// True when some record in `s` carries the id `id`.
pub open spec fn has_id(s: Seq<WalletView>, id: u32) -> bool {
    exists|i: int| 0 <= i < s.len() && s[i].id == id
}

/// The index of the first record in `s` whose id is `id`; `s.len()` when
/// no record carries it.
pub open spec fn idx_of(s: Seq<WalletView>, id: u32) -> int
    decreases s.len(),
{
    if s.len() == 0 {
        0
    } else if s[0].id == id {
        0
    } else {
        1 + idx_of(s.subrange(1, s.len() as int), id)
    }
}

/// What `idx_of` points at: it stays within `0 ..= s.len()`, falls short of
/// `s.len()` exactly when the id occurs, and then names the first record
/// that carries it.
pub proof fn lemma_idx_of(s: Seq<WalletView>, id: u32)
    ensures
        0 <= idx_of(s, id) <= s.len(),
        has_id(s, id) <==> idx_of(s, id) < s.len(),
        idx_of(s, id) < s.len() ==> s[idx_of(s, id)].id == id,
        forall|j: int| 0 <= j < idx_of(s, id) ==> s[j].id != id,
    decreases s.len(),
{
    if s.len() == 0 {
    } else if s[0].id == id {
    } else {
        let t = s.subrange(1, s.len() as int);
        lemma_idx_of(t, id);
        assert(forall|j: int| 0 <= j < t.len() ==> t[j] == s[j + 1]);
        if has_id(t, id) {
            let k = choose|k: int| 0 <= k < t.len() && t[k].id == id;
            assert(s[k + 1].id == id);
        }
        if has_id(s, id) {
            let k = choose|k: int| 0 <= k < s.len() && s[k].id == id;
            assert(t[k - 1].id == id);
        }
        assert forall|j: int| 0 <= j < idx_of(s, id) implies s[j].id != id by {
            if j > 0 {
                assert(t[j - 1].id != id);
            }
        }
    }
}

/// The collection of all wallets, in creation order, together with the
/// counter that assigns the next id. A fresh registry starts counting at 1,
/// and the counter only ever grows, so an id is never reused, not even
/// after the wallet carrying it has been deleted.
pub struct WalletRegistry {
    pub wallets: Vec<Wallet>,
    pub next_id: u32,
}

impl View for WalletRegistry {
    type V = Seq<WalletView>;

    open spec fn view(&self) -> Seq<WalletView> {
        self.wallets@.map(|i: int, w: Wallet| w@)
    }
}

impl WalletRegistry {
    /// Well-formedness: ids run strictly upward in creation order (hence
    /// are pairwise distinct), every id lies in `1 .. next_id`, and no
    /// balance is negative.
    pub open spec fn wf(&self) -> bool {
        &&& 1 <= self.next_id
        &&& forall|i: int| 0 <= i < self@.len() ==> 1 <= (#[trigger] self@[i]).id
        &&& forall|i: int| 0 <= i < self@.len() ==> (#[trigger] self@[i]).id < self.next_id
        &&& forall|i: int| 0 <= i < self@.len() ==> (#[trigger] self@[i]).balance >= 0
        &&& forall|i: int, j: int|
            0 <= i < j < self@.len() ==> (#[trigger] self@[i]).id < (#[trigger] self@[j]).id
    }

    /// An empty registry whose first assigned id will be 1.
    pub fn new() -> (r: WalletRegistry)
        ensures
            r.wf(),
            r@ == Seq::<WalletView>::empty(),
            r.next_id == 1,
    {
        let r = WalletRegistry { wallets: Vec::new(), next_id: 1 };
        proof {
            assert(r@ =~= Seq::<WalletView>::empty());
        }
        r
    }

    /// Appends a new wallet carrying the counter's current value as its id,
    /// the given labels and balance 0, then advances the counter. Returns
    /// the assigned id. Never fails.
    pub fn create(&mut self, name: String, coin_type: String) -> (id: u32)
        requires
            old(self).wf(),
            old(self).next_id < u32::MAX,
        ensures
            final(self).wf(),
            id == old(self).next_id,
            final(self).next_id == old(self).next_id + 1,
            final(self)@ == old(self)@.push(
                (WalletView { id, name: name@, coin_type: coin_type@, balance: 0 }),
            ),
    {
        let id = self.next_id;
        let ghost wv = (WalletView { id, name: name@, coin_type: coin_type@, balance: 0 });
        let w = Wallet { id, name, coin_type, balance: 0 };
        self.wallets.push(w);
        self.next_id = id + 1;
        proof {
            assert(self@ =~= old(self)@.push(wv));
        }
        id
    }

    /// All wallets, in creation order; the caller can tell an empty
    /// registry from a populated one by the length.
    pub fn list(&self) -> (r: &Vec<Wallet>)
        ensures
            r@.len() == self@.len(),
            forall|i: int| 0 <= i < r@.len() ==> (#[trigger] r@[i])@ == self@[i],
    {
        &self.wallets
    }

    /// True exactly when the registry holds no wallets.
    pub fn is_empty(&self) -> (r: bool)
        ensures
            r <==> self@.len() == 0,
    {
        self.wallets.len() == 0
    }

    /// The position of the first wallet carrying `id`, if any does.
    fn find_index(&self, id: u32) -> (r: Option<usize>)
        ensures
            match r {
                Some(i) => has_id(self@, id) && i as int == idx_of(self@, id) && i < self@.len(),
                None => !has_id(self@, id),
            },
    {
        let n = self.wallets.len();
        let mut i: usize = 0;
        while i < n
            invariant
                n == self.wallets.len(),
                i <= n,
                forall|j: int| 0 <= j < i ==> (#[trigger] self@[j]).id != id,
            decreases n - i,
        {
            if self.wallets[i].id == id {
                proof {
                    assert(self@[i as int].id == id);
                    lemma_idx_of(self@, id);
                }
                return Some(i);
            }
            i = i + 1;
        }
        proof {
            lemma_idx_of(self@, id);
        }
        None
    }

    /// Linear lookup by id. Absence is an ordinary outcome, not an error:
    /// the caller branches on the `Option`.
    pub fn find(&self, id: u32) -> (r: Option<&Wallet>)
        ensures
            match r {
                Some(w) => has_id(self@, id) && w@ == self@[idx_of(self@, id)],
                None => !has_id(self@, id),
            },
    {
        match self.find_index(id) {
            Some(i) => Some(&self.wallets[i]),
            None => None,
        }
    }

    /// Adds `amount` to the balance of the wallet carrying `id` and returns
    /// the new balance. Refused, with the registry unchanged, when the
    /// registry is empty (`NoWallets`), when `amount` is not strictly
    /// positive (`InvalidAmount`), or when no wallet carries `id`
    /// (`NotFound`) — the checks in that order.
    pub fn deposit(&mut self, id: u32, amount: i64) -> (r: Result<i64, WalletError>)
        requires
            old(self).wf(),
            has_id(old(self)@, id) && amount > 0 ==> old(self)@[idx_of(old(self)@, id)].balance
                + amount <= i64::MAX,
        ensures
            final(self).wf(),
            final(self).next_id == old(self).next_id,
            old(self)@.len() == 0 ==> r == Err::<i64, WalletError>(WalletError::NoWallets)
                && final(self)@ == old(self)@,
            old(self)@.len() > 0 && amount <= 0 ==> r == Err::<i64, WalletError>(
                WalletError::InvalidAmount,
            ) && final(self)@ == old(self)@,
            old(self)@.len() > 0 && amount > 0 && !has_id(old(self)@, id) ==> r == Err::<
                i64,
                WalletError,
            >(WalletError::NotFound) && final(self)@ == old(self)@,
            old(self)@.len() > 0 && amount > 0 && has_id(old(self)@, id) ==> {
                let k = idx_of(old(self)@, id);
                &&& r matches Ok(b) && b == old(self)@[k].balance + amount
                &&& final(self)@ == old(self)@.update(
                    k,
                    with_balance(old(self)@[k], old(self)@[k].balance + amount),
                )
            },
    {
        if self.wallets.len() == 0 {
            return Err(WalletError::NoWallets);
        }
        if amount <= 0 {
            return Err(WalletError::InvalidAmount);
        }
        match self.find_index(id) {
            None => Err(WalletError::NotFound),
            Some(i) => {
                proof {
                    lemma_idx_of(self@, id);
                }
                let nb = self.wallets[i].balance + amount;
                self.wallets[i].balance = nb;
                proof {
                    assert(self@ =~= old(self)@.update(
                        i as int,
                        with_balance(old(self)@[i as int], old(self)@[i as int].balance + amount),
                    ));
                }
                Ok(nb)
            },
        }
    }

    /// Subtracts `amount` from the balance of the wallet carrying `id` and
    /// returns the new balance. Refused, with the registry unchanged, when
    /// the registry is empty (`NoWallets`), when `amount` is not strictly
    /// positive (`InvalidAmount`), when no wallet carries `id` (`NotFound`),
    /// or when `amount` exceeds that wallet's balance
    /// (`InsufficientFunds`) — the checks in that order, so a balance never
    /// goes negative.
    pub fn withdraw(&mut self, id: u32, amount: i64) -> (r: Result<i64, WalletError>)
        requires
            old(self).wf(),
        ensures
            final(self).wf(),
            final(self).next_id == old(self).next_id,
            old(self)@.len() == 0 ==> r == Err::<i64, WalletError>(WalletError::NoWallets)
                && final(self)@ == old(self)@,
            old(self)@.len() > 0 && amount <= 0 ==> r == Err::<i64, WalletError>(
                WalletError::InvalidAmount,
            ) && final(self)@ == old(self)@,
            old(self)@.len() > 0 && amount > 0 && !has_id(old(self)@, id) ==> r == Err::<
                i64,
                WalletError,
            >(WalletError::NotFound) && final(self)@ == old(self)@,
            old(self)@.len() > 0 && amount > 0 && has_id(old(self)@, id) && amount > old(
                self,
            )@[idx_of(old(self)@, id)].balance ==> r == Err::<i64, WalletError>(
                WalletError::InsufficientFunds,
            ) && final(self)@ == old(self)@,
            old(self)@.len() > 0 && amount > 0 && has_id(old(self)@, id) && amount <= old(
                self,
            )@[idx_of(old(self)@, id)].balance ==> {
                let k = idx_of(old(self)@, id);
                &&& r matches Ok(b) && b == old(self)@[k].balance - amount
                &&& final(self)@ == old(self)@.update(
                    k,
                    with_balance(old(self)@[k], old(self)@[k].balance - amount),
                )
            },
    {
        if self.wallets.len() == 0 {
            return Err(WalletError::NoWallets);
        }
        if amount <= 0 {
            return Err(WalletError::InvalidAmount);
        }
        match self.find_index(id) {
            None => Err(WalletError::NotFound),
            Some(i) => {
                proof {
                    lemma_idx_of(self@, id);
                }
                if amount > self.wallets[i].balance {
                    return Err(WalletError::InsufficientFunds);
                }
                let nb = self.wallets[i].balance - amount;
                self.wallets[i].balance = nb;
                proof {
                    assert(self@ =~= old(self)@.update(
                        i as int,
                        with_balance(old(self)@[i as int], old(self)@[i as int].balance - amount),
                    ));
                }
                Ok(nb)
            },
        }
    }

    /// Removes the first wallet carrying `id`, keeping the relative order
    /// of the rest, and says whether a removal happened. When no wallet
    /// carries `id` — in particular when the registry is empty — nothing
    /// changes. At most one record is ever removed, even from a collection
    /// in which several records carried the same id.
    pub fn delete(&mut self, id: u32) -> (r: bool)
        ensures
            final(self).next_id == old(self).next_id,
            old(self).wf() ==> final(self).wf(),
            !has_id(old(self)@, id) ==> !r && final(self)@ == old(self)@,
            has_id(old(self)@, id) ==> r && final(self)@ == old(self)@.remove(
                idx_of(old(self)@, id),
            ),
    {
        match self.find_index(id) {
            None => false,
            Some(i) => {
                self.wallets.remove(i);
                proof {
                    assert(self@ =~= old(self)@.remove(i as int));
                }
                true
            },
        }
    }
}

/// Law of id assignment: in a well-formed registry the wallets, read in
/// creation order, carry strictly increasing ids, each at least 1 and below
/// the id counter. Since `new` starts the counter at 1, `create` hands out
/// the counter's value and then advances it, and every operation preserves
/// well-formedness, the ids assigned over any sequence of `create` calls
/// are strictly increasing and unique, starting at 1, and an id is never
/// reused once assigned.
pub proof fn lemma_ids_strictly_increasing(r: WalletRegistry, i: int, j: int)
    requires
        r.wf(),
        0 <= i < j < r@.len(),
    ensures
        1 <= r@[i].id,
        r@[i].id < r@[j].id,
        r@[j].id < r.next_id,
{
}

/// Law of id uniqueness: no two wallets of a well-formed registry carry the
/// same id.
pub proof fn lemma_ids_unique(r: WalletRegistry, i: int, j: int)
    requires
        r.wf(),
        0 <= i < r@.len(),
        0 <= j < r@.len(),
        i != j,
    ensures
        r@[i].id != r@[j].id,
{
}

/// Round-trip law: after a `create` that assigned `id`, looking that id up
/// finds exactly the record just created — the given labels with balance 0.
/// The `requires` are what `create` ensures of its pre- and post-state; the
/// `ensures` is what `find` then returns in the post-state.
pub proof fn lemma_create_then_find(
    pre: WalletRegistry,
    post: WalletRegistry,
    id: u32,
    name: Seq<char>,
    coin_type: Seq<char>,
)
    requires
        pre.wf(),
        id == pre.next_id,
        post@ == pre@.push((WalletView { id, name, coin_type, balance: 0 })),
    ensures
        has_id(post@, id),
        idx_of(post@, id) == pre@.len(),
        post@[idx_of(post@, id)] == (WalletView { id, name, coin_type, balance: 0 }),
{
    assert(post@[pre@.len() as int].id == id);
    lemma_idx_of(post@, id);
    assert forall|j: int| 0 <= j < pre@.len() implies post@[j].id != id by {
        assert(post@[j] == pre@[j]);
    }
}

} // verus!
