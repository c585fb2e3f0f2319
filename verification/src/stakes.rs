//! The stake ledger: one pooled balance per account.

use crate::error::LedgerError;
use crate::model::{balance, covers, credited, debited};
use vstd::prelude::*;

verus! {

/// The pooled balance of one account.
#[derive(Debug)]
pub struct Stake {
    pub account_id: String,
    pub amount: u128,
}

/// The balances of all accounts that ever staked. No account has two
/// entries. The view maps each account that has an entry to its balance.
#[derive(Debug)]
pub struct Stakes {
    entries: Vec<Stake>,
}

/// Whether `entries[i]` is the entry of `account`.
pub open spec fn is_entry_of(entries: Seq<Stake>, i: int, account: Seq<char>) -> bool {
    0 <= i < entries.len() && entries[i].account_id@ == account
}

/// Whether no two of `entries` belong to one account.
pub open spec fn distinct_accounts(entries: Seq<Stake>) -> bool {
    forall|i: int, j: int|
        0 <= i < j < entries.len() ==> (#[trigger] entries[i]).account_id@ != (
        #[trigger] entries[j]).account_id@
}

/// The map from each account among `entries` to the balance of its entry.
pub open spec fn balances_of(entries: Seq<Stake>) -> Map<Seq<char>, int> {
    Map::new(
        |account: Seq<char>| exists|i: int| is_entry_of(entries, i, account),
        |account: Seq<char>|
            entries[choose|i: int| is_entry_of(entries, i, account)].amount as int,
    )
}

/// With distinct accounts, an entry's balance is what the map gives for its
/// account.
pub proof fn lemma_balance_of_entry(entries: Seq<Stake>, i: int)
    requires
        distinct_accounts(entries),
        0 <= i < entries.len(),
    ensures
        balances_of(entries).contains_key(entries[i].account_id@),
        balances_of(entries)[entries[i].account_id@] == entries[i].amount,
{
    let account = entries[i].account_id@;
    assert(is_entry_of(entries, i, account));
    let k = choose|k: int| is_entry_of(entries, k, account);
    assert(k == i);
}

impl View for Stakes {
    type V = Map<Seq<char>, int>;

    closed spec fn view(&self) -> Map<Seq<char>, int> {
        balances_of(self.entries@)
    }
}

impl Stakes {
    #[verifier::type_invariant]
    spec fn well_formed(&self) -> bool {
        distinct_accounts(self.entries@)
    }

    /// No account has staked anything.
    pub fn new() -> (stakes: Stakes)
        ensures
            stakes@ == Map::<Seq<char>, int>::empty(),
    {
        let stakes = Stakes { entries: Vec::new() };
        assert(stakes@ =~= Map::<Seq<char>, int>::empty());
        stakes
    }

    /// The position of the entry of `account_id`, if it has one.
    fn position(&self, account_id: &String) -> (found: Option<usize>)
        ensures
            match found {
                Some(i) => is_entry_of(self.entries@, i as int, account_id@),
                None => forall|i: int| !is_entry_of(self.entries@, i, account_id@),
            },
    {
        let mut i: usize = 0;
        while i < self.entries.len()
            invariant
                i <= self.entries@.len(),
                forall|j: int| 0 <= j < i ==> !is_entry_of(self.entries@, j, account_id@),
            decreases self.entries@.len() - i,
        {
            if self.entries[i].account_id == *account_id {
                return Some(i);
            }
            i += 1;
        }
        None
    }

    /// The entries, one for each account that ever staked.
    pub fn entries(&self) -> (entries: &Vec<Stake>)
        ensures
            distinct_accounts(entries@),
            self@ == balances_of(entries@),
    {
        proof {
            use_type_invariant(self);
        }
        &self.entries
    }

    /// No balance is negative.
    pub proof fn lemma_nonnegative(&self)
        ensures
            forall|account: Seq<char>| #[trigger]
                self@.contains_key(account) ==> self@[account] >= 0,
    {
    }

    /// Sets the balance of the entry at position `i`.
    fn set_amount(&mut self, i: usize, amount: u128)
        requires
            i < old(self).entries@.len(),
        ensures
            final(self)@ == old(self)@.insert(
                old(self).entries@[i as int].account_id@,
                amount as int,
            ),
    {
        proof {
            use_type_invariant(&*self);
        }
        let ghost before = self.entries@;
        let mut entries: Vec<Stake> = Vec::new();
        core::mem::swap(&mut self.entries, &mut entries);
        entries[i].amount = amount;
        proof {
            lemma_amount_changed(before, entries@, i as int);
        }
        core::mem::swap(&mut self.entries, &mut entries);
    }

    /// The balance of `account_id`, or `None` where it has no entry.
    pub fn get(&self, account_id: &String) -> (found: Option<u128>)
        ensures
            match found {
                Some(amount) => self@.contains_key(account_id@) && self@[account_id@] == amount,
                None => !self@.contains_key(account_id@),
            },
    {
        proof {
            use_type_invariant(self);
        }
        match self.position(account_id) {
            Some(i) => {
                proof {
                    lemma_balance_of_entry(self.entries@, i as int);
                }
                Some(self.entries[i].amount)
            },
            None => None,
        }
    }

    /// The balance of `account_id`. An account without an entry holds
    /// nothing, like one whose entry is down to 0.
    pub fn balance(&self, account_id: &String) -> (held: u128)
        ensures
            held == balance(self@, account_id@),
    {
        match self.get(account_id) {
            Some(amount) => amount,
            None => 0,
        }
    }

    /// Takes `amount` from the balance of `account_id`.
    ///
    /// Refused with `InsufficientStake`, and nothing changes, where the
    /// account has no entry or its balance is below `amount`.
    pub fn debit(&mut self, account_id: &String, amount: u128) -> (done: Result<(), LedgerError>)
        ensures
            covers(old(self)@, account_id@, amount as nat) ==> done is Ok && final(self)@
                == debited(old(self)@, account_id@, amount as nat),
            !covers(old(self)@, account_id@, amount as nat) ==> done == Err::<(), LedgerError>(
                LedgerError::InsufficientStake,
            ) && final(self)@ == old(self)@,
    {
        proof {
            use_type_invariant(&*self);
        }
        match self.position(account_id) {
            Some(i) => {
                proof {
                    lemma_balance_of_entry(self.entries@, i as int);
                }
                let held = self.entries[i].amount;
                if held < amount {
                    Err(LedgerError::InsufficientStake)
                } else {
                    self.set_amount(i, held - amount);
                    Ok(())
                }
            },
            None => Err(LedgerError::InsufficientStake),
        }
    }
}

/// Changing the balance of one entry changes the map at that entry's account
/// and nowhere else, and keeps the accounts distinct.
proof fn lemma_amount_changed(before: Seq<Stake>, after: Seq<Stake>, i: int)
    requires
        distinct_accounts(before),
        0 <= i < before.len(),
        after.len() == before.len(),
        after[i].account_id@ == before[i].account_id@,
        forall|j: int| 0 <= j < before.len() && j != i ==> after[j] == before[j],
    ensures
        distinct_accounts(after),
        balances_of(after) == balances_of(before).insert(
            before[i].account_id@,
            after[i].amount as int,
        ),
{
    assert forall|j: int| 0 <= j < before.len() implies (#[trigger] after[j]).account_id@
        == before[j].account_id@ by {}
    assert(distinct_accounts(after)) by {
        assert forall|a: int, b: int| 0 <= a < b < after.len() implies (
        #[trigger] after[a]).account_id@ != (#[trigger] after[b]).account_id@ by {
            assert(before[a].account_id@ != before[b].account_id@);
        }
    }
    let expected = balances_of(before).insert(before[i].account_id@, after[i].amount as int);
    assert forall|account: Seq<char>| balances_of(after).contains_key(account)
        == expected.contains_key(account) by {
        if balances_of(after).contains_key(account) {
            let k = choose|k: int| is_entry_of(after, k, account);
            assert(is_entry_of(before, k, account));
        }
        if balances_of(before).contains_key(account) {
            let k = choose|k: int| is_entry_of(before, k, account);
            assert(is_entry_of(after, k, account));
        }
        assert(is_entry_of(after, i, before[i].account_id@));
    }
    assert forall|account: Seq<char>| balances_of(after).contains_key(account) implies balances_of(
        after,
    )[account] == expected[account] by {
        let k = choose|k: int| is_entry_of(after, k, account);
        lemma_balance_of_entry(after, k);
        if k != i {
            assert(is_entry_of(before, k, account));
            lemma_balance_of_entry(before, k);
        }
    }
    assert(balances_of(after) =~= expected);
}

/// Adds `amount` to the balance of `account_id`, which gets an entry if it
/// has none.
pub fn add_stake(stakes: &mut Stakes, account_id: String, amount: u128)
    requires
        balance(old(stakes)@, account_id@) + amount <= u128::MAX,
    ensures
        final(stakes)@ == credited(old(stakes)@, account_id@, amount as nat),
{
    proof {
        use_type_invariant(&*stakes);
    }
    let ghost before = stakes.entries@;
    match stakes.position(&account_id) {
        Some(i) => {
            proof {
                lemma_balance_of_entry(before, i as int);
            }
            let held = stakes.entries[i].amount;
            stakes.set_amount(i, held + amount);
        },
        None => {
            let mut entries: Vec<Stake> = Vec::new();
            core::mem::swap(&mut stakes.entries, &mut entries);
            entries.push(Stake { account_id, amount });
            proof {
                lemma_entry_added(before, entries@);
            }
            core::mem::swap(&mut stakes.entries, &mut entries);
        },
    }
}

/// Appending the entry of an account that had none adds that account to the
/// map and keeps the accounts distinct.
proof fn lemma_entry_added(before: Seq<Stake>, after: Seq<Stake>)
    requires
        distinct_accounts(before),
        after.len() == before.len() + 1,
        forall|j: int| 0 <= j < before.len() ==> after[j] == before[j],
        forall|j: int| !is_entry_of(before, j, after.last().account_id@),
    ensures
        distinct_accounts(after),
        !balances_of(before).contains_key(after.last().account_id@),
        balances_of(after) == balances_of(before).insert(
            after.last().account_id@,
            after.last().amount as int,
        ),
{
    let added = after.last().account_id@;
    let last = after.len() - 1;
    assert(distinct_accounts(after)) by {
        assert forall|a: int, b: int| 0 <= a < b < after.len() implies (
        #[trigger] after[a]).account_id@ != (#[trigger] after[b]).account_id@ by {
            if b == last {
                assert(!is_entry_of(before, a, added));
            } else {
                assert(before[a].account_id@ != before[b].account_id@);
            }
        }
    }
    let expected = balances_of(before).insert(added, after.last().amount as int);
    assert forall|account: Seq<char>| balances_of(after).contains_key(account)
        == expected.contains_key(account) by {
        if balances_of(after).contains_key(account) {
            let k = choose|k: int| is_entry_of(after, k, account);
            if k != last {
                assert(is_entry_of(before, k, account));
            }
        }
        if balances_of(before).contains_key(account) {
            let k = choose|k: int| is_entry_of(before, k, account);
            assert(is_entry_of(after, k, account));
        }
        assert(is_entry_of(after, last, added));
    }
    assert forall|account: Seq<char>| balances_of(after).contains_key(account) implies balances_of(
        after,
    )[account] == expected[account] by {
        let k = choose|k: int| is_entry_of(after, k, account);
        lemma_balance_of_entry(after, k);
        if k != last {
            assert(is_entry_of(before, k, account));
            lemma_balance_of_entry(before, k);
        }
    }
    assert(balances_of(after) =~= expected);
}

} // verus!
