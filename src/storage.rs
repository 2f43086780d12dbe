//! The two stores of the ledger: balances by account, allowances by
//! (owner, spender) pair.
use vstd::prelude::*;

use crate::table::{
    amount_sum, lemma_absent, lemma_push, lemma_row, lemma_sum_bound, lemma_update, lookup,
    table_map, unique_keys,
};

verus! {

/// The key of a balance row, as a sequence of characters.
pub open spec fn balance_rows(v: Seq<(String, u128)>) -> Seq<(Seq<char>, u128)> {
    v.map_values(|e: (String, u128)| (e.0@, e.1))
}

/// The key of an allowance row, as a pair of sequences of characters.
pub open spec fn allowance_rows(v: Seq<((String, String), u128)>) -> Seq<(
    (Seq<char>, Seq<char>),
    u128,
)> {
    v.map_values(|e: ((String, String), u128)| ((e.0.0@, e.0.1@), e.1))
}

pub struct TokenStorage {
    pub balances: Vec<(String, u128)>,
    pub allowances: Vec<((String, String), u128)>,
}

impl TokenStorage {
    /// Balance by account.
    pub open spec fn balance_map(&self) -> Map<Seq<char>, u128> {
        table_map(balance_rows(self.balances@))
    }

    /// Allowance by (owner, spender).
    pub open spec fn allowance_map(&self) -> Map<(Seq<char>, Seq<char>), u128> {
        table_map(allowance_rows(self.allowances@))
    }

    /// The sum of all balances.
    pub open spec fn balance_sum(&self) -> nat {
        amount_sum(balance_rows(self.balances@))
    }

    pub open spec fn wf(&self) -> bool {
        unique_keys(balance_rows(self.balances@)) && unique_keys(allowance_rows(self.allowances@))
    }

    /// Two different accounts hold no more together than all accounts do.
    pub proof fn lemma_balance_bound(&self, a: Seq<char>, b: Seq<char>)
        requires
            self.wf(),
        ensures
            lookup(self.balance_map(), a) <= self.balance_sum(),
            a != b ==> lookup(self.balance_map(), a) + lookup(self.balance_map(), b)
                <= self.balance_sum(),
    {
        let s = balance_rows(self.balances@);
        if self.balance_map().contains_key(a) {
            let i = choose|i: int| 0 <= i < s.len() && s[i].0 == a;
            if !(0 <= i < s.len() && s[i].0 == a) {
                lemma_absent(s, a);
            }
            lemma_row(s, i);
            lemma_sum_bound(s, i, i);
            if a != b && self.balance_map().contains_key(b) {
                let j = choose|j: int| 0 <= j < s.len() && s[j].0 == b;
                if !(0 <= j < s.len() && s[j].0 == b) {
                    lemma_absent(s, b);
                }
                lemma_row(s, j);
                lemma_sum_bound(s, i, j);
            }
        } else if self.balance_map().contains_key(b) {
            let j = choose|j: int| 0 <= j < s.len() && s[j].0 == b;
            if !(0 <= j < s.len() && s[j].0 == b) {
                lemma_absent(s, b);
            }
            lemma_row(s, j);
            lemma_sum_bound(s, j, j);
        }
    }

    fn find_balance(&self, account: &String) -> (r: Option<usize>)
        ensures
            match r {
                Some(i) => i < self.balances@.len() && self.balances@[i as int].0@ == account@,
                None => forall|i: int|
                    0 <= i < self.balances@.len() ==> self.balances@[i].0@ != account@,
            },
    {
        let mut i: usize = 0;
        while i < self.balances.len()
            invariant
                i <= self.balances@.len(),
                forall|j: int| 0 <= j < i ==> self.balances@[j].0@ != account@,
            decreases self.balances@.len() - i,
        {
            if self.balances[i].0 == *account {
                return Some(i);
            }
            i = i + 1;
        }
        None
    }

    fn find_allowance(&self, owner: &String, spender: &String) -> (r: Option<usize>)
        ensures
            match r {
                Some(i) => i < self.allowances@.len() && self.allowances@[i as int].0.0@ == owner@
                    && self.allowances@[i as int].0.1@ == spender@,
                None => forall|i: int|
                    0 <= i < self.allowances@.len() ==> !(self.allowances@[i].0.0@ == owner@
                        && self.allowances@[i].0.1@ == spender@),
            },
    {
        let mut i: usize = 0;
        while i < self.allowances.len()
            invariant
                i <= self.allowances@.len(),
                forall|j: int|
                    0 <= j < i ==> !(self.allowances@[j].0.0@ == owner@
                        && self.allowances@[j].0.1@ == spender@),
            decreases self.allowances@.len() - i,
        {
            if self.allowances[i].0.0 == *owner && self.allowances[i].0.1 == *spender {
                return Some(i);
            }
            i = i + 1;
        }
        None
    }

    /// The balance of `account`, zero if it has none.
    pub fn balance(&self, account: &String) -> (r: u128)
        requires
            self.wf(),
        ensures
            r == lookup(self.balance_map(), account@),
    {
        match self.find_balance(account) {
            Some(i) => {
                proof {
                    lemma_row(balance_rows(self.balances@), i as int);
                }
                self.balances[i].1
            },
            None => {
                proof {
                    lemma_absent(balance_rows(self.balances@), account@);
                }
                0
            },
        }
    }

    /// The allowance that `owner` granted to `spender`, zero if none.
    pub fn allowance(&self, owner: &String, spender: &String) -> (r: u128)
        requires
            self.wf(),
        ensures
            r == lookup(self.allowance_map(), (owner@, spender@)),
    {
        match self.find_allowance(owner, spender) {
            Some(i) => {
                proof {
                    lemma_row(allowance_rows(self.allowances@), i as int);
                }
                self.allowances[i].1
            },
            None => {
                proof {
                    lemma_absent(allowance_rows(self.allowances@), (owner@, spender@));
                }
                0
            },
        }
    }

    /// Records `amount` as the balance of `account`.
    pub fn set_balance(&mut self, account: &String, amount: u128)
        requires
            old(self).wf(),
        ensures
            final(self).wf(),
            final(self).balance_map() == old(self).balance_map().insert(account@, amount),
            final(self).balance_sum() + lookup(old(self).balance_map(), account@)
                == old(self).balance_sum() + amount,
            final(self).allowances == old(self).allowances,
    {
        let ghost s = balance_rows(self.balances@);
        match self.find_balance(account) {
            Some(i) => {
                proof {
                    lemma_row(s, i as int);
                    lemma_update(s, i as int, amount);
                }
                self.balances[i].1 = amount;
                assert(balance_rows(self.balances@) =~= s.update(i as int, (s[i as int].0, amount)));
            },
            None => {
                proof {
                    lemma_absent(s, account@);
                    lemma_push(s, account@, amount);
                }
                self.balances.push((account.clone(), amount));
                assert(balance_rows(self.balances@) =~= s.push((account@, amount)));
            },
        }
    }

    /// Records `amount` as the allowance that `owner` granted to `spender`.
    pub fn set_allowance(&mut self, owner: &String, spender: &String, amount: u128)
        requires
            old(self).wf(),
        ensures
            final(self).wf(),
            final(self).allowance_map() == old(self).allowance_map().insert(
                (owner@, spender@),
                amount,
            ),
            final(self).balances == old(self).balances,
    {
        let ghost s = allowance_rows(self.allowances@);
        match self.find_allowance(owner, spender) {
            Some(i) => {
                proof {
                    lemma_update(s, i as int, amount);
                }
                self.allowances[i].1 = amount;
                assert(allowance_rows(self.allowances@) =~= s.update(
                    i as int,
                    (s[i as int].0, amount),
                ));
            },
            None => {
                proof {
                    lemma_push(s, (owner@, spender@), amount);
                }
                self.allowances.push(((owner.clone(), spender.clone()), amount));
                assert(allowance_rows(self.allowances@) =~= s.push(((owner@, spender@), amount)));
            },
        }
    }
}

impl Default for TokenStorage {
    /// Empty stores.
    fn default() -> (r: Self)
        ensures
            r.wf(),
            r.balance_map() == Map::<Seq<char>, u128>::empty(),
            r.allowance_map() == Map::<(Seq<char>, Seq<char>), u128>::empty(),
            r.balance_sum() == 0,
    {
        let r = TokenStorage { balances: Vec::new(), allowances: Vec::new() };
        assert(balance_rows(r.balances@) =~= Seq::empty());
        assert(allowance_rows(r.allowances@) =~= Seq::empty());
        r
    }
}

} // verus!
