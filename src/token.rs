//! The token ledger: metadata, the controller that alone may mint and burn,
//! and the operations on balances and allowances.
use vstd::prelude::*;

use crate::storage::{balance_rows, TokenStorage};
use crate::table::{lemma_set_row, lemma_sum_after_set, lookup, table_map};

verus! {

/// Why an operation was refused. A refused operation changes nothing.
#[derive(Debug, Clone, Copy, PartialEq, Eq, Structural)]
pub enum TokenError {
    /// The account to be debited holds less than the amount.
    InsufficientBalance,
    /// The spender was granted less than the amount.
    InsufficientAllowance,
    /// Only the controller may mint or burn.
    Unauthorized,
    /// The total supply would exceed the largest representable amount.
    ArithmeticOverflow,
}

pub struct Token {
    /// Token name.
    pub name: String,
    /// Token symbol.
    pub symbol: String,
    /// Token decimals.
    pub decimals: u8,
    /// Total supply of tokens.
    pub total_supply: u128,
    /// The identity that alone may mint and burn.
    pub controller: String,
    /// Account balances and allowances.
    pub storage: TokenStorage,
}

/// Balances after `amount` has gone from `from` to `to`; every other
/// account keeps its balance.
pub open spec fn moved(old: Token, new: Token, from: Seq<char>, to: Seq<char>, amount: u128) -> bool {
    forall|x: Seq<char>|
        #![trigger new.balance_spec(x)]
        new.balance_spec(x) == old.balance_spec(x) - (if x == from {
            amount
        } else {
            0
        }) + (if x == to {
            amount
        } else {
            0
        })
}

/// Balances after `account` has gained `delta` (lost it, if negative).
pub open spec fn changed(old: Token, new: Token, account: Seq<char>, delta: int) -> bool {
    forall|x: Seq<char>|
        #![trigger new.balance_spec(x)]
        new.balance_spec(x) == old.balance_spec(x) + (if x == account {
            delta
        } else {
            0
        })
}

/// The fields that no operation but construction sets.
pub open spec fn same_metadata(old: Token, new: Token) -> bool {
    new.name == old.name && new.symbol == old.symbol && new.decimals == old.decimals
        && new.controller == old.controller
}

/// Every allowance is as it was.
pub open spec fn same_allowances(old: Token, new: Token) -> bool {
    forall|o: Seq<char>, s: Seq<char>|
        #![trigger new.allowance_spec(o, s)]
        new.allowance_spec(o, s) == old.allowance_spec(o, s)
}

/// Where one account gained `delta` (lost it, if negative) and every other
/// balance stayed, the total supply of a well-formed ledger changed by
/// exactly `delta`: it is the sum of all balances, whatever the order in
/// which they are stored.
pub proof fn lemma_change_shifts_supply(a: Token, b: Token, account: Seq<char>, delta: int)
    requires
        a.wf(),
        b.wf(),
        changed(a, b, account, delta),
    ensures
        b.total_supply == a.total_supply + delta,
{
    let s = balance_rows(a.storage.balances@);
    let t = balance_rows(b.storage.balances@);
    assert forall|x: Seq<char>|
        lookup(table_map(t), x) == if x == account {
            b.balance_spec(account)
        } else {
            lookup(table_map(s), x)
        } by {
        assert(b.balance_spec(x) == a.balance_spec(x) + (if x == account {
            delta
        } else {
            0
        }));
    }
    lemma_sum_after_set(s, t, account, b.balance_spec(account));
    assert(b.balance_spec(account) == a.balance_spec(account) + delta);
}

/// Where `amount` went from one account to another and every other balance
/// stayed, the total supply of a well-formed ledger is unchanged.
pub proof fn lemma_move_keeps_supply(
    a: Token,
    b: Token,
    from: Seq<char>,
    to: Seq<char>,
    amount: u128,
)
    requires
        a.wf(),
        b.wf(),
        moved(a, b, from, to, amount),
    ensures
        b.total_supply == a.total_supply,
{
    let s = balance_rows(a.storage.balances@);
    let t = balance_rows(b.storage.balances@);
    assert(b.balance_spec(from) == a.balance_spec(from) - (if from == to {
        0int
    } else {
        amount as int
    }));
    if from == to {
        assert(changed(a, b, from, 0)) by {
            assert forall|x: Seq<char>| #[trigger] b.balance_spec(x) == a.balance_spec(x) + (if x
                == from {
                0int
            } else {
                0
            }) by {
                assert(b.balance_spec(x) == a.balance_spec(x) - (if x == from {
                    amount
                } else {
                    0
                }) + (if x == to {
                    amount
                } else {
                    0
                }));
            }
        }
        lemma_change_shifts_supply(a, b, from, 0);
    } else {
        let u = lemma_set_row(s, from, b.balance_spec(from));
        lemma_sum_after_set(s, u, from, b.balance_spec(from));
        assert forall|x: Seq<char>|
            lookup(table_map(t), x) == if x == to {
                b.balance_spec(to)
            } else {
                lookup(table_map(u), x)
            } by {
            assert(b.balance_spec(x) == a.balance_spec(x) - (if x == from {
                amount
            } else {
                0
            }) + (if x == to {
                amount
            } else {
                0
            }));
        }
        lemma_sum_after_set(u, t, to, b.balance_spec(to));
        assert(lookup(table_map(u), to) == a.balance_spec(to));
        assert(b.balance_spec(to) == a.balance_spec(to) + amount);
    }
}

/// Some amount went from one account to another, and nothing else changed
/// hands.
pub open spec fn transfer_step(a: Token, b: Token) -> bool {
    exists|from: Seq<char>, to: Seq<char>, amount: u128| moved(a, b, from, to, amount)
}

/// Along any run of completed transfers and delegated transfers, each of
/// which moves an amount from one account to another, the total supply
/// never changes.
pub proof fn lemma_transfers_conserve_supply(run: Seq<Token>)
    requires
        run.len() > 0,
        forall|i: int| 0 <= i < run.len() ==> #[trigger] run[i].wf(),
        forall|i: int| #![trigger run[i]] 0 <= i < run.len() - 1 ==> transfer_step(run[i], run[i + 1]),
    ensures
        forall|i: int| 0 <= i < run.len() ==> #[trigger] run[i].total_supply == run[0].total_supply,
    decreases run.len(),
{
    if run.len() > 1 {
        let head = run.drop_last();
        assert forall|i: int| #![trigger head[i]] 0 <= i < head.len() - 1 implies transfer_step(
            head[i],
            head[i + 1],
        ) by {
            assert(head[i] == run[i] && head[i + 1] == run[i + 1]);
        }
        assert forall|i: int| 0 <= i < head.len() implies #[trigger] head[i].wf() by {
            assert(head[i] == run[i]);
        }
        lemma_transfers_conserve_supply(head);
        let n = run.len() - 2;
        assert(transfer_step(run[n], run[n + 1]));
        let (from, to, amount) = choose|from: Seq<char>, to: Seq<char>, amount: u128|
            #[trigger] moved(run[n], run[n + 1], from, to, amount);
        lemma_move_keeps_supply(run[n], run[n + 1], from, to, amount);
        assert forall|i: int| 0 <= i < run.len() implies #[trigger] run[i].total_supply
            == run[0].total_supply by {
            assert(head[0] == run[0]);
            if i < run.len() - 1 {
                assert(head[i] == run[i]);
            } else {
                assert(head[n] == run[n]);
                assert(head[n].total_supply == head[0].total_supply);
            }
        }
    }
}

impl Token {
    /// The balance of `account`.
    pub open spec fn balance_spec(&self, account: Seq<char>) -> u128 {
        lookup(self.storage.balance_map(), account)
    }

    /// What `spender` may still move out of `owner`'s account.
    pub open spec fn allowance_spec(&self, owner: Seq<char>, spender: Seq<char>) -> u128 {
        lookup(self.storage.allowance_map(), (owner, spender))
    }

    /// The stores are well formed and the total supply is the sum of all
    /// balances.
    pub open spec fn wf(&self) -> bool {
        self.storage.wf() && self.total_supply == self.storage.balance_sum()
    }

    /// A ledger whose whole supply is held by `creator`; only `controller`
    /// may mint and burn.
    pub fn new(
        name: String,
        symbol: String,
        decimals: u8,
        total_supply: u128,
        creator: String,
        controller: String,
    ) -> (r: Self)
        ensures
            r.wf(),
            r.name == name,
            r.symbol == symbol,
            r.decimals == decimals,
            r.total_supply == total_supply,
            r.controller == controller,
            forall|x: Seq<char>|
                #![trigger r.balance_spec(x)]
                r.balance_spec(x) == if x == creator@ {
                    total_supply
                } else {
                    0
                },
            forall|o: Seq<char>, s: Seq<char>|
                #![trigger r.allowance_spec(o, s)]
                r.allowance_spec(o, s) == 0,
    {
        let mut storage = TokenStorage::default();
        storage.set_balance(&creator, total_supply);
        Token { name, symbol, decimals, total_supply, storage, controller }
    }

    /// Moves `amount` from `caller`'s account to `recipient_id`'s.
    pub fn transfer(&mut self, caller: &String, recipient_id: String, amount: u128) -> (r: Result<
        bool,
        TokenError,
    >)
        requires
            old(self).wf(),
        ensures
            final(self).wf(),
            r is Err <==> old(self).balance_spec(caller@) < amount,
            match r {
                Ok(b) => b && moved(*old(self), *final(self), caller@, recipient_id@, amount)
                    && final(self).total_supply == old(self).total_supply
                    && same_allowances(*old(self), *final(self))
                    && same_metadata(*old(self), *final(self)),
                Err(e) => e == TokenError::InsufficientBalance && *final(self) == *old(self),
            },
    {
        let sender_balance = self.storage.balance(caller);
        if sender_balance < amount {
            return Err(TokenError::InsufficientBalance);
        }
        proof {
            self.storage.lemma_balance_bound(caller@, recipient_id@);
        }
        self.storage.set_balance(caller, sender_balance - amount);
        let recipient_balance = self.storage.balance(&recipient_id);
        self.storage.set_balance(&recipient_id, recipient_balance + amount);
        Ok(true)
    }

    /// The balance of `account_id`, zero for an unknown account.
    pub fn balance_of(&self, account_id: String) -> (r: u128)
        requires
            self.wf(),
        ensures
            r == self.balance_spec(account_id@),
    {
        self.storage.balance(&account_id)
    }

    /// Lets `spender_id` move up to `amount` out of `caller`'s account,
    /// replacing any earlier grant.
    pub fn approve(&mut self, caller: &String, spender_id: String, amount: u128)
        requires
            old(self).wf(),
        ensures
            final(self).wf(),
            forall|o: Seq<char>, s: Seq<char>|
                #![trigger final(self).allowance_spec(o, s)]
                final(self).allowance_spec(o, s) == if o == caller@ && s == spender_id@ {
                    amount
                } else {
                    old(self).allowance_spec(o, s)
                },
            final(self).storage.balances == old(self).storage.balances,
            final(self).total_supply == old(self).total_supply,
            same_metadata(*old(self), *final(self)),
    {
        self.storage.set_allowance(caller, &spender_id, amount);
    }

    /// What `spender_id` may still move out of `owner_id`'s account.
    pub fn allowance(&self, owner_id: String, spender_id: String) -> (r: u128)
        requires
            self.wf(),
        ensures
            r == self.allowance_spec(owner_id@, spender_id@),
    {
        self.storage.allowance(&owner_id, &spender_id)
    }

    /// Moves `amount` from `owner_id`'s account to `to_id`'s on the strength
    /// of what `owner_id` granted to `caller`. The allowance is checked
    /// before the balance.
    pub fn transfer_from(&mut self, caller: &String, owner_id: String, to_id: String, amount: u128)
        -> (r: Result<bool, TokenError>)
        requires
            old(self).wf(),
        ensures
            final(self).wf(),
            r is Err <==> (old(self).allowance_spec(owner_id@, caller@) < amount
                || old(self).balance_spec(owner_id@) < amount),
            match r {
                Ok(b) => b && moved(*old(self), *final(self), owner_id@, to_id@, amount)
                    && final(self).total_supply == old(self).total_supply
                    && same_metadata(*old(self), *final(self)) && forall|o: Seq<char>, s: Seq<char>|
                    #![trigger final(self).allowance_spec(o, s)]
                    final(self).allowance_spec(o, s) == if o == owner_id@ && s == caller@ {
                        (old(self).allowance_spec(o, s) - amount) as u128
                    } else {
                        old(self).allowance_spec(o, s)
                    },
                Err(e) => *final(self) == *old(self) && (e == if old(self).allowance_spec(
                    owner_id@,
                    caller@,
                ) < amount {
                    TokenError::InsufficientAllowance
                } else {
                    TokenError::InsufficientBalance
                }),
            },
    {
        let allowance = self.storage.allowance(&owner_id, caller);
        if allowance < amount {
            return Err(TokenError::InsufficientAllowance);
        }
        let owner_balance = self.storage.balance(&owner_id);
        if owner_balance < amount {
            return Err(TokenError::InsufficientBalance);
        }
        proof {
            self.storage.lemma_balance_bound(owner_id@, to_id@);
        }
        self.storage.set_allowance(&owner_id, caller, allowance - amount);
        self.storage.set_balance(&owner_id, owner_balance - amount);
        let to_balance = self.storage.balance(&to_id);
        self.storage.set_balance(&to_id, to_balance + amount);
        Ok(true)
    }

    /// Creates `amount` new tokens in `account_id`'s account. Only the
    /// controller may mint.
    pub fn mint(&mut self, caller: &String, account_id: String, amount: u128) -> (r: Result<
        (),
        TokenError,
    >)
        requires
            old(self).wf(),
        ensures
            final(self).wf(),
            r is Err <==> (caller@ != old(self).controller@ || old(self).total_supply + amount
                > u128::MAX),
            match r {
                Ok(_) => changed(*old(self), *final(self), account_id@, amount as int)
                    && final(self).total_supply == old(self).total_supply + amount
                    && same_allowances(*old(self), *final(self))
                    && same_metadata(*old(self), *final(self)),
                Err(e) => *final(self) == *old(self) && (e == if caller@ != old(self).controller@ {
                    TokenError::Unauthorized
                } else {
                    TokenError::ArithmeticOverflow
                }),
            },
    {
        if *caller != self.controller {
            return Err(TokenError::Unauthorized);
        }
        if amount > u128::MAX - self.total_supply {
            return Err(TokenError::ArithmeticOverflow);
        }
        proof {
            self.storage.lemma_balance_bound(account_id@, account_id@);
        }
        let account_balance = self.storage.balance(&account_id);
        self.storage.set_balance(&account_id, account_balance + amount);
        self.total_supply = self.total_supply + amount;
        Ok(())
    }

    /// Destroys `amount` tokens of `account_id`'s account. Only the
    /// controller may burn; the account burned from need not be its own.
    pub fn burn(&mut self, caller: &String, account_id: String, amount: u128) -> (r: Result<
        bool,
        TokenError,
    >)
        requires
            old(self).wf(),
        ensures
            final(self).wf(),
            r is Err <==> (caller@ != old(self).controller@ || old(self).balance_spec(account_id@)
                < amount),
            match r {
                Ok(b) => b && changed(*old(self), *final(self), account_id@, -amount)
                    && final(self).total_supply == old(self).total_supply - amount
                    && same_allowances(*old(self), *final(self))
                    && same_metadata(*old(self), *final(self)),
                Err(e) => *final(self) == *old(self) && (e == if caller@ != old(self).controller@ {
                    TokenError::Unauthorized
                } else {
                    TokenError::InsufficientBalance
                }),
            },
    {
        if *caller != self.controller {
            return Err(TokenError::Unauthorized);
        }
        let account_balance = self.storage.balance(&account_id);
        if account_balance < amount {
            return Err(TokenError::InsufficientBalance);
        }
        proof {
            self.storage.lemma_balance_bound(account_id@, account_id@);
        }
        self.storage.set_balance(&account_id, account_balance - amount);
        self.total_supply = self.total_supply - amount;
        Ok(true)
    }

    /// The token's name.
    pub fn get_name(&self) -> (r: String)
        ensures
            r@ == self.name@,
    {
        self.name.clone()
    }

    /// The token's symbol.
    pub fn get_symbol(&self) -> (r: String)
        ensures
            r@ == self.symbol@,
    {
        self.symbol.clone()
    }

    /// The total supply: the sum of all balances.
    pub fn get_total_supply(&self) -> (r: u128)
        requires
            self.wf(),
        ensures
            r == self.total_supply,
            r == self.storage.balance_sum(),
    {
        self.total_supply
    }
}

} // verus!
