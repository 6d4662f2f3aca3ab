use vstd::prelude::*;

use crate::error::MyError;
use crate::schema::CreateUserSchema;

verus! {

/// The slice of a user record this engine owns: an account id and a
/// balance in cents. Balances never go negative; this ledger's guarded
/// transfers are the only way they move.
#[derive(Clone, Copy, Debug, PartialEq, Eq, Structural)]
pub struct Account {
    pub id: u64,
    pub account_balance: u64,
}

/// Total money held by a sequence of accounts.
pub open spec fn sum_balances(s: Seq<Account>) -> int
    decreases s.len(),
{
    if s.len() == 0 {
        0
    } else {
        sum_balances(s.drop_last()) + s.last().account_balance
    }
}

pub proof fn lemma_sum_balances_nonneg(s: Seq<Account>)
    ensures
        0 <= sum_balances(s),
    decreases s.len(),
{
    if s.len() > 0 {
        lemma_sum_balances_nonneg(s.drop_last());
    }
}

/// Replacing one account trades its old balance for the new one in the
/// total.
pub proof fn lemma_sum_balances_update(s: Seq<Account>, i: int, a: Account)
    requires
        0 <= i < s.len(),
    ensures
        sum_balances(s.update(i, a)) == sum_balances(s) - s[i].account_balance
            + a.account_balance,
    decreases s.len(),
{
    let t = s.update(i, a);
    if i == s.len() - 1 {
        assert(t.drop_last() =~= s.drop_last());
        assert(t.last() == a);
        assert(s.last() == s[i]);
    } else {
        assert(t.drop_last() =~= s.drop_last().update(i, a));
        assert(t.last() == s.last());
        assert(s.drop_last()[i] == s[i]);
        lemma_sum_balances_update(s.drop_last(), i, a);
    }
}

/// No single balance exceeds the total.
pub proof fn lemma_balance_le_sum(s: Seq<Account>, i: int)
    requires
        0 <= i < s.len(),
    ensures
        s[i].account_balance <= sum_balances(s),
    decreases s.len(),
{
    if i == s.len() - 1 {
        lemma_sum_balances_nonneg(s.drop_last());
        assert(s.last() == s[i]);
    } else {
        assert(s.drop_last()[i] == s[i]);
        lemma_balance_le_sum(s.drop_last(), i);
    }
}

/// No two distinct balances together exceed the total.
pub proof fn lemma_two_balances_le_sum(s: Seq<Account>, i: int, j: int)
    requires
        0 <= i < s.len(),
        0 <= j < s.len(),
        i != j,
    ensures
        s[i].account_balance + s[j].account_balance <= sum_balances(s),
    decreases s.len(),
{
    if j == s.len() - 1 {
        assert(s.drop_last()[i] == s[i]);
        lemma_balance_le_sum(s.drop_last(), i);
        assert(s.last() == s[j]);
    } else if i == s.len() - 1 {
        assert(s.drop_last()[j] == s[j]);
        lemma_balance_le_sum(s.drop_last(), j);
        assert(s.last() == s[i]);
    } else {
        assert(s.drop_last()[i] == s[i]);
        assert(s.drop_last()[j] == s[j]);
        lemma_two_balances_le_sum(s.drop_last(), i, j);
    }
}

/// A prefix of the accounts never holds more than all of them.
pub proof fn lemma_sum_balances_prefix_le(s: Seq<Account>, i: int)
    requires
        0 <= i <= s.len(),
    ensures
        sum_balances(s.subrange(0, i)) <= sum_balances(s),
    decreases s.len() - i,
{
    if i == s.len() {
        assert(s.subrange(0, i) =~= s);
    } else {
        assert(s.subrange(0, i + 1).drop_last() =~= s.subrange(0, i));
        assert(s.subrange(0, i + 1).last() == s[i]);
        lemma_sum_balances_prefix_le(s, i + 1);
    }
}

/// Index of the first account with `id`, searching from position `i`.
pub open spec fn find_account_from(s: Seq<Account>, id: u64, i: int) -> Option<int>
    decreases s.len() - i,
{
    if i < 0 || i >= s.len() {
        None
    } else if s[i].id == id {
        Some(i)
    } else {
        find_account_from(s, id, i + 1)
    }
}

/// Index of the account with `id`, if any.
pub open spec fn find_account(s: Seq<Account>, id: u64) -> Option<int> {
    find_account_from(s, id, 0)
}

/// What a found index means, and what `None` rules out.
pub proof fn lemma_find_account_from(s: Seq<Account>, id: u64, i: int)
    requires
        0 <= i <= s.len(),
    ensures
        match find_account_from(s, id, i) {
            Some(j) => i <= j < s.len() && s[j].id == id,
            None => forall|k: int| i <= k < s.len() ==> s[k].id != id,
        },
    decreases s.len() - i,
{
    if i < s.len() && s[i].id != id {
        lemma_find_account_from(s, id, i + 1);
    }
}

/// The balance `transfer` would move against, and the account positions
/// it would touch.
pub open spec fn spec_transfer_result(
    s: Seq<Account>,
    from_account: u64,
    to_account: u64,
    amount: u64,
) -> Result<(), MyError> {
    match (find_account(s, from_account), find_account(s, to_account)) {
        (Some(fi), Some(ti)) => if s[fi].account_balance < amount {
            Err(MyError::InsufficientBalance)
        } else {
            Ok(())
        },
        _ => Err(MyError::NotFound),
    }
}

/// Per-account monetary balances with guarded debit/credit pairs.
pub struct BalanceLedger {
    pub accounts: Vec<Account>,
}

impl BalanceLedger {
    /// Account ids are unique and the total money fits a `u64`, so a
    /// credit of money the ledger already holds can never overflow.
    pub open spec fn wf(self) -> bool {
        &&& forall|i: int, j: int|
            0 <= i < j < self.accounts@.len() ==> (#[trigger] self.accounts@[i]).id != (
            #[trigger] self.accounts@[j]).id
        &&& sum_balances(self.accounts@) <= u64::MAX
    }

    pub fn new() -> (ledger: BalanceLedger)
        ensures
            ledger.wf(),
            ledger.accounts@ =~= Seq::<Account>::empty(),
    {
        BalanceLedger { accounts: Vec::new() }
    }

    /// Adds an account holding `body.account_balance` cents. Rejected
    /// with `Conflict` when the id is taken, and with `InvalidArgument`
    /// when the new balance would push the total money over `u64::MAX`;
    /// either rejection leaves the ledger unchanged.
    pub fn create_user(&mut self, user_id: u64, body: &CreateUserSchema) -> (r: Result<
        (),
        MyError,
    >)
        requires
            old(self).wf(),
        ensures
            final(self).wf(),
            r == Ok::<(), MyError>(()) <==> find_account(old(self).accounts@, user_id) is None
                && sum_balances(old(self).accounts@) + body.account_balance <= u64::MAX,
            find_account(old(self).accounts@, user_id) is Some ==> r == Err::<(), MyError>(
                MyError::Conflict,
            ),
            (find_account(old(self).accounts@, user_id) is None && sum_balances(
                old(self).accounts@,
            ) + body.account_balance > u64::MAX) ==> r == Err::<(), MyError>(
                MyError::InvalidArgument,
            ),
            r == Ok::<(), MyError>(()) ==> final(self).accounts@ == old(self).accounts@.push(
                Account { id: user_id, account_balance: body.account_balance },
            ),
            r matches Err(_) ==> final(self).accounts@ == old(self).accounts@,
    {
        let s = &self.accounts;
        let mut i: usize = 0;
        while i < s.len()
            invariant
                0 <= i <= s@.len(),
                find_account(s@, user_id) == find_account_from(s@, user_id, i as int),
            decreases s@.len() - i,
        {
            if s[i].id == user_id {
                return Err(MyError::Conflict);
            }
            i += 1;
        }
        // Total money held so far, to guard the new balance against
        // overflowing the ledger's capacity.
        let mut total: u64 = 0;
        let mut k: usize = 0;
        while k < s.len()
            invariant
                0 <= k <= s@.len(),
                old(self) == self,
                total == sum_balances(s@.subrange(0, k as int)),
                old(self).wf(),
            decreases s@.len() - k,
        {
            proof {
                assert(s@.subrange(0, k + 1).drop_last() =~= s@.subrange(0, k as int));
                assert(s@.subrange(0, k + 1).last() == s@[k as int]);
                lemma_sum_balances_prefix_le(s@, k + 1);
            }
            total = total + s[k].account_balance;
            k += 1;
        }
        proof {
            assert(s@.subrange(0, s@.len() as int) =~= s@);
        }
        if body.account_balance > u64::MAX - total {
            return Err(MyError::InvalidArgument);
        }
        let account = Account { id: user_id, account_balance: body.account_balance };
        proof {
            let s0 = self.accounts@;
            let s1 = s0.push(account);
            assert(s1.drop_last() =~= s0);
            assert forall|a: int, b: int| 0 <= a < b < s1.len() implies (#[trigger] s1[a]).id != (
            #[trigger] s1[b]).id by {
                lemma_find_account_from(s0, user_id, 0);
                if b < s0.len() {
                    assert(s1[a] == s0[a] && s1[b] == s0[b]);
                } else {
                    assert(s1[b] == account && s1[a] == s0[a]);
                }
            }
        }
        self.accounts.push(account);
        Ok(())
    }

    /// The balance of an account, in cents; `NotFound` when it does not
    /// exist.
    pub fn get_user_balance(&self, user_id: u64) -> (r: Result<u64, MyError>)
        ensures
            r == match find_account(self.accounts@, user_id) {
                Some(i) => Ok::<u64, MyError>(self.accounts@[i].account_balance),
                None => Err::<u64, MyError>(MyError::NotFound),
            },
    {
        let s = &self.accounts;
        let mut i: usize = 0;
        while i < s.len()
            invariant
                0 <= i <= s@.len(),
                find_account(s@, user_id) == find_account_from(s@, user_id, i as int),
            decreases s@.len() - i,
        {
            if s[i].id == user_id {
                return Ok(s[i].account_balance);
            }
            i += 1;
        }
        Err(MyError::NotFound)
    }

    /// Moves `amount` cents between two accounts, or fails without any
    /// effect: `NotFound` when either account is missing, and
    /// `InsufficientBalance` when the source cannot cover the amount, in
    /// which case neither balance moves. The two updates land together,
    /// and the total money in the ledger never changes.
    pub fn transfer(&mut self, from_account: u64, to_account: u64, amount: u64) -> (r: Result<
        (),
        MyError,
    >)
        requires
            old(self).wf(),
        ensures
            final(self).wf(),
            r == spec_transfer_result(old(self).accounts@, from_account, to_account, amount),
            r matches Err(_) ==> final(self).accounts@ == old(self).accounts@,
            sum_balances(final(self).accounts@) == sum_balances(old(self).accounts@),
            r == Ok::<(), MyError>(()) ==> {
                let fi = find_account(old(self).accounts@, from_account)->Some_0;
                let ti = find_account(old(self).accounts@, to_account)->Some_0;
                if fi == ti {
                    final(self).accounts@ == old(self).accounts@
                } else {
                    &&& old(self).accounts@[ti].account_balance + amount <= u64::MAX
                    &&& final(self).accounts@ == old(self).accounts@.update(
                        fi,
                        Account {
                            id: from_account,
                            account_balance: (old(self).accounts@[fi].account_balance
                                - amount) as u64,
                        },
                    ).update(
                        ti,
                        Account {
                            id: to_account,
                            account_balance: (old(self).accounts@[ti].account_balance
                                + amount) as u64,
                        },
                    )
                }
            },
    {
        let ghost s0 = self.accounts@;
        let fi = match self.position_of(from_account) {
            Some(i) => i,
            None => {
                return Err(MyError::NotFound);
            },
        };
        let ti = match self.position_of(to_account) {
            Some(i) => i,
            None => {
                return Err(MyError::NotFound);
            },
        };
        proof {
            lemma_find_account_from(s0, from_account, 0);
            lemma_find_account_from(s0, to_account, 0);
        }
        let from_balance = self.accounts[fi].account_balance;
        if from_balance < amount {
            return Err(MyError::InsufficientBalance);
        }
        if fi == ti {
            proof {
                assert(s0.update(fi as int, s0[fi as int]) =~= s0);
            }
            return Ok(());
        }
        let to_balance = self.accounts[ti].account_balance;
        proof {
            lemma_two_balances_le_sum(s0, fi as int, ti as int);
        }
        let debited = Account { id: from_account, account_balance: from_balance - amount };
        let credited = Account { id: to_account, account_balance: to_balance + amount };
        proof {
            lemma_sum_balances_update(s0, fi as int, debited);
            lemma_sum_balances_update(s0.update(fi as int, debited), ti as int, credited);
            assert(s0.update(fi as int, debited)[ti as int] == s0[ti as int]);
            assert forall|a: int, b: int|
                0 <= a < b < s0.update(fi as int, debited).update(ti as int, credited).len()
                    implies (#[trigger] s0.update(fi as int, debited).update(
                ti as int,
                credited,
            )[a]).id != (#[trigger] s0.update(fi as int, debited).update(
                ti as int,
                credited,
            )[b]).id by {
                let s2 = s0.update(fi as int, debited).update(ti as int, credited);
                assert(s2[a].id == s0[a].id && s2[b].id == s0[b].id);
            }
        }
        self.accounts.set(fi, debited);
        self.accounts.set(ti, credited);
        Ok(())
    }

    /// Position of an account in the backing store, if present.
    fn position_of(&self, id: u64) -> (r: Option<usize>)
        ensures
            r matches Some(i) ==> find_account(self.accounts@, id) == Some(i as int),
            r is None ==> find_account(self.accounts@, id) is None,
    {
        let s = &self.accounts;
        let mut i: usize = 0;
        while i < s.len()
            invariant
                0 <= i <= s@.len(),
                find_account(s@, id) == find_account_from(s@, id, i as int),
            decreases s@.len() - i,
        {
            if s[i].id == id {
                return Some(i);
            }
            i += 1;
        }
        None
    }
}

} // verus!
