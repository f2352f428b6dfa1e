//! The ledger store: it owns accounts, categories, postings and budgets, and
//! keeps every account's balance equal to the sum of its postings' signed
//! amounts through every operation. Each write either applies completely or
//! leaves the store as it was.

use crate::dates::Date;
use crate::errors::{EntityKind, LedgerError, RefAction};
use crate::models::{
    check_name, valid_name, Account, Budget, Category, CreateAccountRequest,
    CreateTransactionRequest, Transaction, TransactionKind, TransferRequest,
    UpdateAccountRequest,
};
use crate::money::{money_in_range, Money, MONEY_MAX};
use vstd::prelude::*;
use vstd::string::StringExecFns;

verus! {

/// A sequence of identifiers in strictly increasing order; insertion order
/// is then creation order and identifiers are never reused.
pub open spec fn strictly_increasing(s: Seq<int>) -> bool {
    forall|i: int, j: int| 0 <= i < j < s.len() ==> s[i] < s[j]
}

pub open spec fn account_ids(s: Seq<Account>) -> Seq<int> {
    s.map_values(|a: Account| a.id as int)
}

pub open spec fn category_ids(s: Seq<Category>) -> Seq<int> {
    s.map_values(|c: Category| c.id as int)
}

pub open spec fn transaction_ids(s: Seq<Transaction>) -> Seq<int> {
    s.map_values(|t: Transaction| t.id as int)
}

pub open spec fn budget_ids(s: Seq<Budget>) -> Seq<int> {
    s.map_values(|b: Budget| b.id as int)
}

/// The sum of the signed amounts of the postings that reference the account:
/// what the account's balance must always equal.
pub open spec fn txn_sum(ts: Seq<Transaction>, account_id: int) -> int
    decreases ts.len(),
{
    if ts.len() == 0 {
        0
    } else {
        txn_sum(ts.drop_last(), account_id) + if ts.last().account_id == account_id {
            ts.last().amount.v()
        } else {
            0
        }
    }
}

/// The total magnitude of all postings; keeping it inside the working range
/// bounds every balance and every spent figure the store can derive.
pub open spec fn txn_abs_sum(ts: Seq<Transaction>) -> int
    decreases ts.len(),
{
    if ts.len() == 0 {
        0
    } else {
        txn_abs_sum(ts.drop_last()) + abs_of(ts.last().amount.v())
    }
}

pub open spec fn abs_of(v: int) -> int {
    if v < 0 {
        -v
    } else {
        v
    }
}

/// The account is the owner's and bears the identifier.
pub open spec fn account_matches(a: Account, owner: int, id: int) -> bool {
    a.id == id && a.user_id == owner
}

/// The category is the owner's and bears the identifier.
pub open spec fn category_matches(c: Category, owner: int, id: int) -> bool {
    c.id == id && c.user_id == owner
}

/// The budget is the owner's and bears the identifier.
pub open spec fn budget_matches(b: Budget, owner: int, id: int) -> bool {
    b.id == id && b.user_id == owner
}

/// The in-memory ledger store.
pub struct Ledger {
    pub accounts: Vec<Account>,
    pub categories: Vec<Category>,
    pub transactions: Vec<Transaction>,
    pub budgets: Vec<Budget>,
    pub next_account_id: i32,
    pub next_category_id: i32,
    pub next_transaction_id: i32,
    pub next_budget_id: i32,
    /// Cached total posting magnitude, kept equal to `txn_abs_sum` of the
    /// postings so range checks need no rescan.
    pub total_magnitude: Money,
}

impl Ledger {
    /// Everything the store promises about its own shape: identifiers are
    /// positive, unique and below their counters; names are within bounds;
    /// posting amounts are non-zero with the kind matching the sign; every
    /// category's parent exists and shares its owner; the total posting
    /// magnitude stays in range; and every account's balance equals the sum
    /// of its postings.
    pub open spec fn wf(self) -> bool {
        &&& 1 <= self.next_account_id
        &&& 1 <= self.next_category_id
        &&& 1 <= self.next_transaction_id
        &&& 1 <= self.next_budget_id
        &&& strictly_increasing(account_ids(self.accounts@))
        &&& strictly_increasing(category_ids(self.categories@))
        &&& strictly_increasing(transaction_ids(self.transactions@))
        &&& strictly_increasing(budget_ids(self.budgets@))
        &&& forall|i: int|
            0 <= i < self.accounts@.len() ==> {
                let a = #[trigger] self.accounts@[i];
                1 <= a.id < self.next_account_id && valid_name(a.name@) && a.balance.wf()
                    && a.balance.v() == txn_sum(self.transactions@, a.id as int)
            }
        &&& forall|i: int|
            0 <= i < self.categories@.len() ==> {
                let c = #[trigger] self.categories@[i];
                1 <= c.id < self.next_category_id && valid_name(c.name@) && match c.parent_id {
                    Some(p) => exists|j: int|
                        0 <= j < self.categories@.len() && (#[trigger] self.categories@[j]).id == p
                            && self.categories@[j].user_id == c.user_id,
                    None => true,
                }
            }
        &&& forall|i: int|
            0 <= i < self.transactions@.len() ==> {
                let t = #[trigger] self.transactions@[i];
                1 <= t.id < self.next_transaction_id && 1 <= t.account_id
                    < self.next_account_id && t.amount.wf() && t.amount.v() != 0 && t.date.wf()
                    && (t.kind is Income ==> t.amount.v() > 0) && (t.kind is Expense
                    ==> t.amount.v() < 0)
            }
        &&& forall|i: int|
            0 <= i < self.budgets@.len() ==> {
                let b = #[trigger] self.budgets@[i];
                1 <= b.id < self.next_budget_id && b.amount.wf() && b.amount.v() > 0
                    && b.start_date.wf()
            }
        &&& self.total_magnitude.v() == txn_abs_sum(self.transactions@)
        &&& 0 <= self.total_magnitude.v() <= MONEY_MAX as int
    }

    /// An empty store: no entities, every identifier counter at one.
    pub fn new() -> (r: Ledger)
        ensures
            r.wf(),
            r.accounts@.len() == 0,
            r.categories@.len() == 0,
            r.transactions@.len() == 0,
            r.budgets@.len() == 0,
            r.next_account_id == 1,
            r.next_category_id == 1,
            r.next_transaction_id == 1,
            r.next_budget_id == 1,
            r.total_magnitude.v() == 0,
    {
        Ledger {
            accounts: Vec::new(),
            categories: Vec::new(),
            transactions: Vec::new(),
            budgets: Vec::new(),
            next_account_id: 1,
            next_category_id: 1,
            next_transaction_id: 1,
            next_budget_id: 1,
            total_magnitude: Money::zero(),
        }
    }

    /// The caller owns an account with this identifier.
    pub open spec fn owned_account(self, owner: int, id: int) -> bool {
        exists|i: int|
            0 <= i < self.accounts@.len() && #[trigger] account_matches(
                self.accounts@[i],
                owner,
                id,
            )
    }

    /// The index of the caller's account with this identifier.
    pub open spec fn account_index(self, owner: int, id: int) -> int {
        choose|i: int|
            0 <= i < self.accounts@.len() && #[trigger] account_matches(
                self.accounts@[i],
                owner,
                id,
            )
    }

    pub open spec fn owned_category(self, owner: int, id: int) -> bool {
        exists|i: int|
            0 <= i < self.categories@.len() && #[trigger] category_matches(
                self.categories@[i],
                owner,
                id,
            )
    }

    pub open spec fn category_index(self, owner: int, id: int) -> int {
        choose|i: int|
            0 <= i < self.categories@.len() && #[trigger] category_matches(
                self.categories@[i],
                owner,
                id,
            )
    }

    pub open spec fn owned_budget(self, owner: int, id: int) -> bool {
        exists|i: int|
            0 <= i < self.budgets@.len() && #[trigger] budget_matches(self.budgets@[i], owner, id)
    }

    pub open spec fn budget_index(self, owner: int, id: int) -> int {
        choose|i: int|
            0 <= i < self.budgets@.len() && #[trigger] budget_matches(self.budgets@[i], owner, id)
    }

    /// Nothing observable changed between the two states.
    pub open spec fn unchanged(self, other: Ledger) -> bool {
        &&& self.accounts@ == other.accounts@
        &&& self.categories@ == other.categories@
        &&& self.transactions@ == other.transactions@
        &&& self.budgets@ == other.budgets@
        &&& self.next_account_id == other.next_account_id
        &&& self.next_category_id == other.next_category_id
        &&& self.next_transaction_id == other.next_transaction_id
        &&& self.next_budget_id == other.next_budget_id
        &&& self.total_magnitude == other.total_magnitude
    }

    /// Finds the index of the caller's account with the identifier.
    pub(crate) fn find_account(&self, owner: i32, id: i32) -> (r: Option<usize>)
        requires
            self.wf(),
        ensures
            match r {
                Some(i) => self.owned_account(owner as int, id as int) && i
                    == self.account_index(owner as int, id as int) && i < self.accounts@.len()
                    && self.accounts@[i as int].id == id && self.accounts@[i as int].user_id
                    == owner,
                None => !self.owned_account(owner as int, id as int),
            },
    {
        let n = self.accounts.len();
        let mut i: usize = 0;
        while i < n
            invariant
                0 <= i <= n,
                n == self.accounts@.len(),
                self.wf(),
                forall|j: int|
                    0 <= j < i ==> !(#[trigger] account_matches(
                        self.accounts@[j],
                        owner as int,
                        id as int,
                    )),
            decreases n - i,
        {
            let a = &self.accounts[i];
            if a.id == id && a.user_id == owner {
                proof {
                    assert(account_matches(self.accounts@[i as int], owner as int, id as int));
                    let w = self.account_index(owner as int, id as int);
                    assert(self.accounts@[w].id == id);
                    if w != i {
                        assert(account_ids(self.accounts@)[w] == id as int);
                        assert(account_ids(self.accounts@)[i as int] == id as int);
                        assert(false);
                    }
                }
                return Some(i);
            }
            i = i + 1;
        }
        None
    }

    /// Finds the index of the caller's category with the identifier.
    pub(crate) fn find_category(&self, owner: i32, id: i32) -> (r: Option<usize>)
        requires
            self.wf(),
        ensures
            match r {
                Some(i) => self.owned_category(owner as int, id as int) && i
                    == self.category_index(owner as int, id as int) && i < self.categories@.len()
                    && self.categories@[i as int].id == id && self.categories@[i as int].user_id
                    == owner,
                None => !self.owned_category(owner as int, id as int),
            },
    {
        let n = self.categories.len();
        let mut i: usize = 0;
        while i < n
            invariant
                0 <= i <= n,
                n == self.categories@.len(),
                self.wf(),
                forall|j: int|
                    0 <= j < i ==> !(#[trigger] category_matches(
                        self.categories@[j],
                        owner as int,
                        id as int,
                    )),
            decreases n - i,
        {
            let c = &self.categories[i];
            if c.id == id && c.user_id == owner {
                proof {
                    assert(category_matches(self.categories@[i as int], owner as int, id as int));
                    let w = self.category_index(owner as int, id as int);
                    assert(self.categories@[w].id == id);
                    if w != i {
                        assert(category_ids(self.categories@)[w] == id as int);
                        assert(category_ids(self.categories@)[i as int] == id as int);
                        assert(false);
                    }
                }
                return Some(i);
            }
            i = i + 1;
        }
        None
    }

    /// Finds the index of the caller's budget with the identifier.
    pub(crate) fn find_budget(&self, owner: i32, id: i32) -> (r: Option<usize>)
        requires
            self.wf(),
        ensures
            match r {
                Some(i) => self.owned_budget(owner as int, id as int) && i == self.budget_index(
                    owner as int,
                    id as int,
                ) && i < self.budgets@.len() && self.budgets@[i as int].id == id
                    && self.budgets@[i as int].user_id == owner,
                None => !self.owned_budget(owner as int, id as int),
            },
    {
        let n = self.budgets.len();
        let mut i: usize = 0;
        while i < n
            invariant
                0 <= i <= n,
                n == self.budgets@.len(),
                self.wf(),
                forall|j: int|
                    0 <= j < i ==> !(#[trigger] budget_matches(
                        self.budgets@[j],
                        owner as int,
                        id as int,
                    )),
            decreases n - i,
        {
            let b = &self.budgets[i];
            if b.id == id && b.user_id == owner {
                proof {
                    assert(budget_matches(self.budgets@[i as int], owner as int, id as int));
                    let w = self.budget_index(owner as int, id as int);
                    assert(self.budgets@[w].id == id);
                    if w != i {
                        assert(budget_ids(self.budgets@)[w] == id as int);
                        assert(budget_ids(self.budgets@)[i as int] == id as int);
                        assert(false);
                    }
                }
                return Some(i);
            }
            i = i + 1;
        }
        None
    }
}

/// The two states differ at most in the accounts and their counter.
pub open spec fn same_but_accounts(a: Ledger, b: Ledger) -> bool {
    &&& a.categories@ == b.categories@
    &&& a.transactions@ == b.transactions@
    &&& a.budgets@ == b.budgets@
    &&& a.next_category_id == b.next_category_id
    &&& a.next_transaction_id == b.next_transaction_id
    &&& a.next_budget_id == b.next_budget_id
    &&& a.total_magnitude == b.total_magnitude
}

/// The owner's accounts, newest first, as the listing returns them.
pub open spec fn owned_accounts_rev(s: Seq<Account>, owner: int) -> Seq<Account>
    decreases s.len(),
{
    if s.len() == 0 {
        Seq::<Account>::empty()
    } else {
        owned_accounts_rev(s.subrange(1, s.len() as int), owner) + if s[0].user_id == owner {
            seq![s[0]]
        } else {
            Seq::<Account>::empty()
        }
    }
}

impl Ledger {
    /// Creates an account with the given name, the given currency or the
    /// `"USD"` default, and a zero starting balance.
    pub fn create_account(&mut self, owner: i32, req: &CreateAccountRequest) -> (r: Result<
        Account,
        LedgerError,
    >)
        requires
            old(self).wf(),
        ensures
            final(self).wf(),
            !valid_name(req.name@) ==> r == Err::<Account, LedgerError>(
                LedgerError::BadName(EntityKind::Account),
            ) && final(self).unchanged(*old(self)),
            valid_name(req.name@) && old(self).next_account_id == i32::MAX ==> r == Err::<
                Account,
                LedgerError,
            >(LedgerError::OutOfRange) && final(self).unchanged(*old(self)),
            valid_name(req.name@) && old(self).next_account_id < i32::MAX ==> match r {
                Ok(a) => {
                    &&& a.id == old(self).next_account_id
                    &&& a.user_id == owner
                    &&& a.name == req.name
                    &&& a.name@ == req.name@
                    &&& a.currency@ == match req.currency {
                        Some(c) => c@,
                        None => "USD"@,
                    }
                    &&& a.balance.v() == 0
                    &&& final(self).accounts@ == old(self).accounts@.push(a)
                    &&& final(self).next_account_id == old(self).next_account_id + 1
                    &&& same_but_accounts(*old(self), *final(self))
                },
                Err(_) => false,
            },
    {
        if !check_name(&req.name) {
            return Err(LedgerError::BadName(EntityKind::Account));
        }
        if self.next_account_id == i32::MAX {
            return Err(LedgerError::OutOfRange);
        }
        let currency = match &req.currency {
            Some(c) => c.clone(),
            None => String::from_str("USD"),
        };
        let id = self.next_account_id;
        let zero = Money::zero();
        let stored = Account {
            id,
            user_id: owner,
            name: req.name.clone(),
            currency: currency.clone(),
            balance: zero,
        };
        let ghost ga = stored;
        let returned = Account {
            id,
            user_id: owner,
            name: req.name.clone(),
            currency,
            balance: zero,
        };
        self.accounts.push(stored);
        self.next_account_id = id + 1;
        proof {
            lemma_push_account_wf(*old(self), *self, ga);
        }
        Ok(returned)
    }

    /// Renames the caller's account.
    pub fn update_account(&mut self, owner: i32, account_id: i32, req: &UpdateAccountRequest) -> (r:
        Result<Account, LedgerError>)
        requires
            old(self).wf(),
        ensures
            final(self).wf(),
            !valid_name(req.name@) ==> r == Err::<Account, LedgerError>(
                LedgerError::BadName(EntityKind::Account),
            ) && final(self).unchanged(*old(self)),
            valid_name(req.name@) && !old(self).owned_account(owner as int, account_id as int)
                ==> r == Err::<Account, LedgerError>(
                LedgerError::NotFound(EntityKind::Account, RefAction::Update),
            ) && final(self).unchanged(*old(self)),
            valid_name(req.name@) && old(self).owned_account(owner as int, account_id as int)
                ==> match r {
                Ok(a) => {
                    let i = old(self).account_index(owner as int, account_id as int);
                    let prev = old(self).accounts@[i];
                    &&& a.id == account_id
                    &&& a.user_id == owner
                    &&& a.name == req.name
                    &&& a.currency == prev.currency
                    &&& a.balance == prev.balance
                    &&& final(self).accounts@ == old(self).accounts@.update(
                        i,
                        final(self).accounts@[i],
                    )
                    &&& final(self).accounts@[i].id == prev.id
                    &&& final(self).accounts@[i].user_id == prev.user_id
                    &&& final(self).accounts@[i].name == req.name
                    &&& final(self).accounts@[i].currency == prev.currency
                    &&& final(self).accounts@[i].balance == prev.balance
                    &&& final(self).next_account_id == old(self).next_account_id
                    &&& same_but_accounts(*old(self), *final(self))
                },
                Err(_) => false,
            },
    {
        if !check_name(&req.name) {
            return Err(LedgerError::BadName(EntityKind::Account));
        }
        let found = self.find_account(owner, account_id);
        match found {
            None => Err(LedgerError::NotFound(EntityKind::Account, RefAction::Update)),
            Some(i) => {
                let prev = &self.accounts[i];
                let updated = Account {
                    id: prev.id,
                    user_id: prev.user_id,
                    name: req.name.clone(),
                    currency: prev.currency.clone(),
                    balance: prev.balance,
                };
                let returned = Account {
                    id: prev.id,
                    user_id: prev.user_id,
                    name: req.name.clone(),
                    currency: prev.currency.clone(),
                    balance: prev.balance,
                };
                self.accounts.set(i, updated);
                proof {
                    let pre = *old(self);
                    let post = *self;
                    assert(account_ids(post.accounts@) =~= account_ids(pre.accounts@));
                    assert(post.accounts@ =~= pre.accounts@.update(
                        i as int,
                        post.accounts@[i as int],
                    ));
                    assert(post.wf());
                }
                Ok(returned)
            },
        }
    }

    /// Deletes the caller's account. Postings that reference it are kept:
    /// the history outlives the bucket it moved through.
    pub fn delete_account(&mut self, owner: i32, account_id: i32) -> (r: Result<(), LedgerError>)
        requires
            old(self).wf(),
        ensures
            final(self).wf(),
            !old(self).owned_account(owner as int, account_id as int) ==> r == Err::<
                (),
                LedgerError,
            >(LedgerError::NotFound(EntityKind::Account, RefAction::Delete))
                && final(self).unchanged(*old(self)),
            old(self).owned_account(owner as int, account_id as int) ==> {
                &&& r is Ok
                &&& final(self).accounts@ == old(self).accounts@.remove(
                    old(self).account_index(owner as int, account_id as int),
                )
                &&& final(self).next_account_id == old(self).next_account_id
                &&& same_but_accounts(*old(self), *final(self))
            },
    {
        let found = self.find_account(owner, account_id);
        match found {
            None => Err(LedgerError::NotFound(EntityKind::Account, RefAction::Delete)),
            Some(i) => {
                self.accounts.remove(i);
                proof {
                    let pre = *old(self);
                    let post = *self;
                    assert(post.accounts@ =~= pre.accounts@.remove(i as int));
                    assert forall|x: int, y: int|
                        0 <= x < y < post.accounts@.len() implies account_ids(post.accounts@)[x]
                        < account_ids(post.accounts@)[y] by {
                        let px: int = if x < i as int {
                            x
                        } else {
                            x + 1
                        };
                        let py: int = if y < i as int {
                            y
                        } else {
                            y + 1
                        };
                        assert(post.accounts@[x] == pre.accounts@[px]);
                        assert(post.accounts@[y] == pre.accounts@[py]);
                        assert(account_ids(pre.accounts@)[px] < account_ids(pre.accounts@)[py]);
                    }
                    assert(post.wf());
                }
                Ok(())
            },
        }
    }

    /// The caller's accounts, newest first.
    pub fn get_accounts(&self, owner: i32) -> (r: Vec<Account>)
        requires
            self.wf(),
        ensures
            r@ == owned_accounts_rev(self.accounts@, owner as int),
    {
        let n = self.accounts.len();
        let mut out: Vec<Account> = Vec::new();
        let mut k: usize = n;
        proof {
            assert(self.accounts@.subrange(n as int, n as int) =~= Seq::<Account>::empty());
        }
        while k > 0
            invariant
                0 <= k <= n,
                n == self.accounts@.len(),
                self.wf(),
                out@ == owned_accounts_rev(
                    self.accounts@.subrange(k as int, n as int),
                    owner as int,
                ),
            decreases k,
        {
            k = k - 1;
            let a = &self.accounts[k];
            let ghost seg = self.accounts@.subrange(k as int, n as int);
            proof {
                assert(seg.subrange(1, seg.len() as int) =~= self.accounts@.subrange(
                    k + 1,
                    n as int,
                ));
                assert(seg[0] == self.accounts@[k as int]);
            }
            if a.user_id == owner {
                let item = Account {
                    id: a.id,
                    user_id: a.user_id,
                    name: a.name.clone(),
                    currency: a.currency.clone(),
                    balance: a.balance,
                };
                out.push(item);
                proof {
                    assert(out@ =~= owned_accounts_rev(seg, owner as int));
                }
            } else {
                proof {
                    assert(out@ =~= owned_accounts_rev(seg, owner as int));
                }
            }
        }
        proof {
            assert(self.accounts@.subrange(0, n as int) =~= self.accounts@);
        }
        out
    }
}

/// The two states differ at most in the categories and their counter.
pub open spec fn same_but_categories(a: Ledger, b: Ledger) -> bool {
    &&& a.accounts@ == b.accounts@
    &&& a.transactions@ == b.transactions@
    &&& a.budgets@ == b.budgets@
    &&& a.next_account_id == b.next_account_id
    &&& a.next_transaction_id == b.next_transaction_id
    &&& a.next_budget_id == b.next_budget_id
    &&& a.total_magnitude == b.total_magnitude
}

/// The owner's categories, newest first, as the listing returns them.
pub open spec fn owned_categories_rev(s: Seq<Category>, owner: int) -> Seq<Category>
    decreases s.len(),
{
    if s.len() == 0 {
        Seq::<Category>::empty()
    } else {
        owned_categories_rev(s.subrange(1, s.len() as int), owner) + if s[0].user_id == owner {
            seq![s[0]]
        } else {
            Seq::<Category>::empty()
        }
    }
}

/// The category the name resolver reuses: the earliest-created category of
/// the owner bearing exactly this name.
pub open spec fn first_matching_category(s: Seq<Category>, owner: int, name: Seq<char>) -> Option<
    Category,
>
    decreases s.len(),
{
    if s.len() == 0 {
        None
    } else if s[0].user_id == owner && s[0].name@ == name {
        Some(s[0])
    } else {
        first_matching_category(s.subrange(1, s.len() as int), owner, name)
    }
}

/// Some category of any owner names this one as its parent.
pub open spec fn has_child_categories(s: Seq<Category>, id: int) -> bool {
    exists|i: int| 0 <= i < s.len() && (#[trigger] s[i]).parent_id == Some(id as i32)
}

/// A fresh category whose parent, if named, is the owner's keeps the store
/// well formed.
proof fn lemma_push_category_wf(pre: Ledger, post: Ledger, c: Category)
    requires
        pre.wf(),
        valid_name(c.name@),
        c.id == pre.next_category_id,
        pre.next_category_id < i32::MAX,
        match c.parent_id {
            Some(p) => pre.owned_category(c.user_id as int, p as int),
            None => true,
        },
        post.categories@ == pre.categories@.push(c),
        post.next_category_id == pre.next_category_id + 1,
        same_but_categories(pre, post),
    ensures
        post.wf(),
{
    let cid = category_ids(post.categories@);
    let n = pre.categories@.len() as int;
    assert(cid =~= category_ids(pre.categories@).push(c.id as int));
    assert forall|x: int, y: int| 0 <= x < y < cid.len() implies cid[x] < cid[y] by {
        if y < n {
            assert(category_ids(pre.categories@)[x] < category_ids(pre.categories@)[y]);
        } else {
            assert(cid[x] == pre.categories@[x].id as int);
            assert(pre.categories@[x].id < pre.next_category_id);
        }
    }
    assert forall|i: int|
        0 <= i < post.categories@.len() implies {
        let x = #[trigger] post.categories@[i];
        1 <= x.id < post.next_category_id && valid_name(x.name@) && match x.parent_id {
            Some(p) => exists|j: int|
                0 <= j < post.categories@.len() && (#[trigger] post.categories@[j]).id == p
                    && post.categories@[j].user_id == x.user_id,
            None => true,
        }
    } by {
        if i < n {
            assert(post.categories@[i] == pre.categories@[i]);
            match pre.categories@[i].parent_id {
                Some(p) => {
                    let j = choose|j: int|
                        0 <= j < pre.categories@.len() && (#[trigger] pre.categories@[j]).id == p
                            && pre.categories@[j].user_id == pre.categories@[i].user_id;
                    assert(post.categories@[j].id == p);
                },
                None => {},
            }
        } else {
            assert(post.categories@[i] == c);
            match c.parent_id {
                Some(p) => {
                    let j = pre.category_index(c.user_id as int, p as int);
                    assert(post.categories@[j].id == p);
                },
                None => {},
            }
        }
    }
}

impl Ledger {
    /// Creates a category for the caller, optionally under one of the
    /// caller's existing categories.
    pub fn create_category(&mut self, owner: i32, req: &crate::models::CreateCategoryRequest) -> (r:
        Result<Category, LedgerError>)
        requires
            old(self).wf(),
        ensures
            final(self).wf(),
            !valid_name(req.name@) ==> r == Err::<Category, LedgerError>(
                LedgerError::BadName(EntityKind::Category),
            ) && final(self).unchanged(*old(self)),
            valid_name(req.name@) && (match req.parent_id {
                Some(p) => !old(self).owned_category(owner as int, p as int),
                None => false,
            }) ==> r == Err::<Category, LedgerError>(
                LedgerError::NotFound(EntityKind::ParentCategory, RefAction::Use),
            ) && final(self).unchanged(*old(self)),
            valid_name(req.name@) && (match req.parent_id {
                Some(p) => old(self).owned_category(owner as int, p as int),
                None => true,
            }) && old(self).next_category_id == i32::MAX ==> r == Err::<Category, LedgerError>(
                LedgerError::OutOfRange,
            ) && final(self).unchanged(*old(self)),
            valid_name(req.name@) && (match req.parent_id {
                Some(p) => old(self).owned_category(owner as int, p as int),
                None => true,
            }) && old(self).next_category_id < i32::MAX ==> match r {
                Ok(c) => {
                    &&& c.id == old(self).next_category_id
                    &&& c.user_id == owner
                    &&& c.name == req.name
                    &&& c.parent_id == req.parent_id
                    &&& final(self).categories@ == old(self).categories@.push(c)
                    &&& final(self).next_category_id == old(self).next_category_id + 1
                    &&& same_but_categories(*old(self), *final(self))
                },
                Err(_) => false,
            },
    {
        if !check_name(&req.name) {
            return Err(LedgerError::BadName(EntityKind::Category));
        }
        if let Some(p) = req.parent_id {
            if self.find_category(owner, p).is_none() {
                return Err(LedgerError::NotFound(EntityKind::ParentCategory, RefAction::Use));
            }
        }
        if self.next_category_id == i32::MAX {
            return Err(LedgerError::OutOfRange);
        }
        let id = self.next_category_id;
        let stored = Category {
            id,
            user_id: owner,
            name: req.name.clone(),
            parent_id: req.parent_id,
        };
        let ghost gc = stored;
        let returned = Category {
            id,
            user_id: owner,
            name: req.name.clone(),
            parent_id: req.parent_id,
        };
        self.categories.push(stored);
        self.next_category_id = id + 1;
        proof {
            lemma_push_category_wf(*old(self), *self, gc);
        }
        Ok(returned)
    }

    /// The caller's categories, newest first.
    pub fn get_categories(&self, owner: i32) -> (r: Vec<Category>)
        requires
            self.wf(),
        ensures
            r@ == owned_categories_rev(self.categories@, owner as int),
    {
        let n = self.categories.len();
        let mut out: Vec<Category> = Vec::new();
        let mut k: usize = n;
        proof {
            assert(self.categories@.subrange(n as int, n as int) =~= Seq::<Category>::empty());
        }
        while k > 0
            invariant
                0 <= k <= n,
                n == self.categories@.len(),
                self.wf(),
                out@ == owned_categories_rev(
                    self.categories@.subrange(k as int, n as int),
                    owner as int,
                ),
            decreases k,
        {
            k = k - 1;
            let c = &self.categories[k];
            let ghost seg = self.categories@.subrange(k as int, n as int);
            proof {
                assert(seg.subrange(1, seg.len() as int) =~= self.categories@.subrange(
                    k + 1,
                    n as int,
                ));
                assert(seg[0] == self.categories@[k as int]);
            }
            if c.user_id == owner {
                let item = Category {
                    id: c.id,
                    user_id: c.user_id,
                    name: c.name.clone(),
                    parent_id: c.parent_id,
                };
                out.push(item);
                proof {
                    assert(out@ =~= owned_categories_rev(seg, owner as int));
                }
            } else {
                proof {
                    assert(out@ =~= owned_categories_rev(seg, owner as int));
                }
            }
        }
        proof {
            assert(self.categories@.subrange(0, n as int) =~= self.categories@);
        }
        out
    }

    /// Deletes the caller's category; a category that still has children is
    /// kept, whoever asks.
    pub fn delete_category(&mut self, owner: i32, category_id: i32) -> (r: Result<
        (),
        LedgerError,
    >)
        requires
            old(self).wf(),
        ensures
            final(self).wf(),
            has_child_categories(old(self).categories@, category_id as int) ==> r == Err::<
                (),
                LedgerError,
            >(LedgerError::HasChildren) && final(self).unchanged(*old(self)),
            !has_child_categories(old(self).categories@, category_id as int) && !old(self).owned_category(owner as int, category_id as int) ==> r == Err::<(), LedgerError>(
                LedgerError::NotFound(EntityKind::Category, RefAction::Delete),
            ) && final(self).unchanged(*old(self)),
            !has_child_categories(old(self).categories@, category_id as int) && old(self).owned_category(owner as int, category_id as int) ==> {
                &&& r is Ok
                &&& final(self).categories@ == old(self).categories@.remove(
                    old(self).category_index(owner as int, category_id as int),
                )
                &&& final(self).next_category_id == old(self).next_category_id
                &&& same_but_categories(*old(self), *final(self))
            },
    {
        let n = self.categories.len();
        let mut i: usize = 0;
        while i < n
            invariant
                0 <= i <= n,
                n == self.categories@.len(),
                *self == *old(self),
                self.wf(),
                forall|j: int|
                    0 <= j < i ==> (#[trigger] self.categories@[j]).parent_id != Some(category_id),
            decreases n - i,
        {
            let c = &self.categories[i];
            match c.parent_id {
                Some(p) => {
                    if p == category_id {
                        return Err(LedgerError::HasChildren);
                    }
                },
                None => {},
            }
            i = i + 1;
        }
        let found = self.find_category(owner, category_id);
        match found {
            None => Err(LedgerError::NotFound(EntityKind::Category, RefAction::Delete)),
            Some(i) => {
                self.categories.remove(i);
                proof {
                    let pre = *old(self);
                    let post = *self;
                    assert(post.categories@ =~= pre.categories@.remove(i as int));
                    lemma_remove_category_wf(pre, post, i as int);
                }
                Ok(())
            },
        }
    }
}

/// Removing a childless category keeps the store well formed.
proof fn lemma_remove_category_wf(pre: Ledger, post: Ledger, i: int)
    requires
        pre.wf(),
        0 <= i < pre.categories@.len(),
        !has_child_categories(pre.categories@, pre.categories@[i].id as int),
        post.categories@ == pre.categories@.remove(i),
        post.next_category_id == pre.next_category_id,
        same_but_categories(pre, post),
    ensures
        post.wf(),
{
    let s = pre.categories@;
    let t = post.categories@;
    assert forall|x: int, y: int|
        0 <= x < y < t.len() implies category_ids(t)[x] < category_ids(t)[y] by {
        let px: int = if x < i {
            x
        } else {
            x + 1
        };
        let py: int = if y < i {
            y
        } else {
            y + 1
        };
        assert(t[x] == s[px]);
        assert(t[y] == s[py]);
        assert(category_ids(s)[px] < category_ids(s)[py]);
    }
    assert forall|k: int|
        0 <= k < t.len() implies {
        let x = #[trigger] t[k];
        1 <= x.id < post.next_category_id && valid_name(x.name@) && match x.parent_id {
            Some(p) => exists|j: int|
                0 <= j < t.len() && (#[trigger] t[j]).id == p && t[j].user_id == x.user_id,
            None => true,
        }
    } by {
        let pk: int = if k < i {
            k
        } else {
            k + 1
        };
        assert(t[k] == s[pk]);
        match s[pk].parent_id {
            Some(p) => {
                let j = choose|j: int|
                    0 <= j < s.len() && (#[trigger] s[j]).id == p && s[j].user_id
                        == s[pk].user_id;
                // the removed category has no children, so the parent is
                // somewhere else in the sequence
                assert(s[pk].parent_id == Some(s[i].id) ==> false);
                assert(j != i);
                let j2: int = if j < i {
                    j
                } else {
                    j - 1
                };
                assert(t[j2] == s[j]);
                assert(t[j2].id == p && t[j2].user_id == t[k].user_id);
            },
            None => {},
        }
    }
}

/// A fresh account with a zero balance keeps the store well formed.
proof fn lemma_push_account_wf(pre: Ledger, post: Ledger, a: Account)
    requires
        pre.wf(),
        valid_name(a.name@),
        a.balance.v() == 0,
        a.balance.wf(),
        a.id == pre.next_account_id,
        pre.next_account_id < i32::MAX,
        post.accounts@ == pre.accounts@.push(a),
        post.next_account_id == pre.next_account_id + 1,
        same_but_accounts(pre, post),
    ensures
        post.wf(),
{
    let aid = account_ids(post.accounts@);
    let n = pre.accounts@.len() as int;
    assert(aid =~= account_ids(pre.accounts@).push(a.id as int));
    assert forall|x: int, y: int| 0 <= x < y < aid.len() implies aid[x] < aid[y] by {
        if y < n {
            assert(account_ids(pre.accounts@)[x] < account_ids(pre.accounts@)[y]);
        } else {
            assert(aid[x] == pre.accounts@[x].id as int);
            assert(pre.accounts@[x].id < pre.next_account_id);
        }
    }
    assert forall|i: int| 0 <= i < post.transactions@.len() implies (
    #[trigger] post.transactions@[i]).account_id != a.id by {
        assert(pre.transactions@[i].account_id < pre.next_account_id);
    }
    lemma_txn_sum_absent(post.transactions@, a.id as int);
    assert forall|i: int|
        0 <= i < post.accounts@.len() implies {
        let x = #[trigger] post.accounts@[i];
        1 <= x.id < post.next_account_id && valid_name(x.name@) && x.balance.wf()
            && x.balance.v() == txn_sum(post.transactions@, x.id as int)
    } by {
        if i < n {
            assert(post.accounts@[i] == pre.accounts@[i]);
        } else {
            assert(post.accounts@[i] == a);
        }
    }
}

/// Appending a posting moves only the sum of its own account, by its amount.
pub proof fn lemma_txn_sum_push(ts: Seq<Transaction>, t: Transaction, id: int)
    ensures
        txn_sum(ts.push(t), id) == txn_sum(ts, id) + if t.account_id == id {
            t.amount.v()
        } else {
            0
        },
{
    assert(ts.push(t).drop_last() =~= ts);
}

pub proof fn lemma_txn_abs_sum_push(ts: Seq<Transaction>, t: Transaction)
    ensures
        txn_abs_sum(ts.push(t)) == txn_abs_sum(ts) + abs_of(t.amount.v()),
{
    assert(ts.push(t).drop_last() =~= ts);
}

/// A sum over postings that never reference the account is zero.
pub proof fn lemma_txn_sum_absent(ts: Seq<Transaction>, id: int)
    requires
        forall|i: int| 0 <= i < ts.len() ==> (#[trigger] ts[i]).account_id != id,
    ensures
        txn_sum(ts, id) == 0,
    decreases ts.len(),
{
    if ts.len() > 0 {
        lemma_txn_sum_absent(ts.drop_last(), id);
    }
}

/// No account's sum can outgrow the total posting magnitude.
pub proof fn lemma_txn_sum_bounded(ts: Seq<Transaction>, id: int)
    ensures
        abs_of(txn_sum(ts, id)) <= txn_abs_sum(ts),
    decreases ts.len(),
{
    if ts.len() > 0 {
        lemma_txn_sum_bounded(ts.drop_last(), id);
    }
}

/// The scaled amount a posting request carries, once its text is accepted.
pub open spec fn req_amount(req: CreateTransactionRequest) -> int {
    crate::money::money_of_text(crate::text::trimmed(req.amount@)).unwrap()
}

/// The first failure the account reference produces, if any.
#[verifier::opaque]
pub open spec fn account_ref_error(l: Ledger, owner: int, req: CreateTransactionRequest) -> Option<
    LedgerError,
> {
    match (req.account_id, req.account_name) {
        (Some(id), Option::<String>::None) => if l.owned_account(owner, id as int) {
            None
        } else {
            Some(LedgerError::NotFound(EntityKind::Account, RefAction::Use))
        },
        (Option::<i32>::None, Some(nm)) => if !valid_name(nm@) {
            Some(LedgerError::BadName(EntityKind::Account))
        } else if l.next_account_id == i32::MAX {
            Some(LedgerError::OutOfRange)
        } else {
            None
        },
        _ => Some(LedgerError::MissingRef(EntityKind::Account)),
    }
}

/// The first failure the amount text produces, if any.
#[verifier::opaque]
pub open spec fn amount_error(req: CreateTransactionRequest) -> Option<LedgerError> {
    match crate::money::money_of_text(crate::text::trimmed(req.amount@)) {
        Option::<int>::None => Some(LedgerError::BadAmount),
        Some(v) => if v == 0 {
            Some(LedgerError::ZeroAmount)
        } else {
            None
        },
    }
}

/// The failure the date text produces, if any.
#[verifier::opaque]
pub open spec fn date_error(req: CreateTransactionRequest) -> Option<LedgerError> {
    match req.date {
        Some(d) => if crate::dates::valid_date_text(d@) {
            None
        } else {
            Some(LedgerError::BadDate)
        },
        Option::<String>::None => None,
    }
}

/// The date the posting carries: the given one, or the current date.
pub open spec fn req_date(req: CreateTransactionRequest, today: Date) -> Date {
    match req.date {
        Some(d) => crate::dates::date_of_text(d@),
        Option::<String>::None => today,
    }
}

/// The first failure the category reference produces, if any.
#[verifier::opaque]
pub open spec fn category_ref_error(l: Ledger, owner: int, req: CreateTransactionRequest) -> Option<
    LedgerError,
> {
    match (req.category_id, req.category_name) {
        (Some(_), Some(_)) => Some(LedgerError::AmbiguousRef(EntityKind::Category)),
        (Some(id), Option::<String>::None) => if l.owned_category(owner, id as int) {
            None
        } else {
            Some(LedgerError::NotFound(EntityKind::Category, RefAction::Use))
        },
        (Option::<i32>::None, Some(nm)) => if !valid_name(nm@) {
            Some(LedgerError::BadName(EntityKind::Category))
        } else if first_matching_category(l.categories@, owner, nm@) is Some {
            None
        } else if l.next_category_id == i32::MAX {
            Some(LedgerError::OutOfRange)
        } else {
            None
        },
        (Option::<i32>::None, Option::<String>::None) => None,
    }
}

/// The failure of the write itself: no identifier left, or the posting would
/// push the total magnitude out of range.
#[verifier::opaque]
pub open spec fn record_write_error(l: Ledger, req: CreateTransactionRequest) -> Option<
    LedgerError,
> {
    if l.next_transaction_id == i32::MAX {
        Some(LedgerError::OutOfRange)
    } else if txn_abs_sum(l.transactions@) + abs_of(req_amount(req)) > MONEY_MAX as int {
        Some(LedgerError::OutOfRange)
    } else {
        None
    }
}

/// The first failure the resolution and parsing phases meet, in the order
/// the checks run.
#[verifier::opaque]
pub open spec fn prepare_error(l: Ledger, owner: int, req: CreateTransactionRequest) -> Option<
    LedgerError,
> {
    if account_ref_error(l, owner, req) is Some {
        account_ref_error(l, owner, req)
    } else if amount_error(req) is Some {
        amount_error(req)
    } else if date_error(req) is Some {
        date_error(req)
    } else {
        category_ref_error(l, owner, req)
    }
}

/// The first failure a posting request meets, in the order the checks run.
#[verifier::opaque]
pub open spec fn record_error(l: Ledger, owner: int, req: CreateTransactionRequest) -> Option<
    LedgerError,
> {
    if prepare_error(l, owner, req) is Some {
        prepare_error(l, owner, req)
    } else {
        record_write_error(l, req)
    }
}

/// The account-resolution side effect: an identifier leaves the accounts
/// untouched, a name creates a fresh account with the default currency and a
/// zero balance; it commits on its own and persists whatever happens later.
#[verifier::opaque]
pub open spec fn account_ref_effect(
    pre: Ledger,
    post: Ledger,
    owner: int,
    req: CreateTransactionRequest,
) -> bool {
    match (req.account_id, req.account_name) {
        (Option::<i32>::None, Some(nm)) => {
            &&& post.accounts@.len() == pre.accounts@.len() + 1
            &&& forall|i: int|
                0 <= i < pre.accounts@.len() ==> post.accounts@[i] == pre.accounts@[i]
            &&& post.accounts@.last().id == pre.next_account_id
            &&& post.accounts@.last().user_id == owner
            &&& post.accounts@.last().name == nm
            &&& post.accounts@.last().currency@ == "USD"@
            &&& post.accounts@.last().balance.v() == 0
            &&& post.next_account_id == pre.next_account_id + 1
        },
        _ => post.accounts@ == pre.accounts@ && post.next_account_id == pre.next_account_id,
    }
}

/// The category-resolution side effect: an exact-name match is reused with
/// nothing created, a fresh name creates exactly one category, anything else
/// leaves the categories untouched.
#[verifier::opaque]
pub open spec fn category_ref_effect(
    pre: Ledger,
    post: Ledger,
    owner: int,
    req: CreateTransactionRequest,
) -> bool {
    match (req.category_id, req.category_name) {
        (Option::<i32>::None, Some(nm)) => if first_matching_category(
            pre.categories@,
            owner,
            nm@,
        ) is Some {
            post.categories@ == pre.categories@ && post.next_category_id == pre.next_category_id
        } else {
            &&& post.categories@.len() == pre.categories@.len() + 1
            &&& forall|i: int|
                0 <= i < pre.categories@.len() ==> post.categories@[i] == pre.categories@[i]
            &&& post.categories@.last().id == pre.next_category_id
            &&& post.categories@.last().user_id == owner
            &&& post.categories@.last().name == nm
            &&& post.categories@.last().parent_id is None
            &&& post.next_category_id == pre.next_category_id + 1
        },
        _ => post.categories@ == pre.categories@ && post.next_category_id == pre.next_category_id,
    }
}

/// How a successful posting leaves the store: exactly the resolved account's
/// balance moves, by exactly the posted amount; every other account is kept
/// as it was, and only the name-resolved entities are added.
#[verifier::opaque]
pub open spec fn record_success_effect(
    pre: Ledger,
    post: Ledger,
    owner: int,
    req: CreateTransactionRequest,
) -> bool {
    let x = req_amount(req);
    &&& category_ref_effect(pre, post, owner, req)
    &&& match (req.account_id, req.account_name) {
        (Some(id), Option::<String>::None) => {
            let i = pre.account_index(owner, id as int);
            &&& post.accounts@.len() == pre.accounts@.len()
            &&& forall|j: int|
                0 <= j < pre.accounts@.len() && j != i ==> post.accounts@[j] == pre.accounts@[j]
            &&& post.accounts@[i].id == pre.accounts@[i].id
            &&& post.accounts@[i].user_id == pre.accounts@[i].user_id
            &&& post.accounts@[i].name == pre.accounts@[i].name
            &&& post.accounts@[i].currency == pre.accounts@[i].currency
            &&& post.accounts@[i].balance.v() == pre.accounts@[i].balance.v() + x
            &&& post.next_account_id == pre.next_account_id
        },
        (Option::<i32>::None, Some(nm)) => {
            &&& post.accounts@.len() == pre.accounts@.len() + 1
            &&& forall|j: int|
                0 <= j < pre.accounts@.len() ==> post.accounts@[j] == pre.accounts@[j]
            &&& post.accounts@.last().id == pre.next_account_id
            &&& post.accounts@.last().user_id == owner
            &&& post.accounts@.last().name == nm
            &&& post.accounts@.last().currency@ == "USD"@
            &&& post.accounts@.last().balance.v() == x
            &&& post.next_account_id == pre.next_account_id + 1
        },
        _ => false,
    }
    &&& post.total_magnitude.v() == pre.total_magnitude.v() + abs_of(x)
    &&& post.next_budget_id == pre.next_budget_id
}

/// What any failed posting leaves behind: the write itself is absent, the
/// counters that only the write moves are untouched, and every account and
/// category that existed before is exactly as it was.
#[verifier::opaque]
pub open spec fn record_failure_effect(
    pre: Ledger,
    post: Ledger,
    owner: int,
    req: CreateTransactionRequest,
) -> bool {
    &&& (account_ref_error(pre, owner, req) is Some ==> post.unchanged(pre))
    &&& post.transactions@ == pre.transactions@
    &&& post.budgets@ == pre.budgets@
    &&& post.next_transaction_id == pre.next_transaction_id
    &&& post.next_budget_id == pre.next_budget_id
    &&& post.total_magnitude == pre.total_magnitude
    &&& post.accounts@.len() >= pre.accounts@.len()
    &&& forall|i: int| 0 <= i < pre.accounts@.len() ==> post.accounts@[i] == pre.accounts@[i]
    &&& post.categories@.len() >= pre.categories@.len()
    &&& forall|i: int|
        0 <= i < pre.categories@.len() ==> post.categories@[i] == pre.categories@[i]
    &&& pre.next_account_id <= post.next_account_id
    &&& pre.next_category_id <= post.next_category_id
}

/// The account identifier a posting resolves to.
#[verifier::opaque]
pub open spec fn resolved_account_id(l: Ledger, req: CreateTransactionRequest) -> int {
    match req.account_id {
        Some(id) => id as int,
        Option::<i32>::None => l.next_account_id as int,
    }
}

/// The category identifier a posting resolves to, if any.
#[verifier::opaque]
pub open spec fn resolved_category_id(l: Ledger, owner: int, req: CreateTransactionRequest)
    -> Option<int> {
    match (req.category_id, req.category_name) {
        (Some(id), Option::<String>::None) => Some(id as int),
        (Option::<i32>::None, Some(nm)) => match first_matching_category(
            l.categories@,
            owner,
            nm@,
        ) {
            Some(c) => Some(c.id as int),
            Option::<Category>::None => Some(l.next_category_id as int),
        },
        _ => Option::<int>::None,
    }
}

/// While the total posting magnitude stays in range, no balance bump can
/// leave it.
proof fn lemma_balance_add_in_range(l: Ledger, idx: int, amt: Money)
    requires
        l.wf(),
        0 <= idx < l.accounts@.len(),
        amt.wf(),
        txn_abs_sum(l.transactions@) + abs_of(amt.v()) <= MONEY_MAX as int,
    ensures
        money_in_range(l.accounts@[idx].balance.v() + amt.v()),
{
    lemma_txn_sum_bounded(l.transactions@, l.accounts@[idx].id as int);
}

/// A posting pushed with the matching balance bump keeps the store well
/// formed.
proof fn lemma_post_txn_wf(pre: Ledger, post: Ledger, t: Transaction, idx: int)
    requires
        pre.wf(),
        0 <= idx < pre.accounts@.len(),
        t.id == pre.next_transaction_id,
        pre.next_transaction_id < i32::MAX,
        t.account_id == pre.accounts@[idx].id,
        t.amount.wf(),
        t.amount.v() != 0,
        t.date.wf(),
        t.kind is Income ==> t.amount.v() > 0,
        t.kind is Expense ==> t.amount.v() < 0,
        txn_abs_sum(pre.transactions@) + abs_of(t.amount.v()) <= MONEY_MAX as int,
        post.transactions@ == pre.transactions@.push(t),
        post.next_transaction_id == pre.next_transaction_id + 1,
        post.accounts@.len() == pre.accounts@.len(),
        forall|i: int|
            0 <= i < pre.accounts@.len() && i != idx ==> post.accounts@[i] == pre.accounts@[i],
        post.accounts@[idx].id == pre.accounts@[idx].id,
        post.accounts@[idx].user_id == pre.accounts@[idx].user_id,
        post.accounts@[idx].name == pre.accounts@[idx].name,
        post.accounts@[idx].currency == pre.accounts@[idx].currency,
        post.accounts@[idx].balance.v() == pre.accounts@[idx].balance.v() + t.amount.v(),
        post.total_magnitude.v() == pre.total_magnitude.v() + abs_of(t.amount.v()),
        post.categories@ == pre.categories@,
        post.budgets@ == pre.budgets@,
        post.next_account_id == pre.next_account_id,
        post.next_category_id == pre.next_category_id,
        post.next_budget_id == pre.next_budget_id,
    ensures
        post.wf(),
{
    let tid = transaction_ids(post.transactions@);
    let n = pre.transactions@.len() as int;
    assert(tid =~= transaction_ids(pre.transactions@).push(t.id as int));
    assert forall|x: int, y: int| 0 <= x < y < tid.len() implies tid[x] < tid[y] by {
        if y < n {
            assert(transaction_ids(pre.transactions@)[x] < transaction_ids(pre.transactions@)[y]);
        } else {
            assert(tid[x] == pre.transactions@[x].id as int);
            assert(pre.transactions@[x].id < pre.next_transaction_id);
        }
    }
    assert(account_ids(post.accounts@) =~= account_ids(pre.accounts@));
    lemma_txn_abs_sum_push(pre.transactions@, t);
    assert forall|i: int|
        0 <= i < post.transactions@.len() implies {
        let x = #[trigger] post.transactions@[i];
        1 <= x.id < post.next_transaction_id && 1 <= x.account_id < post.next_account_id
            && x.amount.wf() && x.amount.v() != 0 && x.date.wf() && (x.kind is Income
            ==> x.amount.v() > 0) && (x.kind is Expense ==> x.amount.v() < 0)
    } by {
        if i < n {
            assert(post.transactions@[i] == pre.transactions@[i]);
        } else {
            assert(post.transactions@[i] == t);
            assert(1 <= pre.accounts@[idx].id < pre.next_account_id);
        }
    }
    assert forall|i: int|
        0 <= i < post.accounts@.len() implies {
        let a = #[trigger] post.accounts@[i];
        1 <= a.id < post.next_account_id && valid_name(a.name@) && a.balance.wf() && a.balance.v()
            == txn_sum(post.transactions@, a.id as int)
    } by {
        lemma_txn_sum_push(pre.transactions@, t, post.accounts@[i].id as int);
        lemma_txn_sum_bounded(post.transactions@, post.accounts@[i].id as int);
        if i != idx {
            assert(post.accounts@[i] == pre.accounts@[i]);
            // only the posted account's identifier matches the new posting
            if pre.accounts@[i].id == t.account_id {
                assert(account_ids(pre.accounts@)[i] == account_ids(pre.accounts@)[idx]);
                assert(false);
            }
        } else {
            assert(pre.accounts@[idx].balance.v() == txn_sum(
                pre.transactions@,
                t.account_id as int,
            ));
        }
    }
}

impl Ledger {
    /// Looks for the owner's earliest category bearing exactly this name.
    fn find_category_named(&self, owner: i32, name: &String) -> (r: Option<usize>)
        requires
            self.wf(),
        ensures
            match r {
                Some(i) => i < self.categories@.len() && first_matching_category(
                    self.categories@,
                    owner as int,
                    name@,
                ) == Some(self.categories@[i as int]),
                None => first_matching_category(self.categories@, owner as int, name@) is None,
            },
    {
        let n = self.categories.len();
        let mut i: usize = 0;
        proof {
            assert(self.categories@.subrange(0, n as int) =~= self.categories@);
        }
        while i < n
            invariant
                0 <= i <= n,
                n == self.categories@.len(),
                self.wf(),
                first_matching_category(self.categories@, owner as int, name@)
                    == first_matching_category(
                    self.categories@.subrange(i as int, n as int),
                    owner as int,
                    name@,
                ),
            decreases n - i,
        {
            let c = &self.categories[i];
            let ghost seg = self.categories@.subrange(i as int, n as int);
            proof {
                assert(seg[0] == self.categories@[i as int]);
                assert(seg.subrange(1, seg.len() as int) =~= self.categories@.subrange(
                    i + 1,
                    n as int,
                ));
            }
            if c.user_id == owner && c.name.eq(name) {
                return Some(i);
            }
            i = i + 1;
        }
        proof {
            assert(self.categories@.subrange(n as int, n as int) =~= Seq::<Category>::empty());
        }
        None
    }

    /// Inserts the posting and applies its balance delta in one step: both
    /// become visible together, or neither does.
    fn post_transaction(
        &mut self,
        owner: i32,
        account_idx: usize,
        category_id: Option<i32>,
        amount: Money,
        kind: TransactionKind,
        date: Date,
        description: Option<String>,
    ) -> (r: Result<Transaction, LedgerError>)
        requires
            old(self).wf(),
            account_idx < old(self).accounts@.len(),
            amount.wf(),
            amount.v() != 0,
            date.wf(),
            kind is Income ==> amount.v() > 0,
            kind is Expense ==> amount.v() < 0,
        ensures
            final(self).wf(),
            old(self).next_transaction_id == i32::MAX || txn_abs_sum(old(self).transactions@)
                + abs_of(amount.v()) > MONEY_MAX as int ==> r == Err::<Transaction, LedgerError>(
                LedgerError::OutOfRange,
            ) && final(self).unchanged(*old(self)),
            old(self).next_transaction_id < i32::MAX && txn_abs_sum(old(self).transactions@)
                + abs_of(amount.v()) <= MONEY_MAX as int ==> match r {
                Ok(t) => {
                    &&& t.id == old(self).next_transaction_id
                    &&& t.user_id == owner
                    &&& t.account_id == old(self).accounts@[account_idx as int].id
                    &&& t.category_id == category_id
                    &&& t.amount == amount
                    &&& t.kind == kind
                    &&& t.date == date
                    &&& t.description == description
                    &&& final(self).transactions@ == old(self).transactions@.push(t)
                    &&& final(self).next_transaction_id == old(self).next_transaction_id + 1
                    &&& final(self).accounts@.len() == old(self).accounts@.len()
                    &&& forall|i: int|
                        0 <= i < old(self).accounts@.len() && i != account_idx as int
                            ==> final(self).accounts@[i] == old(self).accounts@[i]
                    &&& final(self).accounts@[account_idx as int].id
                        == old(self).accounts@[account_idx as int].id
                    &&& final(self).accounts@[account_idx as int].user_id
                        == old(self).accounts@[account_idx as int].user_id
                    &&& final(self).accounts@[account_idx as int].name
                        == old(self).accounts@[account_idx as int].name
                    &&& final(self).accounts@[account_idx as int].currency
                        == old(self).accounts@[account_idx as int].currency
                    &&& final(self).accounts@[account_idx as int].balance.v()
                        == old(self).accounts@[account_idx as int].balance.v() + amount.v()
                    &&& final(self).categories@ == old(self).categories@
                    &&& final(self).budgets@ == old(self).budgets@
                    &&& final(self).next_account_id == old(self).next_account_id
                    &&& final(self).next_category_id == old(self).next_category_id
                    &&& final(self).next_budget_id == old(self).next_budget_id
                    &&& final(self).total_magnitude.v() == old(self).total_magnitude.v() + abs_of(
                        amount.v(),
                    )
                },
                Err(_) => false,
            },
    {
        if self.next_transaction_id == i32::MAX {
            return Err(LedgerError::OutOfRange);
        }
        let mag = amount.magnitude();
        let new_total = match self.total_magnitude.checked_add(&mag) {
            Some(t) => t,
            None => {
                return Err(LedgerError::OutOfRange);
            },
        };
        let prev = &self.accounts[account_idx];
        let new_balance = match prev.balance.checked_add(&amount) {
            Some(b) => b,
            None => {
                proof {
                    lemma_balance_add_in_range(*old(self), account_idx as int, amount);
                    assert(false);
                }
                return Err(LedgerError::OutOfRange);
            },
        };
        let id = self.next_transaction_id;
        let account_id = prev.id;
        let desc_stored = match &description {
            Some(d) => Some(d.clone()),
            None => None,
        };
        let stored = Transaction {
            id,
            user_id: owner,
            account_id,
            category_id,
            amount,
            kind,
            date,
            description: desc_stored,
        };
        let ghost gt = stored;
        let returned = Transaction {
            id,
            user_id: owner,
            account_id,
            category_id,
            amount,
            kind,
            date,
            description,
        };
        let bumped = Account {
            id: prev.id,
            user_id: prev.user_id,
            name: prev.name.clone(),
            currency: prev.currency.clone(),
            balance: new_balance,
        };
        self.transactions.push(stored);
        self.accounts.set(account_idx, bumped);
        self.next_transaction_id = id + 1;
        self.total_magnitude = new_total;
        proof {
            lemma_post_txn_wf(*old(self), *self, gt, account_idx as int);
        }
        Ok(returned)
    }
}

/// What the returned posting and the write guarantee on success, whatever
/// the date's source: the posting's fields echo the request and the resolved
/// references, and it is appended with its identifier counter advanced.
#[verifier::opaque]
pub open spec fn record_ok_values(
    pre: Ledger,
    post: Ledger,
    owner: int,
    req: CreateTransactionRequest,
    t: Transaction,
) -> bool {
    &&& t.id == pre.next_transaction_id
    &&& t.user_id == owner
    &&& t.account_id as int == resolved_account_id(pre, req)
    &&& match resolved_category_id(pre, owner, req) {
        Some(c) => t.category_id == Some(c as i32),
        Option::<int>::None => t.category_id is None,
    }
    &&& t.amount.v() == req_amount(req)
    &&& t.amount.wf()
    &&& (t.kind is Income <==> req_amount(req) > 0)
    &&& (t.kind is Expense <==> req_amount(req) < 0)
    &&& !(t.kind is Transfer)
    &&& t.date.wf()
    &&& t.description == req.description
    &&& post.transactions@ == pre.transactions@.push(t)
    &&& post.next_transaction_id == pre.next_transaction_id + 1
    &&& post.budgets@ == pre.budgets@
    &&& post.next_budget_id == pre.next_budget_id
}

/// Composing the resolution facts with the write's facts yields the
/// posting-value guarantee.
proof fn lemma_record_ok_values(
    pre: Ledger,
    mid: Ledger,
    post: Ledger,
    owner: int,
    req: CreateTransactionRequest,
    t: Transaction,
)
    requires
        t.id == mid.next_transaction_id,
        mid.next_transaction_id == pre.next_transaction_id,
        t.user_id == owner,
        t.account_id as int == resolved_account_id(pre, req),
        match resolved_category_id(pre, owner, req) {
            Some(c) => t.category_id == Some(c as i32),
            Option::<int>::None => t.category_id is None,
        },
        t.amount.v() == req_amount(req),
        t.amount.wf(),
        (t.kind is Income <==> req_amount(req) > 0),
        (t.kind is Expense <==> req_amount(req) < 0),
        !(t.kind is Transfer),
        t.date.wf(),
        t.description == req.description,
        post.transactions@ == mid.transactions@.push(t),
        mid.transactions@ == pre.transactions@,
        post.next_transaction_id == mid.next_transaction_id + 1,
        post.budgets@ == mid.budgets@,
        mid.budgets@ == pre.budgets@,
        post.next_budget_id == mid.next_budget_id,
        mid.next_budget_id == pre.next_budget_id,
    ensures
        record_ok_values(pre, post, owner, req, t),
{
    reveal(record_ok_values);
}

/// Everything the write step needs to know about the resolved inputs and
/// the state the resolution left, relative to the snapshot it started from.
#[verifier::opaque]
pub open spec fn posting_inputs(
    pre: Ledger,
    mid: Ledger,
    owner: int,
    req: CreateTransactionRequest,
    aidx: int,
    amount: Money,
    kind: TransactionKind,
    date: Date,
    category_id: Option<i32>,
) -> bool {
    &&& prepare_error(pre, owner, req) is None
    &&& account_ref_effect(pre, mid, owner, req)
    &&& category_ref_effect(pre, mid, owner, req)
    &&& mid.transactions@ == pre.transactions@
    &&& mid.budgets@ == pre.budgets@
    &&& mid.next_transaction_id == pre.next_transaction_id
    &&& mid.next_budget_id == pre.next_budget_id
    &&& mid.total_magnitude == pre.total_magnitude
    &&& 0 <= aidx < mid.accounts@.len()
    &&& mid.accounts@[aidx].id as int == resolved_account_id(pre, req)
    &&& match (req.account_id, req.account_name) {
        (Some(id), Option::<String>::None) => aidx == pre.account_index(owner, id as int),
        (Option::<i32>::None, Some(_)) => aidx == pre.accounts@.len(),
        _ => false,
    }
    &&& amount.v() == req_amount(req)
    &&& amount.wf()
    &&& amount.v() != 0
    &&& (kind is Income <==> req_amount(req) > 0)
    &&& (kind is Expense <==> req_amount(req) < 0)
    &&& !(kind is Transfer)
    &&& date.wf()
    &&& match resolved_category_id(pre, owner, req) {
        Some(c) => category_id == Some(c as i32),
        Option::<int>::None => category_id is None,
    }
}

/// What the resolution phases leave behind is, in every case, a failed
/// posting's footprint.
proof fn lemma_record_failure_composition(
    pre: Ledger,
    post: Ledger,
    owner: int,
    req: CreateTransactionRequest,
)
    requires
        post.transactions@ == pre.transactions@,
        post.budgets@ == pre.budgets@,
        post.next_transaction_id == pre.next_transaction_id,
        post.next_budget_id == pre.next_budget_id,
        post.total_magnitude == pre.total_magnitude,
        post.accounts@.len() >= pre.accounts@.len(),
        forall|i: int| 0 <= i < pre.accounts@.len() ==> post.accounts@[i] == pre.accounts@[i],
        account_ref_error(pre, owner, req) is Some ==> post.unchanged(pre),
        account_ref_error(pre, owner, req) is None ==> account_ref_effect(pre, post, owner, req),
        account_ref_error(pre, owner, req) is None && prepare_error(pre, owner, req) is Some
            ==> post.categories@ == pre.categories@ && post.next_category_id
            == pre.next_category_id,
        prepare_error(pre, owner, req) is None ==> category_ref_effect(pre, post, owner, req),
    ensures
        record_failure_effect(pre, post, owner, req),
{
    reveal(record_failure_effect);
    reveal(account_ref_effect);
    reveal(category_ref_effect);
    if account_ref_error(pre, owner, req) is Some {
    } else if prepare_error(pre, owner, req) is Some {
    } else {
    }
}

/// A write that failed after the resolution phases leaves, relative to the
/// snapshot the resolution started from, exactly a failed posting's
/// footprint.
proof fn lemma_record_failure_after_write(
    pre: Ledger,
    mid: Ledger,
    post: Ledger,
    owner: int,
    req: CreateTransactionRequest,
)
    requires
        prepare_error(pre, owner, req) is None,
        account_ref_effect(pre, mid, owner, req),
        category_ref_effect(pre, mid, owner, req),
        mid.transactions@ == pre.transactions@,
        mid.budgets@ == pre.budgets@,
        mid.next_transaction_id == pre.next_transaction_id,
        mid.next_budget_id == pre.next_budget_id,
        mid.total_magnitude == pre.total_magnitude,
        post.unchanged(mid),
    ensures
        record_failure_effect(pre, post, owner, req),
{
    reveal(prepare_error);
    assert(account_ref_error(pre, owner, req) is None);
    reveal(record_failure_effect);
    reveal(account_ref_effect);
    reveal(category_ref_effect);
}

/// Composing the resolution effects with the atomic write gives the exact
/// footprint of a successful posting.
proof fn lemma_record_success_composition(
    pre: Ledger,
    mid: Ledger,
    post: Ledger,
    owner: int,
    req: CreateTransactionRequest,
    aidx: int,
    x: int,
)
    requires
        account_ref_error(pre, owner, req) is None,
        account_ref_effect(pre, mid, owner, req),
        category_ref_effect(pre, mid, owner, req),
        match (req.account_id, req.account_name) {
            (Some(id), Option::<String>::None) => aidx == pre.account_index(owner, id as int),
            (Option::<i32>::None, Some(_)) => aidx == pre.accounts@.len(),
            _ => false,
        },
        0 <= aidx < mid.accounts@.len(),
        x == req_amount(req),
        post.accounts@.len() == mid.accounts@.len(),
        forall|i: int|
            0 <= i < mid.accounts@.len() && i != aidx ==> post.accounts@[i] == mid.accounts@[i],
        post.accounts@[aidx].id == mid.accounts@[aidx].id,
        post.accounts@[aidx].user_id == mid.accounts@[aidx].user_id,
        post.accounts@[aidx].name == mid.accounts@[aidx].name,
        post.accounts@[aidx].currency == mid.accounts@[aidx].currency,
        post.accounts@[aidx].balance.v() == mid.accounts@[aidx].balance.v() + x,
        post.categories@ == mid.categories@,
        post.next_account_id == mid.next_account_id,
        post.next_category_id == mid.next_category_id,
        post.next_budget_id == mid.next_budget_id,
        mid.next_budget_id == pre.next_budget_id,
        post.total_magnitude.v() == mid.total_magnitude.v() + abs_of(x),
        mid.total_magnitude == pre.total_magnitude,
    ensures
        record_success_effect(pre, post, owner, req),
{
    reveal(record_success_effect);
    reveal(account_ref_effect);
    reveal(category_ref_effect);
    reveal(account_ref_error);
    match (req.account_id, req.account_name) {
        (Some(id), Option::<String>::None) => {
            assert(mid.accounts@ == pre.accounts@);
        },
        (Option::<i32>::None, Some(_)) => {
            assert(mid.accounts@.last() == mid.accounts@[aidx]);
            assert(post.accounts@.last() == post.accounts@[aidx]);
            assert forall|j: int|
                0 <= j < pre.accounts@.len() implies post.accounts@[j] == pre.accounts@[j] by {
                assert(post.accounts@[j] == mid.accounts@[j]);
            }
        },
        _ => {
            assert(false);
        },
    }
}

impl Ledger {
    /// Resolves an account reference: exactly one of identifier and name,
    /// verifying ownership for an identifier and creating the account on
    /// first use of a name.
    fn resolve_account_ref(
        &mut self,
        owner: i32,
        account_id: &Option<i32>,
        account_name: &Option<String>,
    ) -> (r: Result<usize, LedgerError>)
        requires
            old(self).wf(),
        ensures
            final(self).wf(),
            match (*account_id, *account_name) {
                (Some(id), Option::<String>::None) => {
                    if old(self).owned_account(owner as int, id as int) {
                        (r matches Ok(i) && i as int == old(self).account_index(
                            owner as int,
                            id as int,
                        )) && final(self).unchanged(*old(self))
                    } else {
                        r == Err::<usize, LedgerError>(
                            LedgerError::NotFound(EntityKind::Account, RefAction::Use),
                        ) && final(self).unchanged(*old(self))
                    }
                },
                (Option::<i32>::None, Some(nm)) => {
                    if !valid_name(nm@) {
                        r == Err::<usize, LedgerError>(LedgerError::BadName(EntityKind::Account))
                            && final(self).unchanged(*old(self))
                    } else if old(self).next_account_id == i32::MAX {
                        r == Err::<usize, LedgerError>(LedgerError::OutOfRange) && final(self).unchanged(*old(self))
                    } else {
                        &&& (r matches Ok(i) && i as int == old(self).accounts@.len())
                        &&& final(self).accounts@.len() == old(self).accounts@.len() + 1
                        &&& forall|i: int|
                            0 <= i < old(self).accounts@.len() ==> final(self).accounts@[i] == old(self).accounts@[i]
                        &&& final(self).accounts@.last().id == old(self).next_account_id
                        &&& final(self).accounts@.last().user_id == owner
                        &&& final(self).accounts@.last().name == nm
                        &&& final(self).accounts@.last().currency@ == "USD"@
                        &&& final(self).accounts@.last().balance.v() == 0
                        &&& final(self).next_account_id == old(self).next_account_id + 1
                        &&& same_but_accounts(*old(self), *final(self))
                    }
                },
                _ => r == Err::<usize, LedgerError>(LedgerError::MissingRef(EntityKind::Account))
                    && final(self).unchanged(*old(self)),
            },
    {
        match (account_id, account_name) {
            (Some(id), None) => {
                match self.find_account(owner, *id) {
                    Some(i) => Ok(i),
                    None => Err(LedgerError::NotFound(EntityKind::Account, RefAction::Use)),
                }
            },
            (None, Some(name)) => {
                let req = CreateAccountRequest { name: name.clone(), currency: None };
                match self.create_account(owner, &req) {
                    Ok(_) => {
                        proof {
                            assert(self.accounts@.last() == self.accounts@[self.accounts@.len()
                                - 1]);
                        }
                        Ok(self.accounts.len() - 1)
                    },
                    Err(e) => Err(e),
                }
            },
            _ => Err(LedgerError::MissingRef(EntityKind::Account)),
        }
    }

    /// Resolves a category reference: nothing, an owned identifier, or a
    /// name that is reused case-sensitively or created on first use.
    fn resolve_category_ref(
        &mut self,
        owner: i32,
        category_id: &Option<i32>,
        category_name: &Option<String>,
    ) -> (r: Result<Option<i32>, LedgerError>)
        requires
            old(self).wf(),
        ensures
            final(self).wf(),
            match (*category_id, *category_name) {
                (Some(_), Some(_)) => r == Err::<Option<i32>, LedgerError>(
                    LedgerError::AmbiguousRef(EntityKind::Category),
                ) && final(self).unchanged(*old(self)),
                (Some(id), Option::<String>::None) => {
                    if old(self).owned_category(owner as int, id as int) {
                        r == Ok::<Option<i32>, LedgerError>(Some(id)) && final(self).unchanged(
                            *old(self),
                        )
                    } else {
                        r == Err::<Option<i32>, LedgerError>(
                            LedgerError::NotFound(EntityKind::Category, RefAction::Use),
                        ) && final(self).unchanged(*old(self))
                    }
                },
                (Option::<i32>::None, Some(nm)) => {
                    if !valid_name(nm@) {
                        r == Err::<Option<i32>, LedgerError>(
                            LedgerError::BadName(EntityKind::Category),
                        ) && final(self).unchanged(*old(self))
                    } else {
                        match first_matching_category(old(self).categories@, owner as int, nm@) {
                            Some(c) => r == Ok::<Option<i32>, LedgerError>(Some(c.id)) && final(self).unchanged(*old(self)),
                            Option::<Category>::None => {
                                if old(self).next_category_id == i32::MAX {
                                    r == Err::<Option<i32>, LedgerError>(LedgerError::OutOfRange)
                                        && final(self).unchanged(*old(self))
                                } else {
                                    &&& r == Ok::<Option<i32>, LedgerError>(
                                        Some(old(self).next_category_id),
                                    )
                                    &&& final(self).categories@.len() == old(self).categories@.len() + 1
                                    &&& forall|i: int|
                                        0 <= i < old(self).categories@.len() ==> final(self).categories@[i] == old(self).categories@[i]
                                    &&& final(self).categories@.last().id == old(self).next_category_id
                                    &&& final(self).categories@.last().user_id == owner
                                    &&& final(self).categories@.last().name == nm
                                    &&& final(self).categories@.last().parent_id is None
                                    &&& final(self).next_category_id == old(self).next_category_id
                                        + 1
                                    &&& same_but_categories(*old(self), *final(self))
                                }
                            },
                        }
                    }
                },
                (Option::<i32>::None, Option::<String>::None) => r == Ok::<
                    Option<i32>,
                    LedgerError,
                >(None) && final(self).unchanged(*old(self)),
            },
    {
        match (category_id, category_name) {
            (Some(_), Some(_)) => Err(LedgerError::AmbiguousRef(EntityKind::Category)),
            (Some(id), None) => {
                match self.find_category(owner, *id) {
                    Some(_) => Ok(Some(*id)),
                    None => Err(LedgerError::NotFound(EntityKind::Category, RefAction::Use)),
                }
            },
            (None, Some(name)) => {
                if !check_name(name) {
                    return Err(LedgerError::BadName(EntityKind::Category));
                }
                match self.find_category_named(owner, name) {
                    Some(i) => Ok(Some(self.categories[i].id)),
                    None => {
                        let req = crate::models::CreateCategoryRequest {
                            name: name.clone(),
                            parent_id: None,
                        };
                        match self.create_category(owner, &req) {
                            Ok(c) => {
                                proof {
                                    assert(self.categories@.last() == self.categories@[
                                    self.categories@.len() - 1]);
                                }
                                Ok(Some(c.id))
                            },
                            Err(e) => Err(e),
                        }
                    },
                }
            },
            (None, None) => Ok(None),
        }
    }

    /// Resolves the account and category references, parses the amount and
    /// the date, and derives the posting kind, creating an account or
    /// category on first use of a name; those creations commit on their own
    /// and persist even when a later check fails.
    #[verifier::spinoff_prover]
    #[verifier::rlimit(30)]
    fn prepare_posting(&mut self, owner: i32, req: &CreateTransactionRequest, today: Date) -> (r:
        Result<(usize, Money, TransactionKind, Date, Option<i32>), LedgerError>)
        requires
            old(self).wf(),
            today.wf(),
        ensures
            final(self).wf(),
            final(self).transactions@ == old(self).transactions@,
            final(self).budgets@ == old(self).budgets@,
            final(self).next_transaction_id == old(self).next_transaction_id,
            final(self).next_budget_id == old(self).next_budget_id,
            final(self).total_magnitude == old(self).total_magnitude,
            final(self).accounts@.len() >= old(self).accounts@.len(),
            forall|i: int|
                0 <= i < old(self).accounts@.len() ==> final(self).accounts@[i] == old(self).accounts@[i],
            account_ref_error(*old(self), owner as int, *req) is Some ==> final(self).unchanged(
                *old(self),
            ),
            account_ref_error(*old(self), owner as int, *req) is None ==> account_ref_effect(
                *old(self),
                *final(self),
                owner as int,
                *req,
            ),
            account_ref_error(*old(self), owner as int, *req) is None && prepare_error(
                *old(self),
                owner as int,
                *req,
            ) is Some ==> final(self).categories@ == old(self).categories@ && final(self).next_category_id == old(self).next_category_id,
            prepare_error(*old(self), owner as int, *req) is None ==> category_ref_effect(
                *old(self),
                *final(self),
                owner as int,
                *req,
            ),
            match prepare_error(*old(self), owner as int, *req) {
                Some(e) => r == Err::<(usize, Money, TransactionKind, Date, Option<i32>), LedgerError>(e),
                None => match r {
                    Ok((aidx, amount, kind, date, category_id)) => posting_inputs(
                        *old(self),
                        *final(self),
                        owner as int,
                        *req,
                        aidx as int,
                        amount,
                        kind,
                        date,
                        category_id,
                    ) && date == req_date(*req, today),
                    Err(_) => false,
                },
            },
    {
        let ghost pre = *old(self);
        let aidx = match self.resolve_account_ref(owner, &req.account_id, &req.account_name) {
            Ok(i) => i,
            Err(e) => {
                proof {
                    reveal(account_ref_error);
                    reveal(prepare_error);
                    assert(prepare_error(pre, owner as int, *req) == Some(e));
                }
                return Err(e);
            },
        };
        proof {
            reveal(account_ref_error);
            reveal(resolved_account_id);
            reveal(account_ref_effect);
            assert(account_ref_error(pre, owner as int, *req) is None);
            assert(self.accounts@[aidx as int].id as int == resolved_account_id(pre, *req));
            assert(account_ref_effect(pre, *self, owner as int, *req));
        }
        let amount = match Money::parse_trimmed(req.amount.as_str()) {
            Some(m) => m,
            None => {
                proof {
                    reveal(amount_error);
                    reveal(prepare_error);
                    reveal(account_ref_effect);
                    assert(prepare_error(pre, owner as int, *req) == Some(LedgerError::BadAmount));
                }
                return Err(LedgerError::BadAmount);
            },
        };
        if amount.is_zero() {
            proof {
                reveal(amount_error);
                reveal(prepare_error);
                reveal(account_ref_effect);
                assert(prepare_error(pre, owner as int, *req) == Some(LedgerError::ZeroAmount));
            }
            return Err(LedgerError::ZeroAmount);
        }
        proof {
            reveal(amount_error);
            assert(amount_error(*req) is None);
        }
        let kind = if amount.is_positive() {
            TransactionKind::Income
        } else {
            TransactionKind::Expense
        };
        let date = match &req.date {
            Some(ds) => match crate::dates::parse_date(ds.as_str()) {
                Some(d) => d,
                None => {
                    proof {
                        reveal(date_error);
                        reveal(prepare_error);
                        reveal(account_ref_effect);
                        assert(prepare_error(pre, owner as int, *req) == Some(
                            LedgerError::BadDate,
                        ));
                    }
                    return Err(LedgerError::BadDate);
                },
            },
            None => today,
        };
        proof {
            reveal(date_error);
            assert(date_error(*req) is None);
            assert(date == req_date(*req, today));
        }
        let category_id = match self.resolve_category_ref(
            owner,
            &req.category_id,
            &req.category_name,
        ) {
            Ok(c) => c,
            Err(e) => {
                proof {
                    reveal(category_ref_error);
                    reveal(prepare_error);
                    reveal(account_ref_effect);
                    assert(category_ref_error(pre, owner as int, *req) == Some(e));
                    assert(prepare_error(pre, owner as int, *req) == Some(e));
                }
                return Err(e);
            },
        };
        proof {
            reveal(category_ref_error);
            reveal(resolved_category_id);
            reveal(prepare_error);
            reveal(account_ref_effect);
            reveal(category_ref_effect);
            assert(prepare_error(pre, owner as int, *req) is None);
            assert(match resolved_category_id(pre, owner as int, *req) {
                Some(c) => category_id == Some(c as i32),
                Option::<int>::None => category_id is None,
            });
            assert(category_ref_effect(pre, *self, owner as int, *req));
            assert(account_ref_effect(pre, *self, owner as int, *req));
            assert(posting_inputs(
                pre,
                *self,
                owner as int,
                *req,
                aidx as int,
                amount,
                kind,
                date,
                category_id,
            )) by {
                reveal(posting_inputs);
            }
        }
        Ok((aidx, amount, kind, date, category_id))
    }

    /// The write half of a posting: given the resolved references and parsed
    /// values, inserts the posting and applies its balance delta as one
    /// atomic step, and relates the outcome to the snapshot the resolution
    /// started from.
    #[verifier::spinoff_prover]
    #[verifier::rlimit(10)]
    fn commit_posting(
        &mut self,
        owner: i32,
        req: &CreateTransactionRequest,
        aidx: usize,
        amount: Money,
        kind: TransactionKind,
        date: Date,
        category_id: Option<i32>,
        Ghost(pre): Ghost<Ledger>,
    ) -> (r: Result<Transaction, LedgerError>)
        requires
            old(self).wf(),
            posting_inputs(
                pre,
                *old(self),
                owner as int,
                *req,
                aidx as int,
                amount,
                kind,
                date,
                category_id,
            ),
        ensures
            final(self).wf(),
            match record_write_error(pre, *req) {
                Some(e) => r == Err::<Transaction, LedgerError>(e) && record_failure_effect(
                    pre,
                    *final(self),
                    owner as int,
                    *req,
                ),
                None => r matches Ok(t) && record_ok_values(pre, *final(self), owner as int, *req, t)
                    && t.date == date && record_success_effect(
                    pre,
                    *final(self),
                    owner as int,
                    *req,
                ),
            },
    {
        let ghost mid = *old(self);
        proof {
            reveal(posting_inputs);
        }
        let description = match &req.description {
            Some(d) => Some(d.clone()),
            None => None,
        };
        let r = self.post_transaction(owner, aidx, category_id, amount, kind, date, description);
        if let Ok(t_ref) = &r {
            proof {
                reveal(prepare_error);
                assert(account_ref_error(pre, owner as int, *req) is None);
                lemma_record_ok_values(pre, mid, *self, owner as int, *req, *t_ref);
                lemma_record_success_composition(
                    pre,
                    mid,
                    *self,
                    owner as int,
                    *req,
                    aidx as int,
                    req_amount(*req),
                );
            }
        }
        proof {
            reveal(record_write_error);
            if r is Err {
                assert(r == Err::<Transaction, LedgerError>(LedgerError::OutOfRange));
                assert(self.unchanged(mid));
                lemma_record_failure_after_write(pre, mid, *self, owner as int, *req);
            }
        }
        r
    }

    /// Records one posting: resolves the account and category references,
    /// parses the amount and derives the kind from its sign, settles the
    /// date, then inserts the posting and applies its balance delta as one
    /// atomic step. On success exactly the resolved account's balance moves,
    /// by the posted amount, and only the name-resolved entities are added;
    /// on failure the write is absent, though an account or category created
    /// while resolving a name commits on its own and stays.
    #[verifier::spinoff_prover]
    #[verifier::rlimit(10)]
    pub fn record_transaction(
        &mut self,
        owner: i32,
        req: &CreateTransactionRequest,
        today: Date,
    ) -> (r: Result<Transaction, LedgerError>)
        requires
            old(self).wf(),
            today.wf(),
        ensures
            final(self).wf(),
            match record_error(*old(self), owner as int, *req) {
                Some(e) => r == Err::<Transaction, LedgerError>(e) && record_failure_effect(
                    *old(self),
                    *final(self),
                    owner as int,
                    *req,
                ),
                None => r matches Ok(t) && record_ok_values(
                    *old(self),
                    *final(self),
                    owner as int,
                    *req,
                    t,
                ) && t.date == req_date(*req, today) && record_success_effect(
                    *old(self),
                    *final(self),
                    owner as int,
                    *req,
                ),
            },
    {
        let ghost pre = *old(self);
        let prepared = match self.prepare_posting(owner, req, today) {
            Ok(p) => p,
            Err(e) => {
                proof {
                    reveal(record_error);
                    assert(record_error(pre, owner as int, *req) == Some(e));
                    lemma_record_failure_composition(pre, *self, owner as int, *req);
                }
                return Err(e);
            },
        };
        let (aidx, amount, kind, date, category_id) = prepared;
        let r = self.commit_posting(owner, req, aidx, amount, kind, date, category_id, Ghost(pre));
        proof {
            reveal(record_error);
            assert(prepare_error(pre, owner as int, *req) is None);
            assert(record_error(pre, owner as int, *req) == record_write_error(pre, *req));
        }
        r
    }

    /// Records one posting dated today when the request names no date; the
    /// current date is read from the clock. Apart from the date's source, it
    /// keeps the full posting contract.
    pub fn record_transaction_now(&mut self, owner: i32, req: &CreateTransactionRequest) -> (r:
        Result<Transaction, LedgerError>)
        requires
            old(self).wf(),
        ensures
            final(self).wf(),
            match record_error(*old(self), owner as int, *req) {
                Some(e) => r == Err::<Transaction, LedgerError>(e) && record_failure_effect(
                    *old(self),
                    *final(self),
                    owner as int,
                    *req,
                ),
                None => r matches Ok(t) && record_ok_values(
                    *old(self),
                    *final(self),
                    owner as int,
                    *req,
                    t,
                ) && (req.date matches Some(ds) ==> t.date == req_date(*req, t.date))
                    && record_success_effect(*old(self), *final(self), owner as int, *req),
            },
    {
        let today = crate::dates::chrono_today();
        let r = self.record_transaction(owner, req, today);
        r
    }
}

/// The default description of a transfer between two accounts.
pub open spec fn transfer_description(from: int, to: int) -> Seq<char> {
    "Transfer from account "@ + crate::text::nat_digits(from) + " to account "@
        + crate::text::nat_digits(to)
}

/// The scaled amount a transfer request carries, once its text is accepted.
pub open spec fn transfer_amount(req: TransferRequest) -> int {
    crate::money::money_of_text(crate::text::trimmed(req.amount@)).unwrap()
}

/// The date a transfer carries: the given one, or the current date.
pub open spec fn transfer_date(req: TransferRequest, today: Date) -> Date {
    match req.date {
        Some(d) => crate::dates::date_of_text(d@),
        Option::<String>::None => today,
    }
}

/// The first failure a transfer request meets, in the order the checks run:
/// both endpoints owned, distinct endpoints, a positive parsable amount
/// covered by the source balance, a well-formed date, and room to write.
#[verifier::opaque]
pub open spec fn transfer_error(l: Ledger, owner: int, req: TransferRequest) -> Option<
    LedgerError,
> {
    if !l.owned_account(owner, req.from_account_id as int) {
        Some(LedgerError::NotFound(EntityKind::FromAccount, RefAction::Use))
    } else if !l.owned_account(owner, req.to_account_id as int) {
        Some(LedgerError::NotFound(EntityKind::ToAccount, RefAction::Use))
    } else if req.from_account_id == req.to_account_id {
        Some(LedgerError::SameAccount)
    } else {
        match crate::money::money_of_text(crate::text::trimmed(req.amount@)) {
            Option::<int>::None => Some(LedgerError::BadAmount),
            Some(x) => if x <= 0 {
                Some(LedgerError::NonPositiveTransferAmount)
            } else if l.accounts@[l.account_index(owner, req.from_account_id as int)].balance.v()
                < x {
                Some(
                    LedgerError::InsufficientFunds {
                        balance: l.accounts@[l.account_index(
                            owner,
                            req.from_account_id as int,
                        )].balance,
                        requested: Money::spec_new(x),
                    },
                )
            } else if match req.date {
                Some(d) => !crate::dates::valid_date_text(d@),
                Option::<String>::None => false,
            } {
                Some(LedgerError::BadDate)
            } else if l.next_transaction_id as int > i32::MAX - 2 {
                Some(LedgerError::OutOfRange)
            } else if txn_abs_sum(l.transactions@) + 2 * x > MONEY_MAX as int {
                Some(LedgerError::OutOfRange)
            } else {
                None
            },
        }
    }
}

/// Renders an account identifier into the default transfer description.
fn transfer_description_text(from: i32, to: i32) -> (r: String)
    requires
        from >= 0,
        to >= 0,
    ensures
        r@ == transfer_description(from as int, to as int),
{
    let mut out: Vec<char> = Vec::new();
    crate::text::push_nat_digits(&mut out, from as u128);
    let from_digits = crate::text::chars_to_string(&out);
    let mut out2: Vec<char> = Vec::new();
    crate::text::push_nat_digits(&mut out2, to as u128);
    let to_digits = crate::text::chars_to_string(&out2);
    let mut r = String::from_str("Transfer from account ");
    r.append(from_digits.as_str());
    r.append(" to account ");
    r.append(to_digits.as_str());
    proof {
        assert(r@ =~= transfer_description(from as int, to as int));
    }
    r
}

/// Two transfer legs pushed with their balance bumps keep the store well
/// formed.
proof fn lemma_transfer_wf(
    pre: Ledger,
    post: Ledger,
    t1: Transaction,
    t2: Transaction,
    fidx: int,
    tidx: int,
)
    requires
        pre.wf(),
        0 <= fidx < pre.accounts@.len(),
        0 <= tidx < pre.accounts@.len(),
        fidx != tidx,
        t1.id == pre.next_transaction_id,
        t2.id as int == pre.next_transaction_id + 1,
        pre.next_transaction_id as int + 2 <= i32::MAX as int,
        t1.account_id == pre.accounts@[fidx].id,
        t2.account_id == pre.accounts@[tidx].id,
        t1.amount.wf(),
        t2.amount.wf(),
        t1.amount.v() < 0,
        t2.amount.v() > 0,
        t1.amount.v() == -t2.amount.v(),
        t1.date.wf(),
        t2.date.wf(),
        t1.kind is Transfer,
        t2.kind is Transfer,
        txn_abs_sum(pre.transactions@) + 2 * t2.amount.v() <= MONEY_MAX as int,
        post.transactions@ == pre.transactions@.push(t1).push(t2),
        post.next_transaction_id as int == pre.next_transaction_id + 2,
        post.accounts@.len() == pre.accounts@.len(),
        forall|i: int|
            0 <= i < pre.accounts@.len() && i != fidx && i != tidx ==> post.accounts@[i]
                == pre.accounts@[i],
        post.accounts@[fidx].id == pre.accounts@[fidx].id,
        post.accounts@[fidx].user_id == pre.accounts@[fidx].user_id,
        post.accounts@[fidx].name == pre.accounts@[fidx].name,
        post.accounts@[fidx].currency == pre.accounts@[fidx].currency,
        post.accounts@[fidx].balance.v() == pre.accounts@[fidx].balance.v() + t1.amount.v(),
        post.accounts@[tidx].id == pre.accounts@[tidx].id,
        post.accounts@[tidx].user_id == pre.accounts@[tidx].user_id,
        post.accounts@[tidx].name == pre.accounts@[tidx].name,
        post.accounts@[tidx].currency == pre.accounts@[tidx].currency,
        post.accounts@[tidx].balance.v() == pre.accounts@[tidx].balance.v() + t2.amount.v(),
        post.total_magnitude.v() == pre.total_magnitude.v() + 2 * t2.amount.v(),
        post.categories@ == pre.categories@,
        post.budgets@ == pre.budgets@,
        post.next_account_id == pre.next_account_id,
        post.next_category_id == pre.next_category_id,
        post.next_budget_id == pre.next_budget_id,
    ensures
        post.wf(),
{
    let mid = pre.transactions@.push(t1);
    let tid = transaction_ids(post.transactions@);
    let n = pre.transactions@.len() as int;
    assert(tid =~= transaction_ids(pre.transactions@).push(t1.id as int).push(t2.id as int));
    assert forall|x: int, y: int| 0 <= x < y < tid.len() implies tid[x] < tid[y] by {
        if y < n {
            assert(transaction_ids(pre.transactions@)[x] < transaction_ids(pre.transactions@)[y]);
        } else {
            if x < n {
                assert(tid[x] == pre.transactions@[x].id as int);
                assert(pre.transactions@[x].id < pre.next_transaction_id);
            }
        }
    }
    assert(account_ids(post.accounts@) =~= account_ids(pre.accounts@));
    lemma_txn_abs_sum_push(pre.transactions@, t1);
    lemma_txn_abs_sum_push(mid, t2);
    assert forall|i: int|
        0 <= i < post.transactions@.len() implies {
        let x = #[trigger] post.transactions@[i];
        1 <= x.id < post.next_transaction_id && 1 <= x.account_id < post.next_account_id
            && x.amount.wf() && x.amount.v() != 0 && x.date.wf() && (x.kind is Income
            ==> x.amount.v() > 0) && (x.kind is Expense ==> x.amount.v() < 0)
    } by {
        if i < n {
            assert(post.transactions@[i] == pre.transactions@[i]);
        } else if i == n {
            assert(post.transactions@[i] == t1);
            assert(1 <= pre.accounts@[fidx].id < pre.next_account_id);
        } else {
            assert(post.transactions@[i] == t2);
            assert(1 <= pre.accounts@[tidx].id < pre.next_account_id);
        }
    }
    assert forall|i: int|
        0 <= i < post.accounts@.len() implies {
        let a = #[trigger] post.accounts@[i];
        1 <= a.id < post.next_account_id && valid_name(a.name@) && a.balance.wf() && a.balance.v()
            == txn_sum(post.transactions@, a.id as int)
    } by {
        let aid = post.accounts@[i].id as int;
        lemma_txn_sum_push(pre.transactions@, t1, aid);
        lemma_txn_sum_push(mid, t2, aid);
        lemma_txn_sum_bounded(post.transactions@, aid);
        if i != fidx && i != tidx {
            assert(post.accounts@[i] == pre.accounts@[i]);
            if pre.accounts@[i].id == t1.account_id {
                assert(account_ids(pre.accounts@)[i] == account_ids(pre.accounts@)[fidx]);
                assert(false);
            }
            if pre.accounts@[i].id == t2.account_id {
                assert(account_ids(pre.accounts@)[i] == account_ids(pre.accounts@)[tidx]);
                assert(false);
            }
        } else if i == fidx {
            if pre.accounts@[fidx].id == t2.account_id {
                assert(account_ids(pre.accounts@)[fidx] == account_ids(pre.accounts@)[tidx]);
                assert(false);
            }
        } else {
            if pre.accounts@[tidx].id == t1.account_id {
                assert(account_ids(pre.accounts@)[tidx] == account_ids(pre.accounts@)[fidx]);
                assert(false);
            }
        }
    }
}

/// How a successful transfer leaves the store: the two legs appended, the
/// source balance down and the destination balance up by the amount, the two
/// touched accounts otherwise kept word for word, and nothing else moved.
#[verifier::opaque]
pub open spec fn transfer_success_effect(
    pre: Ledger,
    post: Ledger,
    owner: int,
    req: TransferRequest,
    t1: Transaction,
    t2: Transaction,
) -> bool {
    let x = transfer_amount(req);
    let fidx = pre.account_index(owner, req.from_account_id as int);
    let tidx = pre.account_index(owner, req.to_account_id as int);
    &&& t1.id == pre.next_transaction_id
    &&& t2.id as int == pre.next_transaction_id + 1
    &&& t1.user_id == owner
    &&& t2.user_id == owner
    &&& t1.account_id == req.from_account_id
    &&& t2.account_id == req.to_account_id
    &&& t1.category_id is None
    &&& t2.category_id is None
    &&& t1.amount.v() == -x
    &&& t2.amount.v() == x
    &&& t1.kind is Transfer
    &&& t2.kind is Transfer
    &&& t2.date == t1.date
    &&& (t1.description matches Some(d) && d@ == (match req.description {
        Some(given) => given@,
        Option::<String>::None => transfer_description(
            req.from_account_id as int,
            req.to_account_id as int,
        ),
    }))
    &&& (t2.description matches Some(d) && d@ == (match req.description {
        Some(given) => given@,
        Option::<String>::None => transfer_description(
            req.from_account_id as int,
            req.to_account_id as int,
        ),
    }))
    &&& post.transactions@ == pre.transactions@.push(t1).push(t2)
    &&& post.next_transaction_id as int == pre.next_transaction_id + 2
    &&& post.accounts@.len() == pre.accounts@.len()
    &&& forall|i: int|
        0 <= i < pre.accounts@.len() && i != fidx && i != tidx ==> post.accounts@[i]
            == pre.accounts@[i]
    &&& post.accounts@[fidx].balance.v() == pre.accounts@[fidx].balance.v() - x
    &&& post.accounts@[tidx].balance.v() == pre.accounts@[tidx].balance.v() + x
    &&& post.accounts@[fidx].id == pre.accounts@[fidx].id
    &&& post.accounts@[fidx].user_id == pre.accounts@[fidx].user_id
    &&& post.accounts@[fidx].name == pre.accounts@[fidx].name
    &&& post.accounts@[fidx].currency == pre.accounts@[fidx].currency
    &&& post.accounts@[tidx].id == pre.accounts@[tidx].id
    &&& post.accounts@[tidx].user_id == pre.accounts@[tidx].user_id
    &&& post.accounts@[tidx].name == pre.accounts@[tidx].name
    &&& post.accounts@[tidx].currency == pre.accounts@[tidx].currency
    &&& post.total_magnitude.v() == pre.total_magnitude.v() + 2 * x
    &&& post.categories@ == pre.categories@
    &&& post.budgets@ == pre.budgets@
    &&& post.next_account_id == pre.next_account_id
    &&& post.next_category_id == pre.next_category_id
    &&& post.next_budget_id == pre.next_budget_id
}

/// The constructed legs and applied deltas make up the transfer's exact
/// footprint.
proof fn lemma_transfer_success_composition(
    pre: Ledger,
    post: Ledger,
    owner: int,
    req: TransferRequest,
    t1: Transaction,
    t2: Transaction,
    fidx: int,
    tidx: int,
)
    requires
        fidx == pre.account_index(owner, req.from_account_id as int),
        tidx == pre.account_index(owner, req.to_account_id as int),
        0 <= fidx < pre.accounts@.len(),
        0 <= tidx < pre.accounts@.len(),
        fidx != tidx,
        t1.id == pre.next_transaction_id,
        t2.id as int == pre.next_transaction_id + 1,
        t1.user_id == owner,
        t2.user_id == owner,
        t1.account_id == req.from_account_id,
        t2.account_id == req.to_account_id,
        t1.category_id is None,
        t2.category_id is None,
        t1.amount.v() == -transfer_amount(req),
        t2.amount.v() == transfer_amount(req),
        t1.kind is Transfer,
        t2.kind is Transfer,
        t2.date == t1.date,
        t1.description matches Some(d) && d@ == (match req.description {
            Some(given) => given@,
            Option::<String>::None => transfer_description(
                req.from_account_id as int,
                req.to_account_id as int,
            ),
        }),
        t2.description matches Some(d) && d@ == (match req.description {
            Some(given) => given@,
            Option::<String>::None => transfer_description(
                req.from_account_id as int,
                req.to_account_id as int,
            ),
        }),
        post.transactions@ == pre.transactions@.push(t1).push(t2),
        post.next_transaction_id as int == pre.next_transaction_id + 2,
        post.accounts@.len() == pre.accounts@.len(),
        forall|i: int|
            0 <= i < pre.accounts@.len() && i != fidx && i != tidx ==> post.accounts@[i]
                == pre.accounts@[i],
        post.accounts@[fidx].balance.v() == pre.accounts@[fidx].balance.v() - transfer_amount(req),
        post.accounts@[tidx].balance.v() == pre.accounts@[tidx].balance.v() + transfer_amount(req),
        post.accounts@[fidx].id == pre.accounts@[fidx].id,
        post.accounts@[fidx].user_id == pre.accounts@[fidx].user_id,
        post.accounts@[fidx].name == pre.accounts@[fidx].name,
        post.accounts@[fidx].currency == pre.accounts@[fidx].currency,
        post.accounts@[tidx].id == pre.accounts@[tidx].id,
        post.accounts@[tidx].user_id == pre.accounts@[tidx].user_id,
        post.accounts@[tidx].name == pre.accounts@[tidx].name,
        post.accounts@[tidx].currency == pre.accounts@[tidx].currency,
        post.total_magnitude.v() == pre.total_magnitude.v() + 2 * transfer_amount(req),
        post.categories@ == pre.categories@,
        post.budgets@ == pre.budgets@,
        post.next_account_id == pre.next_account_id,
        post.next_category_id == pre.next_category_id,
        post.next_budget_id == pre.next_budget_id,
    ensures
        transfer_success_effect(pre, post, owner, req, t1, t2),
{
    reveal(transfer_success_effect);
}

impl Ledger {
    /// Moves a positive amount between two distinct accounts of the caller:
    /// a negative leg on the source and a positive leg on the destination,
    /// both of the transfer kind, sharing one date and description. All four
    /// effects appear together, or none does; a source balance below the
    /// amount fails the transfer with the observed balance attached.
    #[verifier::spinoff_prover]
    #[verifier::rlimit(30)]
    pub fn transfer(&mut self, owner: i32, req: &TransferRequest, today: Date) -> (r: Result<
        (Transaction, Transaction),
        LedgerError,
    >)
        requires
            old(self).wf(),
            today.wf(),
        ensures
            final(self).wf(),
            match transfer_error(*old(self), owner as int, *req) {
                Some(e) => r == Err::<(Transaction, Transaction), LedgerError>(e) && final(self).unchanged(*old(self)),
                None => match r {
                    Ok((t1, t2)) => {
                        &&& transfer_success_effect(*old(self), *final(self), owner as int, *req, t1, t2)
                        &&& t1.date == transfer_date(*req, today)
                        &&& t2.date == t1.date
                    },
                    Err(_) => false,
                },
            },
    {
        let ghost pre = *old(self);
        let fidx = match self.find_account(owner, req.from_account_id) {
            Some(i) => i,
            None => {
                proof {
                    reveal(transfer_error);
                }
                return Err(LedgerError::NotFound(EntityKind::FromAccount, RefAction::Use));
            },
        };
        let tidx = match self.find_account(owner, req.to_account_id) {
            Some(i) => i,
            None => {
                proof {
                    reveal(transfer_error);
                }
                return Err(LedgerError::NotFound(EntityKind::ToAccount, RefAction::Use));
            },
        };
        if req.from_account_id == req.to_account_id {
            proof {
                reveal(transfer_error);
            }
            return Err(LedgerError::SameAccount);
        }
        let amount = match Money::parse_trimmed(req.amount.as_str()) {
            Some(m) => m,
            None => {
                proof {
                    reveal(transfer_error);
                }
                return Err(LedgerError::BadAmount);
            },
        };
        if !amount.is_positive() {
            proof {
                reveal(transfer_error);
            }
            return Err(LedgerError::NonPositiveTransferAmount);
        }
        let from_balance = self.accounts[fidx].balance;
        if from_balance.less_than(&amount) {
            proof {
                reveal(transfer_error);
            }
            return Err(LedgerError::InsufficientFunds { balance: from_balance, requested: amount });
        }
        let date = match &req.date {
            Some(ds) => match crate::dates::parse_date(ds.as_str()) {
                Some(d) => d,
                None => {
                    proof {
                        reveal(transfer_error);
                    }
                    return Err(LedgerError::BadDate);
                },
            },
            None => today,
        };
        if self.next_transaction_id > i32::MAX - 2 {
            proof {
                reveal(transfer_error);
            }
            return Err(LedgerError::OutOfRange);
        }
        let total_one = match self.total_magnitude.checked_add(&amount) {
            Some(t) => t,
            None => {
                proof {
                    reveal(transfer_error);
                }
                return Err(LedgerError::OutOfRange);
            },
        };
        let total_two = match total_one.checked_add(&amount) {
            Some(t) => t,
            None => {
                proof {
                    reveal(transfer_error);
                }
                return Err(LedgerError::OutOfRange);
            },
        };
        proof {
            reveal(transfer_error);
            assert(transfer_error(pre, owner as int, *req) is None);
        }
        let description = match &req.description {
            Some(d) => d.clone(),
            None => {
                proof {
                    assert(self.accounts@[fidx as int].id >= 1);
                    assert(self.accounts@[tidx as int].id >= 1);
                }
                transfer_description_text(req.from_account_id, req.to_account_id)
            },
        };
        let from_id = self.accounts[fidx].id;
        let to_id = self.accounts[tidx].id;
        let id = self.next_transaction_id;
        let neg_amount = amount.negated();
        let new_from_balance = match from_balance.checked_sub(&amount) {
            Some(b) => b,
            None => {
                proof {
                    assert(false);
                }
                return Err(LedgerError::OutOfRange);
            },
        };
        let to_balance = self.accounts[tidx].balance;
        let new_to_balance = match to_balance.checked_add(&amount) {
            Some(b) => b,
            None => {
                proof {
                    let gt1 = Transaction {
                        id,
                        user_id: owner,
                        account_id: from_id,
                        category_id: None,
                        amount: neg_amount,
                        kind: TransactionKind::Transfer,
                        date,
                        description: Option::<String>::None,
                    };
                    let gt2 = Transaction {
                        id: (id + 1) as i32,
                        user_id: owner,
                        account_id: to_id,
                        category_id: None,
                        amount,
                        kind: TransactionKind::Transfer,
                        date,
                        description: Option::<String>::None,
                    };
                    let mid = self.transactions@.push(gt1);
                    lemma_txn_sum_push(self.transactions@, gt1, to_id as int);
                    lemma_txn_sum_push(mid, gt2, to_id as int);
                    lemma_txn_sum_bounded(mid.push(gt2), to_id as int);
                    lemma_txn_abs_sum_push(self.transactions@, gt1);
                    lemma_txn_abs_sum_push(mid, gt2);
                    if self.accounts@[fidx as int].id == to_id {
                        assert(account_ids(self.accounts@)[fidx as int] == account_ids(
                            self.accounts@,
                        )[tidx as int]);
                        assert(false);
                    }
                    assert(false);
                }
                return Err(LedgerError::OutOfRange);
            },
        };
        let t1_stored = Transaction {
            id,
            user_id: owner,
            account_id: from_id,
            category_id: None,
            amount: neg_amount,
            kind: TransactionKind::Transfer,
            date,
            description: Some(description.clone()),
        };
        let t2_stored = Transaction {
            id: id + 1,
            user_id: owner,
            account_id: to_id,
            category_id: None,
            amount,
            kind: TransactionKind::Transfer,
            date,
            description: Some(description.clone()),
        };
        let ghost gt1 = t1_stored;
        let ghost gt2 = t2_stored;
        let t1_returned = Transaction {
            id,
            user_id: owner,
            account_id: from_id,
            category_id: None,
            amount: neg_amount,
            kind: TransactionKind::Transfer,
            date,
            description: Some(description.clone()),
        };
        let t2_returned = Transaction {
            id: id + 1,
            user_id: owner,
            account_id: to_id,
            category_id: None,
            amount,
            kind: TransactionKind::Transfer,
            date,
            description: Some(description),
        };
        let prev_from = &self.accounts[fidx];
        let bumped_from = Account {
            id: prev_from.id,
            user_id: prev_from.user_id,
            name: prev_from.name.clone(),
            currency: prev_from.currency.clone(),
            balance: new_from_balance,
        };
        let prev_to = &self.accounts[tidx];
        let bumped_to = Account {
            id: prev_to.id,
            user_id: prev_to.user_id,
            name: prev_to.name.clone(),
            currency: prev_to.currency.clone(),
            balance: new_to_balance,
        };
        self.transactions.push(t1_stored);
        self.transactions.push(t2_stored);
        self.accounts.set(fidx, bumped_from);
        self.accounts.set(tidx, bumped_to);
        self.next_transaction_id = id + 2;
        self.total_magnitude = total_two;
        proof {
            lemma_transfer_wf(pre, *self, gt1, gt2, fidx as int, tidx as int);
            lemma_transfer_success_composition(
                pre,
                *self,
                owner as int,
                *req,
                t1_returned,
                t2_returned,
                fidx as int,
                tidx as int,
            );
        }
        Ok((t1_returned, t2_returned))
    }

    /// Moves an amount between two accounts, dated today when the request
    /// names no date; the current date is read from the clock. Apart from
    /// the date's source, it keeps the full transfer contract.
    pub fn transfer_now(&mut self, owner: i32, req: &TransferRequest) -> (r: Result<
        (Transaction, Transaction),
        LedgerError,
    >)
        requires
            old(self).wf(),
        ensures
            final(self).wf(),
            match transfer_error(*old(self), owner as int, *req) {
                Some(e) => r == Err::<(Transaction, Transaction), LedgerError>(e) && final(self).unchanged(*old(self)),
                None => match r {
                    Ok((t1, t2)) => {
                        &&& transfer_success_effect(*old(self), *final(self), owner as int, *req, t1, t2)
                        &&& t1.date.wf()
                        &&& t2.date == t1.date
                    },
                    Err(_) => false,
                },
            },
    {
        let today = crate::dates::chrono_today();
        let r = self.transfer(owner, req, today);
        proof {
            reveal(transfer_success_effect);
        }
        r
    }
}

} // verus!
