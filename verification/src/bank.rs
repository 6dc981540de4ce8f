use crate::processor::Command;
use crate::processor::Query;
use crate::storage::ExactClone;
use vstd::prelude::*;

verus! {

/// A money amount, counted in whole currency units.
#[derive(Clone, Copy, PartialEq, Eq, Structural, Debug)]
pub struct Amount {
    pub units: i64,
}

impl Amount {
    pub fn new(units: i64) -> (r: Self)
        ensures
            r.units == units,
    {
        Amount { units }
    }

    pub fn zero() -> (r: Self)
        ensures
            r.units == 0,
    {
        Amount { units: 0 }
    }
}

impl View for Amount {
    type V = int;

    open spec fn view(&self) -> int {
        self.units as int
    }
}

impl DeepView for Amount {
    type V = int;

    open spec fn deep_view(&self) -> int {
        self.units as int
    }
}

/// An amount that a balance can hold.
pub open spec fn fits_amount(x: int) -> bool {
    i64::MIN <= x <= i64::MAX
}

/// The abstract content of one account.
pub ghost struct AccountV {
    pub id: Seq<char>,
    pub name: Seq<char>,
    pub balance: int,
}

/// One bank account: an identifier, a holder name and a balance.
#[derive(Debug, PartialEq, Eq)]
pub struct Account {
    pub id: String,
    pub name: String,
    pub balance: Amount,
}

impl Account {
    pub fn new(id: String, name: String) -> (r: Self)
        ensures
            r@ == (AccountV { id: id@, name: name@, balance: 0 }),
    {
        Account { id, name, balance: Amount::zero() }
    }
}

impl View for Account {
    type V = AccountV;

    open spec fn view(&self) -> AccountV {
        AccountV { id: self.id@, name: self.name@, balance: self.balance@ }
    }
}

impl DeepView for Account {
    type V = AccountV;

    open spec fn deep_view(&self) -> AccountV {
        self@
    }
}

impl Clone for Account {
    fn clone(&self) -> (r: Self)
        ensures
            r == *self,
    {
        Account { id: self.id.clone(), name: self.name.clone(), balance: self.balance }
    }
}

/// The example domain's system state: a collection of accounts, at most
/// one per account id.
#[derive(Debug, PartialEq, Eq)]
pub struct Bank {
    pub accounts: Vec<Account>,
}

impl Bank {
    pub fn new() -> (r: Self)
        ensures
            r@ =~= Seq::<AccountV>::empty(),
    {
        Bank { accounts: Vec::new() }
    }

    /// At most one account per id.  `Bank::new` establishes this and every
    /// command preserves it (`lemma_apply_preserves_wf`).
    pub open spec fn wf(&self) -> bool {
        distinct_ids(self@)
    }

    /// The index of the account with `id`, if any.
    fn position_of(&self, id: &String) -> (r: Option<usize>)
        ensures
            match r {
                Some(i) => {
                    &&& i < self.accounts@.len()
                    &&& self@[i as int].id == id@
                    &&& find_acct(self@, id@) == Some(i as int)
                },
                None => find_acct(self@, id@) is None,
            },
            self@.len() == self.accounts@.len(),
    {
        let mut i: usize = 0;
        while i < self.accounts.len()
            invariant
                0 <= i <= self.accounts.len(),
                self@.len() == self.accounts.len(),
                find_acct(self@, id@) == find_acct_from(self@, id@, i as int),
            decreases self.accounts.len() - i,
        {
            if self.accounts[i].id == *id {
                assert(self@[i as int].id == id@);
                return Some(i);
            }
            i = i + 1;
        }
        None
    }

    /// The account with `id`, if any.
    pub fn account(&self, id: &String) -> (r: Option<&Account>)
        ensures
            match r {
                Some(a) => find_acct(self@, id@) matches Some(i) && a@ == self@[i],
                None => find_acct(self@, id@) is None,
            },
    {
        match self.position_of(id) {
            Some(i) => Some(&self.accounts[i]),
            None => None,
        }
    }

    /// Credit `amount` to the account with `account_id`.
    fn deposit_to(&mut self, account_id: &String, amount: Amount) -> (r: Result<(), BankError>)
        ensures
            r is Ok <==> deposit_v(old(self)@, *account_id, amount) is Ok,
            r is Ok ==> final(self)@ == deposit_v(old(self)@, *account_id, amount)->Ok_0,
            r is Err ==> r->Err_0 == deposit_v(old(self)@, *account_id, amount)->Err_0,
            r is Err ==> final(self)@ == old(self)@,
    {
        match self.position_of(account_id) {
            None => Err(BankError::AccountNotFound { account_id: account_id.clone() }),
            Some(i) => {
                let a = &self.accounts[i];
                match a.balance.units.checked_add(amount.units) {
                    None => Err(BankError::BalanceOverflow { account_id: account_id.clone() }),
                    Some(nb) => {
                        let updated = Account {
                            id: a.id.clone(),
                            name: a.name.clone(),
                            balance: Amount { units: nb },
                        };
                        self.accounts[i] = updated;
                        proof {
                            assert(final(self)@ =~= deposit_v(
                                old(self)@,
                                *account_id,
                                amount,
                            )->Ok_0);
                        }
                        Ok(())
                    },
                }
            },
        }
    }

    /// Debit `amount` from the account with `account_id`, refusing to
    /// leave it with less than nothing of the requested amount.
    fn withdraw_from(&mut self, account_id: &String, amount: Amount) -> (r: Result<
        (),
        BankError,
    >)
        ensures
            r is Ok <==> withdraw_v(old(self)@, *account_id, amount) is Ok,
            r is Ok ==> final(self)@ == withdraw_v(old(self)@, *account_id, amount)->Ok_0,
            r is Err ==> r->Err_0 == withdraw_v(old(self)@, *account_id, amount)->Err_0,
            r is Err ==> final(self)@ == old(self)@,
    {
        match self.position_of(account_id) {
            None => Err(BankError::AccountNotFound { account_id: account_id.clone() }),
            Some(i) => {
                let a = &self.accounts[i];
                if a.balance.units < amount.units {
                    return Err(
                        BankError::InsufficientFunds {
                            balance: a.balance,
                            requested: amount,
                        },
                    );
                }
                match a.balance.units.checked_sub(amount.units) {
                    None => Err(BankError::BalanceOverflow { account_id: account_id.clone() }),
                    Some(nb) => {
                        let updated = Account {
                            id: a.id.clone(),
                            name: a.name.clone(),
                            balance: Amount { units: nb },
                        };
                        self.accounts[i] = updated;
                        proof {
                            assert(final(self)@ =~= withdraw_v(
                                old(self)@,
                                *account_id,
                                amount,
                            )->Ok_0);
                        }
                        Ok(())
                    },
                }
            },
        }
    }
}

impl Default for Bank {
    fn default() -> (r: Self)
        ensures
            r@ =~= Seq::<AccountV>::empty(),
    {
        Bank::new()
    }
}

impl View for Bank {
    type V = Seq<AccountV>;

    open spec fn view(&self) -> Seq<AccountV> {
        self.accounts.deep_view()
    }
}

impl Clone for Bank {
    fn clone(&self) -> (r: Self)
        ensures
            r@ == self@,
    {
        let copy = self.accounts.clone();
        proof {
            assert forall|i: int| 0 <= i < copy@.len() implies copy@[i] == self.accounts@[i] by {
                let a = self.accounts@[i];
                let b = copy@[i];
                if !(a == b) {
                    assert(vstd::pervasive::strictly_cloned(a, b));
                }
            }
            assert(copy.deep_view() =~= self.accounts.deep_view());
        }
        Bank { accounts: copy }
    }
}

/// No two accounts share an id.
pub open spec fn distinct_ids(s: Seq<AccountV>) -> bool {
    forall|i: int, j: int| 0 <= i < j < s.len() ==> s[i].id != s[j].id
}

/// The first index at or past `pos` whose account has `id`.
pub open spec fn find_acct_from(s: Seq<AccountV>, id: Seq<char>, pos: int) -> Option<int>
    decreases s.len() - pos,
{
    if pos < 0 || pos >= s.len() {
        None
    } else if s[pos].id == id {
        Some(pos)
    } else {
        find_acct_from(s, id, pos + 1)
    }
}

/// The index of the account with `id`, if any.
pub open spec fn find_acct(s: Seq<AccountV>, id: Seq<char>) -> Option<int> {
    find_acct_from(s, id, 0)
}

/// What `find_acct_from` finds: the first match, or the absence of any.
pub proof fn lemma_find_acct_from(s: Seq<AccountV>, id: Seq<char>, pos: int)
    requires
        0 <= pos <= s.len(),
    ensures
        match find_acct_from(s, id, pos) {
            Some(i) => pos <= i < s.len() && s[i].id == id && (forall|k: int|
                pos <= k < i ==> s[k].id != id),
            None => forall|k: int| pos <= k < s.len() ==> s[k].id != id,
        },
    decreases s.len() - pos,
{
    if pos < s.len() && !(s[pos].id == id) {
        lemma_find_acct_from(s, id, pos + 1);
    }
}

/// Opening an account: a fresh zero-balance account under `id`, replacing
/// any account that already held that id.
pub open spec fn create_v(s: Seq<AccountV>, id: Seq<char>, name: Seq<char>) -> Seq<AccountV> {
    let fresh = AccountV { id, name, balance: 0 };
    match find_acct(s, id) {
        Some(i) => s.update(i, fresh),
        None => s.push(fresh),
    }
}

/// Crediting an account: fails if the id is unknown or the new balance
/// would not fit.
pub open spec fn deposit_v(s: Seq<AccountV>, account_id: String, amount: Amount) -> Result<
    Seq<AccountV>,
    BankError,
> {
    match find_acct(s, account_id@) {
        None => Err(BankError::AccountNotFound { account_id }),
        Some(i) => {
            let nb = s[i].balance + amount@;
            if fits_amount(nb) {
                Ok(s.update(i, AccountV { balance: nb, ..s[i] }))
            } else {
                Err(BankError::BalanceOverflow { account_id })
            }
        },
    }
}

/// Debiting an account: fails if the id is unknown, the balance is below
/// the requested amount, or the new balance would not fit.
pub open spec fn withdraw_v(s: Seq<AccountV>, account_id: String, amount: Amount) -> Result<
    Seq<AccountV>,
    BankError,
> {
    match find_acct(s, account_id@) {
        None => Err(BankError::AccountNotFound { account_id }),
        Some(i) => {
            if s[i].balance < amount@ {
                Err(
                    BankError::InsufficientFunds {
                        balance: Amount { units: s[i].balance as i64 },
                        requested: amount,
                    },
                )
            } else {
                let nb = s[i].balance - amount@;
                if fits_amount(nb) {
                    Ok(s.update(i, AccountV { balance: nb, ..s[i] }))
                } else {
                    Err(BankError::BalanceOverflow { account_id })
                }
            }
        },
    }
}

/// Why a bank command or query was rejected.
#[derive(Debug, PartialEq, Eq)]
pub enum BankError {
    /// No account holds the given id.
    AccountNotFound { account_id: String },
    /// A debit asked for more than the account holds.
    InsufficientFunds { balance: Amount, requested: Amount },
    /// The balance after the operation would not fit in an `Amount`.
    BalanceOverflow { account_id: String },
    /// A log line does not hold an encoded command.
    MalformedEntry,
    /// A command holds text that cannot be carried on a single log line.
    UnencodableText,
    /// The storage backend could not be read or written.
    StorageUnavailable { message: String },
}

/// The abstract content of one command.
pub ghost enum BankCommandV {
    CreateAccount { id: Seq<char>, name: Seq<char> },
    Deposit { account_id: Seq<char>, amount: int },
    Withdrawal { account_id: Seq<char>, amount: int },
    Transfer { from_account_id: Seq<char>, to_account_id: Seq<char>, amount: int },
}

/// The state transitions of the example domain.
#[derive(Debug, PartialEq, Eq)]
pub enum BankCommand {
    CreateAccount { id: String, name: String },
    Deposit { account_id: String, amount: Amount },
    Withdrawal { account_id: String, amount: Amount },
    Transfer { from_account_id: String, to_account_id: String, amount: Amount },
}

impl DeepView for BankCommand {
    type V = BankCommandV;

    open spec fn deep_view(&self) -> BankCommandV {
        match self {
            BankCommand::CreateAccount { id, name } => BankCommandV::CreateAccount {
                id: id@,
                name: name@,
            },
            BankCommand::Deposit { account_id, amount } => BankCommandV::Deposit {
                account_id: account_id@,
                amount: amount@,
            },
            BankCommand::Withdrawal { account_id, amount } => BankCommandV::Withdrawal {
                account_id: account_id@,
                amount: amount@,
            },
            BankCommand::Transfer { from_account_id, to_account_id, amount } => {
                BankCommandV::Transfer {
                    from_account_id: from_account_id@,
                    to_account_id: to_account_id@,
                    amount: amount@,
                }
            },
        }
    }
}

impl Clone for BankCommand {
    fn clone(&self) -> (r: Self)
        ensures
            r == *self,
    {
        match self {
            BankCommand::CreateAccount { id, name } => BankCommand::CreateAccount {
                id: id.clone(),
                name: name.clone(),
            },
            BankCommand::Deposit { account_id, amount } => BankCommand::Deposit {
                account_id: account_id.clone(),
                amount: *amount,
            },
            BankCommand::Withdrawal { account_id, amount } => BankCommand::Withdrawal {
                account_id: account_id.clone(),
                amount: *amount,
            },
            BankCommand::Transfer { from_account_id, to_account_id, amount } => {
                BankCommand::Transfer {
                    from_account_id: from_account_id.clone(),
                    to_account_id: to_account_id.clone(),
                    amount: *amount,
                }
            },
        }
    }
}

impl ExactClone for BankCommand {
    proof fn lemma_clone_exact(a: Self, b: Self) {
        if !(a == b) {
            assert(vstd::pervasive::strictly_cloned(a, b));
        }
    }
}

impl Command for BankCommand {
    type System = Bank;

    type Failure = BankError;

    open spec fn apply_spec(&self, s: Seq<AccountV>) -> Result<Seq<AccountV>, BankError> {
        match self {
            BankCommand::CreateAccount { id, name } => Ok(create_v(s, id@, name@)),
            BankCommand::Deposit { account_id, amount } => deposit_v(s, *account_id, *amount),
            BankCommand::Withdrawal { account_id, amount } => withdraw_v(s, *account_id, *amount),
            BankCommand::Transfer { from_account_id, to_account_id, amount } => {
                match deposit_v(s, *to_account_id, *amount) {
                    Ok(s1) => withdraw_v(s1, *from_account_id, *amount),
                    Err(e) => Err(e),
                }
            },
        }
    }

    proof fn lemma_clone_view(s: Bank, c: Bank) {
        if !(s == c) {
            assert(vstd::pervasive::strictly_cloned(s, c));
        }
    }

    fn apply_to(&self, system: &mut Bank) -> (r: Result<(), BankError>) {
        match self {
            BankCommand::CreateAccount { id, name } => {
                let fresh = Account::new(id.clone(), name.clone());
                match system.position_of(id) {
                    Some(i) => {
                        system.accounts[i] = fresh;
                        proof {
                            assert(final(system)@ =~= create_v(old(system)@, id@, name@));
                        }
                    },
                    None => {
                        system.accounts.push(fresh);
                        proof {
                            assert(final(system)@ =~= create_v(old(system)@, id@, name@));
                        }
                    },
                }
                Ok(())
            },
            BankCommand::Deposit { account_id, amount } => system.deposit_to(account_id, *amount),
            BankCommand::Withdrawal { account_id, amount } => {
                system.withdraw_from(account_id, *amount)
            },
            BankCommand::Transfer { from_account_id, to_account_id, amount } => {
                match system.deposit_to(to_account_id, *amount) {
                    Ok(()) => system.withdraw_from(from_account_id, *amount),
                    Err(e) => Err(e),
                }
            },
        }
    }
}

/// Every command preserves the bank's invariant: applying a command to a
/// state with distinct account ids yields a state with distinct ids.
pub proof fn lemma_apply_preserves_wf(c: BankCommand, s: Seq<AccountV>)
    requires
        distinct_ids(s),
        c.apply_spec(s) is Ok,
    ensures
        distinct_ids(c.apply_spec(s)->Ok_0),
{
    match c {
        BankCommand::CreateAccount { id, name } => {
            lemma_find_acct_from(s, id@, 0);
            let t = create_v(s, id@, name@);
            match find_acct(s, id@) {
                Some(i) => {
                    assert forall|a: int, b: int| 0 <= a < b < t.len() implies t[a].id
                        != t[b].id by {
                        assert(s[a].id != s[b].id);
                    }
                },
                None => {
                    assert forall|a: int, b: int| 0 <= a < b < t.len() implies t[a].id
                        != t[b].id by {
                        if b < s.len() {
                            assert(s[a].id != s[b].id);
                        } else {
                            assert(s[a].id != id@);
                        }
                    }
                },
            }
        },
        BankCommand::Deposit { account_id, amount } => {
            lemma_deposit_distinct(s, account_id, amount);
        },
        BankCommand::Withdrawal { account_id, amount } => {
            lemma_withdraw_distinct(s, account_id, amount);
        },
        BankCommand::Transfer { from_account_id, to_account_id, amount } => {
            lemma_deposit_distinct(s, to_account_id, amount);
            lemma_withdraw_distinct(
                deposit_v(s, to_account_id, amount)->Ok_0,
                from_account_id,
                amount,
            );
        },
    }
}

/// A successful credit changes one balance and no ids.
proof fn lemma_deposit_distinct(s: Seq<AccountV>, account_id: String, amount: Amount)
    requires
        distinct_ids(s),
        deposit_v(s, account_id, amount) is Ok,
    ensures
        distinct_ids(deposit_v(s, account_id, amount)->Ok_0),
{
    lemma_find_acct_from(s, account_id@, 0);
    let t = deposit_v(s, account_id, amount)->Ok_0;
    assert forall|a: int, b: int| 0 <= a < b < t.len() implies t[a].id != t[b].id by {
        assert(s[a].id != s[b].id);
    }
}

/// A successful debit changes one balance and no ids.
proof fn lemma_withdraw_distinct(s: Seq<AccountV>, account_id: String, amount: Amount)
    requires
        distinct_ids(s),
        withdraw_v(s, account_id, amount) is Ok,
    ensures
        distinct_ids(withdraw_v(s, account_id, amount)->Ok_0),
{
    lemma_find_acct_from(s, account_id@, 0);
    let t = withdraw_v(s, account_id, amount)->Ok_0;
    assert forall|a: int, b: int| 0 <= a < b < t.len() implies t[a].id != t[b].id by {
        assert(s[a].id != s[b].id);
    }
}

/// Read one whole account by id.
#[derive(Debug)]
pub struct GetAccount {
    pub account_id: String,
}

impl Query for GetAccount {
    type System = Bank;

    type Output = Option<Account>;

    type Failure = BankError;

    open spec fn query_spec(&self, s: Seq<AccountV>) -> Result<Option<AccountV>, BankError> {
        match find_acct(s, self.account_id@) {
            Some(i) => Ok(Some(s[i])),
            None => Ok(None),
        }
    }

    fn extract_from(&self, system: &Bank) -> (r: Result<Option<Account>, BankError>) {
        match system.account(&self.account_id) {
            Some(a) => Ok(Some(a.clone())),
            None => Ok(None),
        }
    }
}

/// Read one account's balance by id; unknown ids are a failure.
#[derive(Debug)]
pub struct GetBalance {
    pub account_id: String,
}

impl Query for GetBalance {
    type System = Bank;

    type Output = Amount;

    type Failure = BankError;

    open spec fn query_spec(&self, s: Seq<AccountV>) -> Result<int, BankError> {
        match find_acct(s, self.account_id@) {
            Some(i) => Ok(s[i].balance),
            None => Err(BankError::AccountNotFound { account_id: self.account_id }),
        }
    }

    fn extract_from(&self, system: &Bank) -> (r: Result<Amount, BankError>) {
        match system.account(&self.account_id) {
            Some(a) => Ok(a.balance),
            None => Err(BankError::AccountNotFound { account_id: self.account_id.clone() }),
        }
    }
}

/// Read every account.
#[derive(Debug)]
pub struct ListAccounts;

impl Query for ListAccounts {
    type System = Bank;

    type Output = Vec<Account>;

    type Failure = BankError;

    open spec fn query_spec(&self, s: Seq<AccountV>) -> Result<Seq<AccountV>, BankError> {
        Ok(s)
    }

    fn extract_from(&self, system: &Bank) -> (r: Result<Vec<Account>, BankError>) {
        let copy = system.clone();
        let r = copy.accounts;
        proof {
            assert(r.deep_view() =~= system@);
        }
        Ok(r)
    }
}



} // verus!
