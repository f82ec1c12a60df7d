//! The table of balances by account and token, and how the flat answer of the
//! balance checker contract is cut into it.

use vstd::prelude::*;
use crate::address::Address;
use crate::error::BalanceError;
use crate::lookup::{
    by_last_position, last_position, lemma_last_position, lemma_last_position_is,
    lemma_last_position_push, AddressMap,
};
use crate::word::Balance;

verus! {

/// The balances of one account, by token.
pub type TokenBalances = AddressMap<Balance>;

/// The map from each token of `tokens` to the balance that stands in `flat` at
/// `start` plus the token's last position.
pub open spec fn balances_from(tokens: Seq<Address>, flat: Seq<Balance>, start: int) -> Map<
    Address,
    Balance,
> {
    by_last_position(tokens, |j: int| flat[start + j])
}

/// The table that a flat, row-major sequence of balances stands for: each
/// account is mapped to the row at its last position, each token of the row to
/// the balance at the token's last position.
pub open spec fn reshaped(accounts: Seq<Address>, tokens: Seq<Address>, flat: Seq<Balance>) -> Map<
    Address,
    Map<Address, Balance>,
> {
    by_last_position(accounts, |i: int| balances_from(tokens, flat, i * tokens.len()))
}

proof fn lemma_balances_from_push(
    tokens: Seq<Address>,
    added: Address,
    flat: Seq<Balance>,
    start: int,
)
    ensures
        balances_from(tokens.push(added), flat, start) == balances_from(tokens, flat, start).insert(
            added,
            flat[start + tokens.len()],
        ),
{
    let longer = balances_from(tokens.push(added), flat, start);
    let inserted = balances_from(tokens, flat, start).insert(added, flat[start + tokens.len()]);
    assert forall|key: Address| #[trigger]
        longer.contains_key(key) == inserted.contains_key(key) && (longer.contains_key(key)
            ==> longer[key] == inserted[key]) by {
        lemma_last_position_push(tokens, added, key);
    }
    assert(longer =~= inserted);
}

proof fn lemma_reshaped_push(
    accounts: Seq<Address>,
    added: Address,
    tokens: Seq<Address>,
    flat: Seq<Balance>,
)
    ensures
        reshaped(accounts.push(added), tokens, flat) == reshaped(accounts, tokens, flat).insert(
            added,
            balances_from(tokens, flat, (accounts.len() * tokens.len()) as int),
        ),
{
    let longer = reshaped(accounts.push(added), tokens, flat);
    let inserted = reshaped(accounts, tokens, flat).insert(
        added,
        balances_from(tokens, flat, (accounts.len() * tokens.len()) as int),
    );
    assert forall|key: Address| #[trigger]
        longer.contains_key(key) == inserted.contains_key(key) && (longer.contains_key(key)
            ==> longer[key] == inserted[key]) by {
        lemma_last_position_push(accounts, added, key);
    }
    assert(longer =~= inserted);
}

/// The balances of a set of accounts in a set of tokens.
#[derive(Debug)]
pub struct BalanceTable {
    rows: AddressMap<TokenBalances>,
}

impl BalanceTable {
    /// The table and each of its rows list every key once.
    pub closed spec fn wf(&self) -> bool {
        &&& self.rows.wf()
        &&& forall|account: Address| #[trigger]
            self.rows@.contains_key(account) ==> self.rows@[account].wf()
    }

    /// The table as a map from account to token to balance.
    pub closed spec fn view(&self) -> Map<Address, Map<Address, Balance>> {
        Map::new(
            |account: Address| self.rows@.contains_key(account),
            |account: Address| self.rows@[account]@,
        )
    }

    /// The accounts, in the order in which they first came.
    pub closed spec fn account_seq(&self) -> Seq<Address> {
        self.rows.key_seq()
    }

    /// The table without an account.
    pub fn new() -> (table: BalanceTable)
        ensures
            table.wf(),
            table@ == Map::<Address, Map<Address, Balance>>::empty(),
    {
        let table = BalanceTable { rows: AddressMap::new() };
        assert(table@ =~= Map::<Address, Map<Address, Balance>>::empty());
        table
    }

    /// Enters `row` for `account`, in place of the row that `account` had, if
    /// any.
    pub fn insert(&mut self, account: Address, row: TokenBalances)
        requires
            old(self).wf(),
            row.wf(),
        ensures
            final(self).wf(),
            final(self)@ == old(self)@.insert(account, row@),
    {
        let ghost before = *self;
        self.rows.insert(account, row);
        assert(self@ =~= before@.insert(account, row@));
    }

    /// The number of accounts.
    pub fn len(&self) -> (count: usize)
        requires
            self.wf(),
        ensures
            count == self@.len(),
    {
        proof {
            assert(self@.dom() =~= self.rows@.dom());
        }
        self.rows.len()
    }

    /// The accounts, each once, in the order in which they first came.
    pub fn accounts(&self) -> (listed: &Vec<Address>)
        requires
            self.wf(),
        ensures
            listed@ == self.account_seq(),
            listed@.no_duplicates(),
            forall|account: Address| listed@.contains(account) <==> self@.contains_key(account),
    {
        self.rows.keys()
    }

    /// The balances of `account`, if the table has the account.
    pub fn get(&self, account: &Address) -> (found: Option<&TokenBalances>)
        requires
            self.wf(),
        ensures
            match found {
                Some(row) => row.wf() && self@.contains_key(*account) && self@[*account] == row@,
                None => !self@.contains_key(*account),
            },
    {
        self.rows.get(account)
    }

    /// The balance of `account` in `token`, if the table has both.
    pub fn balance_of(&self, account: &Address, token: &Address) -> (found: Option<Balance>)
        requires
            self.wf(),
        ensures
            found == if self@.contains_key(*account) && self@[*account].contains_key(*token) {
                Some(self@[*account][*token])
            } else {
                None
            },
    {
        match self.rows.get(account) {
            Some(row) => match row.get(token) {
                Some(balance) => Some(*balance),
                None => None,
            },
            None => None,
        }
    }
}

/// Whether `values` balances are one for each of `accounts` accounts and
/// `tokens` tokens.
pub fn shape_matches(accounts: usize, tokens: usize, values: usize) -> (fits: bool)
    ensures
        fits == (values == accounts * tokens),
{
    match accounts.checked_mul(tokens) {
        Some(product) => product == values,
        None => false,
    }
}

/// The row of balances that starts at `start` in `flat`, by token.
fn row_from(tokens: &Vec<Address>, flat: &Vec<Balance>, start: usize) -> (row: TokenBalances)
    requires
        start + tokens@.len() <= flat@.len(),
    ensures
        row.wf(),
        row@ == balances_from(tokens@, flat@, start as int),
{
    let total = flat.len();
    let mut row = TokenBalances::new();
    let mut j: usize = 0;
    assert(row@ =~= balances_from(tokens@.take(0), flat@, start as int));
    while j < tokens.len()
        invariant
            total == flat@.len(),
            start + tokens@.len() <= total,
            j <= tokens@.len(),
            row.wf(),
            row@ == balances_from(tokens@.take(j as int), flat@, start as int),
        decreases tokens@.len() - j,
    {
        row.insert(tokens[j], flat[start + j]);
        proof {
            lemma_balances_from_push(tokens@.take(j as int), tokens@[j as int], flat@, start as int);
            assert(tokens@.take(j + 1) =~= tokens@.take(j as int).push(tokens@[j as int]));
        }
        j += 1;
    }
    assert(tokens@.take(j as int) =~= tokens@);
    row
}

/// Cuts the flat answer of the balance checker contract into a table. The
/// answer holds one row for each account, in the order of `accounts`, and each
/// row one balance for each token, in the order of `tokens`. Where an account or
/// a token is listed more than once, its last occurrence decides. An answer of
/// any other length is refused.
pub fn reformat(accounts: Vec<Address>, tokens: Vec<Address>, balances: Vec<Balance>) -> (outcome:
    Result<BalanceTable, BalanceError>)
    ensures
        match outcome {
            Ok(table) => {
                &&& balances@.len() == accounts@.len() * tokens@.len()
                &&& table.wf()
                &&& table@ == reshaped(accounts@, tokens@, balances@)
            },
            Err(error) => {
                &&& balances@.len() != accounts@.len() * tokens@.len()
                &&& error == (BalanceError::ShapeMismatch {
                    account_count: accounts@.len() as usize,
                    token_count: tokens@.len() as usize,
                    value_count: balances@.len() as usize,
                })
            },
        },
{
    let m = accounts.len();
    let n = tokens.len();
    let total = balances.len();
    if !shape_matches(m, n, total) {
        return Err(BalanceError::ShapeMismatch {
            account_count: m,
            token_count: n,
            value_count: total,
        });
    }
    let mut table = BalanceTable::new();
    let mut i: usize = 0;
    let mut start: usize = 0;
    assert(table@ =~= reshaped(accounts@.take(0), tokens@, balances@));
    while i < m
        invariant
            m == accounts@.len(),
            n == tokens@.len(),
            total == balances@.len(),
            total == m * n,
            i <= m,
            start == i * n,
            table.wf(),
            table@ == reshaped(accounts@.take(i as int), tokens@, balances@),
        decreases m - i,
    {
        assert(start + n + (m - i - 1) * n == m * n) by (nonlinear_arith)
            requires
                start == i * n,
        ;
        assert((m - i - 1) * n >= 0) by (nonlinear_arith)
            requires
                i < m,
                n >= 0,
        ;
        let row = row_from(&tokens, &balances, start);
        table.insert(accounts[i], row);
        proof {
            lemma_reshaped_push(accounts@.take(i as int), accounts@[i as int], tokens@, balances@);
            assert(accounts@.take(i + 1) =~= accounts@.take(i as int).push(accounts@[i as int]));
            assert((i + 1) * n == start + n) by (nonlinear_arith)
                requires
                    start == i * n,
            ;
        }
        i += 1;
        start += n;
    }
    assert(accounts@.take(i as int) =~= accounts@);
    Ok(table)
}

/// The accounts of the table are those that were asked for, and the tokens of
/// each row are those that were asked for.
pub proof fn lemma_reshaped_keys(accounts: Seq<Address>, tokens: Seq<Address>, flat: Seq<Balance>)
    ensures
        reshaped(accounts, tokens, flat).dom() == accounts.to_set(),
        forall|account: Address| #[trigger]
            reshaped(accounts, tokens, flat).contains_key(account) ==> reshaped(
                accounts,
                tokens,
                flat,
            )[account].dom() == tokens.to_set(),
{
    let table = reshaped(accounts, tokens, flat);
    assert(table.dom() =~= accounts.to_set());
    assert forall|account: Address| #[trigger] table.contains_key(account) implies table[account].dom()
        == tokens.to_set() by {
        assert(table[account].dom() =~= tokens.to_set());
    }
}

/// Whatever is listed twice, the table holds, for the account at position `i`
/// and the token at position `j`, the balance that stands in the row of the
/// account's last position at the token's last position.
pub proof fn lemma_reshaped_entry(
    accounts: Seq<Address>,
    tokens: Seq<Address>,
    flat: Seq<Balance>,
    i: int,
    j: int,
)
    requires
        0 <= i < accounts.len(),
        0 <= j < tokens.len(),
    ensures
        reshaped(accounts, tokens, flat).contains_key(accounts[i]),
        reshaped(accounts, tokens, flat)[accounts[i]].contains_key(tokens[j]),
        reshaped(accounts, tokens, flat)[accounts[i]][tokens[j]] == flat[last_position(
            accounts,
            accounts[i],
        ) * tokens.len() + last_position(tokens, tokens[j])],
        i <= last_position(accounts, accounts[i]) < accounts.len(),
        j <= last_position(tokens, tokens[j]) < tokens.len(),
{
    lemma_last_position(accounts, accounts[i]);
    lemma_last_position(tokens, tokens[j]);
}

/// Reshaping is correct: where the account at position `i` and the token at
/// position `j` are not listed again later, the table holds for them the
/// balance at `i * n + j` of the flat answer, `n` being the number of tokens.
pub proof fn lemma_reshape_correct(
    accounts: Seq<Address>,
    tokens: Seq<Address>,
    flat: Seq<Balance>,
    i: int,
    j: int,
)
    requires
        flat.len() == accounts.len() * tokens.len(),
        0 <= i < accounts.len(),
        0 <= j < tokens.len(),
        forall|k: int| i < k < accounts.len() ==> accounts[k] != accounts[i],
        forall|k: int| j < k < tokens.len() ==> tokens[k] != tokens[j],
    ensures
        reshaped(accounts, tokens, flat).contains_key(accounts[i]),
        reshaped(accounts, tokens, flat)[accounts[i]].contains_key(tokens[j]),
        reshaped(accounts, tokens, flat)[accounts[i]][tokens[j]] == flat[i * tokens.len() + j],
        0 <= i * tokens.len() + j < flat.len(),
{
    lemma_last_position_is(accounts, accounts[i], i);
    lemma_last_position_is(tokens, tokens[j], j);
    lemma_reshaped_entry(accounts, tokens, flat, i, j);
    let n = tokens.len() as int;
    let m = accounts.len() as int;
    assert(0 <= i * n + j < m * n) by (nonlinear_arith)
        requires
            0 <= i < m,
            0 <= j < n,
    ;
}

/// Where no account and no token is listed twice, the table holds for every
/// account and token the balance at the account's position times the number of
/// tokens plus the token's position.
pub proof fn lemma_reshape_correct_distinct(
    accounts: Seq<Address>,
    tokens: Seq<Address>,
    flat: Seq<Balance>,
)
    requires
        flat.len() == accounts.len() * tokens.len(),
        accounts.no_duplicates(),
        tokens.no_duplicates(),
    ensures
        forall|i: int, j: int|
            0 <= i < accounts.len() && 0 <= j < tokens.len() ==> {
                &&& reshaped(accounts, tokens, flat).contains_key(#[trigger] accounts[i])
                &&& reshaped(accounts, tokens, flat)[accounts[i]].contains_key(#[trigger] tokens[j])
                &&& reshaped(accounts, tokens, flat)[accounts[i]][tokens[j]] == flat[i
                    * tokens.len() + j]
            },
{
    assert forall|i: int, j: int| 0 <= i < accounts.len() && 0 <= j < tokens.len() implies {
        &&& reshaped(accounts, tokens, flat).contains_key(#[trigger] accounts[i])
        &&& reshaped(accounts, tokens, flat)[accounts[i]].contains_key(#[trigger] tokens[j])
        &&& reshaped(accounts, tokens, flat)[accounts[i]][tokens[j]] == flat[i * tokens.len() + j]
    } by {
        lemma_reshape_correct(accounts, tokens, flat, i, j);
    }
}

/// Of an account that is listed at `earlier` and again, for the last time, at
/// `later`, the table holds the row that was computed at `later`.
pub proof fn lemma_later_account_wins(
    accounts: Seq<Address>,
    tokens: Seq<Address>,
    flat: Seq<Balance>,
    earlier: int,
    later: int,
)
    requires
        0 <= earlier < later < accounts.len(),
        accounts[earlier] == accounts[later],
        forall|k: int| later < k < accounts.len() ==> accounts[k] != accounts[later],
    ensures
        reshaped(accounts, tokens, flat).contains_key(accounts[earlier]),
        reshaped(accounts, tokens, flat)[accounts[earlier]] == balances_from(
            tokens,
            flat,
            later * tokens.len(),
        ),
{
    lemma_last_position_is(accounts, accounts[later], later);
}

/// Of a token that is listed at `earlier` and again, for the last time, at
/// `later`, a row holds the balance that stands at `later`.
pub proof fn lemma_later_token_wins(
    tokens: Seq<Address>,
    flat: Seq<Balance>,
    start: int,
    earlier: int,
    later: int,
)
    requires
        0 <= earlier < later < tokens.len(),
        tokens[earlier] == tokens[later],
        forall|k: int| later < k < tokens.len() ==> tokens[k] != tokens[later],
    ensures
        balances_from(tokens, flat, start).contains_key(tokens[earlier]),
        balances_from(tokens, flat, start)[tokens[earlier]] == flat[start + later],
{
    lemma_last_position_is(tokens, tokens[later], later);
}

/// Without accounts or without tokens the answer that fits is the empty one.
/// Without accounts the table is then empty; without tokens every row is.
pub proof fn lemma_reshaped_empty(accounts: Seq<Address>, tokens: Seq<Address>, flat: Seq<Balance>)
    ensures
        accounts.len() == 0 || tokens.len() == 0 ==> accounts.len() * tokens.len() == 0,
        accounts.len() == 0 ==> reshaped(accounts, tokens, flat) == Map::<
            Address,
            Map<Address, Balance>,
        >::empty(),
        tokens.len() == 0 ==> forall|account: Address| #[trigger]
            reshaped(accounts, tokens, flat).contains_key(account) ==> reshaped(
                accounts,
                tokens,
                flat,
            )[account] == Map::<Address, Balance>::empty(),
{
    let table = reshaped(accounts, tokens, flat);
    assert(accounts.len() == 0 || tokens.len() == 0 ==> accounts.len() * tokens.len() == 0)
        by (nonlinear_arith);
    if accounts.len() == 0 {
        assert(table =~= Map::<Address, Map<Address, Balance>>::empty());
    }
    if tokens.len() == 0 {
        assert forall|account: Address| #[trigger] table.contains_key(account) implies table[account]
            == Map::<Address, Balance>::empty() by {
            assert(table[account] =~= Map::<Address, Balance>::empty());
        }
    }
}

} // verus!
