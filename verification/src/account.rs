//! The accounts an instruction works on, as plain values.

use crate::bytes::KEY_LEN;
use vstd::prelude::*;

verus! {

/// One account as an instruction sees it: who it is, who owns it, whether it
/// signed, what it holds and what is stored in it.
#[derive(Debug, PartialEq)]
pub struct Account {
    /// Identifier of the account.
    pub key: [u8; 32],
    /// Identifier of the program that owns the account.
    pub owner: [u8; 32],
    /// Whether the account signed the call.
    pub is_signer: bool,
    /// Balance in base units.
    pub lamports: u64,
    /// Stored bytes; empty once the storage has been cleared.
    pub data: Vec<u8>,
}

/// The mathematical value of an [`Account`].
pub struct AccountView {
    pub key: Seq<u8>,
    pub owner: Seq<u8>,
    pub is_signer: bool,
    pub lamports: u64,
    pub data: Seq<u8>,
}

impl View for Account {
    type V = AccountView;

    open spec fn view(&self) -> AccountView {
        AccountView {
            key: self.key@,
            owner: self.owner@,
            is_signer: self.is_signer,
            lamports: self.lamports,
            data: self.data@,
        }
    }
}

impl Clone for Account {
    fn clone(&self) -> (copy: Account)
        ensures
            copy@ == self@,
    {
        Account {
            key: self.key,
            owner: self.owner,
            is_signer: self.is_signer,
            lamports: self.lamports,
            data: self.data.clone(),
        }
    }
}

impl AccountView {
    /// Both identifiers are thirty-two bytes long.  Every view of an
    /// [`Account`] has this shape.
    pub open spec fn well_shaped(self) -> bool {
        self.key.len() == KEY_LEN && self.owner.len() == KEY_LEN
    }
}

/// Every account of the list is well shaped.
pub open spec fn accounts_well_shaped(accounts: Seq<AccountView>) -> bool {
    forall|i: int| 0 <= i < accounts.len() ==> (#[trigger] accounts[i]).well_shaped()
}

/// The values of a list of accounts, in order.
pub open spec fn accounts_view(accounts: Seq<Account>) -> Seq<AccountView> {
    Seq::new(accounts.len(), |i: int| accounts[i]@)
}

/// The sum of the balances of a list of accounts.
pub open spec fn total_lamports(accounts: Seq<AccountView>) -> int
    decreases accounts.len(),
{
    if accounts.len() == 0 {
        0
    } else {
        total_lamports(accounts.drop_last()) + accounts.last().lamports
    }
}

/// The accounts that a program holds are well shaped.
pub proof fn lemma_accounts_view_well_shaped(accounts: Seq<Account>)
    ensures
        accounts_well_shaped(accounts_view(accounts)),
{
    assert forall|i: int| 0 <= i < accounts.len() implies (#[trigger] accounts_view(
        accounts,
    )[i]).well_shaped() by {
        assert(accounts[i].key@.len() == KEY_LEN);
        assert(accounts[i].owner@.len() == KEY_LEN);
    }
}

/// Replacing one account changes the total by the change of its balance.
pub proof fn lemma_total_lamports_update(accounts: Seq<AccountView>, i: int, a: AccountView)
    requires
        0 <= i < accounts.len(),
    ensures
        total_lamports(accounts.update(i, a)) == total_lamports(accounts) - accounts[i].lamports
            + a.lamports,
    decreases accounts.len(),
{
    let updated = accounts.update(i, a);
    if i == accounts.len() - 1 {
        assert(updated.drop_last() =~= accounts.drop_last());
    } else {
        assert(updated.drop_last() =~= accounts.drop_last().update(i, a));
        lemma_total_lamports_update(accounts.drop_last(), i, a);
    }
}

} // verus!
