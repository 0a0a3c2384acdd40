//! The transaction processing engine.

use crate::account::lemma_fresh_is_valid;
use crate::account::Account;
use crate::cents::cents_text;
use crate::client::Client;
use crate::client::ClientId;
use crate::digits::decimal_digits;
use crate::digits::push_decimal;
use crate::err::TransactionError;
use crate::transaction::Transaction;
use std::collections::HashMap;
use vstd::prelude::*;

verus! {

broadcast use vstd::std_specs::hash::group_hash_axioms;

/// The number of client ids there are.
pub const CLIENT_COUNT: u32 = 0x1_0000;

/// The accounts of all clients that were seen so far.
pub struct Engine {
    clients: HashMap<ClientId, Client>,
}

impl View for Engine {
    type V = Map<ClientId, Account>;

    closed spec fn view(&self) -> Map<ClientId, Account> {
        self.clients@.map_values(|client: Client| client@)
    }
}

/// The account of client `id`: a fresh one until the client is first seen.
pub open spec fn account_of(accounts: Map<ClientId, Account>, id: ClientId) -> Account {
    if accounts.contains_key(id) {
        accounts[id]
    } else {
        Account::fresh()
    }
}

/// The first line of a snapshot.
pub open spec fn header_text() -> Seq<char> {
    "client,available,held,total,locked"@
}

/// How a snapshot writes the frozen flag.
pub open spec fn locked_text(frozen: bool) -> Seq<char> {
    if frozen {
        "true"@
    } else {
        "false"@
    }
}

/// The line of client `id` in a snapshot, with the line break before it.
pub open spec fn row_text(id: ClientId, account: Account) -> Seq<char> {
    "\n"@ + decimal_digits(id as nat) + ","@ + cents_text(account.available as nat) + ","@
        + cents_text(account.held as nat) + ","@ + cents_text(account.total() as nat) + ","@
        + locked_text(account.frozen)
}

/// The lines of the clients with an id below `n`, by ascending id.
pub open spec fn rows_below(accounts: Map<ClientId, Account>, n: nat) -> Seq<char>
    decreases n,
{
    if n == 0 {
        Seq::empty()
    } else {
        let id = (n - 1) as ClientId;
        rows_below(accounts, (n - 1) as nat) + if accounts.contains_key(id) {
            row_text(id, accounts[id])
        } else {
            Seq::empty()
        }
    }
}

/// The snapshot of all accounts: the header, then one line for each client
/// that was ever seen.
pub open spec fn snapshot_text(accounts: Map<ClientId, Account>) -> Seq<char> {
    header_text() + rows_below(accounts, CLIENT_COUNT as nat)
}

impl Engine {
    /// Every account obeys its invariant.
    pub open spec fn wf(&self) -> bool {
        forall|id: ClientId| #[trigger] self@.contains_key(id) ==> self@[id].valid()
    }

    /// An engine that has seen no client.
    pub fn new() -> (engine: Self)
        ensures
            engine@ == Map::<ClientId, Account>::empty(),
            engine.wf(),
    {
        let engine = Self { clients: HashMap::new() };
        assert(engine@ =~= Map::<ClientId, Account>::empty());
        engine
    }

    /// Whether applying `tx` would take the total of its client's account out
    /// of 64 bits: then `handle_tx` must not be called.
    pub fn overflows(&self, tx: &Transaction) -> (b: bool)
        requires
            self.wf(),
        ensures
            b == account_of(self@, tx.client).overflows(*tx),
    {
        match self.clients.get(&tx.client) {
            Some(client) => {
                assert(self@.contains_key(tx.client));
                client.overflows(tx)
            },
            None => false,
        }
    }

    /// Routes one record to the account of its client, which is created if
    /// this is the first record that names the client, and tells whether the
    /// record was applied. The record must not take the total of that account
    /// out of 64 bits, which `overflows` tells beforehand.
    pub fn handle_tx(&mut self, tx: Transaction) -> (r: Result<(), TransactionError>)
        requires
            old(self).wf(),
            !account_of(old(self)@, tx.client).overflows(tx),
        ensures
            final(self).wf(),
            r == account_of(old(self)@, tx.client).verdict(tx),
            final(self)@ == old(self)@.insert(
                tx.client,
                account_of(old(self)@, tx.client).after(tx),
            ),
    {
        let client_id = tx.client;
        proof {
            lemma_fresh_is_valid();
            assert(self@.contains_key(client_id) ==> self@[client_id].valid());
        }
        let client = self.clients.entry(client_id).or_insert(Client::new());
        let r = client.handle_tx(tx);
        proof {
            assert(self@ =~= old(self)@.insert(
                tx.client,
                account_of(old(self)@, tx.client).after(tx),
            ));
            assert forall|id: ClientId| #[trigger] self@.contains_key(id) implies self@[id].valid() by {
                if id != client_id {
                    assert(old(self)@.contains_key(id));
                }
            }
        }
        r
    }

    /// Writes the snapshot of all accounts, by ascending client id.
    pub fn to_string(&self) -> (text: String)
        requires
            self.wf(),
        ensures
            text@ == snapshot_text(self@),
    {
        let mut text = String::from_str("client,available,held,total,locked");
        let mut n: u32 = 0;
        while n < CLIENT_COUNT
            invariant
                n <= CLIENT_COUNT,
                self.wf(),
                text@ == header_text() + rows_below(self@, n as nat),
            decreases CLIENT_COUNT - n,
        {
            let id = n as ClientId;
            match self.clients.get(&id) {
                Some(client) => {
                    assert(self@.contains_key(id));
                    let ghost before = text@;
                    text.append("\n");
                    push_decimal(&mut text, id as u64);
                    text.append(",");
                    text.append(client.available().to_string().as_str());
                    text.append(",");
                    text.append(client.held().to_string().as_str());
                    text.append(",");
                    text.append(client.total().to_string().as_str());
                    text.append(",");
                    text.append(if client.frozen() {
                        "true"
                    } else {
                        "false"
                    });
                    assert(text@ =~= before + row_text(id, self@[id]));
                },
                None => {},
            }
            n += 1;
            assert(text@ =~= header_text() + rows_below(self@, n as nat));
        }
        text
    }
}

/// Accounts do not touch each other: a record leaves the account of every
/// client but its own as it was.
pub proof fn lemma_other_accounts_untouched(
    accounts: Map<ClientId, Account>,
    tx: Transaction,
    other: ClientId,
)
    requires
        other != tx.client,
    ensures
        account_of(
            accounts.insert(tx.client, account_of(accounts, tx.client).after(tx)),
            other,
        ) == account_of(accounts, other),
{
}

} // verus!
