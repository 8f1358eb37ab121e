use vstd::prelude::*;

use crate::ledger::LedgerEntry;
use crate::pool::PoolClmm;
use crate::swap::{SwapDirection, SwapOutcome};

verus! {

/// One intent against the ledger service: move `amount` from one named
/// balance to another.  The settlement adapter turns an operation's result
/// into a list of these; the hosting environment performs them, last,
/// so a settlement failure can never leave the store ahead of the ledger.
/// Settlements consist of transfers alone, which the ledger's contract
/// shows conserve the total of all balances.
#[derive(Clone, Copy, Debug, PartialEq, Eq, Structural)]
pub struct TransferIntent {
    pub from: u64,
    pub to: u64,
    pub amount: u64,
}

/// The settlement of a liquidity add: the owner funds both vaults.
pub fn settlement_for_add(pool: &PoolClmm, owner_account_a: u64, owner_account_b: u64, amount_a: u64, amount_b: u64) -> (r: Vec<TransferIntent>)
    ensures
        r@.len() == 2,
        r@[0] == (TransferIntent { from: owner_account_a, to: pool.vault_a, amount: amount_a }),
        r@[1] == (TransferIntent { from: owner_account_b, to: pool.vault_b, amount: amount_b }),
{
    let mut v: Vec<TransferIntent> = Vec::new();
    v.push(TransferIntent { from: owner_account_a, to: pool.vault_a, amount: amount_a });
    v.push(TransferIntent { from: owner_account_b, to: pool.vault_b, amount: amount_b });
    v
}

/// The settlement of a liquidity removal or a fee collection: the vaults
/// pay the owner.
pub fn settlement_for_payout(pool: &PoolClmm, owner_account_a: u64, owner_account_b: u64, amount_a: u64, amount_b: u64) -> (r: Vec<TransferIntent>)
    ensures
        r@.len() == 2,
        r@[0] == (TransferIntent { from: pool.vault_a, to: owner_account_a, amount: amount_a }),
        r@[1] == (TransferIntent { from: pool.vault_b, to: owner_account_b, amount: amount_b }),
{
    let mut v: Vec<TransferIntent> = Vec::new();
    v.push(TransferIntent { from: pool.vault_a, to: owner_account_a, amount: amount_a });
    v.push(TransferIntent { from: pool.vault_b, to: owner_account_b, amount: amount_b });
    v
}

/// The settlement of a swap: the trader pays the input vault what was
/// spent, and the output vault pays the trader what came out.
pub fn settlement_for_swap(pool: &PoolClmm, direction: SwapDirection, trader_account_a: u64, trader_account_b: u64, outcome: SwapOutcome) -> (r: Vec<TransferIntent>)
    ensures
        r@.len() == 2,
        direction == SwapDirection::AToB ==> r@[0] == (TransferIntent {
            from: trader_account_a,
            to: pool.vault_a,
            amount: outcome.amount_in_spent,
        }) && r@[1] == (TransferIntent {
            from: pool.vault_b,
            to: trader_account_b,
            amount: outcome.amount_out,
        }),
        direction == SwapDirection::BToA ==> r@[0] == (TransferIntent {
            from: trader_account_b,
            to: pool.vault_b,
            amount: outcome.amount_in_spent,
        }) && r@[1] == (TransferIntent {
            from: pool.vault_a,
            to: trader_account_a,
            amount: outcome.amount_out,
        }),
{
    let mut v: Vec<TransferIntent> = Vec::new();
    match direction {
        SwapDirection::AToB => {
            v.push(
                TransferIntent {
                    from: trader_account_a,
                    to: pool.vault_a,
                    amount: outcome.amount_in_spent,
                },
            );
            v.push(
                TransferIntent {
                    from: pool.vault_b,
                    to: trader_account_b,
                    amount: outcome.amount_out,
                },
            );
        },
        SwapDirection::BToA => {
            v.push(
                TransferIntent {
                    from: trader_account_b,
                    to: pool.vault_b,
                    amount: outcome.amount_in_spent,
                },
            );
            v.push(
                TransferIntent {
                    from: pool.vault_a,
                    to: trader_account_a,
                    amount: outcome.amount_out,
                },
            );
        },
    }
    v
}

/// Performs a settlement against the ledger, all-or-nothing: both
/// transfers succeed, or the ledger is left untouched and the ledger's
/// error is reported.  Either way the total of all balances is unchanged.
pub fn apply_settlement(ledger: &mut crate::ledger::Ledger, intents: &Vec<TransferIntent>) -> (r:
    Result<(), crate::ledger::LedgerError>)
    requires
        old(ledger).wf(),
        intents@.len() == 2,
    ensures
        final(ledger).wf(),
        crate::ledger::total(final(ledger).entries@) == crate::ledger::total(old(ledger).entries@),
        r is Err ==> final(ledger).entries@ == old(ledger).entries@,
        forall|i: u64|
            #[trigger] crate::ledger::has_account(final(ledger).entries@, i)
                <==> crate::ledger::has_account(old(ledger).entries@, i),
{
    let saved = clone_entries(&ledger.entries);
    let first = intents[0];
    let second = intents[1];
    match ledger.transfer(first.from, first.to, first.amount) {
        Ok(()) => {},
        Err(e) => {
            return Err(e);
        },
    }
    match ledger.transfer(second.from, second.to, second.amount) {
        Ok(()) => Ok(()),
        Err(e) => {
            ledger.entries = saved;
            Err(e)
        },
    }
}

/// A copy of the ledger's entries, taken before a settlement so that a
/// failed second leg can restore the first.
fn clone_entries(v: &Vec<LedgerEntry>) -> (r: Vec<LedgerEntry>)
    ensures
        r@ == v@,
{
    let n = v.len();
    let mut r: Vec<LedgerEntry> = Vec::new();
    let mut i: usize = 0;
    while i < n
        invariant
            i <= n == v@.len(),
            r@ == v@.subrange(0, i as int),
        decreases n - i,
    {
        r.push(v[i]);
        proof {
            assert(r@ =~= v@.subrange(0, i as int + 1));
        }
        i = i + 1;
    }
    proof {
        assert(r@ =~= v@);
    }
    r
}

} // verus!
