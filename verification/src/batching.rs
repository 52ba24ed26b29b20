//! Sizing one delivery transaction under a resource budget.
//!
//! A third of the transaction budget is reserved for the transaction itself
//! and its proof verification; the rest is left for message dispatch. The
//! counterparty chains reject messages whose declared dispatch cost exceeds
//! half the budget, so the dispatch share must never fall below that.

use vstd::prelude::*;

verus! {

/// Maximal number of messages for one delivery transaction, and the
/// resource budget their dispatch may use.
///
/// Returns `(max_message_count, dispatch_budget)` with `dispatch_budget`
/// the budget left after reserving a third for transaction overhead, and
/// `max_message_count` how many messages of the given per-message overhead
/// fit in it, capped by the unconfirmed-nonce limit. Under the stated
/// bounds the count is at least one — a relay that could not fit a single
/// message must fail loudly at startup, not stall — and the dispatch budget
/// is at least half the whole budget.
pub fn select_delivery_transaction_limits(
    max_tx_resource_budget: u64,
    max_unconfirmed_nonces: u64,
    per_message_overhead: u64,
) -> (r: (u64, u64))
    requires
        per_message_overhead >= 1,
        max_unconfirmed_nonces >= 1,
        max_tx_resource_budget >= 3 * per_message_overhead,
    ensures
        r.1 == max_tx_resource_budget - max_tx_resource_budget / 3,
        r.0 == vstd::math::min(
            (r.1 / per_message_overhead) as int,
            max_unconfirmed_nonces as int,
        ),
        r.0 >= 1,
        r.0 <= max_unconfirmed_nonces,
        2 * r.1 >= max_tx_resource_budget,
{
    let resource_for_delivery_tx = max_tx_resource_budget / 3;
    let resource_for_messages_dispatch = max_tx_resource_budget - resource_for_delivery_tx;
    let fitting = resource_for_messages_dispatch / per_message_overhead;
    let max_message_count = if fitting < max_unconfirmed_nonces {
        fitting
    } else {
        max_unconfirmed_nonces
    };
    proof {
        let b = max_tx_resource_budget as int;
        let p = per_message_overhead as int;
        let d = resource_for_messages_dispatch as int;
        assert(d >= 2 * p);
        assert(d / p >= (2 * p) / p) by {
            vstd::arithmetic::div_mod::lemma_div_is_ordered(2 * p, d, p);
        }
        assert((2 * p) / p == 2) by {
            vstd::arithmetic::div_mod::lemma_div_multiples_vanish(2, p);
        }
        assert(fitting as int == d / p);
        assert(2 * d >= b);
    }
    (max_message_count, resource_for_messages_dispatch)
}

} // verus!
