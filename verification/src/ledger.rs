//! The position ledger as a mathematical object: one running total per
//! security code, and what replaying a sequence of updates gives.

use vstd::prelude::*;
use crate::trade::{signed_quantity, Trade};

verus! {

/// The running total of `code`: zero until the code is first referred to.
pub open spec fn running_total(ledger: Map<Seq<char>, int>, code: Seq<char>) -> int {
    if ledger.contains_key(code) {
        ledger[code]
    } else {
        0
    }
}

/// The ledger after `delta` was added to the running total of `code`.
pub open spec fn apply_delta(ledger: Map<Seq<char>, int>, code: Seq<char>, delta: int) -> Map<
    Seq<char>,
    int,
> {
    ledger.insert(code, running_total(ledger, code) + delta)
}

/// One update of the ledger: a security, an action and a magnitude.
pub struct Update {
    pub code: Seq<char>,
    pub trade: Trade,
    pub magnitude: nat,
}

impl Update {
    /// What the update adds to the running total of its code.
    pub open spec fn delta(self) -> int {
        signed_quantity(self.trade, self.magnitude as int)
    }
}

/// The ledger after the updates were applied in order to an empty ledger.
pub open spec fn replay(updates: Seq<Update>) -> Map<Seq<char>, int>
    decreases updates.len(),
{
    if updates.len() == 0 {
        Map::empty()
    } else {
        let last = updates.last();
        apply_delta(replay(updates.drop_last()), last.code, last.delta())
    }
}

/// The updates of one security, in their order.
pub open spec fn updates_for(updates: Seq<Update>, code: Seq<char>) -> Seq<Update> {
    updates.filter(|u: Update| u.code == code)
}

/// The sum of what the updates add.
pub open spec fn net_quantity(updates: Seq<Update>) -> int
    decreases updates.len(),
{
    if updates.len() == 0 {
        0
    } else {
        net_quantity(updates.drop_last()) + updates.last().delta()
    }
}

/// Adding to one code leaves the running total of every other code as it
/// was, and adds exactly the delta to its own.
pub proof fn law_apply_delta(
    ledger: Map<Seq<char>, int>,
    code: Seq<char>,
    delta: int,
    other: Seq<char>,
)
    ensures
        running_total(apply_delta(ledger, code, delta), code) == running_total(ledger, code)
            + delta,
        other != code ==> running_total(apply_delta(ledger, code, delta), other) == running_total(
            ledger,
            other,
        ),
{
}

/// After a replay from the empty ledger, the running total of a security is
/// the sum of the signed quantities of its own updates.
pub proof fn law_replay_total(updates: Seq<Update>, code: Seq<char>)
    ensures
        running_total(replay(updates), code) == net_quantity(updates_for(updates, code)),
    decreases updates.len(),
{
    reveal(Seq::filter);
    if updates.len() > 0 {
        let last = updates.last();
        law_replay_total(updates.drop_last(), code);
        law_apply_delta(replay(updates.drop_last()), last.code, last.delta(), code);
        if last.code == code {
            let own = updates_for(updates, code);
            assert(own.drop_last() == updates_for(updates.drop_last(), code));
        }
    }
}

/// Cross-code independence: two sequences of updates that hold the same
/// updates of a security, in the same order, give that security the same
/// running total, whatever updates of other securities stand between them.
pub proof fn law_cross_code_independence(a: Seq<Update>, b: Seq<Update>, code: Seq<char>)
    requires
        updates_for(a, code) == updates_for(b, code),
    ensures
        running_total(replay(a), code) == running_total(replay(b), code),
{
    law_replay_total(a, code);
    law_replay_total(b, code);
}

/// The running total of a security after a replay is the one that the
/// replay of its own updates alone gives.
pub proof fn law_replay_own_updates(updates: Seq<Update>, code: Seq<char>)
    ensures
        running_total(replay(updates), code) == running_total(
            replay(updates_for(updates, code)),
            code,
        ),
{
    let own = updates_for(updates, code);
    let pred = |u: Update| u.code == code;
    assert(own.filter(pred) == own) by {
        assert forall|i: int| 0 <= i < own.len() implies pred(own[i]) by {
            updates.lemma_filter_pred(pred, i);
        }
        lemma_filter_all(own, pred);
    }
    law_cross_code_independence(updates, own, code);
}

/// A filter keeps a sequence whose items all pass.
proof fn lemma_filter_all(s: Seq<Update>, pred: spec_fn(Update) -> bool)
    requires
        forall|i: int| 0 <= i < s.len() ==> pred(s[i]),
    ensures
        s.filter(pred) == s,
    decreases s.len(),
{
    reveal(Seq::filter);
    if s.len() > 0 {
        lemma_filter_all(s.drop_last(), pred);
        assert(s.drop_last().push(s.last()) == s);
    }
}

} // verus!
