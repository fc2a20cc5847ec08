use crate::model::actions::{BasicAction, RelativizedAction};
use crate::model::contracts::RelativizationType;
use vstd::prelude::*;

verus! {

/// Each basic action, fired by `sender` towards `receiver`.
pub open spec fn pair_firings(sender: i32, receiver: i32, basics: Seq<BasicAction>) -> Seq<
    RelativizedAction,
> {
    basics.map_values(|b: BasicAction| RelativizedAction::spec_new(sender, b, receiver))
}

/// The firings of `sender` towards each receiver in turn; with `ignore_self`, not
/// towards the sender itself.
pub open spec fn row_firings(
    sender: i32,
    receivers: Seq<i32>,
    basics: Seq<BasicAction>,
    ignore_self: bool,
) -> Seq<RelativizedAction>
    decreases receivers.len(),
{
    if receivers.len() == 0 {
        Seq::empty()
    } else {
        row_firings(sender, receivers.drop_last(), basics, ignore_self) + (if ignore_self && sender
            == receivers.last() {
            Seq::empty()
        } else {
            pair_firings(sender, receivers.last(), basics)
        })
    }
}

/// The firings of each sender in turn towards each receiver.
pub open spec fn grid_firings(
    senders: Seq<i32>,
    receivers: Seq<i32>,
    basics: Seq<BasicAction>,
    ignore_self: bool,
) -> Seq<RelativizedAction>
    decreases senders.len(),
{
    if senders.len() == 0 {
        Seq::empty()
    } else {
        grid_firings(senders.drop_last(), receivers, basics, ignore_self) + row_firings(
            senders.last(),
            receivers,
            basics,
            ignore_self,
        )
    }
}

/// The relativized actions that a clause head can fire: for a directed head its own
/// pair, for a relativized head its sender towards every individual, for a global head
/// every ordered pair of individuals.
pub open spec fn firings(
    sender: i32,
    receiver: i32,
    relativization: RelativizationType,
    basics: Seq<BasicAction>,
    individuals: Seq<i32>,
    ignore_self: bool,
) -> Seq<RelativizedAction> {
    match relativization {
        RelativizationType::Directed => pair_firings(sender, receiver, basics),
        RelativizationType::Relativized => row_firings(sender, individuals, basics, ignore_self),
        RelativizationType::Global => grid_firings(individuals, individuals, basics, ignore_self),
    }
}

/// What a row holds: the sender's firings of a listed action towards a listed receiver.
pub proof fn lemma_row_firings_contents(
    sender: i32,
    receivers: Seq<i32>,
    basics: Seq<BasicAction>,
    ignore_self: bool,
)
    ensures
        forall|x: RelativizedAction| #[trigger]
            row_firings(sender, receivers, basics, ignore_self).contains(x) <==> {
                &&& !x.negation
                &&& x.sender == sender
                &&& receivers.contains(x.receiver)
                &&& basics.contains(x.action)
                &&& !(ignore_self && x.sender == x.receiver)
            },
    decreases receivers.len(),
{
    let row = row_firings(sender, receivers, basics, ignore_self);
    if receivers.len() == 0 {
        assert forall|x: RelativizedAction| #[trigger] row.contains(x) implies false by {}
    } else {
        let init = receivers.drop_last();
        let last = receivers.last();
        let p = row_firings(sender, init, basics, ignore_self);
        let q = if ignore_self && sender == last {
            Seq::empty()
        } else {
            pair_firings(sender, last, basics)
        };
        lemma_row_firings_contents(sender, init, basics, ignore_self);
        assert forall|x: RelativizedAction| #[trigger] row.contains(x) <==> {
            &&& !x.negation
            &&& x.sender == sender
            &&& receivers.contains(x.receiver)
            &&& basics.contains(x.action)
            &&& !(ignore_self && x.sender == x.receiver)
        } by {
            if row.contains(x) {
                let i = choose|i: int| 0 <= i < row.len() && row[i] == x;
                if i < p.len() {
                    assert(p[i] == x);
                    assert(p.contains(x));
                    let j = choose|j: int| 0 <= j < init.len() && init[j] == x.receiver;
                    assert(receivers[j] == x.receiver);
                } else {
                    assert(q[i - p.len()] == x);
                    assert(basics[i - p.len()] == x.action);
                    assert(receivers[receivers.len() - 1] == x.receiver);
                }
            }
            if !x.negation && x.sender == sender && receivers.contains(x.receiver) && basics.contains(
                x.action,
            ) && !(ignore_self && x.sender == x.receiver) {
                let j = choose|j: int| 0 <= j < receivers.len() && receivers[j] == x.receiver;
                if j < init.len() {
                    assert(init[j] == x.receiver);
                    assert(p.contains(x));
                    let i = choose|i: int| 0 <= i < p.len() && p[i] == x;
                    assert(row[i] == x);
                } else {
                    let k = choose|k: int| 0 <= k < basics.len() && basics[k] == x.action;
                    assert(q[k] == x);
                    assert(row[p.len() + k] == x);
                }
            }
        }
    }
}

/// What a pair holds: the firings of a listed action between the two.
pub proof fn lemma_pair_firings_contents(sender: i32, receiver: i32, basics: Seq<BasicAction>)
    ensures
        forall|x: RelativizedAction| #[trigger]
            pair_firings(sender, receiver, basics).contains(x) <==> {
                &&& !x.negation
                &&& x.sender == sender
                &&& x.receiver == receiver
                &&& basics.contains(x.action)
            },
{
    let p = pair_firings(sender, receiver, basics);
    assert forall|x: RelativizedAction| #[trigger] p.contains(x) <==> {
        &&& !x.negation
        &&& x.sender == sender
        &&& x.receiver == receiver
        &&& basics.contains(x.action)
    } by {
        if p.contains(x) {
            let i = choose|i: int| 0 <= i < p.len() && p[i] == x;
            assert(basics[i] == x.action);
        }
        if !x.negation && x.sender == sender && x.receiver == receiver && basics.contains(x.action) {
            let k = choose|k: int| 0 <= k < basics.len() && basics[k] == x.action;
            assert(p[k] == x);
        }
    }
}

/// What a grid holds: the firings of a listed action from a listed sender towards a
/// listed receiver.
pub proof fn lemma_grid_firings_contents(
    senders: Seq<i32>,
    receivers: Seq<i32>,
    basics: Seq<BasicAction>,
    ignore_self: bool,
)
    ensures
        forall|x: RelativizedAction| #[trigger]
            grid_firings(senders, receivers, basics, ignore_self).contains(x) <==> {
                &&& !x.negation
                &&& senders.contains(x.sender)
                &&& receivers.contains(x.receiver)
                &&& basics.contains(x.action)
                &&& !(ignore_self && x.sender == x.receiver)
            },
    decreases senders.len(),
{
    let grid = grid_firings(senders, receivers, basics, ignore_self);
    if senders.len() == 0 {
        assert forall|x: RelativizedAction| #[trigger] grid.contains(x) implies false by {}
    } else {
        let init = senders.drop_last();
        let last = senders.last();
        let p = grid_firings(init, receivers, basics, ignore_self);
        let q = row_firings(last, receivers, basics, ignore_self);
        lemma_grid_firings_contents(init, receivers, basics, ignore_self);
        lemma_row_firings_contents(last, receivers, basics, ignore_self);
        assert forall|x: RelativizedAction| #[trigger] grid.contains(x) <==> {
            &&& !x.negation
            &&& senders.contains(x.sender)
            &&& receivers.contains(x.receiver)
            &&& basics.contains(x.action)
            &&& !(ignore_self && x.sender == x.receiver)
        } by {
            if grid.contains(x) {
                let i = choose|i: int| 0 <= i < grid.len() && grid[i] == x;
                if i < p.len() {
                    assert(p[i] == x);
                    assert(p.contains(x));
                    let j = choose|j: int| 0 <= j < init.len() && init[j] == x.sender;
                    assert(senders[j] == x.sender);
                } else {
                    assert(q[i - p.len()] == x);
                    assert(q.contains(x));
                    assert(senders[senders.len() - 1] == x.sender);
                }
            }
            if !x.negation && senders.contains(x.sender) && receivers.contains(x.receiver)
                && basics.contains(x.action) && !(ignore_self && x.sender == x.receiver) {
                let j = choose|j: int| 0 <= j < senders.len() && senders[j] == x.sender;
                if j < init.len() {
                    assert(init[j] == x.sender);
                    assert(p.contains(x));
                    let i = choose|i: int| 0 <= i < p.len() && p[i] == x;
                    assert(grid[i] == x);
                } else {
                    assert(q.contains(x));
                    let i = choose|i: int| 0 <= i < q.len() && q[i] == x;
                    assert(grid[p.len() + i] == x);
                }
            }
        }
    }
}

fn push_pair(sender: i32, receiver: i32, basics: &Vec<BasicAction>, out: &mut Vec<RelativizedAction>)
    ensures
        final(out)@ == old(out)@ + pair_firings(sender, receiver, basics@),
{
    let mut k: usize = 0;
    while k < basics.len()
        invariant
            k <= basics.len(),
            out@ == old(out)@ + pair_firings(sender, receiver, basics@.take(k as int)),
        decreases basics.len() - k,
    {
        out.push(RelativizedAction::new(sender, basics[k], receiver));
        proof {
            assert(out@ =~= old(out)@ + pair_firings(sender, receiver, basics@.take(k + 1)));
        }
        k += 1;
    }
    proof {
        assert(basics@.take(k as int) =~= basics@);
    }
}

fn push_row(
    sender: i32,
    receivers: &Vec<i32>,
    basics: &Vec<BasicAction>,
    ignore_self: bool,
    out: &mut Vec<RelativizedAction>,
)
    ensures
        final(out)@ == old(out)@ + row_firings(sender, receivers@, basics@, ignore_self),
{
    let mut j: usize = 0;
    while j < receivers.len()
        invariant
            j <= receivers.len(),
            out@ == old(out)@ + row_firings(sender, receivers@.take(j as int), basics@, ignore_self),
        decreases receivers.len() - j,
    {
        proof {
            assert(receivers@.take(j + 1).drop_last() =~= receivers@.take(j as int));
        }
        let ghost before = out@;
        if !(ignore_self && sender == receivers[j]) {
            push_pair(sender, receivers[j], basics, out);
        }
        proof {
            assert(out@ =~= old(out)@ + row_firings(
                sender,
                receivers@.take(j + 1),
                basics@,
                ignore_self,
            ));
        }
        j += 1;
    }
    proof {
        assert(receivers@.take(j as int) =~= receivers@);
    }
}

/// Appends to `out` the relativized actions that a clause head can fire.
pub fn push_firings(
    sender: i32,
    receiver: i32,
    relativization: RelativizationType,
    basics: &Vec<BasicAction>,
    individuals: &Vec<i32>,
    ignore_self: bool,
    out: &mut Vec<RelativizedAction>,
)
    ensures
        final(out)@ == old(out)@ + firings(
            sender,
            receiver,
            relativization,
            basics@,
            individuals@,
            ignore_self,
        ),
{
    match relativization {
        RelativizationType::Directed => push_pair(sender, receiver, basics, out),
        RelativizationType::Relativized => push_row(sender, individuals, basics, ignore_self, out),
        RelativizationType::Global => {
            let mut i: usize = 0;
            while i < individuals.len()
                invariant
                    i <= individuals.len(),
                    out@ == old(out)@ + grid_firings(
                        individuals@.take(i as int),
                        individuals@,
                        basics@,
                        ignore_self,
                    ),
                decreases individuals.len() - i,
            {
                proof {
                    assert(individuals@.take(i + 1).drop_last() =~= individuals@.take(i as int));
                }
                push_row(individuals[i], individuals, basics, ignore_self, out);
                proof {
                    assert(out@ =~= old(out)@ + grid_firings(
                        individuals@.take(i + 1),
                        individuals@,
                        basics@,
                        ignore_self,
                    ));
                }
                i += 1;
            }
            proof {
                assert(individuals@.take(i as int) =~= individuals@);
            }
        },
    }
}

} // verus!
