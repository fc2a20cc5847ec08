use crate::model::actions::RelativizedAction;
use crate::model::contracts::{Conflict, ConflictType};
use rayon::iter::{IntoParallelIterator, ParallelIterator};
use std::sync::Arc;
use crate::utils::ordered::copy_of;
use crate::utils::text::{decimal, hundredths_of, push_decimal, push_in_units, two_decimals};
use vstd::prelude::*;
use vstd::string::StringExecFns;

verus! {

/// The largest number of relativized actions whose subsets are enumerated.
pub const MAX_CONCURRENT_ACTIONS: usize = 30;

/// Why an analysis stopped.
#[derive(Debug, Clone, Copy, PartialEq, Eq, Structural)]
pub enum AnalysisError {
    /// A clause can fire more relativized actions than are enumerated.
    CapacityExceeded { actions: usize },
    /// No memory could be reserved for the masks of that many subsets.
    AllocationRefused { combinations: u64 },
    /// No further transition can be numbered.
    IdentifiersExhausted,
}

/// Why the subsets of `n` actions are not enumerated: they are more than an analysis
/// takes, or else no memory could be reserved for their masks.
pub open spec fn refusal(n: nat) -> AnalysisError {
    if n > MAX_CONCURRENT_ACTIONS {
        AnalysisError::CapacityExceeded { actions: n as usize }
    } else {
        AnalysisError::AllocationRefused { combinations: pow2(n) as u64 }
    }
}

/// The bytes of a gigabyte.
pub const GIGABYTE: u64 = 0x4000_0000;

/// The bytes that the masks of `combinations` subsets take: four each.
pub open spec fn mask_bytes(combinations: u64) -> nat {
    combinations as nat * 4
}

impl AnalysisError {
    /// What the error says.
    pub open spec fn spec_message(self) -> Seq<char> {
        match self {
            AnalysisError::CapacityExceeded { actions } => "CRITICAL: Can't calculate the set of concurrent relativized actions. (Number of actions "@
                + decimal(actions as nat) + "). Maximum supported is 30."@,
            AnalysisError::AllocationRefused { combinations } => "CRITICAL: Memory allocation of approx "@
                + (if combinations <= u64::MAX / 4 {
                two_decimals(hundredths_of(mask_bytes(combinations), GIGABYTE as nat))
            } else {
                "?"@
            }) + " GB failed for "@ + decimal(combinations as nat)
                + " concurrent action combinations."@,
            AnalysisError::IdentifiersExhausted => "CRITICAL: No further transition can be numbered."@,
        }
    }

    pub fn message(&self) -> (s: String)
        ensures
            s@ == self.spec_message(),
    {
        match self {
            AnalysisError::CapacityExceeded { actions } => {
                let mut out = String::from_str(
                    "CRITICAL: Can't calculate the set of concurrent relativized actions. (Number of actions ",
                );
                push_decimal(&mut out, *actions as u64);
                out.append("). Maximum supported is 30.");
                out
            },
            AnalysisError::AllocationRefused { combinations } => {
                let mut out = String::from_str("CRITICAL: Memory allocation of approx ");
                if *combinations <= u64::MAX / 4 {
                    push_in_units(&mut out, *combinations * 4, GIGABYTE);
                } else {
                    out.append("?");
                }
                out.append(" GB failed for ");
                push_decimal(&mut out, *combinations);
                out.append(" concurrent action combinations.");
                proof {
                    assert(out@ =~= self.spec_message());
                }
                out
            },
            AnalysisError::IdentifiersExhausted => String::from_str(
                "CRITICAL: No further transition can be numbered.",
            ),
        }
    }
}

/// The relativized actions of a clause, each at its bit position, and the masks of the
/// subsets of them that may be performed together.
#[derive(Debug)]
pub struct CompressedConcurrentActions {
    pub source_map: Arc<Vec<RelativizedAction>>,
    pub valid_masks: Vec<u32>,
}

impl Clone for CompressedConcurrentActions {
    fn clone(&self) -> (res: Self)
        ensures
            res.source_map@ == self.source_map@,
            res.valid_masks@ == self.valid_masks@,
    {
        CompressedConcurrentActions {
            source_map: Arc::new(copy_of(&*self.source_map)),
            valid_masks: copy_of(&self.valid_masks),
        }
    }
}

/// Whether bit `i` of `mask` is set.
pub open spec fn bit(mask: u32, i: int) -> bool {
    0 <= i < 32 && (mask >> (i as u32)) & 1u32 == 1u32
}

/// The actions at the first `n` positions of `source` whose bit is set in `mask`.
pub open spec fn decode_prefix(source: Seq<RelativizedAction>, mask: u32, n: nat) -> Seq<
    RelativizedAction,
>
    decreases n,
{
    if n == 0 {
        Seq::empty()
    } else if n <= source.len() && bit(mask, n - 1) {
        decode_prefix(source, mask, (n - 1) as nat).push(source[n - 1])
    } else {
        decode_prefix(source, mask, (n - 1) as nat)
    }
}

/// The subset of `source` that `mask` stands for, in the order of `source`. Bits beyond
/// the end of `source` stand for nothing.
pub open spec fn decode(source: Seq<RelativizedAction>, mask: u32) -> Seq<RelativizedAction> {
    decode_prefix(source, mask, if source.len() < 32 {
        source.len()
    } else {
        32
    })
}

/// What a decoded subset holds: the actions at the set bits.
pub proof fn lemma_decode_prefix_contents(source: Seq<RelativizedAction>, mask: u32, n: nat)
    requires
        n <= source.len(),
    ensures
        forall|x: RelativizedAction| #[trigger]
            decode_prefix(source, mask, n).contains(x) <==> exists|i: int|
                0 <= i < n && bit(mask, i) && source[i] == x,
        decode_prefix(source, mask, n).len() <= n,
    decreases n,
{
    if n > 0 {
        let p = decode_prefix(source, mask, (n - 1) as nat);
        let d = decode_prefix(source, mask, n);
        lemma_decode_prefix_contents(source, mask, (n - 1) as nat);
        assert forall|x: RelativizedAction| #[trigger] d.contains(x) <==> exists|i: int|
            0 <= i < n && bit(mask, i) && source[i] == x by {
            if d.contains(x) {
                let k = choose|k: int| 0 <= k < d.len() && d[k] == x;
                if k < p.len() {
                    assert(p[k] == x);
                    assert(p.contains(x));
                    let i = choose|i: int| 0 <= i < n - 1 && bit(mask, i) && source[i] == x;
                    assert(0 <= i < n && bit(mask, i) && source[i] == x);
                } else {
                    assert(bit(mask, n - 1) && source[n - 1] == x);
                }
            }
            if exists|i: int| 0 <= i < n && bit(mask, i) && source[i] == x {
                let i = choose|i: int| 0 <= i < n && bit(mask, i) && source[i] == x;
                if i < n - 1 {
                    assert(p.contains(x));
                    let k = choose|k: int| 0 <= k < p.len() && p[k] == x;
                    assert(d[k] == x);
                } else {
                    assert(d[p.len() as int] == x);
                }
            }
        }
    } else {
        assert forall|x: RelativizedAction| #[trigger]
            decode_prefix(source, mask, n).contains(x) implies false by {}
    }
}

/// The actions of `source` whose bit is set in `mask`.
pub fn decode_mask(source: &Vec<RelativizedAction>, mask: u32) -> (r: Vec<RelativizedAction>)
    ensures
        r@ == decode(source@, mask),
{
    let limit: usize = if source.len() < 32 {
        source.len()
    } else {
        32
    };
    let mut out: Vec<RelativizedAction> = Vec::new();
    let mut i: usize = 0;
    while i < limit
        invariant
            i <= limit <= source.len(),
            limit <= 32,
            out@ == decode_prefix(source@, mask, i as nat),
        decreases limit - i,
    {
        let shift: u32 = i as u32;
        if (mask >> shift) & 1u32 == 1u32 {
            out.push(source[i]);
        }
        i += 1;
    }
    out
}

/// The number of set bits among the first `n` bits of `mask`.
pub open spec fn ones_below(mask: u32, n: nat) -> nat
    decreases n,
{
    if n == 0 {
        0
    } else {
        ones_below(mask, (n - 1) as nat) + if bit(mask, n - 1) {
            1nat
        } else {
            0nat
        }
    }
}

/// The number of set bits of `mask`.
pub open spec fn popcount(mask: u32) -> nat {
    ones_below(mask, 32)
}

pub proof fn lemma_ones_below_bound(mask: u32, n: nat)
    ensures
        ones_below(mask, n) <= n,
    decreases n,
{
    if n > 0 {
        lemma_ones_below_bound(mask, (n - 1) as nat);
    }
}

/// The number of set bits of `mask`.
pub fn count_ones(mask: u32) -> (r: u32)
    ensures
        r == popcount(mask),
        r <= 32,
{
    let mut count: u32 = 0;
    let mut i: u32 = 0;
    while i < 32
        invariant
            i <= 32,
            count == ones_below(mask, i as nat),
            count <= i,
        decreases 32 - i,
    {
        if (mask >> i) & 1u32 == 1u32 {
            count += 1;
        }
        i += 1;
    }
    count
}

/// The masks of `masks` with `k` set bits, in their order.
pub open spec fn with_popcount(masks: Seq<u32>, k: nat) -> Seq<u32>
    decreases masks.len(),
{
    if masks.len() == 0 {
        Seq::empty()
    } else if popcount(masks.last()) == k {
        with_popcount(masks.drop_last(), k).push(masks.last())
    } else {
        with_popcount(masks.drop_last(), k)
    }
}

/// The masks with 32 set bits, then those with 31, and so on down to `k`, each group
/// in the order of `masks`.
pub open spec fn by_popcount_down_to(masks: Seq<u32>, k: int) -> Seq<u32>
    decreases 33 - k,
{
    if k > 32 {
        Seq::empty()
    } else {
        by_popcount_down_to(masks, k + 1) + with_popcount(masks, k as nat)
    }
}

/// `masks` sorted by falling number of set bits; masks with the same number keep
/// their order.
pub open spec fn sorted_by_popcount(masks: Seq<u32>) -> Seq<u32> {
    by_popcount_down_to(masks, 0)
}

/// Sorts `masks` by falling number of set bits, keeping the order of masks with the
/// same number.
pub fn sort_by_popcount(masks: &Vec<u32>) -> (r: Vec<u32>)
    ensures
        r@ == sorted_by_popcount(masks@),
{
    let mut out: Vec<u32> = Vec::new();
    let mut k: u32 = 33;
    while k > 0
        invariant
            k <= 33,
            out@ == by_popcount_down_to(masks@, k as int),
        decreases k,
    {
        k -= 1;
        let ghost before = out@;
        let mut i: usize = 0;
        while i < masks.len()
            invariant
                i <= masks.len(),
                out@ == before + with_popcount(masks@.take(i as int), k as nat),
            decreases masks.len() - i,
        {
            proof {
                assert(masks@.take(i + 1).drop_last() =~= masks@.take(i as int));
            }
            if count_ones(masks[i]) == k {
                out.push(masks[i]);
            }
            proof {
                assert(out@ =~= before + with_popcount(masks@.take(i + 1), k as nat));
            }
            i += 1;
        }
        proof {
            assert(masks@.take(i as int) =~= masks@);
        }
    }
    out
}

/// Whether `x` and `y` are what the conflict `c` keeps apart: an action of each side
/// and, for a relativized conflict, by one sender.
pub open spec fn clash(x: RelativizedAction, y: RelativizedAction, c: Conflict) -> bool {
    &&& x.action.value == c.a.value
    &&& y.action.value == c.b.value
    &&& (c.conflict_type == ConflictType::Global || x.sender == y.sender)
}

/// Whether `actions` holds two actions that `c` keeps apart.
pub open spec fn violates(actions: Seq<RelativizedAction>, c: Conflict) -> bool {
    exists|i: int, j: int|
        0 <= i < actions.len() && 0 <= j < actions.len() && #[trigger] clash(
            actions[i],
            actions[j],
            c,
        )
}

/// Whether `actions` may be performed together: there is at least one, and no
/// conflict of the catalogue is violated.
pub open spec fn spec_is_valid(actions: Seq<RelativizedAction>, conflicts: Seq<Conflict>) -> bool {
    actions.len() > 0 && forall|k: int|
        0 <= k < conflicts.len() ==> !violates(actions, #[trigger] conflicts[k])
}

/// Whether the subset that `mask` stands for may be performed together.
pub open spec fn mask_valid(source: Seq<RelativizedAction>, conflicts: Seq<Conflict>, mask: u32) -> bool {
    spec_is_valid(decode(source, mask), conflicts)
}

/// The valid masks below `bound`, rising.
pub open spec fn valid_masks_below(
    source: Seq<RelativizedAction>,
    conflicts: Seq<Conflict>,
    bound: nat,
) -> Seq<u32>
    decreases bound,
{
    if bound == 0 {
        Seq::empty()
    } else if mask_valid(source, conflicts, (bound - 1) as u32) {
        valid_masks_below(source, conflicts, (bound - 1) as nat).push((bound - 1) as u32)
    } else {
        valid_masks_below(source, conflicts, (bound - 1) as nat)
    }
}

/// Two to the power `n`.
pub open spec fn pow2(n: nat) -> nat
    decreases n,
{
    if n == 0 {
        1
    } else {
        2 * pow2((n - 1) as nat)
    }
}

/// The masks of the subsets of `source` that may be performed together, fuller subsets
/// first.
pub open spec fn spec_valid_masks(source: Seq<RelativizedAction>, conflicts: Seq<Conflict>) -> Seq<u32> {
    sorted_by_popcount(valid_masks_below(source, conflicts, pow2(source.len())))
}

fn conflict_violated(actions: &Vec<RelativizedAction>, c: &Conflict) -> (b: bool)
    ensures
        b == violates(actions@, *c),
{
    let mut i: usize = 0;
    while i < actions.len()
        invariant
            i <= actions.len(),
            forall|p: int, q: int|
                0 <= p < i && 0 <= q < actions.len() ==> !#[trigger] clash(
                    actions@[p],
                    actions@[q],
                    *c,
                ),
        decreases actions.len() - i,
    {
        if actions[i].action.value == c.a.value {
            let mut j: usize = 0;
            while j < actions.len()
                invariant
                    i < actions.len(),
                    j <= actions.len(),
                    actions@[i as int].action.value == c.a.value,
                    forall|q: int| 0 <= q < j ==> !#[trigger] clash(actions@[i as int], actions@[q], *c),
                decreases actions.len() - j,
            {
                let global = match c.conflict_type {
                    ConflictType::Global => true,
                    ConflictType::Relativized => false,
                };
                if actions[j].action.value == c.b.value && (global || actions[j].sender
                    == actions[i].sender) {
                    proof {
                        assert(clash(actions@[i as int], actions@[j as int], *c));
                    }
                    return true;
                }
                j += 1;
            }
        }
        i += 1;
    }
    false
}

/// The 2^n subsets of n actions, checked one by one in parallel.
pub struct ContractUtil;

impl ContractUtil {
    pub fn is_valid(actions: &Vec<RelativizedAction>, conflicts: &Vec<Conflict>) -> (b: bool)
        ensures
            b == spec_is_valid(actions@, conflicts@),
    {
        if actions.len() == 0 {
            return false;
        }
        let mut k: usize = 0;
        while k < conflicts.len()
            invariant
                k <= conflicts.len(),
                forall|q: int| 0 <= q < k ==> !violates(actions@, #[trigger] conflicts@[q]),
            decreases conflicts.len() - k,
        {
            if conflict_violated(actions, &conflicts[k]) {
                return false;
            }
            k += 1;
        }
        true
    }

    /// Whether the subset of `source` that `mask` stands for may be performed together.
    pub fn is_valid_mask(source: &Vec<RelativizedAction>, conflicts: &Vec<Conflict>, mask: u32) -> (b:
        bool)
        ensures
            b == mask_valid(source@, conflicts@, mask),
    {
        let subset = decode_mask(source, mask);
        Self::is_valid(&subset, conflicts)
    }

    /// The valid masks over `relativized_actions`, given whether memory for all masks
    /// could be reserved.
    pub fn enumerate_masks(
        relativized_actions: Vec<RelativizedAction>,
        conflicts: &Vec<Conflict>,
        reserved: bool,
    ) -> (r: Result<CompressedConcurrentActions, AnalysisError>)
        requires
            relativized_actions.len() <= MAX_CONCURRENT_ACTIONS,
        ensures
            match r {
                Ok(c) => reserved && c.source_map@ == relativized_actions@ && c.valid_masks@
                    == spec_valid_masks(relativized_actions@, conflicts@),
                Err(e) => !reserved && e == (AnalysisError::AllocationRefused {
                    combinations: pow2(relativized_actions.len() as nat) as u64,
                }),
            },
    {
        let n: u32 = relativized_actions.len() as u32;
        let size: u32 = power_of_two(n);
        if !reserved {
            return Err(AnalysisError::AllocationRefused { combinations: size as u64 });
        }
        let masks = par_valid_masks(&relativized_actions, conflicts, size);
        let valid_masks = sort_by_popcount(&masks);
        Ok(
            CompressedConcurrentActions {
                source_map: Arc::new(relativized_actions),
                valid_masks,
            },
        )
    }

    /// The valid masks over `relativized_actions`. More than 30 actions are refused;
    /// so is the call when no memory for the masks can be reserved.
    pub fn calculate_concurrent_relativized_actions(
        relativized_actions: Vec<RelativizedAction>,
        conflicts: &Vec<Conflict>,
    ) -> (r: Result<CompressedConcurrentActions, AnalysisError>)
        ensures
            relativized_actions.len() > MAX_CONCURRENT_ACTIONS ==> r is Err,
            match r {
                Ok(c) => c.source_map@ == relativized_actions@ && c.valid_masks@ == spec_valid_masks(
                    relativized_actions@,
                    conflicts@,
                ),
                Err(e) => e == refusal(relativized_actions@.len()),
            },
    {
        let n = relativized_actions.len();
        if n > MAX_CONCURRENT_ACTIONS {
            return Err(AnalysisError::CapacityExceeded { actions: n });
        }
        let size: u32 = power_of_two(n as u32);
        let mut check_vec: Vec<u32> = Vec::new();
        let reserved = check_vec.try_reserve(size as usize).is_ok();
        proof {
            lemma_pow2_bound(n as nat);
        }
        Self::enumerate_masks(relativized_actions, conflicts, reserved)
    }
}

/// A subset of a valid set of actions is valid, unless it is empty.
pub proof fn lemma_validity_downward(
    actions: Seq<RelativizedAction>,
    subset: Seq<RelativizedAction>,
    conflicts: Seq<Conflict>,
)
    requires
        spec_is_valid(actions, conflicts),
        subset.len() > 0,
        forall|x: RelativizedAction| subset.contains(x) ==> actions.contains(x),
    ensures
        spec_is_valid(subset, conflicts),
{
    assert forall|k: int| 0 <= k < conflicts.len() implies !violates(
        subset,
        #[trigger] conflicts[k],
    ) by {
        let c = conflicts[k];
        if violates(subset, c) {
            let (i, j) = choose|i: int, j: int|
                0 <= i < subset.len() && 0 <= j < subset.len() && #[trigger] clash(
                    subset[i],
                    subset[j],
                    c,
                );
            assert(subset.contains(subset[i]));
            assert(subset.contains(subset[j]));
            let i2 = choose|i2: int| 0 <= i2 < actions.len() && actions[i2] == subset[i];
            let j2 = choose|j2: int| 0 <= j2 < actions.len() && actions[j2] == subset[j];
            assert(clash(actions[i2], actions[j2], c));
            assert(violates(actions, c));
        }
    }
}

/// Sorting a single mask leaves it as it is.
pub proof fn lemma_sorted_single(m: u32, k: int)
    requires
        0 <= k <= 33,
    ensures
        by_popcount_down_to(seq![m], k) == (if k <= popcount(m) {
            seq![m]
        } else {
            Seq::<u32>::empty()
        }),
    decreases 33 - k,
{
    lemma_ones_below_bound(m, 32);
    if k <= 32 {
        lemma_sorted_single(m, k + 1);
        let one = seq![m];
        assert(one.drop_last() =~= Seq::<u32>::empty());
        assert(one.last() == m);
        reveal_with_fuel(with_popcount, 2);
        assert(with_popcount(one, k as nat) =~= (if popcount(m) == k {
            seq![m]
        } else {
            Seq::<u32>::empty()
        }));
        assert(by_popcount_down_to(one, k) =~= (if k <= popcount(m) {
            seq![m]
        } else {
            Seq::<u32>::empty()
        }));
    }
}

/// Over no action there is no valid mask: the empty subset is not valid.
pub proof fn lemma_no_action(conflicts: Seq<Conflict>)
    ensures
        spec_valid_masks(Seq::empty(), conflicts) == Seq::<u32>::empty(),
{
    let source = Seq::<RelativizedAction>::empty();
    reveal_with_fuel(pow2, 2);
    reveal_with_fuel(valid_masks_below, 3);
    assert(decode(source, 0u32) =~= Seq::<RelativizedAction>::empty());
    assert(!mask_valid(source, conflicts, 0u32));
    let below = valid_masks_below(source, conflicts, pow2(source.len()));
    assert(below =~= Seq::<u32>::empty());
    lemma_sorted_within(below, 0);
    if sorted_by_popcount(below).len() > 0 {
        assert(below.contains(sorted_by_popcount(below)[0]));
    }
    assert(sorted_by_popcount(below) =~= Seq::<u32>::empty());
}

/// Over a single action that no catalogue entry sets against itself, the one valid
/// mask is that of the action.
pub proof fn lemma_single_action(x: RelativizedAction, conflicts: Seq<Conflict>)
    requires
        forall|k: int|
            0 <= k < conflicts.len() ==> !((#[trigger] conflicts[k]).a.value == x.action.value
                && conflicts[k].b.value == x.action.value),
    ensures
        spec_valid_masks(seq![x], conflicts) == seq![1u32],
{
    let source = seq![x];
    assert((0u32 >> 0u32) & 1u32 == 0u32) by (bit_vector);
    assert((1u32 >> 0u32) & 1u32 == 1u32) by (bit_vector);
    reveal_with_fuel(decode_prefix, 2);
    reveal_with_fuel(pow2, 2);
    reveal_with_fuel(valid_masks_below, 3);
    assert(decode(source, 0u32) =~= Seq::<RelativizedAction>::empty());
    assert(decode(source, 1u32) =~= source);
    assert(!mask_valid(source, conflicts, 0u32));
    assert(mask_valid(source, conflicts, 1u32)) by {
        assert forall|k: int| 0 <= k < conflicts.len() implies !violates(
            source,
            #[trigger] conflicts[k],
        ) by {
            if violates(source, conflicts[k]) {
                let (i, j) = choose|i: int, j: int|
                    0 <= i < source.len() && 0 <= j < source.len() && #[trigger] clash(
                        source[i],
                        source[j],
                        conflicts[k],
                    );
            }
        }
    }
    assert(valid_masks_below(source, conflicts, 2) =~= seq![1u32]);
    lemma_sorted_single(1u32, 0);
}

/// Powers of two rise.
pub proof fn lemma_pow2_rises(n: nat, m: nat)
    requires
        n <= m,
    ensures
        1 <= pow2(n) <= pow2(m),
    decreases m,
{
    if m > 0 {
        if n < m {
            lemma_pow2_rises(n, (m - 1) as nat);
        } else {
            lemma_pow2_rises((n - 1) as nat, (m - 1) as nat);
        }
    }
}

/// The valid masks below a bound are below it.
pub proof fn lemma_valid_masks_below(
    source: Seq<RelativizedAction>,
    conflicts: Seq<Conflict>,
    bound: nat,
)
    requires
        bound <= 0x1_0000_0000,
    ensures
        forall|k: int|
            0 <= k < valid_masks_below(source, conflicts, bound).len() ==> (
            #[trigger] valid_masks_below(source, conflicts, bound)[k]) < bound,
    decreases bound,
{
    if bound > 0 {
        lemma_valid_masks_below(source, conflicts, (bound - 1) as nat);
        let v = valid_masks_below(source, conflicts, bound);
        let p = valid_masks_below(source, conflicts, (bound - 1) as nat);
        assert forall|k: int| 0 <= k < v.len() implies (#[trigger] v[k]) < bound by {
            if k < p.len() {
                assert(v[k] == p[k]);
            } else {
                assert(v[k] == (bound - 1) as u32);
            }
        }
    }
}

/// The valid masks below a bound rise.
pub proof fn lemma_valid_masks_rise(
    source: Seq<RelativizedAction>,
    conflicts: Seq<Conflict>,
    bound: nat,
)
    requires
        bound <= 0x1_0000_0000,
    ensures
        forall|i: int, j: int|
            0 <= i < j < valid_masks_below(source, conflicts, bound).len() ==> valid_masks_below(
                source,
                conflicts,
                bound,
            )[i] < valid_masks_below(source, conflicts, bound)[j],
    decreases bound,
{
    if bound > 0 {
        lemma_valid_masks_rise(source, conflicts, (bound - 1) as nat);
        lemma_valid_masks_below(source, conflicts, (bound - 1) as nat);
        let v = valid_masks_below(source, conflicts, bound);
        let p = valid_masks_below(source, conflicts, (bound - 1) as nat);
        assert forall|i: int, j: int| 0 <= i < j < v.len() implies v[i] < v[j] by {
            assert(v[i] == p[i]);
            if j < p.len() {
                assert(v[j] == p[j]);
            } else {
                assert(v[j] == (bound - 1) as u32);
            }
        }
    }
}

/// Of rising masks, those with a given number of set bits rise as well, and each has
/// that number of set bits and is one of the masks.
pub proof fn lemma_with_popcount_rises(masks: Seq<u32>, k: nat)
    requires
        forall|i: int, j: int| 0 <= i < j < masks.len() ==> masks[i] < masks[j],
    ensures
        forall|i: int, j: int|
            0 <= i < j < with_popcount(masks, k).len() ==> with_popcount(masks, k)[i]
                < with_popcount(masks, k)[j],
        forall|i: int|
            0 <= i < with_popcount(masks, k).len() ==> popcount(
                #[trigger] with_popcount(masks, k)[i],
            ) == k,
        forall|i: int|
            0 <= i < with_popcount(masks, k).len() && masks.len() > 0 ==> (
            #[trigger] with_popcount(masks, k)[i]) <= masks.last(),
    decreases masks.len(),
{
    if masks.len() > 0 {
        let init = masks.drop_last();
        assert forall|i: int, j: int| 0 <= i < j < init.len() implies init[i] < init[j] by {
            assert(init[i] == masks[i] && init[j] == masks[j]);
        }
        lemma_with_popcount_rises(init, k);
        let w = with_popcount(masks, k);
        let p = with_popcount(init, k);
        assert forall|i: int| 0 <= i < p.len() implies (#[trigger] p[i]) < masks.last() by {
            assert(p[i] <= init.last());
            assert(init.last() == masks[masks.len() - 2]);
        }
        assert forall|i: int, j: int| 0 <= i < j < w.len() implies w[i] < w[j] by {
            assert(w[i] == p[i]);
            if j < p.len() {
                assert(w[j] == p[j]);
            }
        }
        assert forall|i: int| 0 <= i < w.len() implies popcount(#[trigger] w[i]) == k by {
            if i < p.len() {
                assert(w[i] == p[i]);
            }
        }
        assert forall|i: int| 0 <= i < w.len() implies (#[trigger] w[i]) <= masks.last() by {
            if i < p.len() {
                assert(w[i] == p[i]);
            }
        }
    }
}

/// Rising masks, sorted by their number of set bits, hold no mask twice.
pub proof fn lemma_sorted_distinct(masks: Seq<u32>, k: int)
    requires
        0 <= k,
        forall|i: int, j: int| 0 <= i < j < masks.len() ==> masks[i] < masks[j],
    ensures
        by_popcount_down_to(masks, k).no_duplicates(),
        forall|i: int|
            0 <= i < by_popcount_down_to(masks, k).len() ==> popcount(
                #[trigger] by_popcount_down_to(masks, k)[i],
            ) >= k,
    decreases 33 - k,
{
    if k <= 32 {
        lemma_sorted_distinct(masks, k + 1);
        lemma_with_popcount_rises(masks, k as nat);
        let s = by_popcount_down_to(masks, k);
        let p = by_popcount_down_to(masks, k + 1);
        let w = with_popcount(masks, k as nat);
        assert forall|i: int| 0 <= i < s.len() implies popcount(#[trigger] s[i]) >= k by {
            if i < p.len() {
                assert(s[i] == p[i]);
            } else {
                assert(s[i] == w[i - p.len()]);
            }
        }
        assert forall|i: int, j: int| 0 <= i < s.len() && 0 <= j < s.len() && i != j implies s[i]
            != s[j] by {
            if i < p.len() && j < p.len() {
                assert(s[i] == p[i] && s[j] == p[j]);
            } else if i >= p.len() && j >= p.len() {
                assert(s[i] == w[i - p.len()] && s[j] == w[j - p.len()]);
                if i < j {
                    assert(w[i - p.len()] < w[j - p.len()]);
                } else {
                    assert(w[j - p.len()] < w[i - p.len()]);
                }
            } else if i < p.len() {
                assert(s[i] == p[i] && s[j] == w[j - p.len()]);
                assert(popcount(p[i]) >= k + 1);
            } else {
                assert(s[j] == p[j] && s[i] == w[i - p.len()]);
                assert(popcount(p[j]) >= k + 1);
            }
        }
    }
}

/// No valid mask is listed twice.
pub proof fn lemma_valid_masks_distinct(source: Seq<RelativizedAction>, conflicts: Seq<Conflict>)
    requires
        source.len() <= MAX_CONCURRENT_ACTIONS,
    ensures
        spec_valid_masks(source, conflicts).no_duplicates(),
{
    lemma_pow2_bound(source.len());
    lemma_valid_masks_rise(source, conflicts, pow2(source.len()));
    lemma_sorted_distinct(valid_masks_below(source, conflicts, pow2(source.len())), 0);
}

/// The masks with a given number of set bits are among the masks.
pub proof fn lemma_with_popcount_within(masks: Seq<u32>, k: nat)
    ensures
        forall|i: int|
            0 <= i < with_popcount(masks, k).len() ==> masks.contains(
                #[trigger] with_popcount(masks, k)[i],
            ),
    decreases masks.len(),
{
    if masks.len() > 0 {
        let init = masks.drop_last();
        lemma_with_popcount_within(init, k);
        let w = with_popcount(masks, k);
        assert forall|i: int| 0 <= i < w.len() implies masks.contains(#[trigger] w[i]) by {
            if i < with_popcount(init, k).len() {
                let x = with_popcount(init, k)[i];
                assert(init.contains(x));
                let j = choose|j: int| 0 <= j < init.len() && init[j] == x;
                assert(masks[j] == x);
            } else {
                assert(masks[masks.len() - 1] == w[i]);
            }
        }
    }
}

/// Sorting adds no mask.
pub proof fn lemma_sorted_within(masks: Seq<u32>, k: int)
    requires
        0 <= k,
    ensures
        forall|i: int|
            0 <= i < by_popcount_down_to(masks, k).len() ==> masks.contains(
                #[trigger] by_popcount_down_to(masks, k)[i],
            ),
    decreases 33 - k,
{
    if k <= 32 {
        lemma_sorted_within(masks, k + 1);
        lemma_with_popcount_within(masks, k as nat);
        let s = by_popcount_down_to(masks, k);
        let p = by_popcount_down_to(masks, k + 1);
        let w = with_popcount(masks, k as nat);
        assert forall|i: int| 0 <= i < s.len() implies masks.contains(#[trigger] s[i]) by {
            if i < p.len() {
                assert(s[i] == p[i]);
            } else {
                assert(s[i] == w[i - p.len()]);
            }
        }
    }
}

/// Every valid mask over at most 30 actions is below two to the number of actions.
pub proof fn lemma_valid_masks_bound(source: Seq<RelativizedAction>, conflicts: Seq<Conflict>)
    requires
        source.len() <= MAX_CONCURRENT_ACTIONS,
    ensures
        forall|i: int|
            0 <= i < spec_valid_masks(source, conflicts).len() ==> (#[trigger] spec_valid_masks(
                source,
                conflicts,
            )[i]) < pow2(source.len()),
{
    lemma_pow2_bound(source.len());
    let below = valid_masks_below(source, conflicts, pow2(source.len()));
    lemma_valid_masks_below(source, conflicts, pow2(source.len()));
    lemma_sorted_within(below, 0);
    let sorted = spec_valid_masks(source, conflicts);
    assert forall|i: int| 0 <= i < sorted.len() implies (#[trigger] sorted[i]) < pow2(
        source.len(),
    ) by {
        assert(below.contains(sorted[i]));
        let j = choose|j: int| 0 <= j < below.len() && below[j] == sorted[i];
    }
}

pub proof fn lemma_pow2_bound(n: nat)
    ensures
        n <= 30 ==> 1 <= pow2(n) <= 0x4000_0000,
{
    if n <= 30 {
        lemma_pow2_rises(n, 30);
        assert(pow2(30) == 0x4000_0000) by {
            reveal_with_fuel(pow2, 31);
        }
    }
}

/// Two to the power `n`.
pub fn power_of_two(n: u32) -> (r: u32)
    requires
        n <= 30,
    ensures
        r == pow2(n as nat),
        1 <= r <= 0x4000_0000,
{
    let mut r: u32 = 1;
    let mut i: u32 = 0;
    while i < n
        invariant
            i <= n <= 30,
            r == pow2(i as nat),
            1 <= r <= 0x4000_0000,
        decreases n - i,
    {
        proof {
            lemma_pow2_bound((i + 1) as nat);
        }
        r = r * 2;
        i += 1;
    }
    r
}

/// rayon's `into_par_iter`, `filter` and `collect` on the range `0..size`: the masks
/// below `size` for which `is_valid_mask` holds, in rising order. A `Vec` collected
/// from a parallel iterator keeps the order of the items.
#[verifier::external_body]
fn par_valid_masks(source: &Vec<RelativizedAction>, conflicts: &Vec<Conflict>, size: u32) -> (r: Vec<
    u32,
>)
    ensures
        r@ == valid_masks_below(source@, conflicts@, size as nat),
{
    (0..size).into_par_iter().filter(|mask| ContractUtil::is_valid_mask(source, conflicts, *mask)).collect()
}

} // verus!
