//! The dispatch engine's building blocks: target selection for each kind of
//! dispatch intent, message assignment from the pool, the staggered-delay
//! schedule, and the log-entry formats. Every send candidate is eligible at
//! selection time, targets are pairwise distinct, and staggered delays grow
//! linearly within the policy's bounds.

use vstd::prelude::*;

use crate::registry::{
    Bot, eligible_count, eligible_indices, eligible_list, is_eligible, lemma_eligible_upto_len,
    lemma_eligible_upto_props,
};
use crate::rng::{pick_between, pick_index, shuffle_vec};
use crate::text::{copy_bytes, push_bytes, views_of};

verus! {

/// What kind of dispatch the user or the scheduler asked for.
#[derive(Clone, Copy, Debug, PartialEq, Eq, Structural)]
pub enum DispatchIntent {
    /// This one bot, if it is eligible.
    SingleBot(usize),
    /// One uniformly chosen eligible bot.
    RandomBot,
    /// Every eligible bot, one shared message.
    AllBots,
    /// This many uniformly chosen distinct eligible bots.
    SubsetBots(usize),
}

/// Inter-bot timing for a dispatch that targets several bots.
#[derive(Clone, Copy, Debug, PartialEq, Eq, Structural)]
pub struct DelayPolicy {
    pub simultaneous: bool,
    pub min_delay: u64,
    pub max_delay: u64,
}

/// One send the engine has planned: which bot, what message, and how long to
/// wait before the send fires.
#[derive(Clone, Debug)]
pub struct PlannedSend {
    pub bot: usize,
    pub message: Vec<u8>,
    pub delay_secs: u64,
}

/// The policy's delay bounds with a min above max tolerated by swapping, so
/// the engine clamps rather than fails.
pub open spec fn delay_lo(p: DelayPolicy) -> u64 {
    if p.min_delay <= p.max_delay {
        p.min_delay
    } else {
        p.max_delay
    }
}

pub open spec fn delay_hi(p: DelayPolicy) -> u64 {
    if p.min_delay <= p.max_delay {
        p.max_delay
    } else {
        p.min_delay
    }
}

/// The delays follow the linear stagger rule: the k-th delay is `k` times a
/// draw taken from `[lo, hi]`.
pub open spec fn stagger_ok(delays: Seq<u64>, draws: Seq<u64>, lo: u64, hi: u64) -> bool {
    &&& draws.len() == delays.len()
    &&& forall|k: int|
        0 <= k < delays.len() ==> lo <= #[trigger] draws[k] <= hi && delays[k] == k * draws[k]
}

/// For any staggered dispatch that satisfies the delay rule, the k-th send
/// waits at least `k` times the lower delay bound and at most `k` times the
/// upper one.
pub proof fn lemma_delays_bounded(policy: DelayPolicy, delays: Seq<u64>)
    requires
        !policy.simultaneous,
        delays_ok(policy, delays),
    ensures
        forall|k: int|
            0 <= k < delays.len() ==> k * (delay_lo(policy) as int) <= #[trigger] delays[k] <= k
                * (delay_hi(policy) as int),
{
    let d = choose|d: Seq<u64>|
        #[trigger] stagger_ok(delays, d, delay_lo(policy), delay_hi(policy));
    lemma_stagger_bounds(delays, d, delay_lo(policy), delay_hi(policy));
}

/// Under the stagger rule, the k-th send waits at least `k * lo` and at most
/// `k * hi` seconds.
pub proof fn lemma_stagger_bounds(delays: Seq<u64>, draws: Seq<u64>, lo: u64, hi: u64)
    requires
        stagger_ok(delays, draws, lo, hi),
    ensures
        forall|k: int|
            0 <= k < delays.len() ==> k * (lo as int) <= #[trigger] delays[k] <= k * (hi as int),
{
    assert forall|k: int|
        0 <= k < delays.len() implies k * (lo as int) <= #[trigger] delays[k] <= k * (
    hi as int) by {
        let d = draws[k] as int;
        assert(lo <= draws[k] <= hi);
        assert(k * (lo as int) <= k * d) by (nonlinear_arith)
            requires
                0 <= k,
                lo as int <= d,
        ;
        assert(k * d <= k * (hi as int)) by (nonlinear_arith)
            requires
                0 <= k,
                d <= hi as int,
        ;
    }
}

/// The delay rule: zero everywhere for a simultaneous dispatch, the linear
/// stagger rule otherwise.
pub open spec fn delays_ok(policy: DelayPolicy, delays: Seq<u64>) -> bool {
    if policy.simultaneous {
        forall|k: int| 0 <= k < delays.len() ==> #[trigger] delays[k] == 0
    } else {
        exists|d: Seq<u64>| #[trigger] stagger_ok(delays, d, delay_lo(policy), delay_hi(policy))
    }
}

/// Computes the per-target delays, as `delays_ok` describes.
pub fn compute_delays(policy: &DelayPolicy, count: usize) -> (r: Vec<u64>)
    requires
        (count as int) * (delay_hi(*policy) as int) <= u64::MAX,
    ensures
        r@.len() == count,
        delays_ok(*policy, r@),
{
    let mut r: Vec<u64> = Vec::new();
    if policy.simultaneous {
        let mut k: usize = 0;
        while k < count
            invariant
                k <= count,
                r@.len() == k,
                forall|j: int| 0 <= j < k ==> r@[j] == 0,
            decreases count - k,
        {
            r.push(0);
            k += 1;
        }
        return r;
    }
    let lo = if policy.min_delay <= policy.max_delay {
        policy.min_delay
    } else {
        policy.max_delay
    };
    let hi = if policy.min_delay <= policy.max_delay {
        policy.max_delay
    } else {
        policy.min_delay
    };
    let ghost mut draws: Seq<u64> = Seq::empty();
    let mut k: usize = 0;
    while k < count
        invariant
            k <= count,
            r@.len() == k,
            lo == delay_lo(*policy),
            hi == delay_hi(*policy),
            lo <= hi,
            (count as int) * (hi as int) <= u64::MAX,
            draws.len() == k,
            forall|j: int| 0 <= j < k ==> lo <= #[trigger] draws[j] <= hi && r@[j] == j * draws[j],
        decreases count - k,
    {
        let d = pick_between(lo, hi);
        proof {
            assert((k as int) * (d as int) <= (count as int) * (hi as int)) by (nonlinear_arith)
                requires
                    0 <= k as int <= count as int,
                    0 <= d as int <= hi as int,
            ;
        }
        let delay = (k as u64) * d;
        r.push(delay);
        proof {
            draws = draws.push(d);
        }
        k += 1;
    }
    proof {
        assert(stagger_ok(r@, draws, delay_lo(*policy), delay_hi(*policy)));
    }
    r
}

/// The selection rule, intent by intent: every target is eligible, targets
/// are pairwise distinct, and each intent pins the selection down: the named
/// bot or nothing, one of the eligible bots, all of them in index order, or
/// `min(n, |eligible|)` of them.
pub open spec fn selection_ok(bots: Seq<Bot>, intent: DispatchIntent, targets: Seq<usize>) -> bool {
    &&& forall|k: int| 0 <= k < targets.len() ==> is_eligible(bots, #[trigger] targets[k] as int)
    &&& forall|a: int, b: int| 0 <= a < b < targets.len() ==> targets[a] != targets[b]
    &&& match intent {
        DispatchIntent::SingleBot(i) => targets == (if is_eligible(bots, i as int) {
            seq![i]
        } else {
            Seq::<usize>::empty()
        }),
        DispatchIntent::RandomBot => targets.len() == (if eligible_count(bots) == 0 {
            0int
        } else {
            1int
        }),
        DispatchIntent::AllBots => targets == eligible_list(bots),
        DispatchIntent::SubsetBots(n) => targets.len() == (if (n as int) <= eligible_count(bots) {
            n as int
        } else {
            eligible_count(bots)
        }),
    }
}

/// A selection never targets more bots than exist.
pub proof fn lemma_selection_len(bots: Seq<Bot>, intent: DispatchIntent, targets: Seq<usize>)
    requires
        bots.len() <= usize::MAX,
        selection_ok(bots, intent, targets),
    ensures
        targets.len() <= bots.len(),
{
    lemma_eligible_upto_props(bots, bots.len() as int);
    lemma_eligible_upto_len(bots, bots.len() as int);
    match intent {
        DispatchIntent::SingleBot(_) => {
            if targets.len() > 0 {
                assert(is_eligible(bots, targets[0] as int));
            }
        },
        DispatchIntent::RandomBot => {
            if targets.len() > 0 {
                assert(is_eligible(bots, targets[0] as int));
            }
        },
        DispatchIntent::AllBots => {
        },
        DispatchIntent::SubsetBots(_) => {
        },
    }
}

/// Selects the target bots for an intent, as `selection_ok` describes.
pub fn select_targets(bots: &Vec<Bot>, intent: &DispatchIntent) -> (r: Vec<usize>)
    ensures
        selection_ok(bots@, *intent, r@),
{
    match *intent {
        DispatchIntent::SingleBot(i) => {
            let mut r: Vec<usize> = Vec::new();
            if i < bots.len() {
                if bots[i].available && bots[i].enable {
                    r.push(i);
                }
            }
            proof {
                if is_eligible(bots@, i as int) {
                    assert(r@ =~= seq![i]);
                } else {
                    assert(r@ =~= Seq::<usize>::empty());
                }
            }
            r
        },
        DispatchIntent::RandomBot => {
            let nb = bots.len();
            let e = eligible_indices(bots);
            proof {
                lemma_eligible_upto_props(bots@, nb as int);
            }
            let mut r: Vec<usize> = Vec::new();
            if e.len() > 0 {
                let idx = pick_index(e.len());
                r.push(e[idx]);
            }
            r
        },
        DispatchIntent::AllBots => {
            let nb = bots.len();
            let e = eligible_indices(bots);
            proof {
                lemma_eligible_upto_props(bots@, nb as int);
            }
            e
        },
        DispatchIntent::SubsetBots(n) => {
            let nb = bots.len();
            let mut e = eligible_indices(bots);
            let ghost before = e@;
            proof {
                lemma_eligible_upto_props(bots@, nb as int);
                assert(e.deep_view() =~= e@);
            }
            shuffle_vec(&mut e);
            proof {
                broadcast use vstd::seq_lib::group_to_multiset_ensures;

                assert(e.deep_view() =~= e@);
                assert(e@.to_multiset() == before.to_multiset());
                before.lemma_multiset_has_no_duplicates();
                assert forall|x: usize| e@.to_multiset().contains(x) implies e@.to_multiset().count(
                    x,
                ) == 1 by {
                    assert(before.to_multiset().count(x) == e@.to_multiset().count(x));
                }
                e@.lemma_multiset_has_no_duplicates_conv();
                assert forall|k: int|
                    0 <= k < e@.len() implies is_eligible(bots@, #[trigger] e@[k] as int) by {
                    assert(e@.contains(e@[k]));
                    assert(e@.to_multiset().count(e@[k]) > 0);
                    assert(before.to_multiset().count(e@[k]) > 0);
                    assert(before.contains(e@[k]));
                    let j = choose|j: int| 0 <= j < before.len() && before[j] == e@[k];
                    assert(is_eligible(bots@, before[j] as int));
                }
            }
            let m = if n < e.len() {
                n
            } else {
                e.len()
            };
            let ghost shuffled = e@;
            e.truncate(m);
            proof {
                assert(e@ == shuffled.subrange(0, m as int));
                assert forall|a: int, b: int| 0 <= a < b < e@.len() implies e@[a] != e@[b] by {
                    assert(shuffled.no_duplicates());
                    assert(e@[a] == shuffled[a] && e@[b] == shuffled[b]);
                }
            }
            e
        },
    }
}

/// Copies a message pool.
fn copy_pool(pool: &Vec<Vec<u8>>) -> (r: Vec<Vec<u8>>)
    ensures
        r@.len() == pool@.len(),
        views_of(r@) == views_of(pool@),
{
    let n = pool.len();
    let mut r: Vec<Vec<u8>> = Vec::new();
    let mut k: usize = 0;
    while k < n
        invariant
            n == pool@.len(),
            k <= n,
            r@.len() == k,
            forall|j: int| 0 <= j < k ==> (#[trigger] r@[j])@ == pool@[j]@,
        decreases n - k,
    {
        r.push(copy_bytes(pool[k].as_slice()));
        k += 1;
    }
    proof {
        assert(views_of(r@) =~= views_of(pool@));
    }
    r
}

/// Assigns one message to each of `count` targets: the pool is shuffled once
/// and dealt cyclically, so with a single-message pool every target gets that
/// message, and every assigned message comes from the pool.
pub fn assign_messages(pool: &Vec<Vec<u8>>, count: usize) -> (r: Vec<Vec<u8>>)
    requires
        pool@.len() > 0,
    ensures
        r@.len() == count,
        exists|sh: Seq<Seq<u8>>|
            #![trigger sh.to_multiset()]
            {
                &&& sh.to_multiset() == views_of(pool@).to_multiset()
                &&& sh.len() == pool@.len()
                &&& forall|k: int| 0 <= k < count ==> r@[k]@ == sh[k % (sh.len() as int)]
            },
        forall|k: int| 0 <= k < count ==> views_of(pool@).contains((#[trigger] r@[k])@),
{
    let mut deck = copy_pool(pool);
    let ghost before_dv = deck.deep_view();
    shuffle_vec(&mut deck);
    let ghost sh = deck.deep_view();
    proof {
        broadcast use vstd::seq_lib::group_to_multiset_ensures;

        assert(before_dv =~~= views_of(pool@));
        assert(sh.to_multiset() == views_of(pool@).to_multiset());
        assert(sh.len() == pool@.len());
    }
    let n = deck.len();
    let mut r: Vec<Vec<u8>> = Vec::new();
    let mut k: usize = 0;
    while k < count
        invariant
            n == deck@.len(),
            n == sh.len(),
            n > 0,
            sh == deck.deep_view(),
            k <= count,
            r@.len() == k,
            forall|j: int| 0 <= j < k ==> (#[trigger] r@[j])@ == sh[j % (sh.len() as int)],
        decreases count - k,
    {
        let idx = k % n;
        r.push(copy_bytes(deck[idx].as_slice()));
        proof {
            assert(deck.deep_view()[idx as int] =~= deck@[idx as int]@);
        }
        k += 1;
    }
    proof {
        broadcast use vstd::seq_lib::group_to_multiset_ensures;

        assert forall|k: int|
            0 <= k < count implies views_of(pool@).contains((#[trigger] r@[k])@) by {
            let idx = k % (sh.len() as int);
            assert(r@[k]@ == sh[idx]);
            assert(sh.contains(sh[idx]));
            assert(sh.to_multiset().count(sh[idx]) > 0);
            assert(views_of(pool@).to_multiset().count(sh[idx]) > 0);
            assert(views_of(pool@).contains(sh[idx]));
        }
    }
    r
}

/// A log entry: `[<name>] <message>`, with the machine-origin marker `* `
/// after the bracket when the bot was picked by the engine rather than the
/// user.
pub open spec fn entry_spec(marked: bool, name: Seq<u8>, message: Seq<u8>) -> Seq<u8> {
    (if marked {
        seq![91u8, 42u8, 32u8]
    } else {
        seq![91u8]
    }) + name + seq![93u8, 32u8] + message
}

/// Formats a log entry.
pub fn format_entry(marked: bool, name: &[u8], message: &[u8]) -> (r: Vec<u8>)
    ensures
        r@ == entry_spec(marked, name@, message@),
{
    let mut v: Vec<u8> = Vec::new();
    v.push(91);
    if marked {
        v.push(42);
        v.push(32);
    }
    push_bytes(&mut v, name);
    v.push(93);
    v.push(32);
    push_bytes(&mut v, message);
    proof {
        assert(v@ =~= entry_spec(marked, name@, message@));
    }
    v
}

/// An error-tagged log entry: `! Error: <cause>`.
pub open spec fn error_entry_spec(cause: Seq<u8>) -> Seq<u8> {
    seq![33u8, 32u8, 69u8, 114u8, 114u8, 111u8, 114u8, 58u8, 32u8] + cause
}

/// Formats an error-tagged log entry.
pub fn format_error_entry(cause: &[u8]) -> (r: Vec<u8>)
    ensures
        r@ == error_entry_spec(cause@),
{
    let mut v: Vec<u8> = Vec::new();
    v.push(33);
    v.push(32);
    v.push(69);
    v.push(114);
    v.push(114);
    v.push(111);
    v.push(114);
    v.push(58);
    v.push(32);
    push_bytes(&mut v, cause);
    proof {
        assert(v@ =~= error_entry_spec(cause@));
    }
    v
}

} // verus!
