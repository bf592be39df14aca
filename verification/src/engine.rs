//! The engine's driver-facing surface: one `Core` value holds the registry,
//! the global chat log, the message pool, the channel, the scheduler and the
//! delay policy, and every command of the surrounding program is a method
//! with an exact contract. Network sends are returned as plans; the driver
//! performs them and reports each outcome back.

use vstd::prelude::*;

use crate::creds::parse_text_spec;
use crate::dispatch::{
    DelayPolicy, DispatchIntent, PlannedSend, compute_delays, delay_hi, delays_ok, entry_spec,
    error_entry_spec, format_entry, format_error_entry, lemma_selection_len, select_targets,
    selection_ok,
};
use crate::dispatch::assign_messages;
use crate::registry::{Bot, create_bots, is_eligible};
use crate::rng::pick_index;
use crate::schedule::{
    ScheduleState, lemma_reschedule_strictly_future, rescheduled_from, sched_hi, sched_lo,
    schedule_wf,
};
use crate::session::{SendError, error_text_spec};
use crate::text::{
    copy_bytes, split_lines, split_lines_spec, trim_bytes, trim_spec, views_of,
};

verus! {

/// The engine's whole state.
pub struct Core {
    pub bots: Vec<Bot>,
    pub next_bot_id: u64,
    pub chat_history: Vec<Vec<u8>>,
    pub messages: Vec<Vec<u8>>,
    pub channel: Vec<u8>,
    pub schedule: ScheduleState,
    pub delay_policy: DelayPolicy,
    pub all_bots_mode: bool,
    pub multiple_bots_mode: bool,
    pub multiple_bots_count: usize,
}

/// The engine's invariant: the two multi-bot modes exclude each other, and
/// the scheduler is well-formed.
pub open spec fn core_wf(c: Core) -> bool {
    &&& !(c.all_bots_mode && c.multiple_bots_mode)
    &&& schedule_wf(c.schedule)
}

/// A line of the message-pool text without its trailing carriage return.
pub open spec fn logical_line(l: Seq<u8>) -> Seq<u8> {
    if l.len() > 0 && l[l.len() - 1] == 13u8 {
        l.drop_last()
    } else {
        l
    }
}

/// The non-blank lines among `lines`, each without its trailing carriage
/// return.
pub open spec fn pool_of_lines(lines: Seq<Seq<u8>>) -> Seq<Seq<u8>>
    decreases lines.len(),
{
    if lines.len() == 0 {
        Seq::empty()
    } else {
        let l = logical_line(lines[0]);
        (if trim_spec(l).len() > 0 {
            seq![l]
        } else {
            Seq::<Seq<u8>>::empty()
        }) + pool_of_lines(lines.drop_first())
    }
}

/// The message pool parsed from a pool text: one candidate message per
/// non-blank line.
pub open spec fn message_pool_spec(text: Seq<u8>) -> Seq<Seq<u8>> {
    pool_of_lines(split_lines_spec(text))
}

/// The entry a dispatch writes for one planned send: the target's name and
/// the message, marked when machine-originated.
pub open spec fn entry_of(p: PlannedSend, bots: Seq<Bot>, marked: bool) -> Seq<u8> {
    entry_spec(marked, bots[p.bot as int].name@, p.message@)
}

/// The entries a dispatch writes, in plan order.
pub open spec fn entries_of(plan: Seq<PlannedSend>, bots: Seq<Bot>, marked: bool) -> Seq<Seq<u8>> {
    Seq::new(plan.len(), |k: int| entry_of(plan[k], bots, marked))
}

/// The planned targets, in plan order.
pub open spec fn plan_bots(plan: Seq<PlannedSend>) -> Seq<usize> {
    plan.map_values(|p: PlannedSend| p.bot)
}

/// The planned delays, in plan order.
pub open spec fn plan_delays(plan: Seq<PlannedSend>) -> Seq<u64> {
    plan.map_values(|p: PlannedSend| p.delay_secs)
}

/// No planned send targets bot `i`.
pub open spec fn untargeted(plan: Seq<PlannedSend>, i: int) -> bool {
    forall|k: int| 0 <= k < plan.len() ==> (#[trigger] plan[k]).bot as int != i
}

/// How a dispatch is recorded before any network call fires: the global log
/// grows by one entry per planned send, in plan order; each targeted bot's
/// history grows by exactly its own entry; nothing else about any bot
/// changes, and untargeted bots are untouched.
pub open spec fn logged_dispatch(
    pre: Core,
    post: Core,
    plan: Seq<PlannedSend>,
    marked: bool,
) -> bool {
    &&& post.bots@.len() == pre.bots@.len()
    &&& views_of(post.chat_history@) == views_of(pre.chat_history@) + entries_of(
        plan,
        pre.bots@,
        marked,
    )
    &&& forall|k: int|
        0 <= k < plan.len() ==> {
            let t = (#[trigger] plan[k]).bot as int;
            &&& 0 <= t < pre.bots@.len()
            &&& views_of(post.bots@[t].chat_history@) == views_of(
                pre.bots@[t].chat_history@,
            ).push(entry_of(plan[k], pre.bots@, marked))
            &&& post.bots@[t].name == pre.bots@[t].name
            &&& post.bots@[t].token == pre.bots@[t].token
            &&& post.bots@[t].available == pre.bots@[t].available
            &&& post.bots@[t].enable == pre.bots@[t].enable
        }
    &&& forall|i: int|
        (0 <= i < pre.bots@.len() && untargeted(plan, i)) ==> (#[trigger] post.bots@[i])
            == pre.bots@[i]
}

/// The intent a scheduled fire dispatches with, per the engine's mode flags.
pub open spec fn scheduled_intent_spec(c: Core) -> DispatchIntent {
    if c.multiple_bots_mode {
        DispatchIntent::SubsetBots(c.multiple_bots_count)
    } else if c.all_bots_mode {
        DispatchIntent::AllBots
    } else {
        DispatchIntent::RandomBot
    }
}

/// Everything one scheduler fire at time `now` does: the fire time is
/// recorded and, while armed, a fresh random interval schedules the next
/// cycle; with a blank pool or channel nothing is dispatched but time is not
/// saved; otherwise one dispatch under the mode's intent is recorded, every
/// message drawn from the pool, one shared message outside multiple-bots
/// mode.
pub open spec fn fire_outcome(pre: Core, post: Core, plan: Seq<PlannedSend>, now: u64) -> bool {
    &&& post.next_bot_id == pre.next_bot_id
    &&& post.messages == pre.messages
    &&& post.channel == pre.channel
    &&& post.delay_policy == pre.delay_policy
    &&& post.all_bots_mode == pre.all_bots_mode
    &&& post.multiple_bots_mode == pre.multiple_bots_mode
    &&& post.multiple_bots_count == pre.multiple_bots_count
    &&& post.schedule.enabled == pre.schedule.enabled
    &&& post.schedule.min_interval == pre.schedule.min_interval
    &&& post.schedule.max_interval == pre.schedule.max_interval
    &&& post.schedule.last_fire_at == Some(now)
    &&& (pre.schedule.enabled ==> rescheduled_from(post.schedule, now))
    &&& (!pre.schedule.enabled ==> post.schedule.next_fire_at is None)
    &&& schedule_wf(post.schedule)
    &&& if pre.messages@.len() == 0 || pre.channel@.len() == 0 {
        plan.len() == 0 && post.bots == pre.bots && post.chat_history == pre.chat_history
    } else {
        &&& selection_ok(pre.bots@, scheduled_intent_spec(pre), plan_bots(plan))
        &&& logged_dispatch(pre, post, plan, true)
        &&& delays_ok(pre.delay_policy, plan_delays(plan))
        &&& forall|k: int|
            0 <= k < plan.len() ==> views_of(pre.messages@).contains(
                (#[trigger] plan[k]).message@,
            )
        &&& (!pre.multiple_bots_mode ==> forall|k1: int, k2: int|
            0 <= k1 < plan.len() && 0 <= k2 < plan.len() ==> (#[trigger] plan[k1]).message@ == (
            #[trigger] plan[k2]).message@)
        &&& (pre.multiple_bots_mode ==> exists|sh: Seq<Seq<u8>>|
            #![trigger sh.to_multiset()]
            {
                &&& sh.to_multiset() == views_of(pre.messages@).to_multiset()
                &&& sh.len() == pre.messages@.len()
                &&& forall|k: int|
                    0 <= k < plan.len() ==> (#[trigger] plan[k]).message@ == sh[k % (
                    sh.len() as int)]
            })
    }
}

/// Once a fire happens while the scheduler is armed with a positive minimum
/// interval, the rescheduled fire time lies strictly in the future: repeated
/// ticks at the same instant cannot fire twice.
pub proof fn lemma_fire_reschedules_strictly_future(
    pre: Core,
    post: Core,
    plan: Seq<PlannedSend>,
    now: u64,
)
    requires
        pre.schedule.enabled,
        sched_lo(pre.schedule) >= 1,
        fire_outcome(pre, post, plan, now),
    ensures
        post.schedule.next_fire_at matches Some(t) && t > now,
{
    lemma_reschedule_strictly_future(post.schedule, now);
}

/// A direct send with no explicit target is refused while the message or the
/// channel is blank.
pub open spec fn direct_send_blocked(
    intent: DispatchIntent,
    message: Seq<u8>,
    channel: Seq<u8>,
) -> bool {
    !(intent is SingleBot) && (message.len() == 0 || channel.len() == 0)
}

/// `count` copies of one message.
fn replicate_message(message: &[u8], count: usize) -> (r: Vec<Vec<u8>>)
    ensures
        r@.len() == count,
        forall|k: int| 0 <= k < count ==> (#[trigger] r@[k])@ == message@,
{
    let mut r: Vec<Vec<u8>> = Vec::new();
    let mut k: usize = 0;
    while k < count
        invariant
            k <= count,
            r@.len() == k,
            forall|j: int| 0 <= j < k ==> (#[trigger] r@[j])@ == message@,
        decreases count - k,
    {
        r.push(copy_bytes(message));
        k += 1;
    }
    r
}

impl Core {
    /// A fresh engine: no bots, name counter at one, empty log, pool and
    /// channel, scheduler disarmed at its defaults, simultaneous sends with
    /// a one-to-three second stagger when disabled, single-random mode, a
    /// subset size of three.
    pub fn new() -> (c: Core)
        ensures
            c.bots@.len() == 0,
            c.next_bot_id == 1,
            c.chat_history@.len() == 0,
            c.messages@.len() == 0,
            c.channel@.len() == 0,
            c.schedule == (ScheduleState {
                enabled: false,
                min_interval: 30,
                max_interval: 120,
                next_fire_at: None,
                last_fire_at: None,
            }),
            c.delay_policy == (DelayPolicy { simultaneous: true, min_delay: 1, max_delay: 3 }),
            c.all_bots_mode == false,
            c.multiple_bots_mode == false,
            c.multiple_bots_count == 3,
            core_wf(c),
    {
        Core {
            bots: Vec::new(),
            next_bot_id: 1,
            chat_history: Vec::new(),
            messages: Vec::new(),
            channel: Vec::new(),
            schedule: ScheduleState::new(),
            delay_policy: DelayPolicy { simultaneous: true, min_delay: 1, max_delay: 3 },
            all_bots_mode: false,
            multiple_bots_mode: false,
            multiple_bots_count: 3,
        }
    }

    /// Replaces the whole registry from a credential text, discarding all
    /// prior runtime state; the name counter is never rewound.
    pub fn load_credentials(&mut self, text: &[u8])
        requires
            old(self).next_bot_id + text@.len() + 1 <= u64::MAX,
        ensures
            final(self).next_bot_id as int == parse_text_spec(
                text@,
                old(self).next_bot_id as int,
            ).1,
            old(self).next_bot_id <= final(self).next_bot_id,
            final(self).bots@.len() == parse_text_spec(text@, old(self).next_bot_id as int).0.len(),
            forall|k: int|
                0 <= k < final(self).bots@.len() ==> {
                    let ident = parse_text_spec(text@, old(self).next_bot_id as int).0[k];
                    &&& (#[trigger] final(self).bots@[k]).name@ == ident.name
                    &&& final(self).bots@[k].token@ == ident.token
                    &&& final(self).bots@[k].available == false
                    &&& final(self).bots@[k].enable == true
                    &&& final(self).bots@[k].chat_history@.len() == 0
                },
            *final(self) == (Core {
                bots: final(self).bots,
                next_bot_id: final(self).next_bot_id,
                ..*old(self)
            }),
    {
        let bots = create_bots(text, &mut self.next_bot_id);
        self.bots = bots;
    }

    /// Replaces the message pool from a pool text: one candidate message per
    /// non-blank line.
    pub fn load_messages(&mut self, text: &[u8])
        ensures
            views_of(final(self).messages@) == message_pool_spec(text@),
            *final(self) == (Core { messages: final(self).messages, ..*old(self) }),
    {
        let lines = split_lines(text);
        let ghost all = views_of(lines@);
        let n = lines.len();
        let mut pool: Vec<Vec<u8>> = Vec::new();
        let mut k: usize = 0;
        proof {
            assert(all.skip(0) =~= all);
            assert(views_of(pool@) =~= Seq::<Seq<u8>>::empty());
        }
        while k < n
            invariant
                n == lines@.len(),
                all == views_of(lines@),
                k <= n,
                pool_of_lines(all) =~= views_of(pool@) + pool_of_lines(all.skip(k as int)),
            decreases n - k,
        {
            let ghost rest = all.skip(k as int);
            proof {
                assert(rest[0] == all[k as int]);
                assert(rest.drop_first() =~= all.skip(k + 1));
                assert(all[k as int] == lines@[k as int]@);
            }
            let line = &lines[k];
            let len = line.len();
            let ll: Vec<u8> = if len > 0 && line[len - 1] == 13 {
                crate::text::copy_range(line.as_slice(), 0, len - 1)
            } else {
                copy_bytes(line.as_slice())
            };
            proof {
                assert(ll@ =~= logical_line(all[k as int]));
            }
            let trimmed = trim_bytes(ll.as_slice());
            if trimmed.len() > 0 {
                pool.push(ll);
                proof {
                    assert(views_of(pool@) =~= views_of(pool@.drop_last()) + seq![
                        pool@.last()@,
                    ]);
                }
            }
            k += 1;
        }
        proof {
            assert(all.skip(n as int) =~= Seq::<Seq<u8>>::empty());
            assert(views_of(pool@) + Seq::<Seq<u8>>::empty() =~= views_of(pool@));
        }
        self.messages = pool;
    }

    /// Sets the target channel.
    pub fn set_channel(&mut self, channel: Vec<u8>)
        ensures
            final(self).channel == channel,
            *final(self) == (Core { channel: final(self).channel, ..*old(self) }),
    {
        self.channel = channel;
    }

    /// Records a connectivity-probe result for one bot; an index past the
    /// registry is ignored.
    pub fn set_bot_available(&mut self, i: usize, available: bool)
        ensures
            i < old(self).bots@.len() ==> final(self).bots@ == old(self).bots@.update(
                i as int,
                (Bot { available, ..old(self).bots@[i as int] }),
            ),
            i >= old(self).bots@.len() ==> final(self).bots == old(self).bots,
            *final(self) == (Core { bots: final(self).bots, ..*old(self) }),
    {
        if i < self.bots.len() {
            let b = &mut self.bots[i];
            b.set_available(available);
        }
    }

    /// Applies the user's enable toggle for one bot; an index past the
    /// registry is ignored.
    pub fn set_bot_enabled(&mut self, i: usize, enabled: bool)
        ensures
            i < old(self).bots@.len() ==> final(self).bots@ == old(self).bots@.update(
                i as int,
                (Bot { enable: enabled, ..old(self).bots@[i as int] }),
            ),
            i >= old(self).bots@.len() ==> final(self).bots == old(self).bots,
            *final(self) == (Core { bots: final(self).bots, ..*old(self) }),
    {
        if i < self.bots.len() {
            let b = &mut self.bots[i];
            b.set_enabled(enabled);
        }
    }

    /// Clears one bot's history; an index past the registry is ignored.
    pub fn clear_bot_history(&mut self, i: usize)
        ensures
            i < old(self).bots@.len() ==> final(self).bots@ == old(self).bots@.update(
                i as int,
                (Bot {
                    chat_history: final(self).bots@[i as int].chat_history,
                    ..old(self).bots@[i as int]
                }),
            ) && final(self).bots@[i as int].chat_history@.len() == 0,
            i >= old(self).bots@.len() ==> final(self).bots == old(self).bots,
            *final(self) == (Core { bots: final(self).bots, ..*old(self) }),
    {
        if i < self.bots.len() {
            let b = &mut self.bots[i];
            b.clear_history();
        }
    }

    /// Clears the global chat log.
    pub fn clear_global_history(&mut self)
        ensures
            final(self).chat_history@.len() == 0,
            *final(self) == (Core { chat_history: final(self).chat_history, ..*old(self) }),
    {
        self.chat_history.clear();
    }

    /// Clears the global chat log and every bot's history.
    pub fn clear_all_history(&mut self)
        ensures
            final(self).chat_history@.len() == 0,
            final(self).bots@.len() == old(self).bots@.len(),
            forall|i: int|
                0 <= i < old(self).bots@.len() ==> {
                    &&& (#[trigger] final(self).bots@[i]).chat_history@.len() == 0
                    &&& final(self).bots@[i].name == old(self).bots@[i].name
                    &&& final(self).bots@[i].token == old(self).bots@[i].token
                    &&& final(self).bots@[i].available == old(self).bots@[i].available
                    &&& final(self).bots@[i].enable == old(self).bots@[i].enable
                },
            *final(self) == (Core {
                bots: final(self).bots,
                chat_history: final(self).chat_history,
                ..*old(self)
            }),
    {
        self.chat_history.clear();
        let n = self.bots.len();
        let mut i: usize = 0;
        while i < n
            invariant
                n == self.bots@.len(),
                n == old(self).bots@.len(),
                i <= n,
                forall|j: int|
                    0 <= j < i ==> {
                        &&& (#[trigger] self.bots@[j]).chat_history@.len() == 0
                        &&& self.bots@[j].name == old(self).bots@[j].name
                        &&& self.bots@[j].token == old(self).bots@[j].token
                        &&& self.bots@[j].available == old(self).bots@[j].available
                        &&& self.bots@[j].enable == old(self).bots@[j].enable
                    },
                forall|j: int| i <= j < n ==> #[trigger] self.bots@[j] == old(self).bots@[j],
                self.chat_history@.len() == 0,
                self.next_bot_id == old(self).next_bot_id,
                self.messages == old(self).messages,
                self.channel == old(self).channel,
                self.schedule == old(self).schedule,
                self.delay_policy == old(self).delay_policy,
                self.all_bots_mode == old(self).all_bots_mode,
                self.multiple_bots_mode == old(self).multiple_bots_mode,
                self.multiple_bots_count == old(self).multiple_bots_count,
            decreases n - i,
        {
            let b = &mut self.bots[i];
            b.clear_history();
            i += 1;
        }
    }

    /// Turns all-bots mode on or off; turning it on leaves multiple-bots
    /// mode.
    pub fn set_all_bots_mode(&mut self, on: bool)
        ensures
            final(self).all_bots_mode == on,
            final(self).multiple_bots_mode == (if on {
                false
            } else {
                old(self).multiple_bots_mode
            }),
            *final(self) == (Core {
                all_bots_mode: final(self).all_bots_mode,
                multiple_bots_mode: final(self).multiple_bots_mode,
                ..*old(self)
            }),
            core_wf(*old(self)) ==> core_wf(*final(self)),
    {
        self.all_bots_mode = on;
        if on && self.multiple_bots_mode {
            self.multiple_bots_mode = false;
        }
    }

    /// Turns multiple-bots mode on or off; turning it on leaves all-bots
    /// mode.
    pub fn set_multiple_bots_mode(&mut self, on: bool)
        ensures
            final(self).multiple_bots_mode == on,
            final(self).all_bots_mode == (if on {
                false
            } else {
                old(self).all_bots_mode
            }),
            *final(self) == (Core {
                all_bots_mode: final(self).all_bots_mode,
                multiple_bots_mode: final(self).multiple_bots_mode,
                ..*old(self)
            }),
            core_wf(*old(self)) ==> core_wf(*final(self)),
    {
        self.multiple_bots_mode = on;
        if on && self.all_bots_mode {
            self.all_bots_mode = false;
        }
    }

    /// Sets how many bots a subset dispatch targets; zero is refused and
    /// leaves the count unchanged.
    pub fn set_multiple_bots_count(&mut self, n: usize)
        ensures
            final(self).multiple_bots_count == (if n > 0 {
                n
            } else {
                old(self).multiple_bots_count
            }),
            *final(self) == (Core {
                multiple_bots_count: final(self).multiple_bots_count,
                ..*old(self)
            }),
    {
        if n > 0 {
            self.multiple_bots_count = n;
        }
    }

    /// Replaces the inter-bot delay policy.
    pub fn set_delay_policy(&mut self, simultaneous: bool, min_delay: u64, max_delay: u64)
        ensures
            final(self).delay_policy == (DelayPolicy { simultaneous, min_delay, max_delay }),
            *final(self) == (Core { delay_policy: final(self).delay_policy, ..*old(self) }),
    {
        self.delay_policy = DelayPolicy { simultaneous, min_delay, max_delay };
    }

    /// Replaces the scheduler's interval bounds.
    pub fn set_schedule_intervals(&mut self, min_interval: u64, max_interval: u64)
        ensures
            final(self).schedule == (ScheduleState {
                min_interval,
                max_interval,
                ..old(self).schedule
            }),
            *final(self) == (Core { schedule: final(self).schedule, ..*old(self) }),
    {
        self.schedule.set_intervals(min_interval, max_interval);
    }

    /// Arms or disarms the scheduler at time `now`.
    pub fn set_schedule_enabled(&mut self, now: u64, on: bool)
        requires
            now + sched_hi(old(self).schedule) <= u64::MAX,
        ensures
            final(self).schedule.enabled == on,
            final(self).schedule.min_interval == old(self).schedule.min_interval,
            final(self).schedule.max_interval == old(self).schedule.max_interval,
            final(self).schedule.last_fire_at == old(self).schedule.last_fire_at,
            on ==> crate::schedule::rescheduled_from(final(self).schedule, now),
            !on ==> final(self).schedule.next_fire_at is None,
            schedule_wf(final(self).schedule),
            *final(self) == (Core { schedule: final(self).schedule, ..*old(self) }),
            core_wf(*old(self)) ==> core_wf(*final(self)),
    {
        self.schedule.set_enabled(now, on);
    }

    /// Records a send task's outcome: a success changes nothing, a failure
    /// appends one error-tagged entry to the global log and, when the index
    /// is in range, to that bot's history.
    pub fn on_send_result(&mut self, bot: usize, result: Result<(), SendError>)
        ensures
            result is Ok ==> *final(self) == *old(self),
            result matches Err(e) ==> {
                &&& views_of(final(self).chat_history@) == views_of(
                    old(self).chat_history@,
                ).push(error_entry_spec(error_text_spec(e)))
                &&& final(self).bots@.len() == old(self).bots@.len()
                &&& (bot < old(self).bots@.len() ==> final(self).bots@ == old(self).bots@.update(
                    bot as int,
                    (Bot {
                        chat_history: final(self).bots@[bot as int].chat_history,
                        ..old(self).bots@[bot as int]
                    }),
                ) && views_of(final(self).bots@[bot as int].chat_history@) == views_of(
                    old(self).bots@[bot as int].chat_history@,
                ).push(error_entry_spec(error_text_spec(e))))
                &&& (bot >= old(self).bots@.len() ==> final(self).bots == old(self).bots)
                &&& *final(self) == (Core {
                    chat_history: final(self).chat_history,
                    bots: final(self).bots,
                    ..*old(self)
                })
            },
    {
        match result {
            Ok(_) => {},
            Err(e) => {
                let cause = e.describe();
                let entry_g = format_error_entry(cause.as_slice());
                self.chat_history.push(entry_g);
                proof {
                    assert(views_of(self.chat_history@) =~= views_of(
                        old(self).chat_history@,
                    ).push(error_entry_spec(error_text_spec(e))));
                }
                if bot < self.bots.len() {
                    let entry_b = format_error_entry(cause.as_slice());
                    let b = &mut self.bots[bot];
                    b.add_to_history(entry_b);
                    proof {
                        assert(views_of(self.bots@[bot as int].chat_history@) =~= views_of(
                            old(self).bots@[bot as int].chat_history@,
                        ).push(error_entry_spec(error_text_spec(e))));
                    }
                }
            },
        }
    }

    /// Records a dispatch before any network call: one entry per target in
    /// the global log and in the target's own history, and one planned send
    /// per target.
    fn log_and_plan(
        &mut self,
        targets: &Vec<usize>,
        msgs: &Vec<Vec<u8>>,
        delays: &Vec<u64>,
        marked: bool,
    ) -> (plan: Vec<PlannedSend>)
        requires
            msgs@.len() == targets@.len(),
            delays@.len() == targets@.len(),
            forall|k: int|
                0 <= k < targets@.len() ==> is_eligible(
                    old(self).bots@,
                    #[trigger] targets@[k] as int,
                ),
            forall|a: int, b: int| 0 <= a < b < targets@.len() ==> targets@[a] != targets@[b],
        ensures
            plan@.len() == targets@.len(),
            plan_bots(plan@) == targets@,
            forall|k: int| 0 <= k < plan@.len() ==> (#[trigger] plan@[k]).message@ == msgs@[k]@,
            plan_delays(plan@) == delays@,
            logged_dispatch(*old(self), *final(self), plan@, marked),
            *final(self) == (Core {
                bots: final(self).bots,
                chat_history: final(self).chat_history,
                ..*old(self)
            }),
    {
        let n = targets.len();
        let mut plan: Vec<PlannedSend> = Vec::new();
        let mut k: usize = 0;
        proof {
            assert(entries_of(plan@, old(self).bots@, marked) =~= Seq::<Seq<u8>>::empty());
            assert(views_of(self.chat_history@) =~= views_of(old(self).chat_history@)
                + entries_of(plan@, old(self).bots@, marked));
        }
        while k < n
            invariant
                n == targets@.len(),
                msgs@.len() == n,
                delays@.len() == n,
                forall|j: int|
                    0 <= j < n ==> is_eligible(old(self).bots@, #[trigger] targets@[j] as int),
                forall|a: int, b: int| 0 <= a < b < n ==> targets@[a] != targets@[b],
                k <= n,
                plan@.len() == k,
                forall|j: int| 0 <= j < k ==> (#[trigger] plan@[j]).bot == targets@[j],
                forall|j: int| 0 <= j < k ==> (#[trigger] plan@[j]).message@ == msgs@[j]@,
                forall|j: int| 0 <= j < k ==> (#[trigger] plan@[j]).delay_secs == delays@[j],
                self.bots@.len() == old(self).bots@.len(),
                views_of(self.chat_history@) =~= views_of(old(self).chat_history@) + entries_of(
                    plan@,
                    old(self).bots@,
                    marked,
                ),
                forall|j: int|
                    0 <= j < k ==> {
                        let t = (#[trigger] targets@[j]) as int;
                        &&& views_of(self.bots@[t].chat_history@) == views_of(
                            old(self).bots@[t].chat_history@,
                        ).push(entry_of(plan@[j], old(self).bots@, marked))
                        &&& self.bots@[t].name == old(self).bots@[t].name
                        &&& self.bots@[t].token == old(self).bots@[t].token
                        &&& self.bots@[t].available == old(self).bots@[t].available
                        &&& self.bots@[t].enable == old(self).bots@[t].enable
                    },
                forall|i: int|
                    (0 <= i < old(self).bots@.len() && (forall|j: int|
                        0 <= j < k ==> (#[trigger] targets@[j]) as int != i)) ==> (
                    #[trigger] self.bots@[i]) == old(self).bots@[i],
                self.next_bot_id == old(self).next_bot_id,
                self.messages == old(self).messages,
                self.channel == old(self).channel,
                self.schedule == old(self).schedule,
                self.delay_policy == old(self).delay_policy,
                self.all_bots_mode == old(self).all_bots_mode,
                self.multiple_bots_mode == old(self).multiple_bots_mode,
                self.multiple_bots_count == old(self).multiple_bots_count,
            decreases n - k,
        {
            let t = targets[k];
            proof {
                assert(is_eligible(old(self).bots@, t as int));
                assert forall|j: int| 0 <= j < k implies (#[trigger] targets@[j]) as int
                    != t as int by {
                    assert(targets@[j] != targets@[k as int]);
                }
                assert(self.bots@[t as int] == old(self).bots@[t as int]);
            }
            let ghost bots_before = self.bots@;
            let ghost plan_before = plan@;
            let ghost log_before = self.chat_history@;
            let entry_g = format_entry(marked, self.bots[t].name.as_slice(), msgs[k].as_slice());
            self.chat_history.push(entry_g);
            let entry_b = format_entry(marked, self.bots[t].name.as_slice(), msgs[k].as_slice());
            let b = &mut self.bots[t];
            b.add_to_history(entry_b);
            let msg_copy = copy_bytes(msgs[k].as_slice());
            plan.push(PlannedSend { bot: t, message: msg_copy, delay_secs: delays[k] });
            proof {
                let ob = old(self).bots@;
                let ghost ent = entry_spec(marked, ob[t as int].name@, msgs@[k as int]@);
                assert(plan@.last().message@ == msgs@[k as int]@);
                assert(entry_of(plan@.last(), ob, marked) == ent);
                assert(self.bots@ == bots_before.update(t as int, self.bots@[t as int]));
                assert(views_of(self.bots@[t as int].chat_history@) =~= views_of(
                    ob[t as int].chat_history@,
                ).push(ent));
                assert(entries_of(plan@, ob, marked) =~= entries_of(plan_before, ob, marked).push(
                    ent,
                ));
                assert(views_of(self.chat_history@) =~= views_of(log_before).push(ent));
                assert(views_of(log_before) =~= views_of(old(self).chat_history@) + entries_of(
                    plan_before,
                    ob,
                    marked,
                ));
                assert(views_of(self.chat_history@) =~= views_of(old(self).chat_history@)
                    + entries_of(plan@, ob, marked));
                assert forall|j: int|
                    0 <= j < k + 1 implies {
                    let tj = (#[trigger] targets@[j]) as int;
                    &&& views_of(self.bots@[tj].chat_history@) == views_of(
                        ob[tj].chat_history@,
                    ).push(entry_of(plan@[j], ob, marked))
                    &&& self.bots@[tj].name == ob[tj].name
                    &&& self.bots@[tj].token == ob[tj].token
                    &&& self.bots@[tj].available == ob[tj].available
                    &&& self.bots@[tj].enable == ob[tj].enable
                } by {
                    if j < k {
                        assert(targets@[j] != targets@[k as int]);
                        assert(self.bots@[targets@[j] as int] == bots_before[targets@[j] as int]);
                        assert(plan@[j] == plan_before[j]);
                    } else {
                        assert(plan@[j] == plan@.last());
                    }
                }
                assert forall|i: int|
                    (0 <= i < ob.len() && (forall|j: int|
                        0 <= j < k + 1 ==> (#[trigger] targets@[j]) as int != i)) implies (
                #[trigger] self.bots@[i]) == ob[i] by {
                    assert(targets@[k as int] as int != i);
                    assert(self.bots@[i] == bots_before[i]);
                }
            }
            k += 1;
        }
        proof {
            assert(plan_bots(plan@) =~= targets@);
            assert(plan_delays(plan@) =~= delays@);
            assert forall|k2: int| 0 <= k2 < plan@.len() implies {
                let t = (#[trigger] plan@[k2]).bot as int;
                &&& 0 <= t < old(self).bots@.len()
                &&& views_of(final(self).bots@[t].chat_history@) == views_of(
                    old(self).bots@[t].chat_history@,
                ).push(entry_of(plan@[k2], old(self).bots@, marked))
                &&& final(self).bots@[t].name == old(self).bots@[t].name
                &&& final(self).bots@[t].token == old(self).bots@[t].token
                &&& final(self).bots@[t].available == old(self).bots@[t].available
                &&& final(self).bots@[t].enable == old(self).bots@[t].enable
            } by {
                assert(plan@[k2].bot == targets@[k2]);
                assert(is_eligible(old(self).bots@, targets@[k2] as int));
            }
            assert forall|i: int|
                (0 <= i < old(self).bots@.len() && untargeted(plan@, i)) implies (
            #[trigger] final(self).bots@[i]) == old(self).bots@[i] by {
                assert forall|j: int| 0 <= j < n implies (#[trigger] targets@[j]) as int != i by {
                    assert(plan@[j].bot == targets@[j]);
                    assert(plan@[j].bot as int != i);
                }
            }
        }
        plan
    }

    /// Performs one user-commanded dispatch: selects the targets for the
    /// intent, records an entry per target in the global log and the
    /// target's history, and returns the sends to launch, each with its
    /// stagger delay. A send with no explicit target is a silent no-op while
    /// the message or the channel is blank, and every planned target was
    /// eligible at selection time.
    pub fn send(&mut self, intent: &DispatchIntent, message: &[u8]) -> (plan: Vec<PlannedSend>)
        requires
            (old(self).bots@.len() as int) * (delay_hi(old(self).delay_policy) as int)
                <= u64::MAX,
        ensures
            core_wf(*old(self)) ==> core_wf(*final(self)),
            direct_send_blocked(*intent, message@, old(self).channel@) ==> *final(self) == *old(
                self,
            ) && plan@.len() == 0,
            !direct_send_blocked(*intent, message@, old(self).channel@) ==> {
                &&& selection_ok(old(self).bots@, *intent, plan_bots(plan@))
                &&& forall|k: int|
                    0 <= k < plan@.len() ==> (#[trigger] plan@[k]).message@ == message@
                &&& delays_ok(old(self).delay_policy, plan_delays(plan@))
                &&& logged_dispatch(*old(self), *final(self), plan@, *intent is RandomBot)
                &&& *final(self) == (Core {
                    bots: final(self).bots,
                    chat_history: final(self).chat_history,
                    ..*old(self)
                })
            },
    {
        let blocked = match *intent {
            DispatchIntent::SingleBot(_) => false,
            _ => message.len() == 0 || self.channel.len() == 0,
        };
        if blocked {
            return Vec::new();
        }
        let nb = self.bots.len();
        let targets = select_targets(&self.bots, intent);
        let count = targets.len();
        proof {
            lemma_selection_len(self.bots@, *intent, targets@);
            assert((count as int) * (delay_hi(self.delay_policy) as int) <= (nb as int) * (
            delay_hi(self.delay_policy) as int)) by (nonlinear_arith)
                requires
                    0 <= count as int <= nb as int,
                    0 <= delay_hi(self.delay_policy) as int,
            ;
        }
        let msgs = replicate_message(message, count);
        let delays = compute_delays(&self.delay_policy, count);
        let marked = match *intent {
            DispatchIntent::RandomBot => true,
            _ => false,
        };
        let plan = self.log_and_plan(&targets, &msgs, &delays, marked);
        proof {
            assert(plan_bots(plan@) == targets@);
            assert(plan_delays(plan@) == delays@);
        }
        plan
    }

    /// One scheduler fire at time `now`, as `fire_outcome` describes.
    fn fire(&mut self, now: u64) -> (plan: Vec<PlannedSend>)
        requires
            core_wf(*old(self)),
            now + sched_hi(old(self).schedule) <= u64::MAX,
            (old(self).bots@.len() as int) * (delay_hi(old(self).delay_policy) as int)
                <= u64::MAX,
        ensures
            core_wf(*final(self)),
            fire_outcome(*old(self), *final(self), plan@, now),
    {
        self.schedule.record_fire(now);
        if self.messages.len() == 0 || self.channel.len() == 0 {
            return Vec::new();
        }
        let ghost mid = *self;
        let nb = self.bots.len();
        let intent = if self.multiple_bots_mode {
            DispatchIntent::SubsetBots(self.multiple_bots_count)
        } else if self.all_bots_mode {
            DispatchIntent::AllBots
        } else {
            DispatchIntent::RandomBot
        };
        proof {
            assert(intent == scheduled_intent_spec(*old(self)));
        }
        let targets = select_targets(&self.bots, &intent);
        let count = targets.len();
        proof {
            lemma_selection_len(self.bots@, intent, targets@);
            assert((count as int) * (delay_hi(self.delay_policy) as int) <= (nb as int) * (
            delay_hi(self.delay_policy) as int)) by (nonlinear_arith)
                requires
                    0 <= count as int <= nb as int,
                    0 <= delay_hi(self.delay_policy) as int,
            ;
        }
        let multiple = self.multiple_bots_mode;
        let msgs = if multiple {
            assign_messages(&self.messages, count)
        } else {
            let idx = pick_index(self.messages.len());
            replicate_message(self.messages[idx].as_slice(), count)
        };
        proof {
            assert forall|k: int|
                0 <= k < count implies views_of(old(self).messages@).contains(
                (#[trigger] msgs@[k])@,
            ) by {
                if !multiple {
                    assert(views_of(old(self).messages@)[choose|idx: int|
                        0 <= idx < old(self).messages@.len() && old(self).messages@[idx]@
                            == msgs@[k]@] == msgs@[k]@);
                }
            }
        }
        let delays = compute_delays(&self.delay_policy, count);
        let plan = self.log_and_plan(&targets, &msgs, &delays, true);
        proof {
            assert(plan_bots(plan@) == targets@);
            assert(plan_delays(plan@) == delays@);
            assert(logged_dispatch(mid, *final(self), plan@, true));
            assert(logged_dispatch(*old(self), *final(self), plan@, true));
            if multiple {
                let pool = old(self).messages@;
                let sh = choose|sh: Seq<Seq<u8>>|
                    #![trigger sh.to_multiset()]
                    {
                        &&& sh.to_multiset() == views_of(pool).to_multiset()
                        &&& sh.len() == pool.len()
                        &&& forall|k: int|
                            0 <= k < count ==> msgs@[k]@ == sh[k % (sh.len() as int)]
                    };
                assert forall|k: int|
                    0 <= k < plan@.len() implies (#[trigger] plan@[k]).message@ == sh[k % (
                sh.len() as int)] by {
                    assert(plan@[k].message@ == msgs@[k]@);
                }
            }
        }
        plan
    }

    /// One periodic clock tick at time `now`. A tick before the pending fire
    /// time (or while disarmed) does nothing; the first tick at or after it
    /// performs exactly one scheduler fire, which re-arms the cycle.
    pub fn tick(&mut self, now: u64) -> (plan: Vec<PlannedSend>)
        requires
            core_wf(*old(self)),
            now + sched_hi(old(self).schedule) <= u64::MAX,
            (old(self).bots@.len() as int) * (delay_hi(old(self).delay_policy) as int)
                <= u64::MAX,
        ensures
            core_wf(*final(self)),
            !(old(self).schedule.enabled && (old(self).schedule.next_fire_at matches Some(t)
                && now >= t)) ==> *final(self) == *old(self) && plan@.len() == 0,
            (old(self).schedule.enabled && (old(self).schedule.next_fire_at matches Some(t) && now
                >= t)) ==> fire_outcome(*old(self), *final(self), plan@, now),
    {
        if self.schedule.due(now) {
            self.fire(now)
        } else {
            Vec::new()
        }
    }

    /// A manual fire-now request: the pending fire is abandoned and one
    /// scheduler fire happens immediately, re-arming the cycle while the
    /// scheduler stays enabled.
    pub fn fire_now(&mut self, now: u64) -> (plan: Vec<PlannedSend>)
        requires
            core_wf(*old(self)),
            now + sched_hi(old(self).schedule) <= u64::MAX,
            (old(self).bots@.len() as int) * (delay_hi(old(self).delay_policy) as int)
                <= u64::MAX,
        ensures
            core_wf(*final(self)),
            fire_outcome(*old(self), *final(self), plan@, now),
    {
        self.fire(now)
    }
}

} // verus!
