//! The bot registry: per-bot runtime state (reachability, opt-in flag,
//! sent-message history) on top of parsed identities, the eligibility rule
//! used by every dispatch, and the lookup and filter views the surrounding
//! program needs.

use vstd::prelude::*;

use crate::creds::{parse_credentials, parse_text_spec};
use crate::text::{
    bytes_equal, contains_bytes, contains_seq, copy_range, find_first, first_of, matches_at,
    to_lower, to_lower_spec, trim_bytes, trim_spec,
};

verus! {

/// One bot: identity plus runtime state. A bot starts unreachable and
/// enabled, with an empty history.
#[derive(Clone, Debug)]
pub struct Bot {
    pub name: Vec<u8>,
    pub token: Vec<u8>,
    pub available: bool,
    pub enable: bool,
    pub chat_history: Vec<Vec<u8>>,
}

impl Bot {
    pub fn new(name: Vec<u8>, token: Vec<u8>) -> (b: Bot)
        ensures
            b.name == name,
            b.token == token,
            b.available == false,
            b.enable == true,
            b.chat_history@ == Seq::<Vec<u8>>::empty(),
    {
        let b = Bot { name, token, available: false, enable: true, chat_history: Vec::new() };
        proof {
            assert(b.chat_history@ =~= Seq::<Vec<u8>>::empty());
        }
        b
    }

    pub fn set_available(&mut self, available: bool)
        ensures
            *final(self) == (Bot { available, ..*old(self) }),
    {
        self.available = available;
    }

    pub fn set_enabled(&mut self, enabled: bool)
        ensures
            *final(self) == (Bot { enable: enabled, ..*old(self) }),
    {
        self.enable = enabled;
    }

    pub fn add_to_history(&mut self, message: Vec<u8>)
        ensures
            final(self).chat_history@ == old(self).chat_history@.push(message),
            *final(self) == (Bot { chat_history: final(self).chat_history, ..*old(self) }),
    {
        self.chat_history.push(message);
    }

    pub fn clear_history(&mut self)
        ensures
            final(self).chat_history@ == Seq::<Vec<u8>>::empty(),
            *final(self) == (Bot { chat_history: final(self).chat_history, ..*old(self) }),
    {
        self.chat_history.clear();
    }
}

/// Bot `i` may be sent through: it exists, its last connectivity probe
/// succeeded, and the user has not disabled it.
pub open spec fn is_eligible(bots: Seq<Bot>, i: int) -> bool {
    0 <= i < bots.len() && bots[i].available && bots[i].enable
}

/// The indices of the eligible bots below `n`, in increasing order.
pub open spec fn eligible_upto(bots: Seq<Bot>, n: int) -> Seq<usize>
    decreases n,
{
    if n <= 0 {
        Seq::empty()
    } else if is_eligible(bots, n - 1) {
        eligible_upto(bots, n - 1).push((n - 1) as usize)
    } else {
        eligible_upto(bots, n - 1)
    }
}

/// The indices of all eligible bots, in increasing order.
pub open spec fn eligible_list(bots: Seq<Bot>) -> Seq<usize> {
    eligible_upto(bots, bots.len() as int)
}

/// How many bots are eligible.
pub open spec fn eligible_count(bots: Seq<Bot>) -> int {
    eligible_list(bots).len() as int
}

/// `eligible_upto` lists exactly the eligible indices below `n`, strictly
/// increasing and therefore without duplicates.
pub proof fn lemma_eligible_upto_props(bots: Seq<Bot>, n: int)
    requires
        n <= usize::MAX,
    ensures
        forall|j: int|
            0 <= j < eligible_upto(bots, n).len() ==> is_eligible(
                bots,
                #[trigger] eligible_upto(bots, n)[j] as int,
            ) && eligible_upto(bots, n)[j] < n,
        forall|k: int|
            0 <= k < n && is_eligible(bots, k) ==> eligible_upto(bots, n).contains(k as usize),
        forall|a: int, b: int|
            0 <= a < b < eligible_upto(bots, n).len() ==> eligible_upto(bots, n)[a]
                < eligible_upto(bots, n)[b],
        eligible_upto(bots, n).no_duplicates(),
    decreases n,
{
    if n <= 0 {
    } else {
        lemma_eligible_upto_props(bots, n - 1);
        let e = eligible_upto(bots, n);
        let ep = eligible_upto(bots, n - 1);
        if is_eligible(bots, n - 1) {
            assert(e == ep.push((n - 1) as usize));
            assert forall|j: int|
                0 <= j < e.len() implies is_eligible(bots, #[trigger] e[j] as int) && e[j]
                < n by {
                if j < e.len() - 1 {
                    assert(e[j] == ep[j]);
                } else {
                    assert(e[j] == (n - 1) as usize);
                }
            }
            assert forall|k: int|
                0 <= k < n && is_eligible(bots, k) implies e.contains(k as usize) by {
                if k < n - 1 {
                    let j = choose|j: int| 0 <= j < ep.len() && ep[j] == k as usize;
                    assert(e[j] == k as usize);
                } else {
                    assert(e[e.len() - 1] == k as usize);
                }
            }
            assert forall|a: int, b: int| 0 <= a < b < e.len() implies e[a] < e[b] by {
                if b < e.len() - 1 {
                    assert(e[a] == ep[a] && e[b] == ep[b]);
                } else {
                    assert(e[b] == (n - 1) as usize);
                    assert(e[a] == ep[a]);
                    assert(ep[a] < n - 1);
                }
            }
            assert forall|a: int, b: int|
                0 <= a < e.len() && 0 <= b < e.len() && a != b implies e[a] != e[b] by {
                if a < b {
                    assert(e[a] < e[b]);
                } else {
                    assert(e[b] < e[a]);
                }
            }
        } else {
            assert(e == ep);
        }
    }
}

/// There are at most `n` eligible indices below `n`.
pub proof fn lemma_eligible_upto_len(bots: Seq<Bot>, n: int)
    ensures
        eligible_upto(bots, n).len() <= (if n >= 0 {
            n
        } else {
            0
        }),
    decreases n,
{
    if n <= 0 {
    } else {
        lemma_eligible_upto_len(bots, n - 1);
    }
}

/// Computes the indices of the eligible bots, in increasing order.
pub fn eligible_indices(bots: &Vec<Bot>) -> (r: Vec<usize>)
    ensures
        r@ == eligible_list(bots@),
{
    let n = bots.len();
    let mut r: Vec<usize> = Vec::new();
    let mut i: usize = 0;
    proof {
        assert(r@ =~= eligible_upto(bots@, 0));
    }
    while i < n
        invariant
            n == bots@.len(),
            i <= n,
            r@ == eligible_upto(bots@, i as int),
        decreases n - i,
    {
        if bots[i].available && bots[i].enable {
            r.push(i);
        }
        i += 1;
    }
    r
}

/// The query is blank, or the bot's name contains it, both lower-cased.
pub open spec fn name_matches(bot: Bot, query: Seq<u8>) -> bool {
    query.len() == 0 || contains_seq(to_lower_spec(bot.name@), to_lower_spec(query))
}

/// The indices below `n` of bots whose names match `query`, in increasing
/// order.
pub open spec fn filtered_upto(bots: Seq<Bot>, query: Seq<u8>, n: int) -> Seq<usize>
    decreases n,
{
    if n <= 0 {
        Seq::empty()
    } else if 0 <= n - 1 < bots.len() && name_matches(bots[n - 1], query) {
        filtered_upto(bots, query, n - 1).push((n - 1) as usize)
    } else {
        filtered_upto(bots, query, n - 1)
    }
}

/// The indices of all bots whose names match `query`, in increasing order.
pub open spec fn filtered_list(bots: Seq<Bot>, query: Seq<u8>) -> Seq<usize> {
    filtered_upto(bots, query, bots.len() as int)
}

/// Filters the bots by a case-insensitive substring match on the name,
/// preserving each bot's index; a blank query keeps every bot.
pub fn get_filtered_bots(bots: &Vec<Bot>, query: &[u8]) -> (r: Vec<usize>)
    ensures
        r@ == filtered_list(bots@, query@),
{
    let n = bots.len();
    let lowered_query = to_lower(query);
    let mut r: Vec<usize> = Vec::new();
    let mut i: usize = 0;
    proof {
        assert(r@ =~= filtered_upto(bots@, query@, 0));
    }
    while i < n
        invariant
            n == bots@.len(),
            i <= n,
            lowered_query@ == to_lower_spec(query@),
            r@ == filtered_upto(bots@, query@, i as int),
        decreases n - i,
    {
        let keep: bool = if query.len() == 0 {
            true
        } else {
            let lowered_name = to_lower(bots[i].name.as_slice());
            contains_bytes(lowered_name.as_slice(), lowered_query.as_slice())
        };
        if keep {
            r.push(i);
        }
        i += 1;
    }
    r
}

/// The name between the first `[` and the first `]` of a log entry, with the
/// machine-origin marker `* ` and surrounding whitespace removed; nothing when
/// the entry has no such bracket pair.
pub open spec fn extract_name_spec(entry: Seq<u8>) -> Option<Seq<u8>> {
    let open = first_of(entry, 91);
    let close = first_of(entry, 93);
    if open < entry.len() && close < entry.len() && open + 1 <= close {
        let part = entry.subrange(open + 1, close);
        let stripped = if matches_at(part, seq![42u8, 32u8], 0) {
            part.skip(2)
        } else {
            part
        };
        Some(trim_spec(stripped))
    } else {
        None
    }
}

/// Recovers the bot name from a log entry, as `extract_name_spec` describes.
pub fn extract_bot_name_from_message(entry: &[u8]) -> (r: Option<Vec<u8>>)
    ensures
        match r {
            Some(v) => extract_name_spec(entry@) == Some(v@),
            None => extract_name_spec(entry@) is None,
        },
{
    let len = entry.len();
    let open = find_first(entry, 91);
    let close = find_first(entry, 93);
    if open < len && close < len && open + 1 <= close {
        let part = copy_range(entry, open + 1, close);
        let stripped: Vec<u8> = if part.len() >= 2 && part[0] == 42 && part[1] == 32 {
            proof {
                assert(part@.subrange(0, 2) =~= seq![42u8, 32u8]);
            }
            copy_range(part.as_slice(), 2, part.len())
        } else {
            proof {
                if part@.len() >= 2 {
                    assert(part@.subrange(0, 2)[0] == part@[0]);
                    assert(part@.subrange(0, 2)[1] == part@[1]);
                    assert(seq![42u8, 32u8][0] == 42u8);
                }
            }
            part
        };
        proof {
            assert(stripped@ =~= (if matches_at(
                entry@.subrange(open + 1, close as int),
                seq![42u8, 32u8],
                0,
            ) {
                entry@.subrange(open + 1, close as int).skip(2)
            } else {
                entry@.subrange(open + 1, close as int)
            }));
        }
        Some(trim_bytes(stripped.as_slice()))
    } else {
        None
    }
}

/// Finds the first bot with exactly this name; `None` when no bot has it.
/// Under duplicate display names the first match wins.
pub fn find_bot_by_name(bots: &Vec<Bot>, name: &[u8]) -> (r: Option<usize>)
    ensures
        match r {
            Some(i) => i < bots@.len() && bots@[i as int].name@ == name@ && forall|j: int|
                0 <= j < i ==> bots@[j].name@ != name@,
            None => forall|j: int| 0 <= j < bots@.len() ==> bots@[j].name@ != name@,
        },
{
    let n = bots.len();
    let mut i: usize = 0;
    while i < n
        invariant
            n == bots@.len(),
            i <= n,
            forall|j: int| 0 <= j < i ==> bots@[j].name@ != name@,
        decreases n - i,
    {
        if bytes_equal(bots[i].name.as_slice(), name) {
            return Some(i);
        }
        i += 1;
    }
    None
}

/// Builds fresh bots from a credential text: each parsed identity becomes a
/// bot that is unavailable, enabled, and has an empty history. The counter
/// advances past every synthesized name.
pub fn create_bots(content: &[u8], counter: &mut u64) -> (r: Vec<Bot>)
    requires
        *old(counter) + content@.len() + 1 <= u64::MAX,
    ensures
        *final(counter) as int == parse_text_spec(content@, *old(counter) as int).1,
        *old(counter) <= *final(counter),
        r@.len() == parse_text_spec(content@, *old(counter) as int).0.len(),
        forall|k: int|
            0 <= k < r@.len() ==> {
                let ident = parse_text_spec(content@, *old(counter) as int).0[k];
                &&& (#[trigger] r@[k]).name@ == ident.name
                &&& r@[k].token@ == ident.token
                &&& r@[k].available == false
                &&& r@[k].enable == true
                &&& r@[k].chat_history@.len() == 0
            },
{
    let ghost c0 = *counter as int;
    let idents = parse_credentials(content, counter);
    let ghost parsed = parse_text_spec(content@, c0).0;
    let mut r: Vec<Bot> = Vec::new();
    let n = idents.len();
    let mut k: usize = 0;
    while k < n
        invariant
            n == idents@.len(),
            k <= n,
            crate::creds::ident_views(idents@) == parsed,
            r@.len() == k,
            forall|j: int|
                0 <= j < k ==> {
                    &&& (#[trigger] r@[j]).name@ == parsed[j].name
                    &&& r@[j].token@ == parsed[j].token
                    &&& r@[j].available == false
                    &&& r@[j].enable == true
                    &&& r@[j].chat_history@.len() == 0
                },
        decreases n - k,
    {
        proof {
            assert(crate::creds::ident_views(idents@)[k as int] == idents@[k as int]@);
        }
        let src = &idents[k];
        let nm = copy_range(src.name.as_slice(), 0, src.name.len());
        let tok = copy_range(src.token.as_slice(), 0, src.token.len());
        proof {
            assert(nm@ =~= idents@[k as int].name@);
            assert(tok@ =~= idents@[k as int].token@);
        }
        let b = Bot::new(nm, tok);
        r.push(b);
        k += 1;
    }
    r
}

} // verus!
