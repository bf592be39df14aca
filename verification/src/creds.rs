//! Credential parsing: one bot per non-blank line of the credential text, in
//! the form `token` or `token|name`. A missing or blank display name is
//! synthesized as `bot_<n>` from a caller-owned counter that only ever grows,
//! so synthesized names never collide, not even across reloads.

use vstd::prelude::*;

use crate::text::{
    dec_rep, first_of, lemma_dec_rep_injective, lemma_first_of_bounds, lemma_split_lines_count,
    split_lines, split_lines_spec, trim_bytes, trim_spec, u64_to_dec, views_of,
};

verus! {

/// One bot identity: a display name and an opaque credential token.
#[derive(Clone, Debug)]
pub struct BotIdentity {
    pub name: Vec<u8>,
    pub token: Vec<u8>,
}

/// The mathematical value of a `BotIdentity`.
pub struct IdentView {
    pub name: Seq<u8>,
    pub token: Seq<u8>,
}

impl View for BotIdentity {
    type V = IdentView;

    open spec fn view(&self) -> IdentView {
        IdentView { name: self.name@, token: self.token@ }
    }
}

/// How one line of credential text parses: skipped, a named bot, or a bot
/// whose name must be synthesized.
pub enum LineOutcome {
    Blank,
    Named { name: Seq<u8>, token: Seq<u8> },
    Unnamed { token: Seq<u8> },
}

/// How a single line parses. The line is split at its first `|`; token and
/// name are trimmed; a line with no `|` and nothing but whitespace is blank.
pub open spec fn parse_line_spec(line: Seq<u8>) -> LineOutcome {
    let p = first_of(line, 124);
    if p < line.len() {
        let token = trim_spec(line.take(p));
        let name = trim_spec(line.skip(p + 1));
        if name.len() == 0 {
            LineOutcome::Unnamed { token }
        } else {
            LineOutcome::Named { name, token }
        }
    } else {
        let token = trim_spec(line);
        if token.len() == 0 {
            LineOutcome::Blank
        } else {
            LineOutcome::Unnamed { token }
        }
    }
}

/// The synthesized display name `bot_<c>`.
pub open spec fn synth_name(c: int) -> Seq<u8> {
    seq![98u8, 111u8, 116u8, 95u8] + dec_rep(c)
}

/// The identities parsed from `lines` with the name counter starting at `c`,
/// together with the counter value after parsing.
pub open spec fn parse_lines_spec(lines: Seq<Seq<u8>>, c: int) -> (Seq<IdentView>, int)
    decreases lines.len(),
{
    if lines.len() == 0 {
        (Seq::empty(), c)
    } else {
        match parse_line_spec(lines[0]) {
            LineOutcome::Blank => parse_lines_spec(lines.drop_first(), c),
            LineOutcome::Named { name, token } => {
                let r = parse_lines_spec(lines.drop_first(), c);
                (seq![IdentView { name, token }] + r.0, r.1)
            },
            LineOutcome::Unnamed { token } => {
                let r = parse_lines_spec(lines.drop_first(), c + 1);
                (seq![IdentView { name: synth_name(c), token }] + r.0, r.1)
            },
        }
    }
}

/// What a whole credential text parses to, counter starting at `c`.
pub open spec fn parse_text_spec(text: Seq<u8>, c: int) -> (Seq<IdentView>, int) {
    parse_lines_spec(split_lines_spec(text), c)
}

/// Views of a sequence of identities.
pub open spec fn ident_views(s: Seq<BotIdentity>) -> Seq<IdentView> {
    s.map_values(|b: BotIdentity| b@)
}

/// Parsing advances the counter by at most one per line.
pub proof fn lemma_parse_counter_bound(lines: Seq<Seq<u8>>, c: int)
    ensures
        c <= parse_lines_spec(lines, c).1 <= c + lines.len(),
    decreases lines.len(),
{
    if lines.len() == 0 {
    } else {
        match parse_line_spec(lines[0]) {
            LineOutcome::Blank => lemma_parse_counter_bound(lines.drop_first(), c),
            LineOutcome::Named { .. } => lemma_parse_counter_bound(lines.drop_first(), c),
            LineOutcome::Unnamed { .. } => lemma_parse_counter_bound(lines.drop_first(), c + 1),
        }
    }
}

/// Builds the display name `bot_<c>`.
pub fn make_synth_name(c: u64) -> (r: Vec<u8>)
    ensures
        r@ == synth_name(c as int),
{
    let mut v: Vec<u8> = Vec::new();
    v.push(98);
    v.push(111);
    v.push(116);
    v.push(95);
    let mut d = u64_to_dec(c);
    v.append(&mut d);
    proof {
        assert(v@ =~= synth_name(c as int));
    }
    v
}

/// Parses a credential text into bot identities. The counter is advanced past
/// every name it synthesizes and is never rewound.
pub fn parse_credentials(text: &[u8], counter: &mut u64) -> (r: Vec<BotIdentity>)
    requires
        *old(counter) + text@.len() + 1 <= u64::MAX,
    ensures
        ident_views(r@) == parse_text_spec(text@, *old(counter) as int).0,
        *final(counter) as int == parse_text_spec(text@, *old(counter) as int).1,
        *old(counter) <= *final(counter),
{
    let lines = split_lines(text);
    let ghost all = views_of(lines@);
    let ghost c0 = *counter as int;
    proof {
        lemma_split_lines_count(text@);
    }
    let n = lines.len();
    let mut out: Vec<BotIdentity> = Vec::new();
    let mut k: usize = 0;
    proof {
        assert(all.skip(0) =~= all);
        assert(ident_views(out@) =~= Seq::<IdentView>::empty());
        assert(parse_lines_spec(all, c0).0 =~= ident_views(out@) + parse_lines_spec(
            all.skip(0),
            c0,
        ).0);
    }
    while k < n
        invariant
            n == lines@.len(),
            all == views_of(lines@),
            k <= n,
            c0 <= *counter,
            *counter + (n - k) <= u64::MAX,
            parse_lines_spec(all, c0).0 =~= ident_views(out@) + parse_lines_spec(
                all.skip(k as int),
                *counter as int,
            ).0,
            parse_lines_spec(all, c0).1 == parse_lines_spec(
                all.skip(k as int),
                *counter as int,
            ).1,
        decreases n - k,
    {
        let ghost rest = all.skip(k as int);
        let ghost lv = all[k as int];
        proof {
            assert(rest[0] == lv);
            assert(rest.drop_first() =~= all.skip(k + 1));
        }
        let line = &lines[k];
        let len = line.len();
        let p = crate::text::find_first(line.as_slice(), 124);
        if p < len {
            let head = crate::text::copy_range(line.as_slice(), 0, p);
            let token = trim_bytes(head.as_slice());
            let tail = crate::text::copy_range(line.as_slice(), p + 1, len);
            let name = trim_bytes(tail.as_slice());
            proof {
                assert(head@ =~= lv.take(p as int));
                assert(tail@ =~= lv.skip(p + 1));
            }
            if name.len() == 0 {
                let nm = make_synth_name(*counter);
                out.push(BotIdentity { name: nm, token });
                *counter = *counter + 1;
            } else {
                out.push(BotIdentity { name, token });
            }
            proof {
                assert(ident_views(out@) =~= ident_views(out@.drop_last()) + seq![
                    out@.last()@,
                ]);
            }
        } else {
            let token = trim_bytes(line.as_slice());
            proof {
                assert(lv.take(len as int) =~= lv);
                lemma_first_of_bounds(lv, 124);
            }
            if token.len() > 0 {
                let nm = make_synth_name(*counter);
                out.push(BotIdentity { name: nm, token });
                *counter = *counter + 1;
                proof {
                    assert(ident_views(out@) =~= ident_views(out@.drop_last()) + seq![
                        out@.last()@,
                    ]);
                }
            }
        }
        k += 1;
    }
    proof {
        assert(all.skip(n as int) =~= Seq::<Seq<u8>>::empty());
        assert(ident_views(out@) + Seq::<IdentView>::empty() =~= ident_views(out@));
    }
    out
}

/// The counter values used for synthesized names, in parse order.
pub open spec fn synth_counters(lines: Seq<Seq<u8>>, c: int) -> Seq<int>
    decreases lines.len(),
{
    if lines.len() == 0 {
        Seq::empty()
    } else {
        match parse_line_spec(lines[0]) {
            LineOutcome::Blank => synth_counters(lines.drop_first(), c),
            LineOutcome::Named { .. } => synth_counters(lines.drop_first(), c),
            LineOutcome::Unnamed { .. } => seq![c] + synth_counters(lines.drop_first(), c + 1),
        }
    }
}

/// The counters behind synthesized names are strictly increasing and lie in
/// the interval from the starting counter to the final one.
pub proof fn lemma_synth_counters_range(lines: Seq<Seq<u8>>, c: int)
    ensures
        forall|i: int|
            0 <= i < synth_counters(lines, c).len() ==> c <= #[trigger] synth_counters(
                lines,
                c,
            )[i] < parse_lines_spec(lines, c).1,
        forall|i: int, j: int|
            0 <= i < j < synth_counters(lines, c).len() ==> synth_counters(lines, c)[i]
                < synth_counters(lines, c)[j],
    decreases lines.len(),
{
    if lines.len() == 0 {
    } else {
        let rest = lines.drop_first();
        let sc = synth_counters(lines, c);
        match parse_line_spec(lines[0]) {
            LineOutcome::Blank => {
                lemma_synth_counters_range(rest, c);
                assert(sc == synth_counters(rest, c));
            },
            LineOutcome::Named { .. } => {
                lemma_synth_counters_range(rest, c);
                assert(sc == synth_counters(rest, c));
            },
            LineOutcome::Unnamed { .. } => {
                lemma_synth_counters_range(rest, c + 1);
                lemma_parse_counter_bound(rest, c + 1);
                let sr = synth_counters(rest, c + 1);
                assert(sc =~= seq![c] + sr);
                assert forall|i: int|
                    0 <= i < sc.len() implies c <= #[trigger] sc[i] < parse_lines_spec(
                    lines,
                    c,
                ).1 by {
                    if i >= 1 {
                        assert(sc[i] == sr[i - 1]);
                    }
                }
                assert forall|i: int, j: int| 0 <= i < j < sc.len() implies sc[i] < sc[j] by {
                    assert(sc[j] == sr[j - 1]);
                    if i >= 1 {
                        assert(sc[i] == sr[i - 1]);
                    }
                }
            },
        }
    }
}

/// Distinct counters yield distinct synthesized names.
pub proof fn lemma_synth_name_injective(a: int, b: int)
    requires
        a >= 0,
        b >= 0,
        a != b,
    ensures
        synth_name(a) != synth_name(b),
{
    if synth_name(a) == synth_name(b) {
        assert(synth_name(a).skip(4) =~= dec_rep(a));
        assert(synth_name(b).skip(4) =~= dec_rep(b));
        lemma_dec_rep_injective(a, b);
    }
}

/// Every pair of names synthesized in one parse is distinct, and every name
/// synthesized by a later parse (starting at this parse's final counter) is
/// distinct from all of them: the counter never resets or collides.
pub proof fn lemma_synth_names_unique(early: Seq<Seq<u8>>, c: int, late: Seq<Seq<u8>>)
    requires
        c >= 0,
    ensures
        forall|i: int, j: int|
            0 <= i < j < synth_counters(early, c).len() ==> synth_name(
                #[trigger] synth_counters(early, c)[i],
            ) != synth_name(#[trigger] synth_counters(early, c)[j]),
        forall|i: int, j: int|
            0 <= i < synth_counters(early, c).len() && 0 <= j < synth_counters(
                late,
                parse_lines_spec(early, c).1,
            ).len() ==> synth_name(#[trigger] synth_counters(early, c)[i]) != synth_name(
                #[trigger] synth_counters(late, parse_lines_spec(early, c).1)[j],
            ),
{
    let c2 = parse_lines_spec(early, c).1;
    lemma_synth_counters_range(early, c);
    lemma_synth_counters_range(late, c2);
    lemma_parse_counter_bound(early, c);
    assert forall|i: int, j: int|
        0 <= i < j < synth_counters(early, c).len() implies synth_name(
        #[trigger] synth_counters(early, c)[i],
    ) != synth_name(#[trigger] synth_counters(early, c)[j]) by {
        lemma_synth_name_injective(synth_counters(early, c)[i], synth_counters(early, c)[j]);
    }
    assert forall|i: int, j: int|
        0 <= i < synth_counters(early, c).len() && 0 <= j < synth_counters(late, c2).len() implies synth_name(
        #[trigger] synth_counters(early, c)[i],
    ) != synth_name(#[trigger] synth_counters(late, c2)[j]) by {
        lemma_synth_name_injective(synth_counters(early, c)[i], synth_counters(late, c2)[j]);
    }
}

} // verus!
