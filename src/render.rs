//! Text shown for a vote count and for a voter's history.

use crate::text::{chars_of, decimal, push_char, push_decimal, push_str};
use crate::vote::{option_view, Action, VoteAction};
use vstd::prelude::*;

verus! {

/// A bucket whose voters are given by display name.
pub struct NamedBucket {
    pub choice: Option<VoteAction>,
    pub names: Vec<String>,
}

pub open spec fn names_view(names: Seq<String>) -> Seq<Seq<char>> {
    names.map_values(|n: String| n@)
}

pub open spec fn named_view(bs: Seq<NamedBucket>) -> Seq<(Option<Action>, Seq<Seq<char>>)> {
    bs.map_values(|b: NamedBucket| (option_view(b.choice), names_view(b.names@)))
}

/// Names separated by ", ".
pub open spec fn joined(names: Seq<Seq<char>>) -> Seq<char>
    decreases names.len(),
{
    if names.len() == 0 {
        Seq::empty()
    } else if names.len() == 1 {
        names[0]
    } else {
        joined(names.drop_last()) + ", "@ + names.last()
    }
}

/// " - <count> (<names>)"
pub open spec fn tail_text(names: Seq<Seq<char>>) -> Seq<char> {
    " - "@ + decimal(names.len()) + " ("@ + joined(names) + ")"@
}

/// The line of one bucket at position `rank` (from 1): votes are numbered,
/// abstentions and non-voters stand apart; un-votes are not shown.
pub open spec fn count_line(rank: nat, c: Option<Action>, names: Seq<Seq<char>>) -> Seq<char> {
    match c {
        Some(Action::Vote(t)) => "\n"@ + decimal(rank) + ". **"@ + t + "**"@ + tail_text(names),
        Some(Action::Abstain) => "\n\n**VTNL**"@ + tail_text(names),
        None => "\n\n**Not voting**"@ + tail_text(names),
        Some(Action::Unvote(_)) => Seq::empty(),
    }
}

pub open spec fn count_lines(bs: Seq<(Option<Action>, Seq<Seq<char>>)>) -> Seq<char>
    decreases bs.len(),
{
    if bs.len() == 0 {
        Seq::empty()
    } else {
        count_lines(bs.drop_last()) + count_line(bs.len(), bs.last().0, bs.last().1)
    }
}

pub open spec fn drop_leading_newlines(s: Seq<char>) -> Seq<char>
    decreases s.len(),
{
    if s.len() > 0 && s[0] == '\n' {
        drop_leading_newlines(s.skip(1))
    } else {
        s
    }
}

pub(crate) fn push_joined(out: &mut String, names: &Vec<String>)
    ensures
        final(out)@ == old(out)@ + joined(names_view(names@)),
{
    let ghost start = out@;
    let mut i: usize = 0;
    while i < names.len()
        invariant
            i <= names@.len(),
            out@ == start + joined(names_view(names@).take(i as int)),
        decreases names@.len() - i,
    {
        let ghost t = names_view(names@).take(i + 1);
        proof {
            assert(t.drop_last() =~= names_view(names@).take(i as int));
            assert(t.last() == names[i as int]@);
        }
        if i > 0 {
            push_str(out, ", ");
        }
        push_str(out, names[i].as_str());
        i = i + 1;
        proof {
            if i == 1 {
                assert(t.len() == 1);
                assert(out@ =~= start + joined(t));
            } else {
                assert(out@ =~= start + joined(t));
            }
        }
    }
    proof {
        assert(names_view(names@).take(i as int) =~= names_view(names@));
    }
}

fn push_tail(out: &mut String, names: &Vec<String>)
    requires
        names@.len() <= u64::MAX,
    ensures
        final(out)@ == old(out)@ + tail_text(names_view(names@)),
{
    let ghost start = out@;
    push_str(out, " - ");
    push_decimal(out, names.len() as u64);
    push_str(out, " (");
    push_joined(out, names);
    push_str(out, ")");
    proof {
        assert(out@ =~= start + tail_text(names_view(names@)));
    }
}

fn push_count_line(out: &mut String, rank: u64, b: &NamedBucket)
    requires
        b.names@.len() <= u64::MAX,
    ensures
        final(out)@ == old(out)@ + count_line(rank as nat, option_view(b.choice), names_view(
            b.names@,
        )),
{
    let ghost start = out@;
    match &b.choice {
        Some(VoteAction::Vote(t)) => {
            push_str(out, "\n");
            push_decimal(out, rank);
            push_str(out, ". **");
            push_str(out, t.as_str());
            push_str(out, "**");
            push_tail(out, &b.names);
            proof {
                assert(out@ =~= start + count_line(
                    rank as nat,
                    option_view(b.choice),
                    names_view(b.names@),
                ));
            }
        },
        Some(VoteAction::Abstain) => {
            push_str(out, "\n\n**VTNL**");
            push_tail(out, &b.names);
            proof {
                assert(out@ =~= start + count_line(
                    rank as nat,
                    option_view(b.choice),
                    names_view(b.names@),
                ));
            }
        },
        None => {
            push_str(out, "\n\n**Not voting**");
            push_tail(out, &b.names);
            proof {
                assert(out@ =~= start + count_line(
                    rank as nat,
                    option_view(b.choice),
                    names_view(b.names@),
                ));
            }
        },
        Some(VoteAction::Unvote(_)) => {
            proof {
                assert(out@ =~= start + count_line(
                    rank as nat,
                    option_view(b.choice),
                    names_view(b.names@),
                ));
            }
        },
    }
}

fn without_leading_newlines(s: &String) -> (r: String)
    ensures
        r@ == drop_leading_newlines(s@),
{
    let cs = chars_of(s.as_str());
    let mut i: usize = 0;
    proof {
        assert(s@.skip(0) =~= s@);
    }
    while i < cs.len() && cs[i] == '\n'
        invariant
            i <= cs@.len(),
            cs@ == s@,
            drop_leading_newlines(s@) == drop_leading_newlines(s@.skip(i as int)),
        decreases cs@.len() - i,
    {
        proof {
            assert(s@.skip(i as int).skip(1) =~= s@.skip(i + 1));
        }
        i = i + 1;
    }
    let mut r = String::new();
    let mut j = i;
    while j < cs.len()
        invariant
            i <= j <= cs@.len(),
            cs@ == s@,
            r@ == s@.subrange(i as int, j as int),
        decreases cs@.len() - j,
    {
        push_char(&mut r, cs[j]);
        j = j + 1;
        proof {
            assert(r@ =~= s@.subrange(i as int, j as int));
        }
    }
    proof {
        assert(r@ =~= s@.skip(i as int));
    }
    r
}

/// The text of a vote count: one line per bucket, in the order given.
pub fn render_vote_count(buckets: &Vec<NamedBucket>) -> (r: String)
    requires
        buckets@.len() < u64::MAX,
        forall|i: int| 0 <= i < buckets@.len() ==> (#[trigger] buckets@[i]).names@.len() <= u64::MAX,
    ensures
        r@ == drop_leading_newlines(count_lines(named_view(buckets@))),
{
    let mut out = String::new();
    let mut i: usize = 0;
    while i < buckets.len()
        invariant
            i <= buckets@.len() < u64::MAX,
            forall|k: int| 0 <= k < buckets@.len() ==> (#[trigger] buckets@[k]).names@.len() <= u64::MAX,
            out@ == count_lines(named_view(buckets@).take(i as int)),
        decreases buckets@.len() - i,
    {
        let ghost t = named_view(buckets@).take(i + 1);
        proof {
            assert(t.drop_last() =~= named_view(buckets@).take(i as int));
        }
        push_count_line(&mut out, (i + 1) as u64, &buckets[i]);
        i = i + 1;
    }
    proof {
        assert(named_view(buckets@).take(i as int) =~= named_view(buckets@));
    }
    without_leading_newlines(&out)
}

/// The ordinal suffix of a day of the month.
pub open spec fn day_suffix(day: nat) -> Seq<char> {
    if day == 1 || day == 21 || day == 31 {
        "st"@
    } else if day == 2 || day == 22 {
        "nd"@
    } else if day == 3 || day == 23 {
        "rd"@
    } else {
        "th"@
    }
}

/// A day of the month as an ordinal: "1st", "22nd", "13th".
pub fn format_day(day: u32) -> (r: String)
    ensures
        r@ == decimal(day as nat) + day_suffix(day as nat),
{
    let mut r = String::new();
    push_decimal(&mut r, day as u64);
    if day == 1 || day == 21 || day == 31 {
        push_str(&mut r, "st");
    } else if day == 2 || day == 22 {
        push_str(&mut r, "nd");
    } else if day == 3 || day == 23 {
        push_str(&mut r, "rd");
    } else {
        push_str(&mut r, "th");
    }
    proof {
        assert(r@ =~= decimal(day as nat) + day_suffix(day as nat));
    }
    r
}

/// One directive of a voter's history, with the day of the month it was sent
/// on and the rest of its time as text ("May at 7:05 pm").
pub struct HistoryEntry {
    pub action: VoteAction,
    pub day: u32,
    pub when: String,
}

pub open spec fn action_text(a: Action) -> Seq<char> {
    match a {
        Action::Vote(t) => "**VTL "@ + t + "**"@,
        Action::Unvote(t) => "**UnVTL "@ + t + "**"@,
        Action::Abstain => "**VTNL**"@,
    }
}

/// The line of the `number`th directive of a history.
pub open spec fn history_line(number: nat, a: Action, day: nat, when: Seq<char>) -> Seq<char> {
    "\n"@ + decimal(number) + ". "@ + action_text(a) + " (on "@ + decimal(day) + day_suffix(day)
        + " "@ + when + ")"@
}

pub open spec fn history_lines(es: Seq<HistoryEntry>) -> Seq<char>
    decreases es.len(),
{
    if es.len() == 0 {
        Seq::empty()
    } else {
        history_lines(es.drop_last()) + history_line(
            es.len(),
            es.last().action@,
            es.last().day as nat,
            es.last().when@,
        )
    }
}

fn push_action_text(out: &mut String, a: &VoteAction)
    ensures
        final(out)@ == old(out)@ + action_text(a@),
{
    let ghost start = out@;
    match a {
        VoteAction::Vote(t) => {
            push_str(out, "**VTL ");
            push_str(out, t.as_str());
            push_str(out, "**");
        },
        VoteAction::Unvote(t) => {
            push_str(out, "**UnVTL ");
            push_str(out, t.as_str());
            push_str(out, "**");
        },
        VoteAction::Abstain => {
            push_str(out, "**VTNL**");
        },
    }
    proof {
        assert(out@ =~= start + action_text(a@));
    }
}

fn push_history_line(out: &mut String, number: u64, e: &HistoryEntry)
    ensures
        final(out)@ == old(out)@ + history_line(number as nat, e.action@, e.day as nat, e.when@),
{
    let ghost start = out@;
    push_str(out, "\n");
    push_decimal(out, number);
    push_str(out, ". ");
    push_action_text(out, &e.action);
    push_str(out, " (on ");
    let d = format_day(e.day);
    push_str(out, d.as_str());
    push_str(out, " ");
    push_str(out, e.when.as_str());
    push_str(out, ")");
    proof {
        assert(out@ =~= start + history_line(number as nat, e.action@, e.day as nat, e.when@));
    }
}

/// The text of a voter's history: a numbered line per directive, or
/// "No votes." when there is none.
pub fn render_history(entries: &Vec<HistoryEntry>) -> (r: String)
    requires
        entries@.len() < u64::MAX,
    ensures
        entries@.len() == 0 ==> r@ == "No votes."@,
        entries@.len() > 0 ==> r@ == history_lines(entries@),
{
    let mut out = String::new();
    if entries.len() == 0 {
        push_str(&mut out, "No votes.");
        return out;
    }
    let mut i: usize = 0;
    while i < entries.len()
        invariant
            i <= entries@.len() < u64::MAX,
            out@ == history_lines(entries@.take(i as int)),
        decreases entries@.len() - i,
    {
        proof {
            assert(entries@.take(i + 1).drop_last() =~= entries@.take(i as int));
        }
        push_history_line(&mut out, (i + 1) as u64, &entries[i]);
        i = i + 1;
        proof {
            assert(out@ =~= history_lines(entries@.take(i as int)));
        }
    }
    proof {
        assert(entries@.take(i as int) =~= entries@);
    }
    out
}

/// "<v> <unit>" for a non-zero amount, with the unit plural above one.
pub open spec fn amount_text(v: nat, one: Seq<char>, many: Seq<char>) -> Seq<Seq<char>> {
    if v == 0 {
        Seq::empty()
    } else {
        seq![decimal(v) + " "@ + if v > 1 { many } else { one }]
    }
}

/// The days, hours and minutes in `t` seconds, leaving out those that are
/// zero; nothing for less than a minute.
pub open spec fn duration_parts(t: int) -> Seq<Seq<char>> {
    if t <= 0 {
        Seq::empty()
    } else {
        amount_text((t / 86400) as nat, "day"@, "days"@) + amount_text(
            ((t % 86400) / 3600) as nat,
            "hour"@,
            "hours"@,
        ) + amount_text(((t % 3600) / 60) as nat, "minute"@, "minutes"@)
    }
}

fn push_amount(parts: &mut Vec<String>, v: i64, one: &str, many: &str)
    requires
        v >= 0,
    ensures
        names_view(final(parts)@) == names_view(old(parts)@) + amount_text(v as nat, one@, many@),
{
    let ghost before = names_view(parts@);
    if v > 0 {
        let mut t = String::new();
        push_decimal(&mut t, v as u64);
        push_str(&mut t, " ");
        if v > 1 {
            push_str(&mut t, many);
        } else {
            push_str(&mut t, one);
        }
        parts.push(t);
    }
    proof {
        assert(names_view(parts@) =~= before + amount_text(v as nat, one@, many@));
    }
}

/// How long `seconds` is, in days, hours and minutes ("1 day, 3 hours");
/// empty under a minute.
pub fn format_duration(seconds: i64) -> (r: String)
    ensures
        r@ == joined(duration_parts(seconds as int)),
{
    let mut parts: Vec<String> = Vec::new();
    if seconds > 0 {
        push_amount(&mut parts, seconds / 86400, "day", "days");
        push_amount(&mut parts, (seconds % 86400) / 3600, "hour", "hours");
        push_amount(&mut parts, (seconds % 3600) / 60, "minute", "minutes");
    }
    proof {
        assert(names_view(parts@) =~= duration_parts(seconds as int));
    }
    let mut r = String::new();
    push_joined(&mut r, &parts);
    proof {
        assert(r@ =~= joined(names_view(parts@)));
    }
    r
}

} // verus!
