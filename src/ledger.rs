//! Replaying a channel's messages into each active voter's current vote.

use crate::vote::{option_view, parse, parse_spec, Action, VoteAction};
use vstd::prelude::*;

verus! {

/// One chat message, its mentions already replaced by display names.
pub struct ChatMessage {
    pub author: u64,
    pub text: String,
}

/// A voter's standing vote; `None` means no vote. A ledger is a list of
/// these, one per active voter in the order the voters were given, so that
/// the ranking's ties come out the same way every time.
pub struct Ballot {
    pub voter: u64,
    pub choice: Option<VoteAction>,
}

pub open spec fn messages_view(ms: Seq<ChatMessage>) -> Seq<(u64, Seq<char>)> {
    ms.map_values(|m: ChatMessage| (m.author, m.text@))
}

pub open spec fn ballots_view(bs: Seq<Ballot>) -> Seq<(u64, Option<Action>)> {
    bs.map_values(|b: Ballot| (b.voter, option_view(b.choice)))
}

/// What a directive leaves standing: an un-vote clears the vote, whatever its
/// target; a vote or an abstention replaces it.
pub open spec fn settle(a: Action) -> Option<Action> {
    match a {
        Action::Unvote(_) => None,
        _ => Some(a),
    }
}

/// `msgs` holds a directive from `v`.
pub open spec fn has_directive(msgs: Seq<(u64, Seq<char>)>, v: u64) -> bool {
    exists|k: int| 0 <= k < msgs.len() && #[trigger] msgs[k].0 == v && parse_spec(msgs[k].1) is Some
}

/// The vote that `v` holds after `msgs` (oldest first): what their latest
/// directive leaves standing, or no vote.
pub open spec fn latest_choice(msgs: Seq<(u64, Seq<char>)>, v: u64) -> Option<Action>
    decreases msgs.len(),
{
    if msgs.len() == 0 {
        None
    } else if msgs.last().0 == v && parse_spec(msgs.last().1) is Some {
        settle(parse_spec(msgs.last().1)->Some_0)
    } else {
        latest_choice(msgs.drop_last(), v)
    }
}

/// One entry per active voter, in the order given, with their standing vote.
pub open spec fn ledger_spec(msgs: Seq<(u64, Seq<char>)>, voters: Seq<u64>) -> Seq<
    (u64, Option<Action>),
> {
    voters.map_values(|v: u64| (v, latest_choice(msgs, v)))
}

fn settled(a: VoteAction) -> (r: Option<VoteAction>)
    ensures
        option_view(r) == settle(a@),
{
    match a {
        VoteAction::Unvote(_) => None,
        other => Some(other),
    }
}

fn copy_choice(c: &Option<VoteAction>) -> (r: Option<VoteAction>)
    ensures
        option_view(r) == option_view(*c),
{
    match c {
        Some(a) => Some(a.duplicate()),
        None => None,
    }
}

/// Builds the ledger from `messages`, oldest first: messages of authors who
/// are not active voters and messages that hold no directive are skipped; a
/// later directive replaces an earlier one; active voters with no directive
/// hold no vote.
pub fn build_ledger(messages: &Vec<ChatMessage>, active_voters: &Vec<u64>) -> (r: Vec<Ballot>)
    ensures
        ballots_view(r@) == ledger_spec(messages_view(messages@), active_voters@),
{
    let ghost msgs = messages_view(messages@);
    let mut ballots: Vec<Ballot> = Vec::new();
    let mut k: usize = 0;
    while k < active_voters.len()
        invariant
            k <= active_voters@.len(),
            ballots@.len() == k,
            forall|m: int|
                0 <= m < k ==> #[trigger] ballots@[m].voter == active_voters@[m] && ballots@[m].choice
                    is None,
        decreases active_voters@.len() - k,
    {
        ballots.push(Ballot { voter: active_voters[k], choice: None });
        k = k + 1;
    }
    proof {
        assert(msgs.take(0).len() == 0);
        assert(ballots_view(ballots@) =~= ledger_spec(msgs.take(0), active_voters@));
    }
    let mut i: usize = 0;
    while i < messages.len()
        invariant
            i <= messages@.len(),
            msgs == messages_view(messages@),
            ballots_view(ballots@) == ledger_spec(msgs.take(i as int), active_voters@),
        decreases messages@.len() - i,
    {
        let author = messages[i].author;
        let parsed = parse(messages[i].text.as_str());
        let ghost before = ballots_view(ballots@);
        proof {
            assert(msgs.take(i + 1).drop_last() =~= msgs.take(i as int));
            assert(msgs.take(i + 1).last() == msgs[i as int]);
        }
        match parsed {
            None => {
                proof {
                    assert(ballots_view(ballots@) =~= ledger_spec(
                        msgs.take(i + 1),
                        active_voters@,
                    ));
                }
            },
            Some(act) => {
                let choice = settled(act);
                let mut j: usize = 0;
                while j < ballots.len()
                    invariant
                        j <= ballots@.len(),
                        ballots@.len() == before.len(),
                        forall|m: int|
                            0 <= m < ballots@.len() ==> #[trigger] ballots@[m].voter == before[m].0,
                        forall|m: int|
                            0 <= m < j ==> option_view(#[trigger] ballots@[m].choice) == (
                            if before[m].0 == author {
                                option_view(choice)
                            } else {
                                before[m].1
                            }),
                        forall|m: int|
                            j <= m < ballots@.len() ==> option_view(#[trigger] ballots@[m].choice)
                                == before[m].1,
                    decreases ballots@.len() - j,
                {
                    if ballots[j].voter == author {
                        let c = copy_choice(&choice);
                        ballots.set(j, Ballot { voter: author, choice: c });
                    }
                    j = j + 1;
                }
                proof {
                    assert(ballots_view(ballots@) =~= ledger_spec(
                        msgs.take(i + 1),
                        active_voters@,
                    ));
                }
            },
        }
        i = i + 1;
    }
    proof {
        assert(msgs.take(messages@.len() as int) =~= msgs);
    }
    ballots
}

/// A member of the server, as far as vote counting cares.
pub struct Member {
    pub id: u64,
    pub is_player: bool,
}

/// Whether `m` counts as an active voter: a holder of the player role, or,
/// when the whole roster counts, one of the roster's participants.
pub open spec fn counts_as_voter(m: Member, roster: Seq<u64>, whole_roster: bool) -> bool {
    if whole_roster {
        roster.contains(m.id)
    } else {
        m.is_player
    }
}

pub open spec fn active_voters_spec(members: Seq<Member>, roster: Seq<u64>, whole_roster: bool) -> Seq<u64>
    decreases members.len(),
{
    if members.len() == 0 {
        Seq::empty()
    } else {
        let rest = active_voters_spec(members.drop_last(), roster, whole_roster);
        if counts_as_voter(members.last(), roster, whole_roster) {
            rest.push(members.last().id)
        } else {
            rest
        }
    }
}

fn roster_has(roster: &Vec<u64>, id: u64) -> (r: bool)
    ensures
        r == roster@.contains(id),
{
    let mut i: usize = 0;
    while i < roster.len()
        invariant
            i <= roster@.len(),
            forall|k: int| 0 <= k < i ==> roster@[k] != id,
        decreases roster@.len() - i,
    {
        if roster[i] == id {
            return true;
        }
        i = i + 1;
    }
    false
}

/// The active voters among `members`, in their order: the holders of the
/// player role, or with `whole_roster` the members on the game's roster.
pub fn select_active_voters(members: &Vec<Member>, roster: &Vec<u64>, whole_roster: bool) -> (r:
    Vec<u64>)
    ensures
        r@ == active_voters_spec(members@, roster@, whole_roster),
{
    let mut r: Vec<u64> = Vec::new();
    let mut i: usize = 0;
    while i < members.len()
        invariant
            i <= members@.len(),
            r@ == active_voters_spec(members@.take(i as int), roster@, whole_roster),
        decreases members@.len() - i,
    {
        proof {
            assert(members@.take(i + 1).drop_last() =~= members@.take(i as int));
        }
        let m = &members[i];
        let counts = if whole_roster {
            roster_has(roster, m.id)
        } else {
            m.is_player
        };
        if counts {
            r.push(m.id);
        }
        i = i + 1;
    }
    proof {
        assert(members@.take(i as int) =~= members@);
    }
    r
}

/// The directives that `v` sent, in order, each with the position of its
/// message.
pub open spec fn directives_of(msgs: Seq<(u64, Seq<char>)>, v: u64) -> Seq<(int, Action)>
    decreases msgs.len(),
{
    if msgs.len() == 0 {
        Seq::empty()
    } else {
        let rest = directives_of(msgs.drop_last(), v);
        if msgs.last().0 == v && parse_spec(msgs.last().1) is Some {
            rest.push((msgs.len() - 1, parse_spec(msgs.last().1)->Some_0))
        } else {
            rest
        }
    }
}

pub open spec fn indexed_view(ds: Seq<(usize, VoteAction)>) -> Seq<(int, Action)> {
    ds.map_values(|d: (usize, VoteAction)| (d.0 as int, d.1@))
}

/// The directives that `voter` sent in `messages` (oldest first), each with
/// the position of its message.
pub fn voter_directives(messages: &Vec<ChatMessage>, voter: u64) -> (r: Vec<(usize, VoteAction)>)
    ensures
        indexed_view(r@) == directives_of(messages_view(messages@), voter),
{
    let ghost msgs = messages_view(messages@);
    let mut r: Vec<(usize, VoteAction)> = Vec::new();
    let mut i: usize = 0;
    while i < messages.len()
        invariant
            i <= messages@.len(),
            msgs == messages_view(messages@),
            indexed_view(r@) == directives_of(msgs.take(i as int), voter),
        decreases messages@.len() - i,
    {
        proof {
            assert(msgs.take(i + 1).drop_last() =~= msgs.take(i as int));
            assert(msgs.take(i + 1).last() == msgs[i as int]);
        }
        if messages[i].author == voter {
            match parse(messages[i].text.as_str()) {
                Some(a) => {
                    r.push((i, a));
                    proof {
                        assert(indexed_view(r@) =~= directives_of(msgs.take(i + 1), voter));
                    }
                },
                None => {},
            }
        }
        i = i + 1;
    }
    proof {
        assert(msgs.take(i as int) =~= msgs);
    }
    r
}

/// The vote standing after `a` then `b` is the one standing after `b` where
/// `b` holds a directive from `v`, and the one standing after `a` otherwise.
pub proof fn lemma_latest_choice_append(a: Seq<(u64, Seq<char>)>, b: Seq<(u64, Seq<char>)>, v: u64)
    ensures
        latest_choice(a + b, v) == if has_directive(b, v) {
            latest_choice(b, v)
        } else {
            latest_choice(a, v)
        },
    decreases b.len(),
{
    if b.len() == 0 {
        assert(a + b =~= a);
    } else {
        let b0 = b.drop_last();
        assert((a + b).drop_last() =~= a + b0);
        assert((a + b).last() == b.last());
        lemma_latest_choice_append(a, b0, v);
        if has_directive(b, v) && !(b.last().0 == v && parse_spec(b.last().1) is Some) {
            let k = choose|k: int| 0 <= k < b.len() && #[trigger] b[k].0 == v && parse_spec(b[k].1) is Some;
            assert(k < b.len() - 1);
            assert(b0[k] == b[k]);
        }
        if has_directive(b0, v) {
            let k = choose|k: int| 0 <= k < b0.len() && #[trigger] b0[k].0 == v && parse_spec(b0[k].1) is Some;
            assert(b[k] == b0[k]);
        }
        if b.last().0 == v && parse_spec(b.last().1) is Some {
            assert(b[b.len() - 1].0 == v);
        }
    }
}

/// A voter who sent no directive holds no vote.
pub proof fn lemma_no_directive_no_vote(msgs: Seq<(u64, Seq<char>)>, v: u64)
    requires
        !has_directive(msgs, v),
    ensures
        latest_choice(msgs, v) is None,
    decreases msgs.len(),
{
    if msgs.len() > 0 {
        let m0 = msgs.drop_last();
        assert(!(msgs.last().0 == v && parse_spec(msgs.last().1) is Some)) by {
            if msgs.last().0 == v && parse_spec(msgs.last().1) is Some {
                assert(msgs[msgs.len() - 1].0 == v);
            }
        }
        assert(!has_directive(m0, v)) by {
            if has_directive(m0, v) {
                let k = choose|k: int| 0 <= k < m0.len() && #[trigger] m0[k].0 == v && parse_spec(m0[k].1) is Some;
                assert(msgs[k] == m0[k]);
            }
        }
        lemma_no_directive_no_vote(m0, v);
    }
}

/// The ledger as a map from each active voter to their standing vote.
pub open spec fn ledger_map(msgs: Seq<(u64, Seq<char>)>, voters: Seq<u64>) -> Map<u64, Option<Action>> {
    Map::new(|v: u64| voters.contains(v), |v: u64| latest_choice(msgs, v))
}

/// The standing votes of the active voters who sent a directive.
pub open spec fn directive_map(msgs: Seq<(u64, Seq<char>)>, voters: Seq<u64>) -> Map<u64, Option<Action>> {
    Map::new(|v: u64| voters.contains(v) && has_directive(msgs, v), |v: u64| latest_choice(msgs, v))
}

/// Every active voter, with no vote.
pub open spec fn no_votes(voters: Seq<u64>) -> Map<u64, Option<Action>> {
    Map::new(|v: u64| voters.contains(v), |v: u64| None::<Action>)
}

/// The ledger is the map of the voters who sent a directive, to which every
/// other active voter is added with no vote: entries already there keep their
/// vote, and the ledger's entries are those of that map.
pub proof fn lemma_non_voters_added(msgs: Seq<(u64, Seq<char>)>, voters: Seq<u64>)
    ensures
        ledger_map(msgs, voters) == no_votes(voters).union_prefer_right(directive_map(msgs, voters)),
        forall|k: int|
            0 <= k < voters.len() ==> #[trigger] ledger_spec(msgs, voters)[k] == (
                voters[k],
                ledger_map(msgs, voters)[voters[k]],
            ),
{
    let u = no_votes(voters).union_prefer_right(directive_map(msgs, voters));
    assert forall|v: u64| #[trigger] u.contains_key(v) implies ledger_map(msgs, voters)[v] == u[v] by {
        if !has_directive(msgs, v) {
            lemma_no_directive_no_vote(msgs, v);
        }
    }
    assert(ledger_map(msgs, voters) =~= u);
    assert forall|k: int| 0 <= k < voters.len() implies #[trigger] ledger_spec(msgs, voters)[k] == (
        voters[k],
        ledger_map(msgs, voters)[voters[k]],
    ) by {
        assert(voters.contains(voters[k]));
    }
}

/// Replaying the same messages a second time leaves the ledger as it was.
pub proof fn lemma_replay_twice(msgs: Seq<(u64, Seq<char>)>, voters: Seq<u64>)
    ensures
        ledger_spec(msgs + msgs, voters) == ledger_spec(msgs, voters),
{
    assert forall|k: int| 0 <= k < voters.len() implies #[trigger] ledger_spec(msgs + msgs, voters)[k]
        == ledger_spec(msgs, voters)[k] by {
        lemma_latest_choice_append(msgs, msgs, voters[k]);
    }
    assert(ledger_spec(msgs + msgs, voters) =~= ledger_spec(msgs, voters));
}

/// A voter who votes for `a` and later for `b`, with no directive after that,
/// holds the vote for `b`.
pub proof fn lemma_later_vote_wins(
    msgs: Seq<(u64, Seq<char>)>,
    voters: Seq<u64>,
    v: u64,
    i: int,
    j: int,
    a: Seq<char>,
    b: Seq<char>,
)
    requires
        0 <= i < j < msgs.len(),
        msgs[i].0 == v,
        msgs[j].0 == v,
        parse_spec(msgs[i].1) == Some(Action::Vote(a)),
        parse_spec(msgs[j].1) == Some(Action::Vote(b)),
        forall|k: int| j < k < msgs.len() && #[trigger] msgs[k].0 == v ==> parse_spec(msgs[k].1) is None,
    ensures
        latest_choice(msgs, v) == Some(Action::Vote(b)),
        forall|k: int|
            0 <= k < voters.len() && voters[k] == v ==> #[trigger] ledger_spec(msgs, voters)[k] == (
            v,
            Some(Action::Vote(b)),
        ),
{
    let head = msgs.take(j + 1);
    let tail = msgs.skip(j + 1);
    assert(head + tail =~= msgs);
    assert(head.last() == msgs[j]);
    assert(!has_directive(tail, v)) by {
        if has_directive(tail, v) {
            let k = choose|k: int| 0 <= k < tail.len() && #[trigger] tail[k].0 == v && parse_spec(tail[k].1) is Some;
            assert(tail[k] == msgs[j + 1 + k]);
        }
    }
    lemma_latest_choice_append(head, tail, v);
}

/// Each active voter has exactly one entry in the ledger, and nobody else has
/// one.
pub proof fn lemma_ledger_complete(msgs: Seq<(u64, Seq<char>)>, voters: Seq<u64>)
    requires
        voters.no_duplicates(),
    ensures
        ledger_spec(msgs, voters).len() == voters.len(),
        forall|v: u64|
            #[trigger] voters.contains(v) ==> exists|k: int|
                0 <= k < voters.len() && ledger_spec(msgs, voters)[k].0 == v && forall|m: int|
                    0 <= m < voters.len() && #[trigger] ledger_spec(msgs, voters)[m].0 == v ==> m == k,
        forall|k: int|
            0 <= k < voters.len() ==> voters.contains(#[trigger] ledger_spec(msgs, voters)[k].0),
{
    let l = ledger_spec(msgs, voters);
    assert forall|v: u64| #[trigger] voters.contains(v) implies exists|k: int|
        0 <= k < voters.len() && l[k].0 == v && forall|m: int|
            0 <= m < voters.len() && #[trigger] l[m].0 == v ==> m == k by {
        let k = choose|k: int| 0 <= k < voters.len() && voters[k] == v;
        assert(l[k].0 == v);
    }
    assert forall|k: int| 0 <= k < voters.len() implies voters.contains(#[trigger] l[k].0) by {
        assert(voters[k] == l[k].0);
    }
}

} // verus!
