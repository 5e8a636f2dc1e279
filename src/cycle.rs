//! The day/night cycle of a game, and the decisions taken on it.

use crate::render::{duration_parts, format_duration, joined};
use crate::text::{decimal, push_decimal, push_str};
use vstd::string::*;
use vstd::prelude::*;

verus! {

/// Which half of a cycle is running.
#[derive(Debug, Clone, Copy, PartialEq, Eq, Structural)]
pub enum Phase {
    Day,
    Night,
}

/// The current cycle: its number (0 before the game starts), its channels,
/// and its phase.
#[derive(Debug, Clone, Copy, PartialEq, Eq, Structural)]
pub struct Cycle {
    pub number: u32,
    pub day: Option<u64>,
    pub night: Option<u64>,
    pub votes: Option<u64>,
    pub phase: Phase,
}

/// Why a cycle operation could not be carried out.
#[derive(Debug, Clone, Copy, PartialEq, Eq, Structural)]
pub enum CycleError {
    /// No cycle has been created yet.
    NotStarted,
    /// The cycle has no day channel.
    MissingDayChannel,
    /// The cycle has no voting channel.
    MissingVotesChannel,
    /// The cycle has no night channel.
    MissingNightChannel,
    /// The cycle number cannot be increased further.
    NumberTooLarge,
}

impl Cycle {
    /// The cycle of a game that has not started.
    pub fn not_started() -> (r: Cycle)
        ensures
            r.number == 0,
            r.day is None && r.night is None && r.votes is None,
            r.phase == Phase::Day,
    {
        Cycle { number: 0, day: None, night: None, votes: None, phase: Phase::Day }
    }

    /// The game has started.
    pub fn started(&self) -> (r: bool)
        ensures
            r == (self.number > 0),
    {
        self.number > 0
    }

    /// The default channel for counting votes: the cycle's voting channel.
    pub fn current_voting_channel(&self) -> (r: Option<u64>)
        ensures
            r == self.votes,
    {
        self.votes
    }

    /// Day has begun in the started game.
    pub fn is_day(&self) -> (r: bool)
        ensures
            r == (self.number > 0 && self.phase == Phase::Day),
    {
        self.number > 0 && self.phase == Phase::Day
    }
}

/// The channel whose votes are counted: the one asked for, else the cycle's
/// voting channel, else none.
pub fn pick_vote_channel(requested: Option<u64>, cycle: &Cycle) -> (r: Option<u64>)
    ensures
        requested is Some ==> r == requested,
        requested is None ==> r == cycle.votes,
{
    match requested {
        Some(c) => Some(c),
        None => cycle.votes,
    }
}

/// The value of a run of ASCII digits.
pub open spec fn digits_value(s: Seq<char>) -> nat
    decreases s.len(),
{
    if s.len() == 0 {
        0
    } else {
        digits_value(s.drop_last()) * 10 + ((s.last() as u32) - 48) as nat
    }
}

pub open spec fn all_digits(s: Seq<char>) -> bool {
    forall|i: int| 0 <= i < s.len() ==> '0' <= #[trigger] s[i] && s[i] <= '9'
}

/// The number written in `s`: an optional `+`, then at least one ASCII digit,
/// and nothing else, with a value that fits in a `u32`.
pub open spec fn number_in(s: Seq<char>) -> Option<nat> {
    let d = if s.len() > 0 && s[0] == '+' {
        s.skip(1)
    } else {
        s
    };
    if d.len() > 0 && all_digits(d) && digits_value(d) <= u32::MAX {
        Some(digits_value(d))
    } else {
        None
    }
}

proof fn lemma_digits_value_grows(s: Seq<char>, i: int)
    requires
        all_digits(s),
        0 <= i <= s.len(),
    ensures
        digits_value(s.take(i)) <= digits_value(s),
    decreases s.len() - i,
{
    if i < s.len() {
        lemma_digits_value_grows(s, i + 1);
        assert(s.take(i + 1).drop_last() =~= s.take(i));
        assert('0' <= s[i]);
    } else {
        assert(s.take(i) =~= s);
    }
}

/// Reads a cycle number written as in [`number_in`].
pub fn parse_cycle_number(text: &str) -> (r: Option<u32>)
    ensures
        match r {
            Some(n) => number_in(text@) == Some(n as nat),
            None => number_in(text@) is None,
        },
{
    let cs = crate::text::chars_of(text);
    let start: usize = if cs.len() > 0 && cs[0] == '+' {
        1
    } else {
        0
    };
    let ghost d = cs@.skip(start as int);
    proof {
        assert(d =~= if text@.len() > 0 && text@[0] == '+' {
            text@.skip(1)
        } else {
            text@
        });
    }
    if start >= cs.len() {
        return None;
    }
    let mut value: u64 = 0;
    let mut i = start;
    while i < cs.len()
        invariant
            start <= i <= cs@.len(),
            d == cs@.skip(start as int),
            d == (if text@.len() > 0 && text@[0] == '+' {
                text@.skip(1)
            } else {
                text@
            }),
            value as nat == digits_value(d.take(i - start)),
            all_digits(d.take(i - start)),
            value <= u32::MAX,
        decreases cs@.len() - i,
    {
        let c = cs[i];
        proof {
            assert(d.take(i - start + 1).drop_last() =~= d.take(i - start));
            assert(d.take(i - start + 1).last() == c);
        }
        if c < '0' || c > '9' {
            proof {
                assert(!all_digits(d)) by {
                    assert(d[i - start] == c);
                }
            }
            return None;
        }
        let next = value * 10 + ((c as u32) - 48) as u64;
        if next > u32::MAX as u64 {
            proof {
                assert(all_digits(d.take(i - start + 1))) by {
                    assert forall|k: int| 0 <= k < i - start + 1 implies '0' <= #[trigger] d.take(
                        i - start + 1,
                    )[k] && d.take(i - start + 1)[k] <= '9' by {
                        if k < i - start {
                            assert(d.take(i - start + 1)[k] == d.take(i - start)[k]);
                        }
                    }
                }
                if all_digits(d) {
                    lemma_digits_value_grows(d, i - start + 1);
                }
            }
            return None;
        }
        value = next;
        i = i + 1;
        proof {
            let t = d.take(i - start);
            assert forall|k: int| 0 <= k < t.len() implies '0' <= #[trigger] t[k] && t[k] <= '9' by {
                if k < t.len() - 1 {
                    assert(t[k] == d.take(i - start - 1)[k]);
                }
            }
        }
    }
    proof {
        assert(d.take(i - start) =~= d);
    }
    Some(value as u32)
}

/// The number of the cycle to create: the one written in `requested`, else
/// the one after the current cycle's.
pub fn next_cycle_number(requested: &str, current: &Cycle) -> (r: Result<u32, CycleError>)
    ensures
        number_in(requested@) is Some ==> r == Ok::<u32, CycleError>(
            number_in(requested@)->Some_0 as u32,
        ),
        number_in(requested@) is None && current.number < u32::MAX ==> r == Ok::<u32, CycleError>(
            (current.number + 1) as u32,
        ),
        number_in(requested@) is None && current.number == u32::MAX ==> r == Err::<u32, CycleError>(
            CycleError::NumberTooLarge,
        ),
{
    match parse_cycle_number(requested) {
        Some(n) => Ok(n),
        None => {
            if current.number < u32::MAX {
                Ok(current.number + 1)
            } else {
                Err(CycleError::NumberTooLarge)
            }
        },
    }
}

/// The cycle that replaces the stored one once its channels exist: it is day.
pub fn begin_cycle(number: u32, day: u64, votes: u64, night: u64) -> (r: Cycle)
    ensures
        r == (Cycle {
            number,
            day: Some(day),
            night: Some(night),
            votes: Some(votes),
            phase: Phase::Day,
        }),
{
    Cycle { number, day: Some(day), night: Some(night), votes: Some(votes), phase: Phase::Day }
}

/// What nightfall does: players lose their voice in `day` and `votes`, the
/// `night` channel is opened, and the cycle becomes `next`.
#[derive(Debug, Clone, Copy, PartialEq, Eq, Structural)]
pub struct NightPlan {
    pub day: u64,
    pub votes: u64,
    pub night: u64,
    pub next: Cycle,
}

/// Decides nightfall for `cycle`. Before the game has started it fails with
/// [`CycleError::NotStarted`]; a missing channel fails with its own error,
/// checked in the order day, votes, night.
pub fn advance_to_night(cycle: &Cycle) -> (r: Result<NightPlan, CycleError>)
    ensures
        cycle.number == 0 ==> r == Err::<NightPlan, CycleError>(CycleError::NotStarted),
        cycle.number > 0 && cycle.day is None ==> r == Err::<NightPlan, CycleError>(
            CycleError::MissingDayChannel,
        ),
        cycle.number > 0 && cycle.day is Some && cycle.votes is None ==> r == Err::<
            NightPlan,
            CycleError,
        >(CycleError::MissingVotesChannel),
        cycle.number > 0 && cycle.day is Some && cycle.votes is Some && cycle.night is None ==> r
            == Err::<NightPlan, CycleError>(CycleError::MissingNightChannel),
        cycle.number > 0 && cycle.day is Some && cycle.votes is Some && cycle.night is Some ==> r
            == Ok::<NightPlan, CycleError>(
            NightPlan {
                day: cycle.day->Some_0,
                votes: cycle.votes->Some_0,
                night: cycle.night->Some_0,
                next: Cycle { phase: Phase::Night, ..*cycle },
            },
        ),
{
    if cycle.number == 0 {
        return Err(CycleError::NotStarted);
    }
    let day = match cycle.day {
        Some(c) => c,
        None => return Err(CycleError::MissingDayChannel),
    };
    let votes = match cycle.votes {
        Some(c) => c,
        None => return Err(CycleError::MissingVotesChannel),
    };
    let night = match cycle.night {
        Some(c) => c,
        None => return Err(CycleError::MissingNightChannel),
    };
    Ok(
        NightPlan {
            day,
            votes,
            night,
            next: Cycle {
                number: cycle.number,
                day: cycle.day,
                night: cycle.night,
                votes: cycle.votes,
                phase: Phase::Night,
            },
        },
    )
}

/// The names of a cycle's category and channels.
pub struct ChannelNames {
    pub category: String,
    pub day: String,
    pub votes: String,
    pub night: String,
}

fn numbered_name(before: &str, n: u32) -> (r: String)
    ensures
        r@ == before@ + decimal(n as nat),
{
    let mut r = String::new();
    push_str(&mut r, before);
    push_decimal(&mut r, n as u64);
    r
}

/// "Day n" for the category; "day-n", "day-n-voting" and "night-n" for the
/// channels.
pub fn cycle_channel_names(n: u32) -> (r: ChannelNames)
    ensures
        r.category@ == "Day "@ + decimal(n as nat),
        r.day@ == "day-"@ + decimal(n as nat),
        r.votes@ == "day-"@ + decimal(n as nat) + "-voting"@,
        r.night@ == "night-"@ + decimal(n as nat),
{
    let category = numbered_name("Day ", n);
    let day = numbered_name("day-", n);
    let mut votes = numbered_name("day-", n);
    push_str(&mut votes, "-voting");
    let night = numbered_name("night-", n);
    ChannelNames { category, day, votes, night }
}

/// The message that opens night `n` in the night-actions channel.
pub fn night_announcement(n: u32) -> (r: String)
    ensures
        r@ == "**Night "@ + decimal(n as nat) + " begins!**\n\n\n\n\u{200b}"@,
{
    let mut r = numbered_name("**Night ", n);
    push_str(&mut r, " begins!**\n\n\n\n\u{200b}");
    r
}

/// "Day n" or "Night n", after the cycle's phase.
pub fn phase_label(cycle: &Cycle) -> (r: String)
    ensures
        cycle.phase == Phase::Day ==> r@ == "Day "@ + decimal(cycle.number as nat),
        cycle.phase == Phase::Night ==> r@ == "Night "@ + decimal(cycle.number as nat),
{
    match cycle.phase {
        Phase::Day => numbered_name("Day ", cycle.number),
        Phase::Night => numbered_name("Night ", cycle.number),
    }
}

/// The reply telling how long the current phase has run, given the seconds
/// since its channel's first message: "<phase> began about <duration> ago.",
/// or "<phase> began a few seconds ago." under a minute.
pub fn time_since_text(cycle: &Cycle, seconds: i64) -> (r: String)
    ensures
        ({
            let label = if cycle.phase == Phase::Day {
                "Day "@ + decimal(cycle.number as nat)
            } else {
                "Night "@ + decimal(cycle.number as nat)
            };
            let d = joined(duration_parts(seconds as int));
            r@ == if d.len() == 0 {
                label + " began a few seconds ago."@
            } else {
                label + " began about "@ + d + " ago."@
            }
        }),
{
    let mut r = phase_label(cycle);
    let d = format_duration(seconds);
    if d.unicode_len() == 0 {
        push_str(&mut r, " began a few seconds ago.");
    } else {
        push_str(&mut r, " began about ");
        push_str(&mut r, d.as_str());
        push_str(&mut r, " ago.");
    }
    r
}

/// Whom a permission overwrite applies to.
#[derive(Debug, Clone, Copy, PartialEq, Eq, Structural)]
pub enum OverwriteTarget {
    Role(u64),
    Member(u64),
}

/// A channel's permission overwrite, reduced to whether it allows sending
/// messages.
#[derive(Debug, Clone, Copy, PartialEq, Eq, Structural)]
pub struct Overwrite {
    pub target: OverwriteTarget,
    pub allows_send: bool,
}

/// Reads the phase from a day channel's overwrites: it is day when the player
/// role, or the role of everyone (whose id is the guild's), may send messages
/// there.
pub fn is_day(overwrites: &Vec<Overwrite>, guild_id: u64, player_role: u64) -> (r: bool)
    ensures
        r == exists|i: int|
            0 <= i < overwrites@.len() && (#[trigger] overwrites@[i]).allows_send && (
            overwrites@[i].target == OverwriteTarget::Role(player_role)
                || overwrites@[i].target == OverwriteTarget::Role(guild_id)),
{
    let mut i: usize = 0;
    while i < overwrites.len()
        invariant
            i <= overwrites@.len(),
            forall|k: int|
                0 <= k < i ==> !((#[trigger] overwrites@[k]).allows_send && (overwrites@[k].target
                    == OverwriteTarget::Role(player_role) || overwrites@[k].target
                    == OverwriteTarget::Role(guild_id))),
        decreases overwrites@.len() - i,
    {
        let o = overwrites[i];
        match o.target {
            OverwriteTarget::Role(r) => {
                if (r == player_role || r == guild_id) && o.allows_send {
                    return true;
                }
            },
            OverwriteTarget::Member(_) => {},
        }
        i = i + 1;
    }
    false
}

/// Why a sign-up is refused.
#[derive(Debug, Clone, Copy, PartialEq, Eq, Structural)]
pub enum SignupError {
    /// The game has started.
    GameStarted,
    /// Sign-ups are closed.
    Closed,
}

/// The number of players a game takes when none is set.
pub const DEFAULT_TOTAL_PLAYERS: i16 = 12;

/// Another player can sign up: fewer have signed up than the game takes (by
/// default twelve; none have signed up unless counted).
pub fn signup_has_room(total_players: Option<i16>, total_signups: Option<i16>) -> (r: bool)
    ensures
        r == (match total_players {
            Some(t) => t,
            None => DEFAULT_TOTAL_PLAYERS,
        } > match total_signups {
            Some(s) => s,
            None => 0,
        }),
{
    let total = match total_players {
        Some(t) => t,
        None => DEFAULT_TOTAL_PLAYERS,
    };
    let signed = match total_signups {
        Some(s) => s,
        None => 0,
    };
    total > signed
}

/// Sign-ups are taken before the game starts, while they are open (they are
/// unless set otherwise).
pub fn signup_check(cycle: &Cycle, signups_on: Option<bool>) -> (r: Result<(), SignupError>)
    ensures
        cycle.number > 0 ==> r == Err::<(), SignupError>(SignupError::GameStarted),
        cycle.number == 0 && signups_on == Some(false) ==> r == Err::<(), SignupError>(
            SignupError::Closed,
        ),
        cycle.number == 0 && signups_on != Some(false) ==> r == Ok::<(), SignupError>(()),
{
    if cycle.number > 0 {
        return Err(SignupError::GameStarted);
    }
    match signups_on {
        Some(false) => Err(SignupError::Closed),
        _ => Ok(()),
    }
}

} // verus!
