use tvm_votes::cycle::{
    advance_to_night, begin_cycle, cycle_channel_names, is_day, next_cycle_number,
    night_announcement, parse_cycle_number, phase_label, pick_vote_channel, signup_check,
    signup_has_room, time_since_text, Cycle,
    CycleError, NightPlan, Overwrite, OverwriteTarget, Phase, SignupError,
};

fn started(number: u32) -> Cycle {
    begin_cycle(number, 10, 20, 30)
}

#[test]
fn first_cycle_without_argument_is_one() {
    assert_eq!(next_cycle_number("", &Cycle::not_started()), Ok(1));
}

#[test]
fn next_cycle_follows_existing_number() {
    assert_eq!(next_cycle_number("", &started(4)), Ok(5));
}

#[test]
fn explicit_cycle_number_wins() {
    assert_eq!(next_cycle_number("2", &started(4)), Ok(2));
    assert_eq!(next_cycle_number("2", &Cycle::not_started()), Ok(2));
}

#[test]
fn unreadable_cycle_argument_falls_back() {
    assert_eq!(next_cycle_number("two", &started(4)), Ok(5));
    assert_eq!(next_cycle_number("-3", &started(4)), Ok(5));
}

#[test]
fn cycle_number_cannot_overflow() {
    let mut c = started(1);
    c.number = u32::MAX;
    assert_eq!(next_cycle_number("", &c), Err(CycleError::NumberTooLarge));
}

#[test]
fn parse_cycle_numbers() {
    assert_eq!(parse_cycle_number("17"), Some(17));
    assert_eq!(parse_cycle_number("+8"), Some(8));
    assert_eq!(parse_cycle_number("4294967295"), Some(u32::MAX));
    assert_eq!(parse_cycle_number("4294967296"), None);
    assert_eq!(parse_cycle_number("+"), None);
    assert_eq!(parse_cycle_number(""), None);
    assert_eq!(parse_cycle_number(" 3"), None);
}

#[test]
fn night_before_start_fails() {
    assert_eq!(advance_to_night(&Cycle::not_started()), Err(CycleError::NotStarted));
}

#[test]
fn night_needs_each_channel() {
    let mut c = started(2);
    c.night = None;
    assert_eq!(advance_to_night(&c), Err(CycleError::MissingNightChannel));
    c.votes = None;
    assert_eq!(advance_to_night(&c), Err(CycleError::MissingVotesChannel));
    c.day = None;
    assert_eq!(advance_to_night(&c), Err(CycleError::MissingDayChannel));
}

#[test]
fn night_plan_for_started_cycle() {
    let c = started(3);
    assert!(c.is_day());
    let plan = advance_to_night(&c).unwrap();
    assert_eq!(
        plan,
        NightPlan {
            day: 10,
            votes: 20,
            night: 30,
            next: Cycle { phase: Phase::Night, ..c },
        }
    );
    assert!(!plan.next.is_day());
}

#[test]
fn new_cycle_is_day_with_its_channels() {
    let c = begin_cycle(6, 1, 2, 3);
    assert_eq!(c.number, 6);
    assert_eq!((c.day, c.votes, c.night), (Some(1), Some(2), Some(3)));
    assert_eq!(c.phase, Phase::Day);
    assert!(c.started());
    assert!(!Cycle::not_started().started());
}

#[test]
fn vote_channel_selection() {
    let c = started(1);
    assert_eq!(pick_vote_channel(Some(5), &c), Some(5));
    assert_eq!(pick_vote_channel(None, &c), Some(20));
    assert_eq!(pick_vote_channel(None, &Cycle::not_started()), None);
    assert_eq!(c.current_voting_channel(), Some(20));
}

#[test]
fn channel_names_of_a_cycle() {
    let n = cycle_channel_names(12);
    assert_eq!(n.category, "Day 12");
    assert_eq!(n.day, "day-12");
    assert_eq!(n.votes, "day-12-voting");
    assert_eq!(n.night, "night-12");
}

#[test]
fn announcements_and_labels() {
    assert_eq!(night_announcement(3), "**Night 3 begins!**\n\n\n\n\u{200b}");
    let c = started(3);
    assert_eq!(phase_label(&c), "Day 3");
    let night = advance_to_night(&c).unwrap().next;
    assert_eq!(phase_label(&night), "Night 3");
}

#[test]
fn day_read_from_overwrites() {
    let guild = 100;
    let player = 7;
    let open = vec![
        Overwrite { target: OverwriteTarget::Member(7), allows_send: true },
        Overwrite { target: OverwriteTarget::Role(player), allows_send: true },
    ];
    assert!(is_day(&open, guild, player));
    let everyone = vec![Overwrite { target: OverwriteTarget::Role(guild), allows_send: true }];
    assert!(is_day(&everyone, guild, player));
    let closed = vec![
        Overwrite { target: OverwriteTarget::Role(player), allows_send: false },
        Overwrite { target: OverwriteTarget::Role(55), allows_send: true },
        Overwrite { target: OverwriteTarget::Member(player), allows_send: true },
    ];
    assert!(!is_day(&closed, guild, player));
    assert!(!is_day(&Vec::new(), guild, player));
}

#[test]
fn signups_checks() {
    assert_eq!(signup_check(&started(1), Some(true)), Err(SignupError::GameStarted));
    assert_eq!(signup_check(&Cycle::not_started(), Some(false)), Err(SignupError::Closed));
    assert_eq!(signup_check(&Cycle::not_started(), None), Ok(()));
    assert_eq!(signup_check(&Cycle::not_started(), Some(true)), Ok(()));
}

#[test]
fn signup_room() {
    assert!(signup_has_room(None, None));
    assert!(signup_has_room(None, Some(11)));
    assert!(!signup_has_room(None, Some(12)));
    assert!(!signup_has_room(Some(5), Some(5)));
    assert!(signup_has_room(Some(5), Some(4)));
}

#[test]
fn time_since_replies() {
    let day = started(2);
    assert_eq!(time_since_text(&day, 30), "Day 2 began a few seconds ago.");
    assert_eq!(time_since_text(&day, 3 * 3600 + 120), "Day 2 began about 3 hours, 2 minutes ago.");
    let night = advance_to_night(&day).unwrap().next;
    assert_eq!(time_since_text(&night, 86400), "Night 2 began about 1 day ago.");
}
