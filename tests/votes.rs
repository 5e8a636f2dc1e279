use tvm_votes::ledger::{build_ledger, select_active_voters, voter_directives, Ballot, ChatMessage, Member};
use tvm_votes::tally::{aggregate, count_votes, Bucket};
use tvm_votes::vote::{parse, VoteAction};

fn vote(t: &str) -> VoteAction {
    VoteAction::Vote(t.to_string())
}

fn unvote(t: &str) -> VoteAction {
    VoteAction::Unvote(t.to_string())
}

fn msg(author: u64, text: &str) -> ChatMessage {
    ChatMessage { author, text: text.to_string() }
}

fn choices(ledger: &[Ballot]) -> Vec<(u64, Option<VoteAction>)> {
    ledger.iter().map(|b| (b.voter, b.choice.clone())).collect()
}

fn shape(buckets: &[Bucket]) -> Vec<(Option<VoteAction>, Vec<u64>)> {
    buckets.iter().map(|b| (b.choice.clone(), b.voters.clone())).collect()
}

#[test]
fn parse_plain_vote() {
    assert_eq!(parse("VTL Arius"), Some(vote("Arius")));
}

#[test]
fn parse_lower_case_vote() {
    assert_eq!(parse("vtl arius"), Some(vote("Arius")));
}

#[test]
fn parse_emphasised_vote() {
    assert_eq!(parse("**VTL** _Arius_"), Some(vote("Arius")));
}

#[test]
fn parse_bare_unvote() {
    assert_eq!(parse("UNVTL"), Some(unvote("")));
}

#[test]
fn parse_hyphenated_unvote() {
    assert_eq!(parse("un-vtl Arius"), Some(unvote("Arius")));
}

#[test]
fn parse_abstain() {
    assert_eq!(parse("VTNL"), Some(VoteAction::Abstain));
}

#[test]
fn parse_needs_directive_at_start() {
    assert_eq!(parse("I will VTL Arius"), None);
}

#[test]
fn parse_target_words_are_capitalized() {
    assert_eq!(parse("vtl  mr   BIG  smith"), Some(vote("Mr Big Smith")));
}

#[test]
fn parse_target_stops_at_emphasis() {
    assert_eq!(parse("VTL ~~arius~~ maybe"), Some(vote("Arius")));
}

#[test]
fn parse_target_after_emphasis_mark() {
    assert_eq!(parse("VTL  *x"), Some(vote("X")));
}

#[test]
fn parse_vote_without_target_is_nothing() {
    assert_eq!(parse("VTL"), None);
    assert_eq!(parse("VTL *"), None);
}

#[test]
fn parse_vote_with_only_trailing_spaces() {
    assert_eq!(parse("VTL  "), Some(vote("")));
}

#[test]
fn parse_unvote_needs_separator_before_text() {
    assert_eq!(parse("unvtlx"), None);
    assert_eq!(parse("UNVTL **"), Some(unvote("")));
}

#[test]
fn parse_abstain_with_emphasis() {
    assert_eq!(parse("*__vtnl__*"), Some(VoteAction::Abstain));
}

#[test]
fn parse_unrelated_text() {
    assert_eq!(parse("hello there"), None);
    assert_eq!(parse(""), None);
}

#[test]
fn ledger_scenario_three_voters() {
    let messages = vec![msg(1, "VTL B"), msg(2, "VTL C"), msg(3, "VTNL"), msg(1, "UNVTL")];
    let voters = vec![1, 2, 3];
    let ledger = build_ledger(&messages, &voters);
    assert_eq!(
        choices(&ledger),
        vec![(1, None), (2, Some(vote("C"))), (3, Some(VoteAction::Abstain))]
    );
    let buckets = aggregate(&ledger);
    assert_eq!(
        shape(&buckets),
        vec![
            (Some(vote("C")), vec![2]),
            (Some(VoteAction::Abstain), vec![3]),
            (None, vec![1]),
        ]
    );
}

#[test]
fn ledger_replayed_twice_is_unchanged() {
    let messages = vec![msg(1, "VTL B"), msg(2, "VTL C"), msg(1, "VTL C"), msg(3, "hi")];
    let voters = vec![1, 2, 3];
    let once = build_ledger(&messages, &voters);
    let again = build_ledger(&messages, &voters);
    assert_eq!(choices(&once), choices(&again));
    let mut doubled = messages;
    let copy: Vec<ChatMessage> = doubled.iter().map(|m| msg(m.author, &m.text)).collect();
    doubled.extend(copy);
    let twice = build_ledger(&doubled, &voters);
    assert_eq!(choices(&once), choices(&twice));
}

#[test]
fn ledger_later_vote_overrides() {
    let messages = vec![msg(7, "VTL Ann"), msg(8, "chatter"), msg(7, "VTL Bob")];
    let ledger = build_ledger(&messages, &vec![7]);
    assert_eq!(choices(&ledger), vec![(7, Some(vote("Bob")))]);
}

#[test]
fn ledger_has_one_entry_per_active_voter() {
    let messages = vec![msg(9, "VTL Ann"), msg(4, "VTL Ann"), msg(4, "VTNL")];
    let ledger = build_ledger(&messages, &vec![4, 5, 6]);
    assert_eq!(
        choices(&ledger),
        vec![(4, Some(VoteAction::Abstain)), (5, None), (6, None)]
    );
}

#[test]
fn unvote_clears_whatever_the_target() {
    let messages = vec![msg(1, "VTL Ann"), msg(1, "UNVTL Bob")];
    let ledger = build_ledger(&messages, &vec![1]);
    assert_eq!(choices(&ledger), vec![(1, None)]);
}

#[test]
fn ranking_puts_abstain_and_no_vote_last() {
    // Buckets in order of first appearance: A (3), B (1), C (5), abstain (4), none (6).
    let mut ledger = Vec::new();
    let mut id = 0;
    let mut add = |choice: Option<VoteAction>, n: usize, ledger: &mut Vec<Ballot>| {
        for _ in 0..n {
            id += 1;
            ledger.push(Ballot { voter: id, choice: choice.clone() });
        }
    };
    add(Some(vote("A")), 3, &mut ledger);
    add(Some(vote("B")), 1, &mut ledger);
    add(Some(vote("C")), 5, &mut ledger);
    add(Some(VoteAction::Abstain), 4, &mut ledger);
    add(None, 6, &mut ledger);
    let buckets = aggregate(&ledger);
    let order: Vec<(Option<VoteAction>, usize)> =
        buckets.iter().map(|b| (b.choice.clone(), b.voters.len())).collect();
    assert_eq!(
        order,
        vec![
            (Some(vote("C")), 5),
            (Some(vote("A")), 3),
            (Some(vote("B")), 1),
            (Some(VoteAction::Abstain), 4),
            (None, 6),
        ]
    );
}

#[test]
fn ranking_ties_keep_first_appearance() {
    let ledger = vec![
        Ballot { voter: 1, choice: Some(vote("X")) },
        Ballot { voter: 2, choice: Some(vote("Y")) },
        Ballot { voter: 3, choice: Some(vote("Y")) },
        Ballot { voter: 4, choice: Some(vote("X")) },
        Ballot { voter: 5, choice: Some(vote("Z")) },
    ];
    let buckets = aggregate(&ledger);
    assert_eq!(
        shape(&buckets),
        vec![
            (Some(vote("X")), vec![1, 4]),
            (Some(vote("Y")), vec![2, 3]),
            (Some(vote("Z")), vec![5]),
        ]
    );
}

#[test]
fn aggregate_of_empty_ledger() {
    assert!(aggregate(&Vec::new()).is_empty());
}

#[test]
fn count_votes_from_messages() {
    let messages = vec![
        msg(1, "VTL Cat"),
        msg(2, "vtl cat"),
        msg(3, "VTL Dog"),
        msg(99, "VTL Dog"),
        msg(4, "random"),
    ];
    let buckets = count_votes(&messages, &vec![1, 2, 3, 4]);
    assert_eq!(
        shape(&buckets),
        vec![(Some(vote("Cat")), vec![1, 2]), (Some(vote("Dog")), vec![3]), (None, vec![4])]
    );
}

#[test]
fn directives_of_one_voter() {
    let messages = vec![msg(1, "VTL Cat"), msg(2, "VTL Dog"), msg(1, "hello"), msg(1, "unvtl")];
    let ds = voter_directives(&messages, 1);
    assert_eq!(ds, vec![(0, vote("Cat")), (3, unvote(""))]);
}

#[test]
fn active_voters_by_role_or_roster() {
    let members = vec![
        Member { id: 1, is_player: true },
        Member { id: 2, is_player: false },
        Member { id: 3, is_player: true },
    ];
    assert_eq!(select_active_voters(&members, &vec![2, 3], false), vec![1, 3]);
    assert_eq!(select_active_voters(&members, &vec![2, 3], true), vec![2, 3]);
}
