//! Grouping a ledger into buckets of voters that share a vote, ranked for
//! display.

use crate::ledger::{
    ballots_view, build_ledger, ledger_spec, messages_view, Ballot, ChatMessage,
};
use crate::vote::{option_view, Action, VoteAction};
use indexmap::IndexMap;
use std::cmp::Ordering;
use vstd::prelude::*;

verus! {

/// `indexmap::IndexMap`, a hash map that keeps its entries in order, known
/// to Verus only by its type; the buckets are held in one while they are
/// ranked.
#[verifier::external_type_specification]
#[verifier::external_body]
#[verifier::reject_recursive_types(K)]
#[verifier::reject_recursive_types(V)]
#[verifier::reject_recursive_types(S)]
pub struct ExIndexMap<K, V, S>(IndexMap<K, V, S>);

/// The entries of a bucket map, in the map's order: bucket number and voters.
pub uninterp spec fn bucket_entries(m: IndexMap<u64, Vec<u64>>) -> Seq<(u64, Seq<u64>)>;

/// Position of the entry with key `k`, or -1.
pub open spec fn key_index(s: Seq<(u64, Seq<u64>)>, k: u64) -> int
    decreases s.len(),
{
    if s.len() == 0 {
        -1
    } else if key_index(s.drop_last(), k) >= 0 {
        key_index(s.drop_last(), k)
    } else if s.last().0 == k {
        s.len() - 1
    } else {
        -1
    }
}

/// Relies on `IndexMap::new`: an empty map.
#[verifier::external_body]
fn new_bucket_map() -> (r: IndexMap<u64, Vec<u64>>)
    ensures
        bucket_entries(r) == Seq::<(u64, Seq<u64>)>::empty(),
{
    IndexMap::new()
}

/// Relies on `IndexMap::insert`: a new key goes last; an existing key keeps
/// its place and takes the new value.
#[verifier::external_body]
fn insert_bucket(m: &mut IndexMap<u64, Vec<u64>>, k: u64, voters: Vec<u64>)
    ensures
        key_index(bucket_entries(*old(m)), k) < 0 ==> bucket_entries(*final(m)) == bucket_entries(
            *old(m),
        ).push((k, voters@)),
        key_index(bucket_entries(*old(m)), k) >= 0 ==> bucket_entries(*final(m)) == bucket_entries(
            *old(m),
        ).update(key_index(bucket_entries(*old(m)), k), (k, voters@)),
{
    m.insert(k, voters);
}


/// `t` with `x` placed after its last entry that has at least as many voters
/// as `x`, when `t` is sorted by number of voters, most first.
pub open spec fn insert_by_count<K>(t: Seq<(K, Seq<u64>)>, x: (K, Seq<u64>)) -> Seq<(K, Seq<u64>)>
    decreases t.len(),
{
    if t.len() == 0 {
        seq![x]
    } else if t.last().1.len() >= x.1.len() {
        t.push(x)
    } else {
        insert_by_count(t.drop_last(), x).push(t.last())
    }
}

/// `s` stably sorted by number of voters, most first: entries with as many
/// voters keep their order.
pub open spec fn sort_by_count<K>(s: Seq<(K, Seq<u64>)>) -> Seq<(K, Seq<u64>)>
    decreases s.len(),
{
    if s.len() == 0 {
        s
    } else {
        insert_by_count(sort_by_count(s.drop_last()), s.last())
    }
}


/// Orders two buckets so that the one with more voters comes first.
fn more_voters_first(a: &Vec<u64>, b: &Vec<u64>) -> (r: Ordering)
    ensures
        r == (if a@.len() > b@.len() {
            Ordering::Less
        } else if a@.len() < b@.len() {
            Ordering::Greater
        } else {
            Ordering::Equal
        }),
{
    if a.len() > b.len() {
        Ordering::Less
    } else if a.len() < b.len() {
        Ordering::Greater
    } else {
        Ordering::Equal
    }
}

/// Relies on `IndexMap::sort_by`, a stable sort, here by number of voters,
/// most first.
#[verifier::external_body]
fn sort_buckets(m: &mut IndexMap<u64, Vec<u64>>)
    ensures
        bucket_entries(*final(m)) == sort_by_count(bucket_entries(*old(m))),
{
    m.sort_by(|_, a, _, b| more_voters_first(a, b));
}

/// Relies on `IndexMap`'s by-value iterator: the entries in the map's order.
#[verifier::external_body]
fn bucket_list(m: IndexMap<u64, Vec<u64>>) -> (r: Vec<(u64, Vec<u64>)>)
    ensures
        r@.len() == bucket_entries(m).len(),
        forall|i: int|
            0 <= i < r@.len() ==> #[trigger] r@[i].0 == bucket_entries(m)[i].0 && r@[i].1@
                == bucket_entries(m)[i].1,
{
    m.into_iter().collect()
}

/// Voters who hold the same vote (or the same lack of one), in ledger order.
pub struct Bucket {
    pub choice: Option<VoteAction>,
    pub voters: Vec<u64>,
}

pub open spec fn buckets_view(bs: Seq<Bucket>) -> Seq<(Option<Action>, Seq<u64>)> {
    bs.map_values(|b: Bucket| (option_view(b.choice), b.voters@))
}

/// The distinct choices of a ledger, in order of first appearance.
pub open spec fn distinct_choices(l: Seq<(u64, Option<Action>)>) -> Seq<Option<Action>>
    decreases l.len(),
{
    if l.len() == 0 {
        Seq::empty()
    } else {
        let d = distinct_choices(l.drop_last());
        if d.contains(l.last().1) {
            d
        } else {
            d.push(l.last().1)
        }
    }
}

/// The voters of a ledger who hold `c`, in ledger order.
pub open spec fn voters_with(l: Seq<(u64, Option<Action>)>, c: Option<Action>) -> Seq<u64>
    decreases l.len(),
{
    if l.len() == 0 {
        Seq::empty()
    } else if l.last().1 == c {
        voters_with(l.drop_last(), c).push(l.last().0)
    } else {
        voters_with(l.drop_last(), c)
    }
}

/// One bucket per distinct choice, in order of first appearance.
pub open spec fn groups(l: Seq<(u64, Option<Action>)>) -> Seq<(Option<Action>, Seq<u64>)> {
    distinct_choices(l).map_values(|c: Option<Action>| (c, voters_with(l, c)))
}

/// The buckets' voter lists, each under its position as key.
pub open spec fn numbered(g: Seq<(Option<Action>, Seq<u64>)>) -> Seq<(u64, Seq<u64>)> {
    Seq::new(g.len(), |i: int| (i as u64, g[i].1))
}

/// Position of `c` in `d`, if there.
pub open spec fn choice_position(d: Seq<Option<Action>>, c: Option<Action>) -> Option<int>
    decreases d.len(),
{
    if d.len() == 0 {
        None
    } else if choice_position(d.drop_last(), c) is Some {
        choice_position(d.drop_last(), c)
    } else if d.last() == c {
        Some(d.len() - 1)
    } else {
        None
    }
}

pub open spec fn is_special(c: Option<Action>) -> bool {
    c == Some(Action::Abstain) || c == None::<Action>
}

/// The buckets of `g` other than the abstentions and the no-votes, in order.
pub open spec fn ordinary(g: Seq<(Option<Action>, Seq<u64>)>) -> Seq<(Option<Action>, Seq<u64>)>
    decreases g.len(),
{
    if g.len() == 0 {
        g
    } else if is_special(g.last().0) {
        ordinary(g.drop_last())
    } else {
        ordinary(g.drop_last()).push(g.last())
    }
}

/// The bucket of choice `c`, if some voter of the ledger holds it.
pub open spec fn special_group(l: Seq<(u64, Option<Action>)>, c: Option<Action>) -> Seq<
    (Option<Action>, Seq<u64>),
> {
    if distinct_choices(l).contains(c) {
        seq![(c, voters_with(l, c))]
    } else {
        Seq::empty()
    }
}

/// The buckets of a ledger, ranked: the ordinary buckets stably sorted by
/// number of voters, most first (buckets with as many voters in order of
/// first appearance); then the abstentions; then those with no vote,
/// whatever their numbers.
pub open spec fn ranked(l: Seq<(u64, Option<Action>)>) -> Seq<(Option<Action>, Seq<u64>)> {
    sort_by_count(ordinary(groups(l))) + special_group(l, Some(Action::Abstain)) + special_group(
        l,
        None,
    )
}

/// Each entry of `s` with its key passed through `f`.
pub open spec fn relabel<K, J>(s: Seq<(K, Seq<u64>)>, f: spec_fn(K) -> J) -> Seq<(J, Seq<u64>)> {
    s.map_values(|e: (K, Seq<u64>)| (f(e.0), e.1))
}

/// The choice of the bucket of `o` at a position.
pub open spec fn position_label(o: Seq<(Option<Action>, Seq<u64>)>) -> spec_fn(u64) -> Option<
    Action,
> {
    |k: u64| o[k as int].0
}


pub open spec fn choices_view(keys: Seq<Option<VoteAction>>) -> Seq<Option<Action>> {
    keys.map_values(|k: Option<VoteAction>| option_view(k))
}

proof fn lemma_choice_position(d: Seq<Option<Action>>, c: Option<Action>)
    ensures
        choice_position(d, c) is Some ==> {
            let p = choice_position(d, c)->Some_0;
            &&& 0 <= p < d.len()
            &&& d[p] == c
            &&& forall|m: int| 0 <= m < p ==> d[m] != c
        },
        choice_position(d, c) is None <==> !d.contains(c),
    decreases d.len(),
{
    if d.len() > 0 {
        let d0 = d.drop_last();
        lemma_choice_position(d0, c);
        if choice_position(d0, c) is Some {
            let p = choice_position(d0, c)->Some_0;
            assert(d[p] == d0[p]);
            assert forall|m: int| 0 <= m < p implies d[m] != c by {
                assert(d[m] == d0[m]);
            }
        } else if d.last() == c {
            assert forall|m: int| 0 <= m < d.len() - 1 implies d[m] != c by {
                assert(d[m] == d0[m]);
                assert(d0.contains(d0[m]));
            }
        } else {
            if d.contains(c) {
                let m = choose|m: int| 0 <= m < d.len() && d[m] == c;
                assert(m < d.len() - 1);
                assert(d0[m] == c);
            }
        }
    }
}

proof fn lemma_key_index(s: Seq<(u64, Seq<u64>)>, k: u64)
    ensures
        key_index(s, k) >= 0 ==> {
            let i = key_index(s, k);
            &&& i < s.len()
            &&& s[i].0 == k
            &&& forall|m: int| 0 <= m < i ==> s[m].0 != k
        },
        key_index(s, k) < 0 <==> forall|m: int| 0 <= m < s.len() ==> s[m].0 != k,
    decreases s.len(),
{
    if s.len() > 0 {
        let s0 = s.drop_last();
        lemma_key_index(s0, k);
        if key_index(s0, k) >= 0 {
            let i = key_index(s0, k);
            assert(s[i] == s0[i]);
            assert forall|m: int| 0 <= m < i implies s[m].0 != k by {
                assert(s[m] == s0[m]);
            }
        } else {
            assert forall|m: int| 0 <= m < s.len() - 1 implies s[m].0 != k by {
                assert(s[m] == s0[m]);
            }
        }
    }
}

pub open spec fn keys_below(s: Seq<(u64, Seq<u64>)>, n: int) -> bool {
    forall|j: int| 0 <= j < s.len() ==> (#[trigger] s[j].0 as int) < n
}

proof fn lemma_insert_keys(t: Seq<(u64, Seq<u64>)>, x: (u64, Seq<u64>), n: int)
    requires
        keys_below(t, n),
        (x.0 as int) < n,
    ensures
        keys_below(insert_by_count(t, x), n),
        insert_by_count(t, x).len() == t.len() + 1,
    decreases t.len(),
{
    if t.len() > 0 && t.last().1.len() < x.1.len() {
        let t0 = t.drop_last();
        assert forall|j: int| 0 <= j < t0.len() implies (#[trigger] t0[j].0 as int) < n by {
            assert(t0[j] == t[j]);
        }
        lemma_insert_keys(t0, x, n);
        let r = insert_by_count(t0, x).push(t.last());
        assert forall|j: int| 0 <= j < r.len() implies (#[trigger] r[j].0 as int) < n by {
            if j < r.len() - 1 {
                assert(r[j] == insert_by_count(t0, x)[j]);
            }
        }
    }
}

proof fn lemma_sort_keys(s: Seq<(u64, Seq<u64>)>, n: int)
    requires
        keys_below(s, n),
    ensures
        keys_below(sort_by_count(s), n),
        sort_by_count(s).len() == s.len(),
    decreases s.len(),
{
    if s.len() > 0 {
        let s0 = s.drop_last();
        assert forall|j: int| 0 <= j < s0.len() implies (#[trigger] s0[j].0 as int) < n by {
            assert(s0[j] == s[j]);
        }
        lemma_sort_keys(s0, n);
        lemma_insert_keys(sort_by_count(s0), s.last(), n);
    }
}



fn copy_ids(v: &Vec<u64>) -> (r: Vec<u64>)
    ensures
        r@ == v@,
{
    let mut r: Vec<u64> = Vec::new();
    let mut i: usize = 0;
    while i < v.len()
        invariant
            i <= v@.len(),
            r@ == v@.take(i as int),
        decreases v@.len() - i,
    {
        r.push(v[i]);
        i = i + 1;
        proof {
            assert(r@ =~= v@.take(i as int));
        }
    }
    proof {
        assert(v@.take(i as int) =~= v@);
    }
    r
}

fn same_choice(a: &Option<VoteAction>, b: &Option<VoteAction>) -> (r: bool)
    ensures
        r == (option_view(*a) == option_view(*b)),
{
    match (a, b) {
        (Some(x), Some(y)) => x.same_as(y),
        (None, None) => true,
        _ => false,
    }
}

fn copy_choice(c: &Option<VoteAction>) -> (r: Option<VoteAction>)
    ensures
        option_view(r) == option_view(*c),
{
    match c {
        Some(a) => Some(a.duplicate()),
        None => None,
    }
}

fn find_choice(keys: &Vec<Option<VoteAction>>, c: &Option<VoteAction>) -> (r: Option<usize>)
    ensures
        match r {
            Some(p) => choice_position(choices_view(keys@), option_view(*c)) == Some(p as int),
            None => choice_position(choices_view(keys@), option_view(*c)) is None,
        },
{
    let ghost d = choices_view(keys@);
    proof {
        lemma_choice_position(d, option_view(*c));
    }
    let mut j: usize = 0;
    while j < keys.len()
        invariant
            j <= keys@.len(),
            d == choices_view(keys@),
            forall|m: int| 0 <= m < j ==> d[m] != option_view(*c),
        decreases keys@.len() - j,
    {
        if same_choice(&keys[j], c) {
            proof {
                lemma_choice_position(d, option_view(*c));
                assert(d[j as int] == option_view(*c));
                assert(d.contains(option_view(*c)));
            }
            return Some(j);
        }
        j = j + 1;
    }
    proof {
        if d.contains(option_view(*c)) {
            let m = choose|m: int| 0 <= m < d.len() && d[m] == option_view(*c);
            assert(d[m] != option_view(*c));
        }
    }
    None
}

fn voters_holding(ledger: &Vec<Ballot>, c: &Option<VoteAction>) -> (r: Vec<u64>)
    ensures
        r@ == voters_with(ballots_view(ledger@), option_view(*c)),
{
    let ghost l = ballots_view(ledger@);
    let mut r: Vec<u64> = Vec::new();
    let mut i: usize = 0;
    while i < ledger.len()
        invariant
            i <= ledger@.len(),
            l == ballots_view(ledger@),
            r@ == voters_with(l.take(i as int), option_view(*c)),
        decreases ledger@.len() - i,
    {
        proof {
            assert(l.take(i + 1).drop_last() =~= l.take(i as int));
            assert(l.take(i + 1).last() == l[i as int]);
        }
        if same_choice(&ledger[i].choice, c) {
            r.push(ledger[i].voter);
        }
        i = i + 1;
    }
    proof {
        assert(l.take(ledger@.len() as int) =~= l);
    }
    r
}

fn distinct_ballot_choices(ledger: &Vec<Ballot>) -> (r: Vec<Option<VoteAction>>)
    ensures
        choices_view(r@) == distinct_choices(ballots_view(ledger@)),
{
    let ghost l = ballots_view(ledger@);
    let mut keys: Vec<Option<VoteAction>> = Vec::new();
    let mut i: usize = 0;
    while i < ledger.len()
        invariant
            i <= ledger@.len(),
            l == ballots_view(ledger@),
            choices_view(keys@) == distinct_choices(l.take(i as int)),
        decreases ledger@.len() - i,
    {
        proof {
            assert(l.take(i + 1).drop_last() =~= l.take(i as int));
            assert(l.take(i + 1).last() == l[i as int]);
            lemma_choice_position(choices_view(keys@), l[i as int].1);
        }
        if find_choice(&keys, &ledger[i].choice).is_none() {
            let c = copy_choice(&ledger[i].choice);
            keys.push(c);
            proof {
                assert(choices_view(keys@) =~= distinct_choices(l.take(i + 1)));
            }
        }
        i = i + 1;
    }
    proof {
        assert(l.take(ledger@.len() as int) =~= l);
    }
    keys
}


fn is_special_choice(c: &Option<VoteAction>) -> (r: bool)
    ensures
        r == is_special(option_view(*c)),
{
    match c {
        Some(VoteAction::Abstain) => true,
        None => true,
        _ => false,
    }
}

proof fn lemma_numbered_push(o: Seq<(Option<Action>, Seq<u64>)>, x: (Option<Action>, Seq<u64>))
    ensures
        numbered(o.push(x)) == numbered(o).push((o.len() as u64, x.1)),
{
    assert(numbered(o.push(x)) =~= numbered(o).push((o.len() as u64, x.1)));
}

/// Groups the ledger into buckets of voters that share a choice and ranks
/// them: by number of voters, most first, ties in order of first appearance
/// in the ledger; then the abstentions, then those with no vote.
pub fn aggregate(ledger: &Vec<Ballot>) -> (r: Vec<Bucket>)
    ensures
        buckets_view(r@) == ranked(ballots_view(ledger@)),
{
    let ghost l = ballots_view(ledger@);
    let ghost g = groups(l);
    let keys = distinct_ballot_choices(ledger);
    let ghost d = choices_view(keys@);
    let mut ord: Vec<Option<VoteAction>> = Vec::new();
    let mut m = new_bucket_map();
    let mut p: usize = 0;
    while p < keys.len()
        invariant
            p <= keys@.len(),
            l == ballots_view(ledger@),
            g == groups(l),
            d == choices_view(keys@),
            d == distinct_choices(l),
            ord@.len() == ordinary(g.take(p as int)).len(),
            ord@.len() <= p,
            forall|i: int|
                0 <= i < ord@.len() ==> option_view(#[trigger] ord@[i]) == ordinary(
                    g.take(p as int),
                )[i].0,
            bucket_entries(m) == numbered(ordinary(g.take(p as int))),
        decreases keys@.len() - p,
    {
        let ghost o = ordinary(g.take(p as int));
        proof {
            assert(g.take(p + 1).drop_last() =~= g.take(p as int));
            assert(g.take(p + 1).last() == g[p as int]);
        }
        if !is_special_choice(&keys[p]) {
            let voters = voters_holding(ledger, &keys[p]);
            proof {
                lemma_key_index(bucket_entries(m), ord@.len() as u64);
                lemma_numbered_push(o, g[p as int]);
            }
            insert_bucket(&mut m, ord.len() as u64, voters);
            let c = copy_choice(&keys[p]);
            ord.push(c);
            proof {
                assert forall|i: int| 0 <= i < ord@.len() implies option_view(#[trigger] ord@[i])
                    == ordinary(g.take(p + 1))[i].0 by {
                    if i < ord@.len() - 1 {
                        assert(ordinary(g.take(p + 1))[i] == o[i]);
                    }
                }
            }
        }
        p = p + 1;
    }
    proof {
        assert(g.take(p as int) =~= g);
    }
    let ghost o = ordinary(g);
    proof {
        assert(keys_below(numbered(o), ord@.len() as int));
        lemma_sort_keys(numbered(o), ord@.len() as int);
    }
    sort_buckets(&mut m);
    let ghost order = bucket_entries(m);
    let list = bucket_list(m);
    let mut r: Vec<Bucket> = Vec::new();
    let mut i: usize = 0;
    while i < list.len()
        invariant
            i <= list@.len(),
            list@.len() == order.len(),
            forall|j: int|
                0 <= j < list@.len() ==> #[trigger] list@[j].0 == order[j].0 && list@[j].1@
                    == order[j].1,
            forall|j: int| 0 <= j < order.len() ==> (#[trigger] order[j].0 as int) < ord@.len(),
            ord@.len() == o.len(),
            forall|j: int| 0 <= j < ord@.len() ==> option_view(#[trigger] ord@[j]) == o[j].0,
            r@.len() == i,
            buckets_view(r@) == relabel(order.take(i as int), position_label(o)),
        decreases list@.len() - i,
    {
        assert((list@[i as int].0 as int) < ord@.len());
        let nk = ord.len();
        let k = list[i].0 as usize;
        let choice = copy_choice(&ord[k]);
        let voters = copy_ids(&list[i].1);
        let ghost before = r@;
        r.push(Bucket { choice, voters });
        i = i + 1;
        proof {
            let t = order.take(i as int);
            assert forall|j: int| 0 <= j < i implies #[trigger] buckets_view(r@)[j] == relabel(
                t,
                position_label(o),
            )[j] by {
                if j < i - 1 {
                    assert(buckets_view(r@)[j] == buckets_view(before)[j]);
                    assert(order.take(i - 1)[j] == t[j]);
                }
            }
            assert(buckets_view(r@) =~= relabel(t, position_label(o)));
        }
    }
    proof {
        assert(order.take(i as int) =~= order);
        lemma_sort_relabel(numbered(o), position_label(o));
        assert(relabel(numbered(o), position_label(o)) =~= o);
    }
    let ghost sorted_part = r@;
    let abstain = Some(VoteAction::Abstain);
    proof {
        lemma_choice_position(d, Some(Action::Abstain));
        lemma_choice_position(d, None);
    }
    if find_choice(&keys, &abstain).is_some() {
        let voters = voters_holding(ledger, &abstain);
        r.push(Bucket { choice: Some(VoteAction::Abstain), voters });
    }
    let ghost with_abstain = r@;
    let none: Option<VoteAction> = None;
    if find_choice(&keys, &none).is_some() {
        let voters = voters_holding(ledger, &none);
        r.push(Bucket { choice: None, voters });
    }
    proof {
        assert(buckets_view(with_abstain) =~= buckets_view(sorted_part) + special_group(
            l,
            Some(Action::Abstain),
        ));
        assert(buckets_view(r@) =~= buckets_view(with_abstain) + special_group(l, None));
    }
    r
}


/// Counts the votes in `messages` (oldest first) of the active voters:
/// builds the ledger, then groups and ranks it.
pub fn count_votes(messages: &Vec<ChatMessage>, active_voters: &Vec<u64>) -> (r: Vec<Bucket>)
    ensures
        buckets_view(r@) == ranked(ledger_spec(messages_view(messages@), active_voters@)),
{
    let ledger = build_ledger(messages, active_voters);
    aggregate(&ledger)
}


pub open spec fn sorted_by_count<K>(s: Seq<(K, Seq<u64>)>) -> bool {
    forall|i: int, j: int| 0 <= i < j < s.len() ==> #[trigger] s[i].1.len() >= #[trigger] s[j].1.len()
}

proof fn lemma_insert_relabel<K, J>(t: Seq<(K, Seq<u64>)>, x: (K, Seq<u64>), f: spec_fn(K) -> J)
    ensures
        insert_by_count(relabel(t, f), (f(x.0), x.1)) == relabel(insert_by_count(t, x), f),
    decreases t.len(),
{
    let rt = relabel(t, f);
    if t.len() == 0 {
        assert(relabel(seq![x], f) =~= seq![(f(x.0), x.1)]);
    } else {
        assert(rt.drop_last() =~= relabel(t.drop_last(), f));
        assert(rt.last() == (f(t.last().0), t.last().1));
        if t.last().1.len() >= x.1.len() {
            assert(relabel(t.push(x), f) =~= rt.push((f(x.0), x.1)));
        } else {
            lemma_insert_relabel(t.drop_last(), x, f);
            let y = insert_by_count(t.drop_last(), x);
            assert(relabel(y.push(t.last()), f) =~= relabel(y, f).push((f(t.last().0), t.last().1)));
        }
    }
}

/// Sorting by number of voters does not depend on the keys.
proof fn lemma_sort_relabel<K, J>(s: Seq<(K, Seq<u64>)>, f: spec_fn(K) -> J)
    ensures
        sort_by_count(relabel(s, f)) == relabel(sort_by_count(s), f),
    decreases s.len(),
{
    if s.len() > 0 {
        let rs = relabel(s, f);
        assert(rs.drop_last() =~= relabel(s.drop_last(), f));
        assert(rs.last() == (f(s.last().0), s.last().1));
        lemma_sort_relabel(s.drop_last(), f);
        lemma_insert_relabel(sort_by_count(s.drop_last()), s.last(), f);
    }
}

proof fn lemma_insert_sorted<K>(t: Seq<(K, Seq<u64>)>, x: (K, Seq<u64>))
    ensures
        insert_by_count(t, x).len() == t.len() + 1,
        forall|j: int|
            0 <= j < t.len() + 1 ==> #[trigger] insert_by_count(t, x)[j] == x || t.contains(
                insert_by_count(t, x)[j],
            ),
        sorted_by_count(t) ==> sorted_by_count(insert_by_count(t, x)),
    decreases t.len(),
{
    let r = insert_by_count(t, x);
    if t.len() == 0 {
    } else if t.last().1.len() >= x.1.len() {
        assert forall|j: int| 0 <= j < t.len() + 1 implies #[trigger] r[j] == x || t.contains(r[j]) by {
            if j < t.len() {
                assert(r[j] == t[j]);
            }
        }
        if sorted_by_count(t) {
            assert forall|i: int, j: int| 0 <= i < j < r.len() implies #[trigger] r[i].1.len()
                >= #[trigger] r[j].1.len() by {
                assert(r[i] == t[i]);
                if j < t.len() {
                    assert(r[j] == t[j]);
                } else if i < t.len() - 1 {
                    assert(t[i].1.len() >= t[t.len() - 1].1.len());
                }
            }
        }
    } else {
        let t0 = t.drop_last();
        let y = t.last();
        lemma_insert_sorted(t0, x);
        let r0 = insert_by_count(t0, x);
        assert(r == r0.push(y));
        assert forall|j: int| 0 <= j < t.len() + 1 implies #[trigger] r[j] == x || t.contains(r[j]) by {
            if j < t.len() {
                assert(r[j] == r0[j]);
                if r0[j] != x {
                    assert(t0.contains(r0[j]));
                    let m = choose|m: int| 0 <= m < t0.len() && t0[m] == r0[j];
                    assert(t[m] == t0[m]);
                }
            } else {
                assert(t[t.len() - 1] == y);
            }
        }
        if sorted_by_count(t) {
            assert forall|i: int, j: int| 0 <= i < j < t0.len() implies #[trigger] t0[i].1.len()
                >= #[trigger] t0[j].1.len() by {
                assert(t0[i] == t[i]);
                assert(t0[j] == t[j]);
            }
            assert forall|i: int, j: int| 0 <= i < j < r.len() implies #[trigger] r[i].1.len()
                >= #[trigger] r[j].1.len() by {
                assert(r[i] == r0[i]);
                if j < r0.len() {
                    assert(r[j] == r0[j]);
                } else if r0[i] != x {
                    assert(t0.contains(r0[i]));
                    let m = choose|m: int| 0 <= m < t0.len() && t0[m] == r0[i];
                    assert(t[m] == t0[m]);
                    assert(t[m].1.len() >= t[t.len() - 1].1.len());
                }
            }
        }
    }
}

proof fn lemma_sort_sorted<K>(s: Seq<(K, Seq<u64>)>)
    ensures
        sort_by_count(s).len() == s.len(),
        sorted_by_count(sort_by_count(s)),
        forall|j: int| 0 <= j < s.len() ==> s.contains(#[trigger] sort_by_count(s)[j]),
    decreases s.len(),
{
    if s.len() > 0 {
        let s0 = s.drop_last();
        lemma_sort_sorted(s0);
        lemma_insert_sorted(sort_by_count(s0), s.last());
        let r = sort_by_count(s);
        assert forall|j: int| 0 <= j < s.len() implies s.contains(#[trigger] r[j]) by {
            if r[j] == s.last() {
                assert(s[s.len() - 1] == r[j]);
            } else {
                assert(sort_by_count(s0).contains(r[j]));
                let m = choose|m: int| 0 <= m < sort_by_count(s0).len() && sort_by_count(s0)[m] == r[j];
                assert(s0.contains(sort_by_count(s0)[m]));
                let m2 = choose|m2: int| 0 <= m2 < s0.len() && s0[m2] == r[j];
                assert(s[m2] == s0[m2]);
            }
        }
    }
}

proof fn lemma_ordinary(g: Seq<(Option<Action>, Seq<u64>)>)
    ensures
        forall|i: int| 0 <= i < ordinary(g).len() ==> !is_special(#[trigger] ordinary(g)[i].0),
    decreases g.len(),
{
    if g.len() > 0 {
        lemma_ordinary(g.drop_last());
        let o0 = ordinary(g.drop_last());
        assert forall|i: int| 0 <= i < ordinary(g).len() implies !is_special(
            #[trigger] ordinary(g)[i].0,
        ) by {
            if i < o0.len() {
                assert(ordinary(g)[i] == o0[i]);
            }
        }
    }
}

/// In a ranking, the buckets other than the abstentions and the no-votes come
/// first, the one with most voters first; the abstentions follow them, and
/// the voters with no vote come last, whatever the numbers of voters.
pub proof fn lemma_ranked_order(l: Seq<(u64, Option<Action>)>)
    ensures
        ({
            let r = ranked(l);
            let n = sort_by_count(ordinary(groups(l))).len() as int;
            let d = distinct_choices(l);
            let na: int = if d.contains(Some(Action::Abstain)) {
                1
            } else {
                0
            };
            let nn: int = if d.contains(None) {
                1
            } else {
                0
            };
            &&& r.len() == n + na + nn
            &&& forall|i: int, j: int|
                0 <= i < j < n ==> #[trigger] r[i].1.len() >= #[trigger] r[j].1.len()
            &&& forall|i: int|
                0 <= i < n ==> #[trigger] r[i].0 != Some(Action::Abstain) && r[i].0 != None::<
                    Action,
                >
            &&& na == 1 ==> r[n].0 == Some(Action::Abstain)
            &&& nn == 1 ==> r[r.len() - 1].0 == None::<Action>
        }),
{
    let o = ordinary(groups(l));
    let s = sort_by_count(o);
    lemma_sort_sorted(o);
    lemma_ordinary(groups(l));
    let r = ranked(l);
    assert forall|i: int, j: int| 0 <= i < j < s.len() implies #[trigger] r[i].1.len()
        >= #[trigger] r[j].1.len() by {
        assert(r[i] == s[i]);
        assert(r[j] == s[j]);
    }
    assert forall|i: int| 0 <= i < s.len() implies #[trigger] r[i].0 != Some(Action::Abstain)
        && r[i].0 != None::<Action> by {
        assert(r[i] == s[i]);
        assert(o.contains(s[i]));
        let m = choose|m: int| 0 <= m < o.len() && o[m] == s[i];
        assert(!is_special(o[m].0));
    }
}

} // verus!
