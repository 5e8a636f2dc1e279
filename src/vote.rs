//! Recognising vote directives at the start of a chat message.
//!
//! Three shapes are recognised, tried in this order, each only at the very
//! start of the message and each tolerant of emphasis marks (`*`, `_`, `~`,
//! `|`) around the keyword:
//! - `VTL <target>`: a vote against `<target>`;
//! - `UNVTL [target]` or `UN-VTL [target]`: retracting a vote;
//! - `VTNL`: a vote for no lynch.
//! Keywords are matched without regard to ASCII case; targets are normalised
//! by [`capitalize`].

use crate::text::{
    capitalize_range, capitalize_spec, chars_of, is_space, is_space_spec, lower_spec,
};
use vstd::prelude::*;

verus! {

/// What one message asks for.
#[derive(Debug, Clone, PartialEq, Eq, Hash)]
pub enum VoteAction {
    Vote(String),
    Unvote(String),
    Abstain,
}

/// The mathematical value of a [`VoteAction`].
pub enum Action {
    Vote(Seq<char>),
    Unvote(Seq<char>),
    Abstain,
}

impl View for VoteAction {
    type V = Action;

    open spec fn view(&self) -> Action {
        match self {
            VoteAction::Vote(t) => Action::Vote(t@),
            VoteAction::Unvote(t) => Action::Unvote(t@),
            VoteAction::Abstain => Action::Abstain,
        }
    }
}

impl VoteAction {
    /// A copy with the same value.
    pub fn duplicate(&self) -> (r: VoteAction)
        ensures
            r@ == self@,
    {
        match self {
            VoteAction::Vote(t) => VoteAction::Vote(t.clone()),
            VoteAction::Unvote(t) => VoteAction::Unvote(t.clone()),
            VoteAction::Abstain => VoteAction::Abstain,
        }
    }

    /// Same variant and same target.
    pub fn same_as(&self, other: &VoteAction) -> (r: bool)
        ensures
            r == (self@ == other@),
    {
        match (self, other) {
            (VoteAction::Vote(a), VoteAction::Vote(b)) => *a == *b,
            (VoteAction::Unvote(a), VoteAction::Unvote(b)) => *a == *b,
            (VoteAction::Abstain, VoteAction::Abstain) => true,
            _ => false,
        }
    }
}

pub open spec fn is_emphasis_spec(c: char) -> bool {
    c == '*' || c == '_' || c == '~' || c == '|'
}

/// A character that may stand between a keyword and its target.
pub open spec fn is_separator_spec(c: char) -> bool {
    is_space_spec(c) || is_emphasis_spec(c)
}

/// End of the run of emphasis marks that starts at `i`.
pub open spec fn emphasis_end(s: Seq<char>, i: int) -> int
    decreases s.len() - i,
{
    if 0 <= i < s.len() && is_emphasis_spec(s[i]) {
        emphasis_end(s, i + 1)
    } else {
        i
    }
}

/// End of the run of separators that starts at `i`.
pub open spec fn separator_end(s: Seq<char>, i: int) -> int
    decreases s.len() - i,
{
    if 0 <= i < s.len() && is_separator_spec(s[i]) {
        separator_end(s, i + 1)
    } else {
        i
    }
}

/// End of the run of characters other than emphasis marks that starts at `i`.
pub open spec fn plain_end(s: Seq<char>, i: int) -> int
    decreases s.len() - i,
{
    if 0 <= i < s.len() && !is_emphasis_spec(s[i]) {
        plain_end(s, i + 1)
    } else {
        i
    }
}

/// `s` holds the lower-case keyword `kw` at `i`, in either ASCII case.
pub open spec fn keyword_at(s: Seq<char>, i: int, kw: Seq<char>) -> bool {
    &&& 0 <= i
    &&& i + kw.len() <= s.len()
    &&& forall|k: int| 0 <= k < kw.len() ==> lower_spec(#[trigger] s[i + k]) == kw[k]
}

/// The target of a `VTL` directive, capitalized, if `s` opens with one.
///
/// The target is the run of characters other than emphasis marks after the
/// separators that follow the keyword. Where only separators follow it, the
/// directive still counts when one of them after the first is a space: the
/// target is then empty.
pub open spec fn vote_target(s: Seq<char>) -> Option<Seq<char>> {
    let p = emphasis_end(s, 0);
    let q = p + 3;
    let r = separator_end(s, q);
    if !keyword_at(s, p, seq!['v', 't', 'l']) || r == q {
        None
    } else if r < s.len() {
        Some(capitalize_spec(s.subrange(r, plain_end(s, r))))
    } else if exists|g: int| q < g < s.len() && is_space_spec(#[trigger] s[g]) {
        Some(Seq::empty())
    } else {
        None
    }
}

/// End of the `UN`, optional hyphen and `VTL` keyword that starts at `p`,
/// if it is there.
pub open spec fn unvote_keyword_end(s: Seq<char>, p: int) -> Option<int> {
    let h = if p + 2 < s.len() && s[p + 2] == '-' {
        p + 3
    } else {
        p + 2
    };
    if keyword_at(s, p, seq!['u', 'n']) && keyword_at(s, h, seq!['v', 't', 'l']) {
        Some(h + 3)
    } else {
        None
    }
}

/// The target of an un-vote directive, capitalized and possibly empty, if `s`
/// opens with one. After the keyword come separators and then the target, or
/// the end of the message.
pub open spec fn unvote_target(s: Seq<char>) -> Option<Seq<char>> {
    match unvote_keyword_end(s, emphasis_end(s, 0)) {
        None => None,
        Some(q) => {
            let r = separator_end(s, q);
            if r == q && q < s.len() {
                None
            } else if r < s.len() {
                Some(capitalize_spec(s.subrange(r, plain_end(s, r))))
            } else {
                Some(Seq::empty())
            }
        },
    }
}

/// `s` opens with a `VTNL` directive.
pub open spec fn is_abstain(s: Seq<char>) -> bool {
    keyword_at(s, emphasis_end(s, 0), seq!['v', 't', 'n', 'l'])
}

/// The directive that message text `s` opens with, if any.
pub open spec fn parse_spec(s: Seq<char>) -> Option<Action> {
    if vote_target(s) is Some {
        Some(Action::Vote(vote_target(s)->Some_0))
    } else if unvote_target(s) is Some {
        Some(Action::Unvote(unvote_target(s)->Some_0))
    } else if is_abstain(s) {
        Some(Action::Abstain)
    } else {
        None
    }
}

pub open spec fn option_view(a: Option<VoteAction>) -> Option<Action> {
    match a {
        Some(v) => Some(v@),
        None => None,
    }
}

fn is_emphasis(c: char) -> (r: bool)
    ensures
        r == is_emphasis_spec(c),
{
    c == '*' || c == '_' || c == '~' || c == '|'
}

fn find_emphasis_end(cs: &Vec<char>, i: usize) -> (r: usize)
    requires
        i <= cs@.len(),
    ensures
        r == emphasis_end(cs@, i as int),
        i <= r <= cs@.len(),
{
    let mut j = i;
    while j < cs.len() && is_emphasis(cs[j])
        invariant
            i <= j <= cs@.len(),
            emphasis_end(cs@, j as int) == emphasis_end(cs@, i as int),
        decreases cs@.len() - j,
    {
        j = j + 1;
    }
    j
}

fn find_separator_end(cs: &Vec<char>, i: usize) -> (r: usize)
    requires
        i <= cs@.len(),
    ensures
        r == separator_end(cs@, i as int),
        i <= r <= cs@.len(),
{
    let mut j = i;
    while j < cs.len() && (is_space(cs[j]) || is_emphasis(cs[j]))
        invariant
            i <= j <= cs@.len(),
            separator_end(cs@, j as int) == separator_end(cs@, i as int),
        decreases cs@.len() - j,
    {
        j = j + 1;
    }
    j
}

fn find_plain_end(cs: &Vec<char>, i: usize) -> (r: usize)
    requires
        i <= cs@.len(),
    ensures
        r == plain_end(cs@, i as int),
        i <= r <= cs@.len(),
{
    let mut j = i;
    while j < cs.len() && !is_emphasis(cs[j])
        invariant
            i <= j <= cs@.len(),
            plain_end(cs@, j as int) == plain_end(cs@, i as int),
        decreases cs@.len() - j,
    {
        j = j + 1;
    }
    j
}

fn has_keyword(cs: &Vec<char>, i: usize, kw: &Vec<char>) -> (r: bool)
    ensures
        r == keyword_at(cs@, i as int, kw@),
{
    if kw.len() > cs.len() || i > cs.len() - kw.len() {
        return false;
    }
    let mut k: usize = 0;
    while k < kw.len()
        invariant
            i + kw@.len() <= cs@.len(),
            cs@.len() <= usize::MAX,
            k <= kw@.len(),
            forall|m: int| 0 <= m < k ==> lower_spec(#[trigger] cs@[i + m]) == kw@[m],
        decreases kw@.len() - k,
    {
        if crate::text::ascii_lower(cs[i + k]) != kw[k] {
            return false;
        }
        k = k + 1;
    }
    true
}

fn space_after(cs: &Vec<char>, q: usize) -> (r: bool)
    ensures
        r == exists|g: int| q < g < cs@.len() && is_space_spec(#[trigger] cs@[g]),
{
    if q >= cs.len() {
        return false;
    }
    let mut g = q + 1;
    while g < cs.len()
        invariant
            q < cs@.len(),
            q + 1 <= g <= cs@.len(),
            forall|h: int| q < h < g ==> !is_space_spec(#[trigger] cs@[h]),
        decreases cs@.len() - g,
    {
        if is_space(cs[g]) {
            return true;
        }
        g = g + 1;
    }
    false
}

fn parse_vote(cs: &Vec<char>) -> (r: Option<String>)
    ensures
        match r {
            Some(t) => vote_target(cs@) == Some(t@),
            None => vote_target(cs@) is None,
        },
{
    let p = find_emphasis_end(cs, 0);
    let vtl = vec!['v', 't', 'l'];
    proof {
        assert(vtl@ =~= seq!['v', 't', 'l']);
    }
    if !has_keyword(cs, p, &vtl) {
        return None;
    }
    let n = cs.len();
    assert(p + vtl@.len() <= n);
    let q = p + 3;
    let r = find_separator_end(cs, q);
    if r == q {
        None
    } else if r < cs.len() {
        let e = find_plain_end(cs, r);
        Some(capitalize_range(cs, r, e))
    } else if space_after(cs, q) {
        Some(String::new())
    } else {
        None
    }
}

fn parse_unvote(cs: &Vec<char>) -> (r: Option<String>)
    ensures
        match r {
            Some(t) => unvote_target(cs@) == Some(t@),
            None => unvote_target(cs@) is None,
        },
{
    let p = find_emphasis_end(cs, 0);
    let un = vec!['u', 'n'];
    let vtl = vec!['v', 't', 'l'];
    proof {
        assert(un@ =~= seq!['u', 'n']);
        assert(vtl@ =~= seq!['v', 't', 'l']);
    }
    if !has_keyword(cs, p, &un) {
        return None;
    }
    let n = cs.len();
    assert(p + un@.len() <= n);
    let h = if p + 2 < cs.len() && cs[p + 2] == '-' {
        p + 3
    } else {
        p + 2
    };
    if !has_keyword(cs, h, &vtl) {
        return None;
    }
    assert(h + vtl@.len() <= cs@.len());
    let q = h + 3;
    let r = find_separator_end(cs, q);
    if r == q && q < cs.len() {
        None
    } else if r < cs.len() {
        let e = find_plain_end(cs, r);
        Some(capitalize_range(cs, r, e))
    } else {
        Some(String::new())
    }
}

/// Reads the vote directive that `text` opens with: a vote, then an un-vote,
/// then an abstention is tried, and the first that matches is returned.
/// Text that opens with none of them gives `None`.
pub fn parse(text: &str) -> (r: Option<VoteAction>)
    ensures
        option_view(r) == parse_spec(text@),
{
    let cs = chars_of(text);
    if let Some(t) = parse_vote(&cs) {
        return Some(VoteAction::Vote(t));
    }
    if let Some(t) = parse_unvote(&cs) {
        return Some(VoteAction::Unvote(t));
    }
    let p = find_emphasis_end(&cs, 0);
    let vtnl = vec!['v', 't', 'n', 'l'];
    proof {
        assert(vtnl@ =~= seq!['v', 't', 'n', 'l']);
    }
    if has_keyword(&cs, p, &vtnl) {
        Some(VoteAction::Abstain)
    } else {
        None
    }
}

} // verus!
