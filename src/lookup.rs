//! Finding roles, channels and members by name, and links to messages.

use crate::text::{decimal, push_decimal, push_str};
use vstd::prelude::*;

verus! {

/// A role or a channel: its id and its name.
pub struct Named {
    pub id: u64,
    pub name: String,
}

/// A member: their id, the name shown in the server, and their user name.
pub struct MemberNames {
    pub id: u64,
    pub display_name: String,
    pub user_name: String,
}

/// Position of the first entry named `name`, if any.
pub open spec fn first_named(entries: Seq<Named>, name: Seq<char>) -> Option<int>
    decreases entries.len(),
{
    if entries.len() == 0 {
        None
    } else if first_named(entries.drop_last(), name) is Some {
        first_named(entries.drop_last(), name)
    } else if entries.last().name@ == name {
        Some(entries.len() - 1)
    } else {
        None
    }
}

fn search_named(entries: &Vec<Named>, name: &str) -> (r: Option<u64>)
    ensures
        match first_named(entries@, name@) {
            Some(i) => r == Some(entries@[i].id),
            None => r is None,
        },
{
    let target = name.to_owned();
    let mut i: usize = 0;
    while i < entries.len()
        invariant
            i <= entries@.len(),
            target@ == name@,
            first_named(entries@.take(i as int), name@) is None,
        decreases entries@.len() - i,
    {
        proof {
            assert(entries@.take(i + 1).drop_last() =~= entries@.take(i as int));
        }
        if entries[i].name == target {
            proof {
                lemma_first_named_prefix(entries@, i + 1, name@);
            }
            return Some(entries[i].id);
        }
        i = i + 1;
    }
    proof {
        assert(entries@.take(i as int) =~= entries@);
    }
    None
}

proof fn lemma_first_named_prefix(entries: Seq<Named>, n: int, name: Seq<char>)
    requires
        0 <= n <= entries.len(),
        first_named(entries.take(n), name) is Some,
    ensures
        first_named(entries, name) == first_named(entries.take(n), name),
    decreases entries.len() - n,
{
    if n < entries.len() {
        assert(entries.take(n + 1).drop_last() =~= entries.take(n));
        lemma_first_named_prefix(entries, n + 1, name);
    } else {
        assert(entries.take(n) =~= entries);
    }
}

/// The id of the first role called `name`.
pub fn search_role_name(roles: &Vec<Named>, name: &str) -> (r: Option<u64>)
    ensures
        match first_named(roles@, name@) {
            Some(i) => r == Some(roles@[i].id),
            None => r is None,
        },
{
    search_named(roles, name)
}

/// The id of the first channel called `name`.
pub fn search_channel_name(channels: &Vec<Named>, name: &str) -> (r: Option<u64>)
    ensures
        match first_named(channels@, name@) {
            Some(i) => r == Some(channels@[i].id),
            None => r is None,
        },
{
    search_named(channels, name)
}

pub open spec fn member_is_called(m: MemberNames, name: Seq<char>) -> bool {
    m.display_name@ == name || m.user_name@ == name
}

/// The id of the first member shown as, or with the user name, `name`.
pub fn search_member_name(members: &Vec<MemberNames>, name: &str) -> (r: Option<u64>)
    ensures
        r is Some ==> exists|i: int|
            0 <= i < members@.len() && member_is_called(#[trigger] members@[i], name@) && r
                == Some(members@[i].id) && forall|j: int|
                0 <= j < i ==> !member_is_called(#[trigger] members@[j], name@),
        r is None ==> forall|i: int|
            0 <= i < members@.len() ==> !member_is_called(#[trigger] members@[i], name@),
{
    let target = name.to_owned();
    let mut i: usize = 0;
    while i < members.len()
        invariant
            i <= members@.len(),
            target@ == name@,
            forall|j: int| 0 <= j < i ==> !member_is_called(#[trigger] members@[j], name@),
        decreases members@.len() - i,
    {
        if members[i].display_name == target || members[i].user_name == target {
            proof {
                assert(member_is_called(members@[i as int], name@));
            }
            return Some(members[i].id);
        }
        i = i + 1;
    }
    None
}

/// The link to message `message` of channel `channel`, in server `guild`
/// or, without one, among direct messages.
pub fn get_jump_url(guild: Option<u64>, channel: u64, message: u64) -> (r: String)
    ensures
        r@ == "https://discord.com/channels/"@ + match guild {
            Some(g) => decimal(g as nat),
            None => "@me"@,
        } + "/"@ + decimal(channel as nat) + "/"@ + decimal(message as nat),
{
    let mut r = String::new();
    push_str(&mut r, "https://discord.com/channels/");
    match guild {
        Some(g) => push_decimal(&mut r, g),
        None => push_str(&mut r, "@me"),
    }
    push_str(&mut r, "/");
    push_decimal(&mut r, channel);
    push_str(&mut r, "/");
    push_decimal(&mut r, message);
    r
}

} // verus!
