use tvm_votes::lookup::{
    get_jump_url, search_channel_name, search_member_name, search_role_name, MemberNames, Named,
};

fn named(id: u64, name: &str) -> Named {
    Named { id, name: name.to_string() }
}

fn member(id: u64, display_name: &str, user_name: &str) -> MemberNames {
    MemberNames { id, display_name: display_name.to_string(), user_name: user_name.to_string() }
}

#[test]
fn roles_found_by_exact_name() {
    let roles = vec![named(1, "Host"), named(2, "Player"), named(3, "Player")];
    assert_eq!(search_role_name(&roles, "Player"), Some(2));
    assert_eq!(search_role_name(&roles, "player"), None);
    assert_eq!(search_role_name(&Vec::new(), "Host"), None);
}

#[test]
fn channels_found_by_exact_name() {
    let channels = vec![named(10, "day-1"), named(11, "day-1-voting")];
    assert_eq!(search_channel_name(&channels, "day-1-voting"), Some(11));
    assert_eq!(search_channel_name(&channels, "night-1"), None);
}

#[test]
fn members_found_by_either_name() {
    let members = vec![member(5, "Ari", "arius"), member(6, "Bo", "bob")];
    assert_eq!(search_member_name(&members, "arius"), Some(5));
    assert_eq!(search_member_name(&members, "Bo"), Some(6));
    assert_eq!(search_member_name(&members, "Cy"), None);
}

#[test]
fn jump_links() {
    assert_eq!(get_jump_url(Some(1), 2, 3), "https://discord.com/channels/1/2/3");
    assert_eq!(get_jump_url(None, 20, 30), "https://discord.com/channels/@me/20/30");
}
