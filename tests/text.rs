use tvm_votes::embed::{Embed, EmbedAuthor, EmbedField, EmbedFooter};
use tvm_votes::help::{format_description, get_footer, group_embed_fields, parse_text, replace};
use tvm_votes::menu::{next_page, prev_page, MenuError};
use tvm_votes::render::{
    format_day, format_duration, render_history, render_vote_count, HistoryEntry, NamedBucket,
};
use tvm_votes::text::capitalize;
use tvm_votes::vote::VoteAction;

fn names(ns: &[&str]) -> Vec<String> {
    ns.iter().map(|n| n.to_string()).collect()
}

#[test]
fn capitalize_words() {
    assert_eq!(capitalize("  hELLO   wORLD "), "Hello World");
    assert_eq!(capitalize("arius"), "Arius");
    assert_eq!(capitalize(""), "");
    assert_eq!(capitalize(" \t\n "), "");
    assert_eq!(capitalize("émile zola"), "émile Zola");
}

#[test]
fn day_ordinals() {
    assert_eq!(format_day(1), "1st");
    assert_eq!(format_day(2), "2nd");
    assert_eq!(format_day(3), "3rd");
    assert_eq!(format_day(4), "4th");
    assert_eq!(format_day(11), "11th");
    assert_eq!(format_day(12), "12th");
    assert_eq!(format_day(13), "13th");
    assert_eq!(format_day(21), "21st");
    assert_eq!(format_day(22), "22nd");
    assert_eq!(format_day(23), "23rd");
    assert_eq!(format_day(31), "31st");
}

#[test]
fn durations() {
    assert_eq!(format_duration(59), "");
    assert_eq!(format_duration(-100), "");
    assert_eq!(format_duration(60), "1 minute");
    assert_eq!(format_duration(3600 * 2 + 60 * 5 + 7), "2 hours, 5 minutes");
    assert_eq!(format_duration(86400 + 3600), "1 day, 1 hour");
    assert_eq!(format_duration(86400 * 3 + 120), "3 days, 2 minutes");
}

#[test]
fn vote_count_text() {
    let buckets = vec![
        NamedBucket { choice: Some(VoteAction::Vote("Cat".to_string())), names: names(&["a#1", "b#2"]) },
        NamedBucket { choice: Some(VoteAction::Vote("Dog".to_string())), names: names(&["c#3"]) },
        NamedBucket { choice: Some(VoteAction::Abstain), names: names(&["d#4"]) },
        NamedBucket { choice: None, names: names(&["e#5", "f#6"]) },
    ];
    assert_eq!(
        render_vote_count(&buckets),
        "1. **Cat** - 2 (a#1, b#2)\n2. **Dog** - 1 (c#3)\n\n**VTNL** - 1 (d#4)\n\n**Not voting** - 2 (e#5, f#6)"
    );
}

#[test]
fn vote_count_text_starting_with_no_vote() {
    let buckets = vec![NamedBucket { choice: None, names: names(&["x#0"]) }];
    assert_eq!(render_vote_count(&buckets), "**Not voting** - 1 (x#0)");
    assert_eq!(render_vote_count(&Vec::new()), "");
}

#[test]
fn history_text() {
    let entries = vec![
        HistoryEntry { action: VoteAction::Vote("Cat".to_string()), day: 2, when: "May at 7:05 pm".to_string() },
        HistoryEntry { action: VoteAction::Unvote(String::new()), day: 21, when: "May at 8:00 pm".to_string() },
        HistoryEntry { action: VoteAction::Abstain, day: 13, when: "June at 1:00 am".to_string() },
    ];
    assert_eq!(
        render_history(&entries),
        "\n1. **VTL Cat** (on 2nd May at 7:05 pm)\n2. **UnVTL ** (on 21st May at 8:00 pm)\n3. **VTNL** (on 13th June at 1:00 am)"
    );
    assert_eq!(render_history(&Vec::new()), "No votes.");
}

#[test]
fn replace_occurrences() {
    assert_eq!(replace("aXXbXXXc", "XX", "-"), "a-b-Xc");
    assert_eq!(replace("none here", "[p]", "!"), "none here");
    assert_eq!(replace("", "a", "b"), "");
}

#[test]
fn help_text_placeholders() {
    assert_eq!(parse_text("Use [p]help with [botname].", "!", "Bot"), "Use !help with Bot.");
}

#[test]
fn help_footer() {
    assert_eq!(
        get_footer("?"),
        "Type ?help <command> for more info on a command. You can also type ?help <category> for more info on a category."
    );
}

#[test]
fn descriptions() {
    assert_eq!(format_description(None, true, "Bot", "!"), "No description.");
    assert_eq!(format_description(None, false, "Bot", "!"), "");
    assert_eq!(format_description(Some(""), false, "Bot", "!"), "No description.");
    assert_eq!(format_description(Some("Run [p]x.\r\nMore"), false, "Bot", "!"), "Run !x.");
    let long = "a".repeat(80);
    let expected = format!("{}...", "a".repeat(67));
    assert_eq!(format_description(Some(&long), false, "Bot", "!"), expected);
    let wide = format!("a{}aaaa", "é".repeat(33));
    let cut = format!("a{}...", "é".repeat(33));
    assert_eq!(format_description(Some(&wide), false, "Bot", "!"), cut);
    let straddling = format!("{}é{}", "a".repeat(66), "a".repeat(10));
    let cut = format!("{}...", "a".repeat(66));
    assert_eq!(format_description(Some(&straddling), false, "Bot", "!"), cut);
    let seventy_bytes = "é".repeat(35);
    assert_eq!(format_description(Some(&seventy_bytes), false, "Bot", "!"), seventy_bytes);
    let seventy = "b".repeat(70);
    assert_eq!(format_description(Some(&seventy), false, "Bot", "!"), seventy);
}

#[test]
fn embed_builders() {
    let author = EmbedAuthor::new("me").icon_url("i").url("u").name("you");
    assert_eq!(author.name, "you");
    assert_eq!(author.icon_url.as_deref(), Some("i"));
    assert_eq!(author.url.as_deref(), Some("u"));
    let footer = EmbedFooter::new("f").icon_url("fi").text("g");
    assert_eq!(footer.text, "g");
    assert_eq!(footer.icon_url.as_deref(), Some("fi"));
    let field = EmbedField::new("n", "v", true);
    assert_eq!((field.name.as_str(), field.value.as_str(), field.inline), ("n", "v", true));
    let e = Embed::new()
        .title("t")
        .description("d")
        .colour(0x00CDFF)
        .field(("a", "b", false))
        .fields(vec![EmbedField::new("c", "d", true)])
        .author(author)
        .footer(footer)
        .image("img")
        .thumbnail("th")
        .timestamp("2021-01-01T00:00:00Z")
        .url("link")
        .set_field_at(0, EmbedField::new("z", "y", true))
        .set_field_at(5, EmbedField::new("q", "q", true));
    assert_eq!(e.title.as_deref(), Some("t"));
    assert_eq!(e.description.as_deref(), Some("d"));
    assert_eq!(e.colour, Some(0x00CDFF));
    assert_eq!(e.fields.len(), 2);
    assert_eq!(e.fields[0].name, "z");
    assert_eq!(e.fields[1].name, "c");
    assert_eq!(e.image.as_deref(), Some("img"));
    assert_eq!(e.thumbnail.as_deref(), Some("th"));
    assert_eq!(e.timestamp.as_deref(), Some("2021-01-01T00:00:00Z"));
    assert_eq!(e.url.as_deref(), Some("link"));
    assert!(e.attachment.is_none());
}

#[test]
fn menu_error_text() {
    assert_eq!(MenuError::new("`pages` is empty.").0, "`pages` is empty.");
}

#[test]
fn pages_wrap_around() {
    assert_eq!(next_page(0, 3), 1);
    assert_eq!(next_page(2, 3), 0);
    assert_eq!(prev_page(0, 3), 2);
    assert_eq!(prev_page(2, 3), 1);
    assert_eq!(next_page(0, 1), 0);
    assert_eq!(prev_page(0, 1), 0);
}

#[test]
fn fields_grouped_into_pages() {
    assert_eq!(
        group_embed_fields(&vec![10, 10, 10, 10, 10], 15),
        vec![vec![0, 1], vec![2, 3], vec![4]]
    );
    assert_eq!(group_embed_fields(&vec![100, 100, 100], 15), vec![vec![0, 1], vec![2]]);
    assert_eq!(group_embed_fields(&vec![0, 0, 0], 15), vec![vec![0, 1, 2]]);
    assert!(group_embed_fields(&Vec::new(), 15).is_empty());
}
