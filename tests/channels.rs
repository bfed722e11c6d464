use vault_core::channels::{extract_channel_name_from_url, ChannelError, ChannelList};

#[test]
fn add_then_toggle_leaves_one_disabled_entry() {
    let mut list = ChannelList::with_header();
    assert_eq!(list.add("https://www.youtube.com/@x"), Ok(()));
    list.toggle("https://www.youtube.com/@x");
    let text = list.serialize();
    let header = ChannelList::with_header().serialize();
    assert!(text.starts_with(&header));
    assert!(text.ends_with("# https://www.youtube.com/@x\n"));
    assert_eq!(&text[header.len()..], "# https://www.youtube.com/@x\n");
    let entries = list.entries();
    assert_eq!(entries.len(), 1);
    assert!(!entries[0].enabled);
    assert_eq!(entries[0].url, "https://www.youtube.com/@x");
    assert_eq!(entries[0].name, "x");
}

#[test]
fn header_lists_no_channel() {
    let list = ChannelList::with_header();
    assert!(list.entries().is_empty());
    let reparsed = ChannelList::parse(&list.serialize());
    assert!(reparsed.entries().is_empty());
}

#[test]
fn toggle_twice_restores_file() {
    let content = "# comment line\nhttps://a.example/@one\n\n# https://b.example/@two\n#nospace\nhttps://c.example/chan\n";
    for url in ["https://a.example/@one", "https://b.example/@two", "https://c.example/chan", "missing"] {
        let mut list = ChannelList::parse(content);
        list.toggle(url);
        list.toggle(url);
        assert_eq!(list.serialize(), content);
    }
}

#[test]
fn toggle_flips_enabled_flag() {
    let mut list = ChannelList::parse("https://a.example/@one\n# https://b.example/@two\n");
    list.toggle("https://a.example/@one");
    list.toggle("https://b.example/@two");
    assert_eq!(list.serialize(), "# https://a.example/@one\nhttps://b.example/@two\n");
}

#[test]
fn second_add_is_duplicate() {
    let mut list = ChannelList::parse("# note\n");
    assert_eq!(list.add("https://www.youtube.com/@y"), Ok(()));
    let len = list.entries().len();
    assert_eq!(list.add("https://www.youtube.com/@y"), Err(ChannelError::DuplicateChannel));
    assert_eq!(list.entries().len(), len);
}

#[test]
fn add_of_disabled_url_is_duplicate() {
    let mut list = ChannelList::parse("# https://www.youtube.com/@z\n");
    assert_eq!(list.add("https://www.youtube.com/@z"), Err(ChannelError::DuplicateChannel));
}

#[test]
fn add_rejects_non_urls() {
    let mut list = ChannelList::parse("");
    assert_eq!(list.add(""), Err(ChannelError::Malformed));
    assert_eq!(list.add("two words"), Err(ChannelError::Malformed));
    assert_eq!(list.add("#hash"), Err(ChannelError::Malformed));
    assert_eq!(list.serialize(), "");
}

#[test]
fn remove_drops_enabled_and_disabled_lines() {
    let mut list = ChannelList::parse("https://a/@x\n# keep me\n# https://a/@x\nhttps://b/@y\n");
    list.remove("https://a/@x");
    assert_eq!(list.serialize(), "# keep me\nhttps://b/@y\n");
}

#[test]
fn entries_trim_and_skip_comments() {
    let list = ChannelList::parse("  https://a/@x  \r\n# a comment with words\n\n#   https://b/@y\n# https://c/@z\n");
    let entries = list.entries();
    assert_eq!(entries.len(), 2);
    assert_eq!(entries[0].url, "https://a/@x");
    assert!(entries[0].enabled);
    assert_eq!(entries[1].url, "https://c/@z");
    assert!(!entries[1].enabled);
}

#[test]
fn serialize_normalizes_line_endings() {
    let list = ChannelList::parse("a\r\nb");
    assert_eq!(list.serialize(), "a\nb\n");
}

#[test]
fn channel_name_from_url() {
    assert_eq!(extract_channel_name_from_url("https://www.youtube.com/@%EB%A6%AC%EB%B2%A0"), "리베");
    assert_eq!(extract_channel_name_from_url("https://www.youtube.com/c/plain"), "plain");
    assert_eq!(extract_channel_name_from_url("bare"), "bare");
    assert_eq!(extract_channel_name_from_url("https://x/@bad%FF"), "bad%FF");
    assert_eq!(extract_channel_name_from_url("https://x/@a%20b"), "a b");
}

#[test]
fn empty_file_round_trip() {
    let mut list = ChannelList::parse("");
    assert!(list.entries().is_empty());
    list.toggle("https://a/@x");
    assert_eq!(list.serialize(), "");
    list.remove("https://a/@x");
    assert_eq!(list.serialize(), "");
}

#[test]
fn enabled_channels() {
    assert!(!ChannelList::with_header().has_enabled());
    assert!(!ChannelList::parse("# https://a/@x\n").has_enabled());
    assert!(ChannelList::parse("# https://a/@x\nhttps://b/@y\n").has_enabled());
}
