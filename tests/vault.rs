use vault_core::metadata::{
    extract_channel_from_path, extract_title_from_path, extract_yaml_array, extract_yaml_field,
    parse_markdown_metadata,
};
use vault_core::scanner::{build_video_info, group_by_channel, sort_names, VideoInfo};

const CAPTIONS: &str = "---\ntitle: \"첫 영상\"\nchannel: '채널A'\nupload: 2024-01-02\nduration: 10:01\nduration_seconds: 601\nview_count: 12x\ntopic: ['경제', \"투자\", , 기타]\nvideo_id: abc123\nsource_url: https://youtu.be/abc123\n---\nbody text\ntitle: not this\n";

#[test]
fn yaml_fields() {
    let yaml = "title: \"Hello: World\"\n  channel :  'c1'  \nempty:\nnotakey\n";
    assert_eq!(extract_yaml_field(yaml, "title").as_deref(), Some("Hello: World"));
    assert_eq!(extract_yaml_field(yaml, "channel").as_deref(), Some("c1"));
    assert_eq!(extract_yaml_field(yaml, "empty").as_deref(), Some(""));
    assert_eq!(extract_yaml_field(yaml, "missing"), None);
    assert_eq!(extract_yaml_field("a: \"'both'\"", "a").as_deref(), Some("both"));
}

#[test]
fn yaml_arrays() {
    let yaml = "topic: none\ntopic: [a, 'b', \"c\" ,  ]\n";
    assert_eq!(
        extract_yaml_array(yaml, "topic"),
        Some(vec!["a".to_string(), "b".to_string(), "c".to_string()])
    );
    assert_eq!(extract_yaml_array("topic: [ , '' ]", "topic"), None);
    assert_eq!(extract_yaml_array("topic: [x]\ntopic: [y]", "topic"), Some(vec!["x".to_string()]));
    assert_eq!(extract_yaml_array("other: [x]", "topic"), None);
}

#[test]
fn frontmatter_metadata() {
    let m = parse_markdown_metadata(CAPTIONS, "/p/vault/10_videos/chan/2024_a");
    assert_eq!(m.title, "첫 영상");
    assert_eq!(m.channel, "채널A");
    assert_eq!(m.upload_date.as_deref(), Some("2024-01-02"));
    assert_eq!(m.duration.as_deref(), Some("10:01"));
    assert_eq!(m.duration_seconds, Some(601));
    assert_eq!(m.view_count, None);
    assert_eq!(
        m.topic,
        Some(vec!["경제".to_string(), "투자".to_string(), "기타".to_string()])
    );
    assert_eq!(m.video_id.as_deref(), Some("abc123"));
    assert_eq!(m.source_url.as_deref(), Some("https://youtu.be/abc123"));
    assert_eq!(m.excerpt, None);
}

#[test]
fn missing_frontmatter_falls_back_to_path() {
    let folder = "/p/vault/10_videos/%EC%B1%84%EB%84%90/2024_clip";
    let m = parse_markdown_metadata("no frontmatter here\n", folder);
    assert_eq!(m.title, "2024_clip");
    assert_eq!(m.channel, "채널");
    assert_eq!(m.duration_seconds, None);
    let unclosed = parse_markdown_metadata("---\ntitle: x\n", folder);
    assert_eq!(unclosed.title, "2024_clip");
    let untitled = parse_markdown_metadata("---\nupload: 1\n---\n", folder);
    assert_eq!(untitled.title, "2024_clip");
    assert_eq!(untitled.channel, "채널");
    assert_eq!(untitled.upload_date.as_deref(), Some("1"));
    let elsewhere = parse_markdown_metadata("---\ntitle: T\n---\n", "/p/other");
    assert_eq!(elsewhere.title, "T");
    assert_eq!(elsewhere.channel, "Unknown Channel");
}

#[test]
fn path_defaults() {
    assert_eq!(extract_title_from_path("/a/b/video.mp4"), "video.mp4");
    assert_eq!(extract_title_from_path("/a/b/"), "b");
    assert_eq!(extract_title_from_path("/"), "Unknown Title");
    assert_eq!(extract_title_from_path("a/.."), "Unknown Title");
    assert_eq!(extract_channel_from_path("/x/10_videos/chan/v/video.mp4"), "chan");
    assert_eq!(extract_channel_from_path("/x/10_videos"), "Unknown Channel");
    assert_eq!(extract_channel_from_path("/x/other/chan"), "Unknown Channel");
    assert_eq!(extract_channel_from_path("10_videos/%ZZ"), "%ZZ");
}

fn record(channel: &str, title: &str) -> VideoInfo {
    let content = format!("---\ntitle: {}\nchannel: {}\n---\n", title, channel);
    build_video_info("/p/vault/10_videos/c/v/video.mp4", "/p", Some(&content), false)
}

#[test]
fn records_relative_to_root() {
    let v = build_video_info("/p/vault/10_videos/c/v/video.mp4", "/p/", None, true);
    assert_eq!(v.video_path, "vault/10_videos/c/v/video.mp4");
    assert_eq!(v.captions_path, "vault/10_videos/c/v/captions.txt");
    assert_eq!(v.metadata.title, "video.mp4");
    assert_eq!(v.metadata.channel, "c");
    let w = build_video_info("/elsewhere/v/video.mp4", "/p", Some("---\ntitle: T\n---\n"), false);
    assert_eq!(w.video_path, "/elsewhere/v/video.mp4");
    assert_eq!(w.captions_path, "/elsewhere/v/captions.md");
    assert_eq!(w.metadata.title, "T");
}

#[test]
fn grouping_sorts_and_partitions() {
    let videos = vec![
        record("b", "1"),
        record("a", "2"),
        record("b", "3"),
        record("가", "4"),
        record("a", "5"),
    ];
    let groups = group_by_channel(videos);
    let names: Vec<&str> = groups.iter().map(|g| g.channel_name.as_str()).collect();
    assert_eq!(names, vec!["a", "b", "가"]);
    let titles: Vec<Vec<&str>> = groups
        .iter()
        .map(|g| g.videos.iter().map(|v| v.metadata.title.as_str()).collect())
        .collect();
    assert_eq!(titles, vec![vec!["2", "5"], vec!["1", "3"], vec!["4"]]);
    for g in &groups {
        assert!(g.videos.iter().all(|v| v.metadata.channel == g.channel_name));
    }
    assert!(groups.iter().all(|g| !g.videos.is_empty()));
    assert!(group_by_channel(Vec::new()).is_empty());
}

#[test]
fn names_sort_like_strings() {
    let names: Vec<String> = ["채널", "b", "B", "a", "b", ""].iter().map(|s| s.to_string()).collect();
    let mut expected = names.clone();
    expected.sort();
    assert_eq!(sort_names(names), expected);
}
