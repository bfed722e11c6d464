use vault_core::media::{MediaError, ServerSlot};
use vault_core::prompts::{
    active_prompt_version, next_prompt_version, parse_generated_version, prompt_file_name,
    sanitize_channel_name,
};
use vault_core::rag::{parse_channel_line, parse_channel_list};

#[test]
fn channel_folder_names() {
    assert_eq!(sanitize_channel_name("리베라 루츠 대학!!"), "리베라_루츠_대학");
    assert_eq!(sanitize_channel_name("__a  b__"), "a_b");
    assert_eq!(sanitize_channel_name("x-y_z"), "x-y_z");
    assert_eq!(sanitize_channel_name("!!!"), "");
    let long = "a".repeat(60);
    assert_eq!(sanitize_channel_name(&long), "a".repeat(50));
}

#[test]
fn prompt_versions() {
    assert_eq!(parse_generated_version("✅ v3 생성 완료"), 3);
    assert_eq!(parse_generated_version("no version"), 1);
    assert_eq!(parse_generated_version("vX done"), 1);
    assert_eq!(parse_generated_version("v12"), 1);
    assert_eq!(active_prompt_version(" 4\n"), 4);
    assert_eq!(active_prompt_version("x"), 1);
    let names: Vec<String> = ["prompt_v2.json", "active.txt", "prompt_v10.json", "prompt_vx.json", "prompt_v.json"]
        .iter()
        .map(|s| s.to_string())
        .collect();
    assert_eq!(next_prompt_version(&names), Some(11));
    assert_eq!(next_prompt_version(&Vec::new()), Some(1));
    assert_eq!(next_prompt_version(&vec!["prompt_v4294967295.json".to_string()]), None);
    assert_eq!(prompt_file_name(7), "prompt_v7.json");
}

#[test]
fn ai_channel_listing() {
    let out = "📺 채널 목록\n  1. 리베라루츠대학 (120개 영상)\n2.채널 B(3개  영상) 🎬\n3. broken (x개 영상)\n4. a (b) (5개 영상)\n";
    let chans = parse_channel_list(out);
    let got: Vec<(String, u32)> = chans.iter().map(|c| (c.name.clone(), c.video_count)).collect();
    assert_eq!(
        got,
        vec![
            ("리베라루츠대학".to_string(), 120),
            ("채널 B".to_string(), 3),
            ("a (b)".to_string(), 5),
        ]
    );
    assert!(parse_channel_line("1. (2개 영상)").is_none());
    assert!(parse_channel_line("x. name (2개 영상)").is_none());
}

#[test]
fn server_slot_lifecycle() {
    let mut slot = ServerSlot::new();
    assert_eq!(slot.running_port(), None);
    assert_eq!(slot.video_url("vault/a.mp4"), Err(MediaError::NotRunning));
    slot.record(4000);
    assert_eq!(slot.running_port(), Some(4000));
    assert_eq!(slot.video_url("vault/a.mp4").as_deref(), Ok("http://127.0.0.1:4000/video/a.mp4"));
    slot.clear();
    assert_eq!(slot.running_port(), None);
}

#[test]
fn folder_name_tidying() {
    assert_eq!(vault_core::prompts::tidy_folder_name("__a___b_"), "a_b");
    assert_eq!(vault_core::prompts::tidy_folder_name("x"), "x");
    assert_eq!(vault_core::prompts::tidy_folder_name("___"), "");
    let long = format!("_{}_", "가".repeat(55));
    assert_eq!(vault_core::prompts::tidy_folder_name(&long), "가".repeat(50));
}
