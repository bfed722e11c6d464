use vault_core::jobs::{
    convert_invocation, download_invocation, embed_channels_invocation, embed_invocation,
    rag_invocation, script_invocation, DownloadMode, JobKind,
};
use vault_core::paths::{is_staging_residue, project_root_of, ProjectPaths};
use vault_core::rag::{RagLine, RagSession};

#[test]
fn project_root_rules() {
    assert_eq!(project_root_of("/home/u/proj/app/src-tauri"), "/home/u/proj");
    assert_eq!(project_root_of("/home/u/proj/app"), "/home/u/proj");
    assert_eq!(project_root_of("/home/u/proj/app/src/deep"), "/home/u/proj");
    assert_eq!(project_root_of("/tmp/work"), "/tmp/work");
    assert_eq!(project_root_of("/src-tauri"), "/src-tauri");
    assert_eq!(project_root_of("/app"), "/");
}

#[test]
fn derived_paths() {
    let p = ProjectPaths::from_working_dir("/home/u/proj/app");
    assert_eq!(p.root(), "/home/u/proj");
    assert_eq!(p.vault(), "/home/u/proj/vault");
    assert_eq!(p.videos_dir(), "/home/u/proj/vault/10_videos");
    assert_eq!(p.indices_dir(), "/home/u/proj/vault/90_indices");
    assert_eq!(p.channels_file(), "/home/u/proj/channels.txt");
    assert_eq!(p.staging_dir(), "/home/u/proj/vault/downloads");
    assert_eq!(p.python(false), "/home/u/proj/venv/bin/python");
    assert_eq!(p.python(true), "/home/u/proj/venv/Scripts/python.exe");
    assert_eq!(p.script("rag.py"), "/home/u/proj/vault/90_indices/rag.py");
}

#[test]
fn staging_residue() {
    for name in ["a.part", "b.mp4.ytdl", "c.tmp", "v.f137.mp4", "v.f22.webm"] {
        assert!(is_staging_residue(name), "{}", name);
    }
    for name in ["video.mp4", "a.f.mp4", "x.webm", "f1.mp4", "captions.md", "a.part.txt"] {
        assert!(!is_staging_residue(name), "{}", name);
    }
}

#[test]
fn download_invocations() {
    let p = ProjectPaths::from_working_dir("/r");
    let inv = download_invocation(&p, false, &DownloadMode::Batch);
    assert_eq!(inv.program, "/r/venv/bin/python3");
    assert_eq!(inv.args, vec!["-u", "-m", "ydh", "batch"]);
    let env: Vec<(&str, &str)> = inv.env.iter().map(|(k, v)| (k.as_str(), v.as_str())).collect();
    assert_eq!(
        env,
        vec![
            ("PYTHONUNBUFFERED", "1"),
            ("PYTHONIOENCODING", "utf-8"),
            ("YDH_YTDLP_SLEEP_INTERVAL", "2"),
            ("YDH_YTDLP_MAX_SLEEP_INTERVAL", "5"),
            ("YDH_YTDLP_SLEEP_REQUESTS", "20"),
            ("YDH_YTDLP_SOCKET_TIMEOUT", "8"),
            ("YDH_YTDLP_RETRIES", "1"),
        ]
    );
    let full = download_invocation(&p, false, &DownloadMode::FullScan);
    assert_eq!(full.program, "/r/venv/bin/python3");
    assert_eq!(full.args, vec!["-u", "-m", "ydh", "batch", "--full-scan"]);
    assert!(full.env.contains(&("YDH_YTDLP_SOCKET_TIMEOUT".to_string(), "10".to_string())));
    assert!(full.env.contains(&("YDH_YTDLP_RETRIES".to_string(), "2".to_string())));
    let q = download_invocation(&p, true, &DownloadMode::BatchWithQuality("720p".to_string()));
    assert_eq!(q.program, "/r/venv/Scripts/python.exe");
    assert_eq!(q.env.last(), Some(&("YDH_VIDEO_QUALITY".to_string(), "720p".to_string())));
}

#[test]
fn other_invocations() {
    let p = ProjectPaths::from_working_dir("/r");
    let e = embed_invocation(&p, false, &vec!["a".to_string(), "b".to_string()]);
    assert_eq!(e.args, vec!["/r/vault/90_indices/embed.py", "channels", "a", "b"]);
    let utf8 = ("PYTHONIOENCODING".to_string(), "utf-8".to_string());
    assert!(e.env.contains(&utf8));
    assert_eq!(e.program, "/r/venv/bin/python");
    assert!(embed_channels_invocation(&p, false, &Vec::new()).is_none());
    let sel = embed_channels_invocation(&p, false, &vec!["a".to_string()]).unwrap();
    assert_eq!(sel.args, vec!["/r/vault/90_indices/embed.py", "channels", "a"]);
    let all = embed_invocation(&p, false, &Vec::new());
    assert_eq!(all.args, vec!["/r/vault/90_indices/embed.py"]);
    let c = convert_invocation(&p, false, "vault/x/video.mp4", "720p", "h264", false);
    assert_eq!(
        c.args,
        vec!["-m", "ydh", "convert-single", "/r/vault/x/video.mp4", "--quality", "720p", "--codec", "h264", "--no-backup"]
    );
    let r = rag_invocation(&p, false, "질문", "chan", "deepseek", true);
    assert_eq!(r.args, vec!["/r/vault/90_indices/rag.py", "질문", "chan", "--progress", "--model", "deepseek"]);
    assert!(r.env.contains(&utf8));
    let s = script_invocation(&p, false, "integrity_check.py", &Vec::new());
    assert!(s.env.contains(&utf8));
    assert_eq!(s.args, vec!["/r/vault/90_indices/integrity_check.py"]);
    assert_eq!(JobKind::Download.tag(), "download");
}

#[test]
fn rag_sentinels() {
    let mut s = RagSession::new();
    assert!(matches!(s.feed("loading model"), RagLine::Other));
    match s.feed("PROGRESS:{\"step\":\"검색\",\"progress\":10}") {
        RagLine::Progress(p) => assert_eq!(p, "{\"step\":\"검색\",\"progress\":10}"),
        _ => panic!("expected progress"),
    }
    assert!(matches!(s.feed("FINAL_ANSWER:"), RagLine::FinalAnswer));
    assert!(matches!(s.feed("first line"), RagLine::Answer));
    assert!(matches!(s.feed("PROGRESS:{}"), RagLine::Progress(_)));
    assert!(matches!(s.feed(""), RagLine::Answer));
    assert!(matches!(s.feed("last"), RagLine::Answer));
    assert_eq!(s.answer(), "first line\n\nlast");
}
