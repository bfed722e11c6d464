use vault_core::media::{content_type_for, parse_range_header, plan_range_reply, resolve_media_path, video_url};

const MIB: u64 = 1_048_576;

#[test]
fn range_fetch_first_kilobyte() {
    let r = plan_range_reply(Some("bytes=0-1023"), MIB);
    assert_eq!(r.status, 206);
    assert_eq!(r.offset, 0);
    assert_eq!(r.length, 1024);
    assert_eq!(r.content_range.as_deref(), Some("bytes 0-1023/1048576"));
}

#[test]
fn open_ended_range() {
    let r = plan_range_reply(Some("bytes=1048500-"), MIB);
    assert_eq!(r.status, 206);
    assert_eq!(r.offset, 1048500);
    assert_eq!(r.length, 76);
    assert_eq!(r.content_range.as_deref(), Some("bytes 1048500-1048575/1048576"));
}

#[test]
fn whole_file_is_plain_ok() {
    let r = plan_range_reply(None, 500);
    assert_eq!((r.status, r.offset, r.length), (200, 0, 500));
    assert!(r.content_range.is_none());
    let r = plan_range_reply(Some("bytes=0-"), 500);
    assert_eq!((r.status, r.offset, r.length), (200, 0, 500));
    let r = plan_range_reply(Some("bytes=0-99999"), 500);
    assert_eq!((r.status, r.length), (200, 500));
}

#[test]
fn range_past_end_is_unsatisfiable() {
    let r = plan_range_reply(Some("bytes=600-700"), 500);
    assert_eq!(r.status, 416);
    assert_eq!(r.length, 0);
    assert_eq!(r.content_range.as_deref(), Some("bytes */500"));
}

#[test]
fn empty_file() {
    let r = plan_range_reply(Some("bytes=0-10"), 0);
    assert_eq!((r.status, r.length), (200, 0));
}

#[test]
fn range_header_parsing() {
    assert_eq!(parse_range_header(None, 100), (0, 99));
    assert_eq!(parse_range_header(Some("bytes=10-20"), 100), (10, 20));
    assert_eq!(parse_range_header(Some("bytes=10-"), 100), (10, 99));
    assert_eq!(parse_range_header(Some("bytes=-20"), 100), (0, 20));
    assert_eq!(parse_range_header(Some("bytes=10-500"), 100), (10, 99));
    assert_eq!(parse_range_header(Some("bytes=x-y"), 100), (0, 99));
    assert_eq!(parse_range_header(Some("items=1-2"), 100), (0, 99));
    assert_eq!(parse_range_header(Some("bytes=5"), 100), (0, 99));
}

#[test]
fn every_small_range_is_exact() {
    let n: u64 = 7;
    for a in 0..n {
        for b in a..n {
            let header = format!("bytes={}-{}", a, b);
            let r = plan_range_reply(Some(&header), n);
            if a == 0 && b == n - 1 {
                assert_eq!(r.status, 200);
            } else {
                assert_eq!(r.status, 206);
                assert_eq!(r.offset, a);
                assert_eq!(r.length, b - a + 1);
                assert_eq!(r.content_range, Some(format!("bytes {}-{}/{}", a, b, n)));
            }
        }
    }
}

#[test]
fn path_escape_is_refused() {
    assert_eq!(resolve_media_path("../etc/passwd"), None);
    assert_eq!(resolve_media_path("a/../../b.mp4"), None);
    assert_eq!(resolve_media_path("%2E%2E/secret"), None);
    assert_eq!(resolve_media_path("x/%2e%2e%2fsecret"), None);
}

#[test]
fn plain_paths_resolve() {
    assert_eq!(resolve_media_path("a.mp4").as_deref(), Some("a.mp4"));
    assert_eq!(resolve_media_path("//10_videos/a.mp4").as_deref(), Some("10_videos/a.mp4"));
    assert_eq!(resolve_media_path("chan/%EB%A6%AC.mp4").as_deref(), Some("chan/리.mp4"));
    assert_eq!(resolve_media_path("%2Fetc%2Fhosts").as_deref(), Some("etc/hosts"));
}

#[test]
fn content_types() {
    assert_eq!(content_type_for("10_videos/a/video.mp4"), "video/mp4");
    assert_eq!(content_type_for("a/captions.txt"), "text/plain");
    assert_eq!(content_type_for("a/clip.webm"), "video/webm");
    assert_eq!(content_type_for("a/noext"), "application/octet-stream");
    assert_eq!(content_type_for("a/.hidden"), "application/octet-stream");
}

#[test]
fn media_urls() {
    assert_eq!(
        video_url(8080, "vault/10_videos/a b.mp4"),
        "http://127.0.0.1:8080/video/10_videos%2Fa%20b.mp4"
    );
    assert_eq!(video_url(3, "x~y.mp4"), "http://127.0.0.1:3/video/x~y.mp4");
    assert_eq!(video_url(65535, "리.mp4"), "http://127.0.0.1:65535/video/%EB%A6%AC.mp4");
}

#[test]
fn range_limits() {
    let max = u64::MAX;
    assert_eq!(parse_range_header(Some("bytes=18446744073709551616-"), 10), (0, 9));
    assert_eq!(parse_range_header(Some("bytes=+3-+4"), 10), (3, 4));
    let r = plan_range_reply(Some("bytes=18446744073709551614-"), max);
    assert_eq!(r.status, 206);
    assert_eq!(r.offset, max - 1);
    assert_eq!(r.length, 1);
    assert_eq!(
        r.content_range.as_deref(),
        Some("bytes 18446744073709551614-18446744073709551614/18446744073709551615")
    );
    assert_eq!(resolve_media_path("").as_deref(), Some(""));
    assert_eq!(video_url(0, "").as_str(), "http://127.0.0.1:0/video/");
}
