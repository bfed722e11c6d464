use vault_core::grammar::{Grammar, JobCounters};
use vault_core::supervisor::{
    Job, JobAction, JobInput, JobOutcome, JobRegistry, JobStatus, ProgressEvent, Stream,
    SupervisorError, Topic,
};

fn chars(s: &str) -> Vec<char> {
    s.chars().collect()
}

fn line(text: &str, at_ms: u64) -> JobInput {
    JobInput::Line { stream: Stream::Stdout, text: text.to_string(), at_ms }
}

fn events(actions: &[JobAction]) -> Vec<ProgressEvent> {
    actions
        .iter()
        .filter_map(|a| match a {
            JobAction::Emit(e) => Some(e.clone()),
            _ => None,
        })
        .collect()
}

#[test]
fn grammar_counting() {
    let (mut job, start) = Job::start("download", Topic::Download, Grammar::Downloader, 0, 15000);
    assert_eq!(start.status, JobStatus::Starting);
    assert_eq!(start.seq, 0);
    let inputs = vec![
        line("총 3개 영상을 발견했습니다", 10),
        line("[download]  50.0% of 10.00MiB at 1.00MiB/s ETA 00:05", 20),
        line("다운로드 완료: 2개 성공", 30),
    ];
    let actions = job.replay(&inputs);
    let evs = events(&actions);
    assert_eq!(evs.len(), 3);
    assert_eq!(evs[0].progress, 0);
    assert_eq!(evs[1].progress, 1666);
    assert_eq!(evs[2].progress, 8333);
    assert!(evs.iter().any(|e| (e.progress as f64 / 100.0 - 83.3).abs() < 0.1));
    assert_eq!(job.counters().total_seen, Some(3));
    assert_eq!(job.counters().total_completed, 2);
    assert_eq!(evs[2].total_seen, 3);
    assert_eq!(evs[2].total_completed, 2);
    let done = job.step(JobInput::Exited { success: true, stderr_tail: String::new() });
    let last = events(&done);
    assert_eq!(last.len(), 1);
    assert_eq!(last[0].status, JobStatus::Succeeded);
    assert_eq!(last[0].progress, 10000);
    assert!(matches!(job.outcome(), Some(JobOutcome::Succeeded)));
}

#[test]
fn event_numbers_rise_in_order() {
    let (mut job, _) = Job::start("embedding", Topic::Embedding, Grammar::Plain, 0, 15000);
    let inputs = vec![
        line("one", 1),
        line("   ", 2),
        JobInput::Line { stream: Stream::Stderr, text: "ERROR boom".to_string(), at_ms: 3 },
        JobInput::Tick { now_ms: 4 },
        line("two", 5),
        JobInput::Exited { success: false, stderr_tail: "trace".to_string() },
        line("late", 6),
    ];
    let evs = events(&job.replay(&inputs));
    let seqs: Vec<u64> = evs.iter().map(|e| e.seq).collect();
    assert_eq!(seqs, vec![1, 2, 3, 4]);
    assert!(evs.iter().all(|e| e.job_tag == "embedding" && e.topic == Topic::Embedding));
    assert_eq!(evs[1].status, JobStatus::Warning);
    assert_eq!(evs[1].log_message, "⚠️ ERROR boom");
    assert_eq!(evs[3].status, JobStatus::Failed);
    assert_eq!(evs[3].log_message, "trace");
    assert!(matches!(job.outcome(), Some(JobOutcome::WorkerFailed(t)) if t == "trace"));
}

#[test]
fn same_transcript_same_events() {
    let inputs = vec![
        line("총 4개 영상을 발견했습니다", 1),
        line("[download] 25% of 1MiB", 2),
        line("[youtube] abc: My Title", 3),
        line("[download] x has already been downloaded", 4),
    ];
    let run = || {
        let (mut job, _) = Job::start("d", Topic::Download, Grammar::Downloader, 0, 15000);
        events(&job.replay(&inputs))
            .iter()
            .map(|e| (e.seq, e.progress, e.current_item.clone(), e.log_message.clone()))
            .collect::<Vec<_>>()
    };
    let first = run();
    assert_eq!(first, run());
    assert_eq!(first[2].2, "My Title");
    assert_eq!(first[3].2, "already downloaded");
    assert_eq!(first[3].1, 2500);
}

#[test]
fn inactivity_timeout() {
    let (mut job, _) = Job::start("download", Topic::Download, Grammar::Downloader, 0, 15000);
    assert_eq!(events(&job.step(line("started worker", 1000))).len(), 1);
    assert!(job.step(JobInput::Tick { now_ms: 16000 }).is_empty());
    let acts = job.step(JobInput::Tick { now_ms: 16001 });
    assert!(matches!(acts[0], JobAction::Kill));
    assert!(acts.iter().any(|a| matches!(a, JobAction::CleanStaging)));
    let evs = events(&acts);
    assert_eq!(evs.len(), 1);
    assert_eq!(evs[0].status, JobStatus::Failed);
    assert!(matches!(job.outcome(), Some(JobOutcome::TimedOut)));
    assert!(job.step(line("too late", 17000)).is_empty());
}

#[test]
fn cancel_ends_job_once() {
    let (mut job, _) = Job::start("conversion", Topic::Conversion, Grammar::Transcoder, 0, 15000);
    let acts = job.step(JobInput::Cancel);
    assert!(matches!(acts[0], JobAction::Kill));
    assert!(!acts.iter().any(|a| matches!(a, JobAction::CleanStaging)));
    let evs = events(&acts);
    assert_eq!(evs.len(), 1);
    assert_eq!(evs[0].status, JobStatus::Cancelled);
    assert!(job.step(JobInput::Cancel).is_empty());
    assert!(job.step(JobInput::Exited { success: true, stderr_tail: String::new() }).is_empty());
    let mut reg = JobRegistry::new();
    assert_eq!(reg.register("conversion"), Ok(()));
    reg.release("conversion");
    assert!(!reg.is_running("conversion"));
}

#[test]
fn one_job_per_tag() {
    let mut reg = JobRegistry::new();
    assert_eq!(reg.register("download"), Ok(()));
    assert_eq!(reg.register("embedding"), Ok(()));
    assert_eq!(reg.register("download"), Err(SupervisorError::JobAlreadyRunning));
    reg.release("download");
    assert!(reg.is_running("embedding"));
    assert_eq!(reg.register("download"), Ok(()));
}

#[test]
fn transcoder_progress() {
    let mut c = JobCounters::new();
    c.apply(Grammar::Transcoder, &chars("frame=  150 fps=30 q=28.0 size=1kB time=00:00:05.00"));
    assert_eq!(c.item_progress, 50);
    c.apply(Grammar::Transcoder, &chars("frame=  150 fps=30 q=28.0 size=1kB"));
    assert_eq!(c.item_progress, 150);
    c.apply(Grammar::Transcoder, &chars("size=1kB time=01:00:00.00 bitrate"));
    assert_eq!(c.item_progress, 9500);
    c.apply(Grammar::Transcoder, &chars("frame=123456"));
    assert_eq!(c.item_progress, 9500);
    c.apply(Grammar::Transcoder, &chars("time=time=00:00:10.0"));
    assert_eq!(c.item_progress, 100);
    c.apply(Grammar::Transcoder, &chars("frame=x frame= 42"));
    assert_eq!(c.item_progress, 42);
    c.apply(Grammar::Transcoder, &chars("time=bad frame=7 time=00:00:03.5"));
    assert_eq!(c.item_progress, 30);
    c.apply(Grammar::Transcoder, &chars("frame=123456"));
    c.apply(Grammar::Transcoder, &chars("no progress here"));
    assert_eq!(c.item_progress, 9500);
    assert_eq!(c.overall(), 9500);
}

#[test]
fn download_percentages() {
    let mut c = JobCounters::new();
    c.apply(Grammar::Downloader, &chars("[download]  12.345% of 1MiB"));
    assert_eq!(c.item_progress, 1234);
    c.apply(Grammar::Downloader, &chars("[download] 100% of 1MiB"));
    assert_eq!(c.item_progress, 10000);
    c.apply(Grammar::Downloader, &chars("[download] Destination: x.mp4"));
    assert_eq!(c.item_progress, 10000);
    c.apply(Grammar::Downloader, &chars("[download] 7.5%"));
    assert_eq!(c.item_progress, 750);
    assert_eq!(c.overall(), 750);
    assert_eq!(c.total_seen, None);
}

#[test]
fn counts_need_both_markers() {
    let mut c = JobCounters::new();
    c.apply(Grammar::Downloader, &chars("총 12개"));
    assert_eq!(c.total_seen, None);
    c.apply(Grammar::Downloader, &chars("📊 총  12 개 영상을 발견했습니다"));
    assert_eq!(c.total_seen, Some(12));
    c.apply(Grammar::Downloader, &chars("다운로드 완료: 5개 성공, 1개 실패"));
    assert_eq!(c.total_completed, 5);
    c.apply(Grammar::Plain, &chars("총 99개 영상을 발견했습니다"));
    assert_eq!(c.total_seen, Some(12));
}

#[test]
fn topic_names() {
    assert_eq!(Topic::Download.name(), "download-progress");
    assert_eq!(Topic::Embedding.name(), "embedding-progress");
    assert_eq!(Topic::Integrity.name(), "integrity-progress");
    assert_eq!(Topic::Conversion.name(), "conversion-progress");
    assert_eq!(Topic::Ai.name(), "ai-progress");
}

#[test]
fn status_names() {
    let all = [
        (JobStatus::Starting, "starting"),
        (JobStatus::Running, "running"),
        (JobStatus::Succeeded, "ok"),
        (JobStatus::Failed, "failed"),
        (JobStatus::Cancelled, "cancelled"),
        (JobStatus::Warning, "warning"),
    ];
    for (s, n) in all {
        assert_eq!(s.name(), n);
    }
}
