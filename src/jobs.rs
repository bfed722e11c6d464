//! How each job invokes its worker: the interpreter, the arguments and the
//! environment overrides, with the topic, grammar and tag it runs under.
use vstd::prelude::*;
use crate::grammar::Grammar;
use crate::paths::{join_spec, ProjectPaths};
use crate::supervisor::Topic;
use crate::text::{from_chars, to_chars};

verus! {

/// A worker process to start, in the project root.
#[derive(Debug, Clone)]
pub struct Invocation {
    pub program: String,
    pub args: Vec<String>,
    /// Environment overrides on top of the parent's environment.
    pub env: Vec<(String, String)>,
}

pub open spec fn texts(v: Seq<String>) -> Seq<Seq<char>> {
    v.map_values(|s: String| s@)
}

pub open spec fn pairs(v: Seq<(String, String)>) -> Seq<(Seq<char>, Seq<char>)> {
    v.map_values(|p: (String, String)| (p.0@, p.1@))
}

pub open spec fn python_spec(root: Seq<char>, windows: bool) -> Seq<char> {
    join_spec(
        root,
        if windows {
            "venv/Scripts/python.exe"@
        } else {
            "venv/bin/python"@
        },
    )
}

/// The downloader's interpreter: `python3` of the virtual environment.
pub open spec fn downloader_python_spec(root: Seq<char>, windows: bool) -> Seq<char> {
    join_spec(
        root,
        if windows {
            "venv/Scripts/python.exe"@
        } else {
            "venv/bin/python3"@
        },
    )
}

pub open spec fn script_spec(root: Seq<char>, name: Seq<char>) -> Seq<char> {
    join_spec(join_spec(root, "vault/90_indices"@), name)
}

fn text(s: &str) -> (r: String)
    ensures
        r@ == s@,
{
    from_chars(to_chars(s).as_slice())
}

fn push_text(v: &mut Vec<String>, s: &str)
    ensures
        texts(final(v)@) == texts(old(v)@).push(s@),
{
    let ghost before = texts(v@);
    v.push(text(s));
    assert(texts(v@) =~= before.push(s@));
}

fn push_string(v: &mut Vec<String>, s: String)
    ensures
        texts(final(v)@) == texts(old(v)@).push(s@),
{
    let ghost before = texts(v@);
    let ghost sv = s@;
    v.push(s);
    assert(texts(v@) =~= before.push(sv));
}

fn push_env(v: &mut Vec<(String, String)>, k: &str, val: &str)
    ensures
        pairs(final(v)@) == pairs(old(v)@).push((k@, val@)),
{
    let ghost before = pairs(v@);
    v.push((text(k), text(val)));
    assert(pairs(v@) =~= before.push((k@, val@)));
}

/// How a batch download runs.
#[derive(Debug, Clone)]
pub enum DownloadMode {
    /// New videos of every enabled channel.
    Batch,
    /// The same, at the given video quality.
    BatchWithQuality(String),
    /// Every video checked again and the missing ones fetched.
    FullScan,
}

pub open spec fn unbuffered_env() -> Seq<(Seq<char>, Seq<char>)> {
    seq![("PYTHONUNBUFFERED"@, "1"@), ("PYTHONIOENCODING"@, "utf-8"@)]
}

pub open spec fn download_args(mode: DownloadMode) -> Seq<Seq<char>> {
    match mode {
        DownloadMode::FullScan => seq!["-u"@, "-m"@, "ydh"@, "batch"@, "--full-scan"@],
        _ => seq!["-u"@, "-m"@, "ydh"@, "batch"@],
    }
}

/// Unbuffered UTF-8 output, request pacing, and the socket timeout and
/// retries of the mode (8 s and 1, or 10 s and 2 for a full scan).
pub open spec fn download_env(mode: DownloadMode) -> Seq<(Seq<char>, Seq<char>)> {
    let pacing = unbuffered_env() + seq![
        ("YDH_YTDLP_SLEEP_INTERVAL"@, "2"@),
        ("YDH_YTDLP_MAX_SLEEP_INTERVAL"@, "5"@),
        ("YDH_YTDLP_SLEEP_REQUESTS"@, "20"@),
    ];
    match mode {
        DownloadMode::Batch => pacing + seq![
            ("YDH_YTDLP_SOCKET_TIMEOUT"@, "8"@),
            ("YDH_YTDLP_RETRIES"@, "1"@),
        ],
        DownloadMode::BatchWithQuality(q) => pacing + seq![
            ("YDH_YTDLP_SOCKET_TIMEOUT"@, "8"@),
            ("YDH_YTDLP_RETRIES"@, "1"@),
            ("YDH_VIDEO_QUALITY"@, q@),
        ],
        DownloadMode::FullScan => pacing + seq![
            ("YDH_YTDLP_SOCKET_TIMEOUT"@, "10"@),
            ("YDH_YTDLP_RETRIES"@, "2"@),
        ],
    }
}

/// The batch downloader.
pub fn download_invocation(paths: &ProjectPaths, windows: bool, mode: &DownloadMode) -> (r:
    Invocation)
    ensures
        r.program@ == downloader_python_spec(paths@, windows),
        texts(r.args@) == download_args(*mode),
        pairs(r.env@) == download_env(*mode),
{
    let mut args: Vec<String> = Vec::new();
    push_text(&mut args, "-u");
    push_text(&mut args, "-m");
    push_text(&mut args, "ydh");
    push_text(&mut args, "batch");
    let mut env: Vec<(String, String)> = Vec::new();
    push_env(&mut env, "PYTHONUNBUFFERED", "1");
    push_env(&mut env, "PYTHONIOENCODING", "utf-8");
    push_env(&mut env, "YDH_YTDLP_SLEEP_INTERVAL", "2");
    push_env(&mut env, "YDH_YTDLP_MAX_SLEEP_INTERVAL", "5");
    push_env(&mut env, "YDH_YTDLP_SLEEP_REQUESTS", "20");
    match mode {
        DownloadMode::FullScan => {
            push_text(&mut args, "--full-scan");
            push_env(&mut env, "YDH_YTDLP_SOCKET_TIMEOUT", "10");
            push_env(&mut env, "YDH_YTDLP_RETRIES", "2");
        },
        DownloadMode::Batch => {
            push_env(&mut env, "YDH_YTDLP_SOCKET_TIMEOUT", "8");
            push_env(&mut env, "YDH_YTDLP_RETRIES", "1");
        },
        DownloadMode::BatchWithQuality(q) => {
            push_env(&mut env, "YDH_YTDLP_SOCKET_TIMEOUT", "8");
            push_env(&mut env, "YDH_YTDLP_RETRIES", "1");
            push_env(&mut env, "YDH_VIDEO_QUALITY", q.as_str());
        },
    }
    proof {
        assert(texts(args@) =~= download_args(*mode));
        assert(pairs(env@) =~= download_env(*mode));
    }
    Invocation { program: paths.downloader_python(windows), args, env }
}

/// The single-channel ingest of the downloader.
pub fn ingest_invocation(paths: &ProjectPaths, windows: bool, url: &str) -> (r: Invocation)
    ensures
        r.program@ == downloader_python_spec(paths@, windows),
        texts(r.args@) == seq!["-u"@, "-m"@, "ydh"@, "ingest"@, url@],
        pairs(r.env@) == unbuffered_env(),
{
    let mut args: Vec<String> = Vec::new();
    push_text(&mut args, "-u");
    push_text(&mut args, "-m");
    push_text(&mut args, "ydh");
    push_text(&mut args, "ingest");
    push_text(&mut args, url);
    let mut env: Vec<(String, String)> = Vec::new();
    push_env(&mut env, "PYTHONUNBUFFERED", "1");
    push_env(&mut env, "PYTHONIOENCODING", "utf-8");
    proof {
        assert(texts(args@) =~= seq!["-u"@, "-m"@, "ydh"@, "ingest"@, url@]);
        assert(pairs(env@) =~= unbuffered_env());
    }
    Invocation { program: paths.downloader_python(windows), args, env }
}

/// The embedder: for the named channels, or for the whole vault when no
/// channel is named.
pub fn embed_invocation(paths: &ProjectPaths, windows: bool, channels: &Vec<String>) -> (r:
    Invocation)
    ensures
        r.program@ == python_spec(paths@, windows),
        channels@.len() == 0 ==> texts(r.args@) == seq![script_spec(paths@, "embed.py"@)],
        channels@.len() > 0 ==> texts(r.args@) == seq![script_spec(paths@, "embed.py"@), "channels"@]
            + texts(channels@),
        pairs(r.env@) == unbuffered_env(),
{
    let mut args: Vec<String> = Vec::new();
    push_string(&mut args, paths.script("embed.py"));
    if channels.len() > 0 {
        push_text(&mut args, "channels");
        let ghost head = texts(args@);
        let mut i: usize = 0;
        while i < channels.len()
            invariant
                i <= channels@.len(),
                texts(args@) == head + texts(channels@).take(i as int),
            decreases channels@.len() - i,
        {
            push_string(&mut args, channels[i].clone());
            assert(texts(channels@).take(i + 1) =~= texts(channels@).take(i as int).push(
                channels@[i as int]@,
            ));
            assert(head + texts(channels@).take(i + 1) =~= (head + texts(channels@).take(
                i as int,
            )).push(channels@[i as int]@));
            i = i + 1;
        }
        assert(texts(channels@).take(channels@.len() as int) =~= texts(channels@));
    }
    let mut env: Vec<(String, String)> = Vec::new();
    push_env(&mut env, "PYTHONUNBUFFERED", "1");
    push_env(&mut env, "PYTHONIOENCODING", "utf-8");
    proof {
        assert(pairs(env@) =~= unbuffered_env());
        if channels@.len() == 0 {
            assert(texts(args@) =~= seq![script_spec(paths@, "embed.py"@)]);
        } else {
            assert(seq![script_spec(paths@, "embed.py"@)].push("channels"@) =~= seq![
                script_spec(paths@, "embed.py"@),
                "channels"@,
            ]);
        }
    }
    Invocation { program: paths.python(windows), args, env }
}

/// The embedder for the selected channels; `None` when none is selected.
pub fn embed_channels_invocation(paths: &ProjectPaths, windows: bool, channels: &Vec<String>) -> (r:
    Option<Invocation>)
    ensures
        channels@.len() == 0 <==> r is None,
        match r {
            Some(inv) => inv.program@ == python_spec(paths@, windows) && texts(inv.args@) == seq![
                script_spec(paths@, "embed.py"@),
                "channels"@,
            ] + texts(channels@) && pairs(inv.env@) == unbuffered_env(),
            None => true,
        },
{
    if channels.len() == 0 {
        None
    } else {
        Some(embed_invocation(paths, windows, channels))
    }
}

/// A worker script run with the given arguments and unbuffered output.
pub fn script_invocation(paths: &ProjectPaths, windows: bool, script: &str, extra: &Vec<String>) -> (r:
    Invocation)
    ensures
        r.program@ == python_spec(paths@, windows),
        texts(r.args@) == seq![script_spec(paths@, script@)] + texts(extra@),
        pairs(r.env@) == unbuffered_env(),
{
    let mut args: Vec<String> = Vec::new();
    push_string(&mut args, paths.script(script));
    let ghost head = texts(args@);
    let mut i: usize = 0;
    while i < extra.len()
        invariant
            i <= extra@.len(),
            texts(args@) == head + texts(extra@).take(i as int),
        decreases extra@.len() - i,
    {
        push_string(&mut args, extra[i].clone());
        assert(texts(extra@).take(i + 1) =~= texts(extra@).take(i as int).push(extra@[i as int]@));
        assert(head + texts(extra@).take(i + 1) =~= (head + texts(extra@).take(i as int)).push(
            extra@[i as int]@,
        ));
        i = i + 1;
    }
    assert(texts(extra@).take(extra@.len() as int) =~= texts(extra@));
    let mut env: Vec<(String, String)> = Vec::new();
    push_env(&mut env, "PYTHONUNBUFFERED", "1");
    push_env(&mut env, "PYTHONIOENCODING", "utf-8");
    assert(pairs(env@) =~= unbuffered_env());
    assert(head =~= seq![script_spec(paths@, script@)]);
    Invocation { program: paths.python(windows), args, env }
}

/// The transcoder for one video, given relative to the project root.
pub fn convert_invocation(
    paths: &ProjectPaths,
    windows: bool,
    video_path: &str,
    quality: &str,
    codec: &str,
    backup: bool,
) -> (r: Invocation)
    ensures
        r.program@ == python_spec(paths@, windows),
        texts(r.args@) == seq![
            "-m"@,
            "ydh"@,
            "convert-single"@,
            join_spec(paths@, video_path@),
            "--quality"@,
            quality@,
            "--codec"@,
            codec@,
            if backup {
                "--backup"@
            } else {
                "--no-backup"@
            },
        ],
        pairs(r.env@) == unbuffered_env(),
{
    let mut args: Vec<String> = Vec::new();
    push_text(&mut args, "-m");
    push_text(&mut args, "ydh");
    push_text(&mut args, "convert-single");
    push_string(&mut args, paths.under_root(video_path));
    push_text(&mut args, "--quality");
    push_text(&mut args, quality);
    push_text(&mut args, "--codec");
    push_text(&mut args, codec);
    if backup {
        push_text(&mut args, "--backup");
    } else {
        push_text(&mut args, "--no-backup");
    }
    let mut env: Vec<(String, String)> = Vec::new();
    push_env(&mut env, "PYTHONUNBUFFERED", "1");
    push_env(&mut env, "PYTHONIOENCODING", "utf-8");
    proof {
        assert(pairs(env@) =~= unbuffered_env());
        assert(texts(args@) =~= seq![
            "-m"@,
            "ydh"@,
            "convert-single"@,
            join_spec(paths@, video_path@),
            "--quality"@,
            quality@,
            "--codec"@,
            codec@,
            if backup {
                "--backup"@
            } else {
                "--no-backup"@
            },
        ]);
    }
    Invocation { program: paths.python(windows), args, env }
}

/// The retrieval-augmented answerer for a question about a channel, with
/// `PROGRESS:` lines when `progress` is set.
pub fn rag_invocation(
    paths: &ProjectPaths,
    windows: bool,
    query: &str,
    channel: &str,
    model: &str,
    progress: bool,
) -> (r: Invocation)
    ensures
        r.program@ == python_spec(paths@, windows),
        progress ==> texts(r.args@) == seq![
            script_spec(paths@, "rag.py"@),
            query@,
            channel@,
            "--progress"@,
            "--model"@,
            model@,
        ],
        !progress ==> texts(r.args@) == seq![
            script_spec(paths@, "rag.py"@),
            query@,
            channel@,
            "--model"@,
            model@,
        ],
        pairs(r.env@) == unbuffered_env(),
{
    let mut args: Vec<String> = Vec::new();
    push_string(&mut args, paths.script("rag.py"));
    push_text(&mut args, query);
    push_text(&mut args, channel);
    if progress {
        push_text(&mut args, "--progress");
    }
    push_text(&mut args, "--model");
    push_text(&mut args, model);
    let mut env: Vec<(String, String)> = Vec::new();
    push_env(&mut env, "PYTHONUNBUFFERED", "1");
    push_env(&mut env, "PYTHONIOENCODING", "utf-8");
    proof {
        assert(pairs(env@) =~= unbuffered_env());
        if progress {
            assert(texts(args@) =~= seq![
                script_spec(paths@, "rag.py"@),
                query@,
                channel@,
                "--progress"@,
                "--model"@,
                model@,
            ]);
        } else {
            assert(texts(args@) =~= seq![
                script_spec(paths@, "rag.py"@),
                query@,
                channel@,
                "--model"@,
                model@,
            ]);
        }
    }
    Invocation { program: paths.python(windows), args, env }
}

/// What a streamed job runs under: its tag, topic and grammar.
#[derive(Debug, Clone, Copy, PartialEq, Eq, Structural)]
pub enum JobKind {
    Download,
    Embedding,
    Integrity,
    Conversion,
}

pub open spec fn kind_topic(k: JobKind) -> Topic {
    match k {
        JobKind::Download => Topic::Download,
        JobKind::Embedding => Topic::Embedding,
        JobKind::Integrity => Topic::Integrity,
        JobKind::Conversion => Topic::Conversion,
    }
}

pub open spec fn kind_grammar(k: JobKind) -> Grammar {
    match k {
        JobKind::Download => Grammar::Downloader,
        JobKind::Conversion => Grammar::Transcoder,
        _ => Grammar::Plain,
    }
}

impl JobKind {
    pub fn topic(&self) -> (r: Topic)
        ensures
            r == kind_topic(*self),
    {
        match self {
            JobKind::Download => Topic::Download,
            JobKind::Embedding => Topic::Embedding,
            JobKind::Integrity => Topic::Integrity,
            JobKind::Conversion => Topic::Conversion,
        }
    }

    pub fn grammar(&self) -> (r: Grammar)
        ensures
            r == kind_grammar(*self),
    {
        match self {
            JobKind::Download => Grammar::Downloader,
            JobKind::Conversion => Grammar::Transcoder,
            _ => Grammar::Plain,
        }
    }

    /// The tag that the job registers under; one job of each kind at a time.
    pub fn tag(&self) -> (r: String)
        ensures
            r@ == topic_tag(*self),
    {
        match self {
            JobKind::Download => text("download"),
            JobKind::Embedding => text("embedding"),
            JobKind::Integrity => text("integrity"),
            JobKind::Conversion => text("conversion"),
        }
    }
}

pub open spec fn topic_tag(k: JobKind) -> Seq<char> {
    match k {
        JobKind::Download => "download"@,
        JobKind::Embedding => "embedding"@,
        JobKind::Integrity => "integrity"@,
        JobKind::Conversion => "conversion"@,
    }
}

} // verus!
