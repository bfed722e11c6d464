//! The output grammar: rules that read a worker's output lines and update the
//! counters of the job that owns it. Progress is counted in hundredths of a
//! percent (0 to 10000).
use vstd::prelude::*;
use crate::text::{
    matches_at,
    contains, count_digits, digit_run, digit_value, digits_value, find_first, find_spec, is_ascii_digit, is_digit, lemma_digit_run, occurs_at, parse_u32, parse_u32_spec, parse_u64, sub_vec, to_chars, trim, trim_start, trimmed, unsigned_digits, find_from, is_whitespace, is_ws,
};

verus! {

/// The whole of a progress bar, in hundredths of a percent.
pub const FULL_PROGRESS: u32 = 10000;

/// The most that transcoder output can report before the worker exits.
pub const TRANSCODE_PROGRESS_CAP: u32 = 9500;

/// The text between the first `open` and the first `close` after it, read
/// as a count once trimmed.
pub open spec fn count_between(s: Seq<char>, open: Seq<char>, close: Seq<char>) -> Option<u32> {
    match find_spec(s, open, 0) {
        None => None,
        Some(i) => match find_spec(s, close, i + open.len()) {
            None => None,
            Some(j) => parse_u32_spec(trim(s.subrange(i + open.len(), j))),
        },
    }
}

/// `총 N개 영상을 발견했습니다`: the worker found N videos.
pub open spec fn discovered_count(s: Seq<char>) -> Option<u32> {
    count_between(s, "총 "@, "개 영상을 발견했습니다"@)
}

/// `다운로드 완료: N개 성공`: N videos were downloaded.
pub open spec fn completed_count(s: Seq<char>) -> Option<u32> {
    count_between(s, "다운로드 완료: "@, "개 성공"@)
}

pub open spec fn min_nat(a: nat, b: nat) -> nat {
    if a < b {
        a
    } else {
        b
    }
}

/// The first two decimals of a fraction, in hundredths.
pub open spec fn hundredths(f: Seq<char>) -> nat {
    if f.len() == 0 {
        0
    } else if f.len() == 1 {
        digit_value(f[0]) * 10
    } else {
        digit_value(f[0]) * 10 + digit_value(f[1])
    }
}

/// A percentage `P%` at the start of `t`, P a decimal, in hundredths of a
/// percent and at most the whole.
pub open spec fn percent_at(t: Seq<char>) -> Option<u32> {
    let k = digit_run(t);
    if k == 0 {
        None
    } else {
        let whole = digits_value(t.take(k as int));
        let r = t.skip(k as int);
        let has_frac = r.len() > 0 && r[0] == '.';
        let m = if has_frac {
            digit_run(r.skip(1))
        } else {
            0
        };
        let frac = if has_frac {
            r.skip(1).take(m as int)
        } else {
            Seq::empty()
        };
        let after = if has_frac {
            r.skip(1 + m as int)
        } else {
            r
        };
        if after.len() > 0 && after[0] == '%' {
            Some(min_nat(whole * 100 + hundredths(frac), FULL_PROGRESS as nat) as u32)
        } else {
            None
        }
    }
}

/// `[download] P%`: the current item is P percent done.
pub open spec fn download_rate(s: Seq<char>) -> Option<u32> {
    match find_spec(s, "[download]"@, 0) {
        None => None,
        Some(i) => percent_at(trim_start(s.skip(i + "[download]"@.len()))),
    }
}

/// `[youtube] ID: TITLE`: the title of the current item.
pub open spec fn item_title(s: Seq<char>) -> Option<Seq<char>> {
    match find_spec(s, "[youtube] "@, 0) {
        None => None,
        Some(i) => match find_spec(s, ": "@, i + "[youtube] "@.len()) {
            None => None,
            Some(j) => Some(trim(s.skip(j + 2))),
        },
    }
}

pub open spec fn is_skip_line(s: Seq<char>) -> bool {
    contains(s, "has already been downloaded"@)
}

/// Two digits at `k` of `t`, as a number.
pub open spec fn two_digits(t: Seq<char>, k: int) -> nat {
    digit_value(t[k]) * 10 + digit_value(t[k + 1])
}

/// `time=HH:MM:SS.f` at `i`: the elapsed seconds.
pub open spec fn time_at(s: Seq<char>, i: int) -> Option<nat> {
    if occurs_at(s, "time="@, i) {
        let t = s.skip(i + "time="@.len());
        if t.len() >= 10 && is_digit(t[0]) && is_digit(t[1]) && t[2] == ':' && is_digit(t[3])
            && is_digit(t[4]) && t[5] == ':' && is_digit(t[6]) && is_digit(t[7]) && t[8] == '.'
            && is_digit(t[9]) {
            Some(two_digits(t, 0) * 3600 + two_digits(t, 3) * 60 + two_digits(t, 6))
        } else {
            None
        }
    } else {
        None
    }
}

/// The first `time=HH:MM:SS.f` at or after `from`.
pub open spec fn first_time(s: Seq<char>, from: int) -> Option<nat>
    decreases s.len() + 1 - from,
{
    if from < 0 || from > s.len() {
        None
    } else if time_at(s, from) is Some {
        time_at(s, from)
    } else {
        first_time(s, from + 1)
    }
}

/// The elapsed seconds of the first place where `time=HH:MM:SS.f` stands.
pub open spec fn elapsed_seconds(s: Seq<char>) -> Option<nat> {
    first_time(s, 0)
}

/// `frame=N` at `i`, spaces allowed after `=`.
pub open spec fn frame_at(s: Seq<char>, i: int) -> Option<nat> {
    if occurs_at(s, "frame="@, i) {
        let t = trim_start(s.skip(i + "frame="@.len()));
        let k = digit_run(t);
        if k > 0 {
            Some(digits_value(t.take(k as int)))
        } else {
            None
        }
    } else {
        None
    }
}

/// The first `frame=N` at or after `from`.
pub open spec fn first_frame(s: Seq<char>, from: int) -> Option<nat>
    decreases s.len() + 1 - from,
{
    if from < 0 || from > s.len() {
        None
    } else if frame_at(s, from) is Some {
        frame_at(s, from)
    } else {
        first_frame(s, from + 1)
    }
}

/// The frame number of the first place where `frame=N` stands.
pub open spec fn frame_number(s: Seq<char>) -> Option<nat> {
    first_frame(s, 0)
}

/// Transcoder progress: a tenth of a percent per elapsed second, else a
/// hundredth of a percent per frame; never past the cap.
pub open spec fn transcode_rate(s: Seq<char>) -> Option<u32> {
    match elapsed_seconds(s) {
        Some(secs) => Some(min_nat(secs * 10, TRANSCODE_PROGRESS_CAP as nat) as u32),
        None => match frame_number(s) {
            Some(n) => Some(min_nat(n, TRANSCODE_PROGRESS_CAP as nat) as u32),
            None => None,
        },
    }
}

/// Whether an error-output line reports a problem.
pub open spec fn is_error_line(s: Seq<char>) -> bool {
    contains(s, "ERROR"@) || contains(s, "CRITICAL"@) || contains(s, "Failed"@) || contains(
        s,
        "Exception"@,
    )
}

/// Which rules apply to a worker's lines.
#[derive(Debug, Clone, Copy, PartialEq, Eq, Structural)]
pub enum Grammar {
    /// Counts, download percentages, titles and skips of the downloader.
    Downloader,
    /// Elapsed time and frame numbers of the transcoder.
    Transcoder,
    /// Log lines only.
    Plain,
}

/// What the grammar keeps of a job.
#[derive(Debug, Clone)]
pub struct JobCounters {
    /// Items the worker announced, once it has.
    pub total_seen: Option<u32>,
    /// Items the worker reported done.
    pub total_completed: u32,
    /// Progress of the current item.
    pub item_progress: u32,
    /// Label of the current item.
    pub current_item: String,
}

pub struct CountersView {
    pub total_seen: Option<u32>,
    pub total_completed: u32,
    pub item_progress: u32,
    pub current_item: Seq<char>,
}

impl View for JobCounters {
    type V = CountersView;

    open spec fn view(&self) -> CountersView {
        CountersView {
            total_seen: self.total_seen,
            total_completed: self.total_completed,
            item_progress: self.item_progress,
            current_item: self.current_item@,
        }
    }
}

/// The counters after one output line.
pub open spec fn apply_rules(c: CountersView, g: Grammar, line: Seq<char>) -> CountersView {
    match g {
        Grammar::Downloader => {
            let c1 = match discovered_count(line) {
                Some(n) => CountersView { total_seen: Some(n), ..c },
                None => c,
            };
            let c2 = match completed_count(line) {
                Some(n) => CountersView { total_completed: n, ..c1 },
                None => c1,
            };
            let c3 = match download_rate(line) {
                Some(p) => CountersView { item_progress: p, ..c2 },
                None => c2,
            };
            let c4 = match item_title(line) {
                Some(t) => CountersView { current_item: t, ..c3 },
                None => c3,
            };
            if is_skip_line(line) {
                CountersView {
                    item_progress: FULL_PROGRESS,
                    current_item: "already downloaded"@,
                    ..c4
                }
            } else {
                c4
            }
        },
        Grammar::Transcoder => match transcode_rate(line) {
            Some(p) => CountersView { item_progress: p, ..c },
            None => c,
        },
        Grammar::Plain => c,
    }
}

/// Progress of the whole job: the completed items and the current one's
/// share of the announced total, or the current item alone while no total
/// is known; never past the whole.
pub open spec fn overall_progress(c: CountersView) -> u32 {
    match c.total_seen {
        Some(t) => if t > 0 {
            min_nat(
                ((c.total_completed * FULL_PROGRESS + c.item_progress) / (t as int)) as nat,
                FULL_PROGRESS as nat,
            ) as u32
        } else {
            min_nat(c.item_progress as nat, FULL_PROGRESS as nat) as u32
        },
        None => min_nat(c.item_progress as nat, FULL_PROGRESS as nat) as u32,
    }
}

// ---------------------------------------------------------------- exec

/// The count between the first `open` and the first `close` after it.
fn count_between_exec(s: &[char], open: &str, close: &str) -> (r: Option<u32>)
    ensures
        r == count_between(s@, open@, close@),
{
    let n = s.len();
    let o = to_chars(open);
    let c = to_chars(close);
    match find_first(s, o.as_slice(), 0) {
        None => None,
        Some(i) => {
            proof {
                lemma_find_spec(s@, o@, 0);
            }
            match find_first(s, c.as_slice(), i + o.len()) {
                None => None,
                Some(j) => {
                    proof {
                        lemma_find_spec(s@, c@, i + o@.len());
                    }
                    let mid = sub_vec(s, i + o.len(), j);
                    let t = trimmed(mid.as_slice());
                    parse_u32(t.as_slice())
                },
            }
        },
    }
}

/// What `find_spec` returns lies between `from` and the end, where `p`
/// occurs.
pub proof fn lemma_find_spec(s: Seq<char>, p: Seq<char>, from: int)
    ensures
        find_spec(s, p, from) is Some ==> from <= find_spec(s, p, from)->0 && occurs_at(
            s,
            p,
            find_spec(s, p, from)->0,
        ) && find_spec(s, p, from)->0 + p.len() <= s.len(),
    decreases s.len() + 1 - from,
{
    if 0 <= from <= s.len() && !occurs_at(s, p, from) {
        lemma_find_spec(s, p, from + 1);
    }
}

pub fn discovered_count_of(line: &[char]) -> (r: Option<u32>)
    ensures
        r == discovered_count(line@),
{
    count_between_exec(line, "총 ", "개 영상을 발견했습니다")
}

pub fn completed_count_of(line: &[char]) -> (r: Option<u32>)
    ensures
        r == completed_count(line@),
{
    count_between_exec(line, "다운로드 완료: ", "개 성공")
}

/// The hundredths of the fraction that follows the digits `t[..k]`, and
/// where the text after the number starts.
fn fraction_at(t: &[char], k: usize) -> (r: (u32, usize))
    requires
        0 < k <= t@.len(),
    ensures
        ({
            let rest = t@.skip(k as int);
            let has_frac = rest.len() > 0 && rest[0] == '.';
            let m = if has_frac {
                digit_run(rest.skip(1))
            } else {
                0
            };
            let frac = if has_frac {
                rest.skip(1).take(m as int)
            } else {
                Seq::empty()
            };
            let after = if has_frac {
                rest.skip(1 + m as int)
            } else {
                rest
            };
            &&& r.0 == hundredths(frac)
            &&& r.0 <= 99
            &&& r.1 <= t@.len()
            &&& t@.skip(r.1 as int) == after
        }),
{
    let ghost rest = t@.skip(k as int);
    if !(k < t.len() && t[k] == '.') {
        return (0, k);
    }
    let m = count_digits(t, k + 1);
    assert(t@.skip(k + 1) =~= rest.skip(1));
    proof {
        lemma_digit_run(rest.skip(1));
    }
    let ghost f = rest.skip(1).take(m as int);
    let mut frac: u32 = 0;
    if m >= 1 {
        assert(f[0] == t@[k + 1]);
        assert(is_digit(f[0]));
        frac = digit_at(t, k + 1) * 10;
        if m >= 2 {
            assert(f[1] == t@[k + 2]);
            assert(is_digit(f[1]));
            frac = frac + digit_at(t, k + 2);
        }
    }
    assert(rest.skip(1 + m as int) =~= t@.skip(k + 1 + m));
    (frac, k + 1 + m)
}

/// A percentage at the start of `t`, in hundredths of a percent.
pub fn percent_at_exec(t: &[char]) -> (r: Option<u32>)
    ensures
        r == percent_at(t@),
{
    let k = count_digits(t, 0);
    assert(t@.skip(0) =~= t@);
    if k == 0 {
        return None;
    }
    proof {
        lemma_digit_run(t@);
    }
    let (frac, after) = fraction_at(t, k);
    if !(after < t.len() && t[after] == '%') {
        assert(!(t@.skip(after as int).len() > 0 && t@.skip(after as int)[0] == '%'));
        return None;
    }
    assert(t@.skip(after as int)[0] == t@[after as int]);
    let whole_digits = sub_vec(t, 0, k);
    assert(whole_digits@ =~= t@.take(k as int));
    proof {
        assert(whole_digits@[0] != '+');
        assert(unsigned_digits(whole_digits@) == whole_digits@);
    }
    match parse_u64(whole_digits.as_slice()) {
        Some(w) => {
            if w > 100 {
                assert(w * 100 + frac >= 10000);
                Some(FULL_PROGRESS)
            } else {
                let v = (w as u32) * 100 + frac;
                if v > FULL_PROGRESS {
                    Some(FULL_PROGRESS)
                } else {
                    Some(v)
                }
            }
        },
        None => Some(FULL_PROGRESS),
    }
}

/// Progress reported by a `[download] P%` line.
pub fn download_rate_of(line: &[char]) -> (r: Option<u32>)
    ensures
        r == download_rate(line@),
{
    let n = line.len();
    let marker = to_chars("[download]");
    match find_first(line, marker.as_slice(), 0) {
        None => None,
        Some(i) => {
            proof {
                lemma_find_spec(line@, marker@, 0);
            }
            let rest = sub_vec(line, i + marker.len(), line.len());
            assert(rest@ =~= line@.skip(i + marker@.len()));
            let t = trim_start_exec(rest.as_slice());
            percent_at_exec(t.as_slice())
        },
    }
}

/// A copy of `trim_start(s)`.
pub fn trim_start_exec(s: &[char]) -> (r: Vec<char>)
    ensures
        r@ == trim_start(s@),
{
    let mut lo: usize = 0;
    while lo < s.len() && is_whitespace(s[lo])
        invariant
            lo <= s@.len(),
            forall|j: int| 0 <= j < lo ==> is_ws(#[trigger] s@[j]),
        decreases s@.len() - lo,
    {
        lo = lo + 1;
    }
    proof {
        crate::text::lemma_trim_start_sub(s@, lo as int);
        let t = s@.subrange(lo as int, s@.len() as int);
        if t.len() > 0 {
            assert(t[0] == s@[lo as int]);
        }
    }
    sub_vec(s, lo, s.len())
}

/// The title of a `[youtube] ID: TITLE` line.
pub fn item_title_of(line: &[char]) -> (r: Option<Vec<char>>)
    ensures
        match r {
            Some(t) => item_title(line@) == Some(t@),
            None => item_title(line@) is None,
        },
{
    let n = line.len();
    let marker = to_chars("[youtube] ");
    let sep = to_chars(": ");
    match find_first(line, marker.as_slice(), 0) {
        None => None,
        Some(i) => {
            proof {
                lemma_find_spec(line@, marker@, 0);
            }
            match find_first(line, sep.as_slice(), i + marker.len()) {
                None => None,
                Some(j) => {
                    proof {
                        lemma_find_spec(line@, sep@, i + marker@.len());
                        crate::text::lemma_two_chars(": ", sep@);
                    }
                    let rest = sub_vec(line, j + 2, line.len());
                    assert(rest@ =~= line@.skip(j + 2));
                    Some(trimmed(rest.as_slice()))
                },
            }
        },
    }
}

/// Whether `p` occurs anywhere in `s`.
pub fn contains_text(s: &[char], p: &str) -> (r: bool)
    ensures
        r == contains(s@, p@),
{
    let pc = to_chars(p);
    let r = find_from(s, pc.as_slice(), 0);
    proof {
        if r is None && contains(s@, p@) {
            let i = choose|i: int| occurs_at(s@, p@, i);
            assert(i >= 0);
        }
    }
    r.is_some()
}

pub fn is_error_line_exec(line: &[char]) -> (r: bool)
    ensures
        r == is_error_line(line@),
{
    contains_text(line, "ERROR") || contains_text(line, "CRITICAL") || contains_text(line, "Failed")
        || contains_text(line, "Exception")
}

fn digit_at(t: &[char], k: usize) -> (r: u32)
    requires
        k < t@.len(),
        is_digit(t@[k as int]),
    ensures
        r == digit_value(t@[k as int]),
        r <= 9,
{
    t[k] as u32 - '0' as u32
}

fn time_at_exec(s: &[char], marker: &[char], i: usize) -> (r: Option<u32>)
    requires
        marker@ == "time="@,
    ensures
        match r {
            Some(v) => time_at(s@, i as int) == Some(v as nat),
            None => time_at(s@, i as int) is None,
        },
{
    let n = s.len();
    if !matches_at(s, marker, i) {
        return None;
    }
    let t = sub_vec(s, i + marker.len(), n);
    assert(t@ =~= s@.skip(i + marker@.len()));
    if t.len() >= 10 && is_ascii_digit(t[0]) && is_ascii_digit(t[1]) && t[2] == ':'
        && is_ascii_digit(t[3]) && is_ascii_digit(t[4]) && t[5] == ':' && is_ascii_digit(t[6])
        && is_ascii_digit(t[7]) && t[8] == '.' && is_ascii_digit(t[9]) {
        let h = digit_at(t.as_slice(), 0) * 10 + digit_at(t.as_slice(), 1);
        let m = digit_at(t.as_slice(), 3) * 10 + digit_at(t.as_slice(), 4);
        let sec = digit_at(t.as_slice(), 6) * 10 + digit_at(t.as_slice(), 7);
        Some(h * 3600 + m * 60 + sec)
    } else {
        None
    }
}

/// Elapsed seconds of the first `time=HH:MM:SS.f` of a line.
pub fn elapsed_seconds_of(line: &[char]) -> (r: Option<u32>)
    ensures
        match r {
            Some(v) => elapsed_seconds(line@) == Some(v as nat),
            None => elapsed_seconds(line@) is None,
        },
{
    let marker = to_chars("time=");
    let mut i: usize = 0;
    while i < line.len()
        invariant
            i <= line@.len(),
            marker@ == "time="@,
            first_time(line@, 0) == first_time(line@, i as int),
        decreases line@.len() - i,
    {
        if let Some(v) = time_at_exec(line, marker.as_slice(), i) {
            return Some(v);
        }
        i = i + 1;
    }
    let r = time_at_exec(line, marker.as_slice(), i);
    assert(first_time(line@, i + 1) is None);
    r
}

/// The frame number at `i`, capped at the transcoder's cap.
fn frame_at_exec(s: &[char], marker: &[char], i: usize) -> (r: Option<u32>)
    requires
        marker@ == "frame="@,
    ensures
        match r {
            Some(v) => frame_at(s@, i as int) is Some && v as nat == min_nat(
                frame_at(s@, i as int)->0,
                TRANSCODE_PROGRESS_CAP as nat,
            ),
            None => frame_at(s@, i as int) is None,
        },
{
    let n = s.len();
    if !matches_at(s, marker, i) {
        return None;
    }
    let rest = sub_vec(s, i + marker.len(), n);
    assert(rest@ =~= s@.skip(i + marker@.len()));
    let t = trim_start_exec(rest.as_slice());
    let k = count_digits(t.as_slice(), 0);
    assert(t@.skip(0) =~= t@);
    if k == 0 {
        return None;
    }
    proof {
        lemma_digit_run(t@);
    }
    let d = sub_vec(t.as_slice(), 0, k);
    assert(d@ =~= t@.take(k as int));
    proof {
        assert(d@[0] != '+');
        assert(unsigned_digits(d@) == d@);
    }
    match parse_u64(d.as_slice()) {
        Some(v) => if v >= 9500 {
            Some(TRANSCODE_PROGRESS_CAP)
        } else {
            Some(v as u32)
        },
        None => Some(TRANSCODE_PROGRESS_CAP),
    }
}

/// Progress reported by a transcoder line.
pub fn transcode_rate_of(line: &[char]) -> (r: Option<u32>)
    ensures
        r == transcode_rate(line@),
{
    match elapsed_seconds_of(line) {
        Some(secs) => {
            if secs >= 950 {
                Some(TRANSCODE_PROGRESS_CAP)
            } else {
                Some(secs * 10)
            }
        },
        None => {
            let marker = to_chars("frame=");
            let mut i: usize = 0;
            while i < line.len()
                invariant
                    i <= line@.len(),
                    marker@ == "frame="@,
                    elapsed_seconds(line@) is None,
                    first_frame(line@, 0) == first_frame(line@, i as int),
                decreases line@.len() - i,
            {
                if let Some(v) = frame_at_exec(line, marker.as_slice(), i) {
                    return Some(v);
                }
                i = i + 1;
            }
            let r = frame_at_exec(line, marker.as_slice(), i);
            assert(first_frame(line@, i + 1) is None);
            r
        },
    }
}

impl JobCounters {
    pub fn new() -> (r: JobCounters)
        ensures
            r@.total_seen is None,
            r@.total_completed == 0,
            r@.item_progress == 0,
            r@.current_item.len() == 0,
    {
        JobCounters {
            total_seen: None,
            total_completed: 0,
            item_progress: 0,
            current_item: String::new(),
        }
    }

    /// Applies the grammar's rules to one output line.
    pub fn apply(&mut self, g: Grammar, line: &[char])
        ensures
            final(self)@ == apply_rules(old(self)@, g, line@),
    {
        match g {
            Grammar::Downloader => {
                if let Some(n) = discovered_count_of(line) {
                    self.total_seen = Some(n);
                }
                if let Some(n) = completed_count_of(line) {
                    self.total_completed = n;
                }
                if let Some(p) = download_rate_of(line) {
                    self.item_progress = p;
                }
                if let Some(t) = item_title_of(line) {
                    self.current_item = crate::text::from_chars(t.as_slice());
                }
                if contains_text(line, "has already been downloaded") {
                    self.item_progress = FULL_PROGRESS;
                    let mut label = String::new();
                    crate::text::push_str(&mut label, "already downloaded");
                    self.current_item = label;
                    assert(self.current_item@ =~= "already downloaded"@);
                }
            },
            Grammar::Transcoder => {
                if let Some(p) = transcode_rate_of(line) {
                    self.item_progress = p;
                }
            },
            Grammar::Plain => {},
        }
    }

    /// Progress of the whole job.
    pub fn overall(&self) -> (r: u32)
        ensures
            r == overall_progress(self@),
            r <= FULL_PROGRESS,
    {
        match self.total_seen {
            Some(t) => {
                if t > 0 {
                    let num: u64 = (self.total_completed as u64) * (FULL_PROGRESS as u64)
                        + self.item_progress as u64;
                    let q = num / (t as u64);
                    if q > FULL_PROGRESS as u64 {
                        FULL_PROGRESS
                    } else {
                        q as u32
                    }
                } else if self.item_progress > FULL_PROGRESS {
                    FULL_PROGRESS
                } else {
                    self.item_progress
                }
            },
            None => if self.item_progress > FULL_PROGRESS {
                FULL_PROGRESS
            } else {
                self.item_progress
            },
        }
    }
}

} // verus!
