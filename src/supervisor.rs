//! The decisions of the process supervisor. A `Job` is the state of one
//! supervised worker; the caller feeds it what happens (an output line, a
//! clock tick, the worker's exit, a cancel request) and performs the actions
//! it returns (publish an event, kill the worker, clean the staging folder).
//! `JobRegistry` keeps at most one job per tag.
use vstd::prelude::*;
use crate::grammar::{
    apply_rules, is_error_line, is_error_line_exec, overall_progress, CountersView, Grammar,
    JobCounters, FULL_PROGRESS,
};
use crate::text::{from_chars, push_str, to_chars, trim, trimmed};

verus! {

/// The inactivity timeout that jobs get unless told otherwise: 15 seconds.
pub const DEFAULT_INACTIVITY_MS: u64 = 15000;

/// The event bus topic a job publishes on.
#[derive(Debug, Clone, Copy, PartialEq, Eq, Structural)]
pub enum Topic {
    Download,
    Embedding,
    Integrity,
    Conversion,
    Ai,
}

pub open spec fn topic_name_spec(t: Topic) -> Seq<char> {
    match t {
        Topic::Download => "download-progress"@,
        Topic::Embedding => "embedding-progress"@,
        Topic::Integrity => "integrity-progress"@,
        Topic::Conversion => "conversion-progress"@,
        Topic::Ai => "ai-progress"@,
    }
}

impl Topic {
    /// The name subscribers use for the topic.
    pub fn name(&self) -> (r: String)
        ensures
            r@ == topic_name_spec(*self),
    {
        let mut r = String::new();
        match self {
            Topic::Download => push_str(&mut r, "download-progress"),
            Topic::Embedding => push_str(&mut r, "embedding-progress"),
            Topic::Integrity => push_str(&mut r, "integrity-progress"),
            Topic::Conversion => push_str(&mut r, "conversion-progress"),
            Topic::Ai => push_str(&mut r, "ai-progress"),
        }
        assert(Seq::<char>::empty() + topic_name_spec(*self) =~= topic_name_spec(*self));
        r
    }
}

#[derive(Debug, Clone, Copy, PartialEq, Eq, Structural)]
pub enum JobStatus {
    Starting,
    Running,
    /// The worker finished successfully (`ok`).
    Succeeded,
    Failed,
    Cancelled,
    Warning,
}

pub open spec fn status_name_spec(s: JobStatus) -> Seq<char> {
    match s {
        JobStatus::Starting => "starting"@,
        JobStatus::Running => "running"@,
        JobStatus::Succeeded => "ok"@,
        JobStatus::Failed => "failed"@,
        JobStatus::Cancelled => "cancelled"@,
        JobStatus::Warning => "warning"@,
    }
}

impl JobStatus {
    /// The name the UI knows the status by.
    pub fn name(&self) -> (r: String)
        ensures
            r@ == status_name_spec(*self),
    {
        let mut r = String::new();
        match self {
            JobStatus::Starting => push_str(&mut r, "starting"),
            JobStatus::Running => push_str(&mut r, "running"),
            JobStatus::Succeeded => push_str(&mut r, "ok"),
            JobStatus::Failed => push_str(&mut r, "failed"),
            JobStatus::Cancelled => push_str(&mut r, "cancelled"),
            JobStatus::Warning => push_str(&mut r, "warning"),
        }
        assert(Seq::<char>::empty() + status_name_spec(*self) =~= status_name_spec(*self));
        r
    }
}

/// Which output stream of the worker a line came from.
#[derive(Debug, Clone, Copy, PartialEq, Eq, Structural)]
pub enum Stream {
    Stdout,
    Stderr,
}

/// One progress event, as published to the UI.
#[derive(Debug, Clone)]
pub struct ProgressEvent {
    pub topic: Topic,
    pub job_tag: String,
    /// Position of the event among those of its job, from 0.
    pub seq: u64,
    pub status: JobStatus,
    /// In hundredths of a percent, 0 to 10000.
    pub progress: u32,
    pub current_item: String,
    pub total_seen: u32,
    pub total_completed: u32,
    pub log_message: String,
}

pub struct EventView {
    pub topic: Topic,
    pub job_tag: Seq<char>,
    pub seq: u64,
    pub status: JobStatus,
    pub progress: u32,
    pub current_item: Seq<char>,
    pub total_seen: u32,
    pub total_completed: u32,
    pub log_message: Seq<char>,
}

impl View for ProgressEvent {
    type V = EventView;

    open spec fn view(&self) -> EventView {
        EventView {
            topic: self.topic,
            job_tag: self.job_tag@,
            seq: self.seq,
            status: self.status,
            progress: self.progress,
            current_item: self.current_item@,
            total_seen: self.total_seen,
            total_completed: self.total_completed,
            log_message: self.log_message@,
        }
    }
}

/// What happened to a supervised worker.
#[derive(Debug, Clone)]
pub enum JobInput {
    /// A line of output, and when it arrived (milliseconds on the caller's
    /// clock).
    Line { stream: Stream, text: String, at_ms: u64 },
    /// The caller's clock, sampled while the worker runs.
    Tick { now_ms: u64 },
    /// The worker exited; `stderr_tail` is the end of its error output.
    Exited { success: bool, stderr_tail: String },
    /// The user asked to stop the job.
    Cancel,
}

pub enum InputView {
    Line(Stream, Seq<char>, u64),
    Tick(u64),
    Exited(bool, Seq<char>),
    Cancel,
}

impl View for JobInput {
    type V = InputView;

    open spec fn view(&self) -> InputView {
        match self {
            JobInput::Line { stream, text, at_ms } => InputView::Line(*stream, text@, *at_ms),
            JobInput::Tick { now_ms } => InputView::Tick(*now_ms),
            JobInput::Exited { success, stderr_tail } => InputView::Exited(
                *success,
                stderr_tail@,
            ),
            JobInput::Cancel => InputView::Cancel,
        }
    }
}

/// What the caller must do.
#[derive(Debug, Clone)]
pub enum JobAction {
    /// Publish the event on its topic.
    Emit(ProgressEvent),
    /// Terminate the worker process.
    Kill,
    /// Remove partial download files from the staging folder.
    CleanStaging,
}

pub enum ActionView {
    Emit(EventView),
    Kill,
    CleanStaging,
}

impl View for JobAction {
    type V = ActionView;

    open spec fn view(&self) -> ActionView {
        match self {
            JobAction::Emit(e) => ActionView::Emit(e@),
            JobAction::Kill => ActionView::Kill,
            JobAction::CleanStaging => ActionView::CleanStaging,
        }
    }
}

pub open spec fn action_views(v: Seq<JobAction>) -> Seq<ActionView> {
    v.map_values(|a: JobAction| a@)
}

/// How a job ended.
#[derive(Debug, Clone)]
pub enum JobOutcome {
    Succeeded,
    /// The worker exited with a failure; the end of its error output.
    WorkerFailed(String),
    /// No output for longer than the inactivity timeout.
    TimedOut,
    Cancelled,
}

pub enum OutcomeView {
    Succeeded,
    WorkerFailed(Seq<char>),
    TimedOut,
    Cancelled,
}

impl View for JobOutcome {
    type V = OutcomeView;

    open spec fn view(&self) -> OutcomeView {
        match self {
            JobOutcome::Succeeded => OutcomeView::Succeeded,
            JobOutcome::WorkerFailed(s) => OutcomeView::WorkerFailed(s@),
            JobOutcome::TimedOut => OutcomeView::TimedOut,
            JobOutcome::Cancelled => OutcomeView::Cancelled,
        }
    }
}

/// The state of one supervised worker.
pub struct Job {
    tag: String,
    topic: Topic,
    grammar: Grammar,
    counters: JobCounters,
    next_seq: u64,
    last_activity_ms: u64,
    timeout_ms: u64,
    outcome: Option<JobOutcome>,
}

pub struct JobView {
    pub tag: Seq<char>,
    pub topic: Topic,
    pub grammar: Grammar,
    pub counters: CountersView,
    pub next_seq: u64,
    pub last_activity_ms: u64,
    pub timeout_ms: u64,
    pub outcome: Option<OutcomeView>,
}

impl View for Job {
    type V = JobView;

    closed spec fn view(&self) -> JobView {
        JobView {
            tag: self.tag@,
            topic: self.topic,
            grammar: self.grammar,
            counters: self.counters@,
            next_seq: self.next_seq,
            last_activity_ms: self.last_activity_ms,
            timeout_ms: self.timeout_ms,
            outcome: match self.outcome {
                Some(o) => Some(o@),
                None => None,
            },
        }
    }
}

/// The event a job in state `j` publishes next.
pub open spec fn event_spec(j: JobView, status: JobStatus, progress: u32, log: Seq<char>) -> EventView {
    EventView {
        topic: j.topic,
        job_tag: j.tag,
        seq: j.next_seq,
        status,
        progress,
        current_item: j.counters.current_item,
        total_seen: match j.counters.total_seen {
            Some(n) => n,
            None => 0,
        },
        total_completed: j.counters.total_completed,
        log_message: log,
    }
}

pub open spec fn bump(j: JobView) -> JobView {
    JobView { next_seq: (j.next_seq + 1) as u64, ..j }
}

/// The log message of an output line: error output marked with a warning sign.
pub open spec fn log_text(stream: Stream, text: Seq<char>) -> Seq<char> {
    match stream {
        Stream::Stdout => text,
        Stream::Stderr => "⚠️ "@ + text,
    }
}

pub open spec fn line_status(stream: Stream, text: Seq<char>) -> JobStatus {
    if stream == Stream::Stderr && is_error_line(text) {
        JobStatus::Warning
    } else {
        JobStatus::Running
    }
}

/// Actions that end a job that was stopped: the kill, the staging clean-up
/// for downloads, and the terminal event.
pub open spec fn stop_actions(j: JobView, status: JobStatus, log: Seq<char>) -> Seq<ActionView> {
    let ev = ActionView::Emit(event_spec(j, status, overall_progress(j.counters), log));
    if j.grammar == Grammar::Downloader {
        seq![ActionView::Kill, ActionView::CleanStaging, ev]
    } else {
        seq![ActionView::Kill, ev]
    }
}

/// Whether the job has gone without output for longer than its timeout.
pub open spec fn idle_too_long(j: JobView, now: u64) -> bool {
    now > j.last_activity_ms && now - j.last_activity_ms > j.timeout_ms
}

/// One step of a job: its next state and the actions to perform. A job that
/// has ended ignores everything; blank lines are ignored.
pub open spec fn step_spec(j: JobView, input: InputView) -> (JobView, Seq<ActionView>) {
    if j.outcome is Some {
        (j, Seq::empty())
    } else {
        match input {
            InputView::Line(stream, text, at) => {
                if trim(text).len() == 0 {
                    (j, Seq::empty())
                } else {
                    let j1 = JobView {
                        counters: apply_rules(j.counters, j.grammar, text),
                        last_activity_ms: at,
                        ..j
                    };
                    let ev = event_spec(
                        j1,
                        line_status(stream, text),
                        overall_progress(j1.counters),
                        log_text(stream, text),
                    );
                    (bump(j1), seq![ActionView::Emit(ev)])
                }
            },
            InputView::Tick(now) => {
                if idle_too_long(j, now) {
                    (
                        JobView { outcome: Some(OutcomeView::TimedOut), ..bump(j) },
                        stop_actions(j, JobStatus::Failed, "no output within the inactivity timeout"@),
                    )
                } else {
                    (j, Seq::empty())
                }
            },
            InputView::Exited(success, tail) => {
                if success {
                    (
                        JobView { outcome: Some(OutcomeView::Succeeded), ..bump(j) },
                        seq![
                            ActionView::Emit(
                                event_spec(j, JobStatus::Succeeded, FULL_PROGRESS, "completed"@),
                            ),
                        ],
                    )
                } else {
                    (
                        JobView { outcome: Some(OutcomeView::WorkerFailed(tail)), ..bump(j) },
                        seq![
                            ActionView::Emit(
                                event_spec(j, JobStatus::Failed, overall_progress(j.counters), tail),
                            ),
                        ],
                    )
                }
            },
            InputView::Cancel => (
                JobView { outcome: Some(OutcomeView::Cancelled), ..bump(j) },
                stop_actions(j, JobStatus::Cancelled, "cancelled"@),
            ),
        }
    }
}

impl Job {
    /// A job that starts now, with its `Starting` event.
    pub fn start(tag: &str, topic: Topic, grammar: Grammar, now_ms: u64, timeout_ms: u64) -> (r: (
        Job,
        ProgressEvent,
    ))
        ensures
            r.0@.tag == tag@,
            r.0@.topic == topic,
            r.0@.grammar == grammar,
            r.0@.counters.total_seen is None,
            r.0@.counters.total_completed == 0,
            r.0@.counters.item_progress == 0,
            r.0@.counters.current_item.len() == 0,
            r.0@.next_seq == 1,
            r.0@.last_activity_ms == now_ms,
            r.0@.timeout_ms == timeout_ms,
            r.0@.outcome is None,
            r.1@ == event_spec(
                JobView { next_seq: 0, ..r.0@ },
                JobStatus::Starting,
                0,
                "started"@,
            ),
    {
        let mut job = Job {
            tag: from_chars(to_chars(tag).as_slice()),
            topic,
            grammar,
            counters: JobCounters::new(),
            next_seq: 0,
            last_activity_ms: now_ms,
            timeout_ms,
            outcome: None,
        };
        let mut log = String::new();
        push_str(&mut log, "started");
        assert(log@ =~= "started"@);
        let ev = job.event(JobStatus::Starting, 0, log);
        (job, ev)
    }

    pub fn tag(&self) -> (r: String)
        ensures
            r@ == self@.tag,
    {
        self.tag.clone()
    }

    pub fn topic(&self) -> (r: Topic)
        ensures
            r == self@.topic,
    {
        self.topic
    }

    /// The sequence number of the next event.
    pub fn next_seq(&self) -> (r: u64)
        ensures
            r == self@.next_seq,
    {
        self.next_seq
    }

    pub fn counters(&self) -> (r: &JobCounters)
        ensures
            r@ == self@.counters,
    {
        &self.counters
    }

    /// How the job ended, once it has.
    pub fn outcome(&self) -> (r: Option<JobOutcome>)
        ensures
            match r {
                Some(o) => self@.outcome == Some(o@),
                None => self@.outcome is None,
            },
    {
        match &self.outcome {
            Some(o) => Some(o.clone_outcome()),
            None => None,
        }
    }

    /// The next event, numbered; the number moves on.
    fn event(&mut self, status: JobStatus, progress: u32, log: String) -> (r: ProgressEvent)
        requires
            old(self)@.next_seq < u64::MAX,
        ensures
            r@ == event_spec(old(self)@, status, progress, log@),
            final(self)@ == bump(old(self)@),
    {
        let ev = ProgressEvent {
            topic: self.topic,
            job_tag: self.tag.clone(),
            seq: self.next_seq,
            status,
            progress,
            current_item: self.counters.current_item.clone(),
            total_seen: match self.counters.total_seen {
                Some(n) => n,
                None => 0,
            },
            total_completed: self.counters.total_completed,
            log_message: log,
        };
        self.next_seq = self.next_seq + 1;
        ev
    }

    /// The actions that stop a running job.
    fn stop(&mut self, status: JobStatus, log: String) -> (r: Vec<JobAction>)
        requires
            old(self)@.next_seq < u64::MAX,
        ensures
            action_views(r@) == stop_actions(old(self)@, status, log@),
            final(self)@ == bump(old(self)@),
    {
        let mut r: Vec<JobAction> = Vec::new();
        r.push(JobAction::Kill);
        if self.grammar == Grammar::Downloader {
            r.push(JobAction::CleanStaging);
        }
        let p = self.counters.overall();
        let ev = self.event(status, p, log);
        r.push(JobAction::Emit(ev));
        assert(action_views(r@) =~= stop_actions(old(self)@, status, log@));
        r
    }

    /// Feeds one input to the job and returns what to do about it.
    pub fn step(&mut self, input: JobInput) -> (r: Vec<JobAction>)
        requires
            old(self)@.next_seq < u64::MAX,
        ensures
            (final(self)@, action_views(r@)) == step_spec(old(self)@, input@),
    {
        if self.outcome.is_some() {
            let r: Vec<JobAction> = Vec::new();
            assert(action_views(r@) =~= Seq::<ActionView>::empty());
            return r;
        }
        match input {
            JobInput::Line { stream, text, at_ms } => {
                let chars = to_chars(text.as_str());
                let t = trimmed(chars.as_slice());
                if t.len() == 0 {
                    let r: Vec<JobAction> = Vec::new();
                    assert(action_views(r@) =~= Seq::<ActionView>::empty());
                    return r;
                }
                self.counters.apply(self.grammar, chars.as_slice());
                self.last_activity_ms = at_ms;
                let status = match stream {
                    Stream::Stderr => if is_error_line_exec(chars.as_slice()) {
                        JobStatus::Warning
                    } else {
                        JobStatus::Running
                    },
                    Stream::Stdout => JobStatus::Running,
                };
                let log = match stream {
                    Stream::Stdout => text,
                    Stream::Stderr => {
                        let mut l = String::new();
                        push_str(&mut l, "⚠️ ");
                        push_str(&mut l, text.as_str());
                        assert(l@ =~= "⚠️ "@ + text@);
                        l
                    },
                };
                let p = self.counters.overall();
                let ev = self.event(status, p, log);
                let r = vec![JobAction::Emit(ev)];
                assert(action_views(r@) =~= seq![ActionView::Emit(ev@)]);
                r
            },
            JobInput::Tick { now_ms } => {
                if now_ms > self.last_activity_ms && now_ms - self.last_activity_ms
                    > self.timeout_ms {
                    let mut log = String::new();
                    push_str(&mut log, "no output within the inactivity timeout");
                    assert(log@ =~= "no output within the inactivity timeout"@);
                    let r = self.stop(JobStatus::Failed, log);
                    self.outcome = Some(JobOutcome::TimedOut);
                    r
                } else {
                    let r: Vec<JobAction> = Vec::new();
                    assert(action_views(r@) =~= Seq::<ActionView>::empty());
                    r
                }
            },
            JobInput::Exited { success, stderr_tail } => {
                if success {
                    let mut log = String::new();
                    push_str(&mut log, "completed");
                    assert(log@ =~= "completed"@);
                    let ev = self.event(JobStatus::Succeeded, FULL_PROGRESS, log);
                    self.outcome = Some(JobOutcome::Succeeded);
                    let r = vec![JobAction::Emit(ev)];
                    assert(action_views(r@) =~= seq![ActionView::Emit(ev@)]);
                    r
                } else {
                    let p = self.counters.overall();
                    let detail = stderr_tail.clone();
                    let ev = self.event(JobStatus::Failed, p, stderr_tail);
                    self.outcome = Some(JobOutcome::WorkerFailed(detail));
                    let r = vec![JobAction::Emit(ev)];
                    assert(action_views(r@) =~= seq![ActionView::Emit(ev@)]);
                    r
                }
            },
            JobInput::Cancel => {
                let mut log = String::new();
                push_str(&mut log, "cancelled");
                assert(log@ =~= "cancelled"@);
                let r = self.stop(JobStatus::Cancelled, log);
                self.outcome = Some(JobOutcome::Cancelled);
                r
            },
        }
    }
}

impl JobOutcome {
    pub fn clone_outcome(&self) -> (r: JobOutcome)
        ensures
            r@ == self@,
    {
        match self {
            JobOutcome::Succeeded => JobOutcome::Succeeded,
            JobOutcome::WorkerFailed(s) => JobOutcome::WorkerFailed(s.clone()),
            JobOutcome::TimedOut => JobOutcome::TimedOut,
            JobOutcome::Cancelled => JobOutcome::Cancelled,
        }
    }
}

/// The events among a list of actions, in order.
pub open spec fn emitted(a: Seq<ActionView>) -> Seq<EventView>
    decreases a.len(),
{
    if a.len() == 0 {
        Seq::empty()
    } else {
        let prev = emitted(a.drop_last());
        match a.last() {
            ActionView::Emit(e) => prev.push(e),
            _ => prev,
        }
    }
}

/// A job fed a transcript of inputs: its final state and every action, in
/// order.
pub open spec fn run_spec(j: JobView, inputs: Seq<InputView>) -> (JobView, Seq<ActionView>)
    decreases inputs.len(),
{
    if inputs.len() == 0 {
        (j, Seq::empty())
    } else {
        let (j1, a1) = run_spec(j, inputs.drop_last());
        let (j2, a2) = step_spec(j1, inputs.last());
        (j2, a1 + a2)
    }
}

pub open spec fn input_views(v: Seq<JobInput>) -> Seq<InputView> {
    v.map_values(|i: JobInput| i@)
}

impl JobInput {
    pub fn clone_input(&self) -> (r: JobInput)
        ensures
            r@ == self@,
    {
        match self {
            JobInput::Line { stream, text, at_ms } => JobInput::Line {
                stream: *stream,
                text: text.clone(),
                at_ms: *at_ms,
            },
            JobInput::Tick { now_ms } => JobInput::Tick { now_ms: *now_ms },
            JobInput::Exited { success, stderr_tail } => JobInput::Exited {
                success: *success,
                stderr_tail: stderr_tail.clone(),
            },
            JobInput::Cancel => JobInput::Cancel,
        }
    }
}

proof fn lemma_step_numbering(j: JobView, i: InputView)
    requires
        j.next_seq < u64::MAX,
    ensures
        ({
            let (j2, a) = step_spec(j, i);
            &&& j2.tag == j.tag
            &&& (emitted(a).len() == 0 && j2.next_seq == j.next_seq) || (emitted(a).len() == 1
                && emitted(a)[0].seq == j.next_seq && emitted(a)[0].job_tag == j.tag && j2.next_seq
                == j.next_seq + 1)
        }),
{
    let (j2, a) = step_spec(j, i);
    if j.outcome is None {
        match i {
            InputView::Line(stream, text, at) => {
                if trim(text).len() != 0 {
                    assert(a.drop_last() =~= Seq::<ActionView>::empty());
                    assert(emitted(a.drop_last()) == Seq::<EventView>::empty());
                }
            },
            InputView::Tick(now) => {
                if idle_too_long(j, now) {
                    lemma_stop_emits(j, JobStatus::Failed, "no output within the inactivity timeout"@);
                }
            },
            InputView::Exited(success, tail) => {
                assert(a.drop_last() =~= Seq::<ActionView>::empty());
                assert(emitted(a.drop_last()) == Seq::<EventView>::empty());
            },
            InputView::Cancel => {
                lemma_stop_emits(j, JobStatus::Cancelled, "cancelled"@);
            },
        }
    }
}

/// Stopping a job kills the worker and publishes exactly one event, the last
/// action, with the given status.
proof fn lemma_stop_emits(j: JobView, status: JobStatus, log: Seq<char>)
    ensures
        ({
            let a = stop_actions(j, status, log);
            &&& emitted(a) == seq![event_spec(j, status, overall_progress(j.counters), log)]
            &&& a[0] == ActionView::Kill
            &&& a.last() == ActionView::Emit(
                event_spec(j, status, overall_progress(j.counters), log),
            )
        }),
{
    let a = stop_actions(j, status, log);
    let e = event_spec(j, status, overall_progress(j.counters), log);
    if j.grammar == Grammar::Downloader {
        assert(a.drop_last() =~= seq![ActionView::Kill, ActionView::CleanStaging]);
        assert(a.drop_last().drop_last() =~= seq![ActionView::Kill]);
        assert(a.drop_last().drop_last().drop_last() =~= Seq::<ActionView>::empty());
        assert(emitted(a.drop_last().drop_last().drop_last()) == Seq::<EventView>::empty());
        assert(emitted(a.drop_last().drop_last()) == Seq::<EventView>::empty());
        assert(emitted(a.drop_last()) == Seq::<EventView>::empty());
    } else {
        assert(a.drop_last() =~= seq![ActionView::Kill]);
        assert(a.drop_last().drop_last() =~= Seq::<ActionView>::empty());
        assert(emitted(a.drop_last().drop_last()) == Seq::<EventView>::empty());
        assert(emitted(a.drop_last()) == Seq::<EventView>::empty());
    }
    assert(a.last() == ActionView::Emit(e));
    assert(emitted(a) =~= seq![e]);
}

proof fn lemma_emitted_append(a: Seq<ActionView>, b: Seq<ActionView>)
    ensures
        emitted(a + b) == emitted(a) + emitted(b),
    decreases b.len(),
{
    if b.len() == 0 {
        assert(a + b =~= a);
        assert(emitted(a) + emitted(b) =~= emitted(a));
    } else {
        lemma_emitted_append(a, b.drop_last());
        assert((a + b).drop_last() =~= a + b.drop_last());
        assert((a + b).last() == b.last());
        match b.last() {
            ActionView::Emit(e) => {
                assert(emitted(a) + emitted(b) =~= (emitted(a) + emitted(b.drop_last())).push(e));
            },
            _ => {},
        }
    }
}

/// The events of one job come out numbered in order: every event of a
/// transcript carries the job's tag, and their numbers rise strictly, from the
/// job's next number on, one per event.
pub proof fn lemma_events_ordered(j: JobView, inputs: Seq<InputView>)
    requires
        j.next_seq + inputs.len() < u64::MAX,
    ensures
        ({
            let (jf, a) = run_spec(j, inputs);
            let ev = emitted(a);
            &&& jf.tag == j.tag
            &&& jf.next_seq == j.next_seq + ev.len()
            &&& forall|k: int| 0 <= k < ev.len() ==> (#[trigger] ev[k]).seq == j.next_seq + k
            &&& forall|k: int| 0 <= k < ev.len() ==> (#[trigger] ev[k]).job_tag == j.tag
            &&& forall|k1: int, k2: int|
                0 <= k1 < k2 < ev.len() ==> (#[trigger] ev[k1]).seq < (#[trigger] ev[k2]).seq
        }),
    decreases inputs.len(),
{
    if inputs.len() > 0 {
        lemma_events_ordered(j, inputs.drop_last());
        lemma_run_seq_bound(j, inputs.drop_last());
        let (j1, a1) = run_spec(j, inputs.drop_last());
        let (j2, a2) = step_spec(j1, inputs.last());
        lemma_step_numbering(j1, inputs.last());
        lemma_emitted_append(a1, a2);
    } else {
        assert(emitted(Seq::<ActionView>::empty()) =~= Seq::<EventView>::empty());
    }
}

/// Cancelling a running job ends it at once: the worker is killed, one
/// `Cancelled` event closes the job, and the job ignores whatever comes later.
pub proof fn lemma_cancel_ends_job(j: JobView, later: InputView)
    requires
        j.outcome is None,
    ensures
        ({
            let (j2, a) = step_spec(j, InputView::Cancel);
            &&& j2.outcome == Some(OutcomeView::Cancelled)
            &&& a[0] == ActionView::Kill
            &&& emitted(a).len() == 1
            &&& emitted(a)[0].status == JobStatus::Cancelled
            &&& step_spec(j2, later) == (j2, Seq::<ActionView>::empty())
        }),
{
    lemma_stop_emits(j, JobStatus::Cancelled, "cancelled"@);
}

/// A job's actions are a function of its state and its transcript: two jobs
/// in the same state fed the same lines, ticks and exits act alike.
pub proof fn lemma_transcript_deterministic(j1: JobView, j2: JobView, inputs: Seq<InputView>)
    requires
        j1 == j2,
    ensures
        run_spec(j1, inputs) == run_spec(j2, inputs),
{
}

impl Job {
    /// Feeds a whole transcript to the job, in order.
    pub fn replay(&mut self, inputs: &Vec<JobInput>) -> (r: Vec<JobAction>)
        requires
            old(self)@.next_seq + inputs@.len() < u64::MAX,
        ensures
            (final(self)@, action_views(r@)) == run_spec(old(self)@, input_views(inputs@)),
    {
        let mut r: Vec<JobAction> = Vec::new();
        let mut i: usize = 0;
        let ghost start = self@;
        while i < inputs.len()
            invariant
                i <= inputs@.len(),
                start.next_seq + inputs@.len() < u64::MAX,
                (self@, action_views(r@)) == run_spec(start, input_views(inputs@).take(i as int)),
            decreases inputs@.len() - i,
        {
            let ghost prefix = input_views(inputs@).take(i as int);
            proof {
                lemma_run_seq_bound(start, prefix);
                assert(input_views(inputs@).take(i + 1).drop_last() =~= prefix);
            }
            let ghost before = action_views(r@);
            let mut acts = self.step(inputs[i].clone_input());
            let ghost added = action_views(acts@);
            r.append(&mut acts);
            proof {
                assert(action_views(r@) =~= before + added);
            }
            i = i + 1;
        }
        proof {
            assert(input_views(inputs@).take(inputs@.len() as int) =~= input_views(inputs@));
        }
        r
    }
}

/// Each input moves the job's numbering on by at most one.
proof fn lemma_run_seq_bound(j: JobView, inputs: Seq<InputView>)
    requires
        j.next_seq + inputs.len() < u64::MAX,
    ensures
        run_spec(j, inputs).0.next_seq <= j.next_seq + inputs.len(),
    decreases inputs.len(),
{
    if inputs.len() > 0 {
        lemma_run_seq_bound(j, inputs.drop_last());
        lemma_step_numbering(run_spec(j, inputs.drop_last()).0, inputs.last());
    }
}

#[derive(Debug, Clone, Copy, PartialEq, Eq, Structural)]
pub enum SupervisorError {
    /// A job with the same tag is still running.
    JobAlreadyRunning,
}

/// The tags of the jobs that are running; each at most once.
pub struct JobRegistry {
    tags: Vec<Vec<char>>,
}

impl View for JobRegistry {
    type V = Seq<Seq<char>>;

    closed spec fn view(&self) -> Seq<Seq<char>> {
        crate::text::views(self.tags@)
    }
}

/// The tags without `t`.
pub open spec fn release_spec(tags: Seq<Seq<char>>, t: Seq<char>) -> Seq<Seq<char>>
    decreases tags.len(),
{
    if tags.len() == 0 {
        Seq::empty()
    } else {
        let prev = release_spec(tags.drop_last(), t);
        if tags.last() == t {
            prev
        } else {
            prev.push(tags.last())
        }
    }
}

/// Releasing keeps only tags that were there, and keeps them distinct.
pub proof fn lemma_release_distinct(tags: Seq<Seq<char>>, t: Seq<char>)
    ensures
        forall|k: int|
            0 <= k < release_spec(tags, t).len() ==> tags.contains(
                #[trigger] release_spec(tags, t)[k],
            ),
        tags.no_duplicates() ==> release_spec(tags, t).no_duplicates(),
    decreases tags.len(),
{
    if tags.len() > 0 {
        let init = tags.drop_last();
        lemma_release_distinct(init, t);
        let prev = release_spec(init, t);
        assert forall|k: int| 0 <= k < prev.len() implies tags.contains(#[trigger] prev[k]) by {
            let x = prev[k];
            assert(init.contains(x));
            let i = choose|i: int| 0 <= i < init.len() && init[i] == x;
            assert(tags[i] == x);
        }
        if tags.last() != t {
            let r = prev.push(tags.last());
            assert forall|k: int| 0 <= k < r.len() implies tags.contains(#[trigger] r[k]) by {
                if k == prev.len() {
                    assert(tags[tags.len() - 1] == tags.last());
                } else {
                    assert(r[k] == prev[k]);
                }
            }
            if tags.no_duplicates() {
                assert(init.no_duplicates()) by {
                    assert forall|i: int, j: int|
                        0 <= i < init.len() && 0 <= j < init.len() && i != j implies init[i]
                        != init[j] by {
                        assert(init[i] == tags[i] && init[j] == tags[j]);
                    }
                }
                assert(!prev.contains(tags.last())) by {
                    if prev.contains(tags.last()) {
                        let k = choose|k: int| 0 <= k < prev.len() && prev[k] == tags.last();
                        assert(init.contains(prev[k]));
                        let i = choose|i: int| 0 <= i < init.len() && init[i] == prev[k];
                        assert(tags[i] == tags[tags.len() - 1]);
                    }
                }
                assert forall|i: int, j: int|
                    0 <= i < r.len() && 0 <= j < r.len() && i != j implies r[i] != r[j] by {
                    if i < prev.len() && j < prev.len() {
                        assert(r[i] == prev[i] && r[j] == prev[j]);
                    } else if i < prev.len() {
                        assert(r[i] == prev[i]);
                    } else if j < prev.len() {
                        assert(r[j] == prev[j]);
                    }
                }
            }
        }
    }
}

pub proof fn lemma_release_removes(tags: Seq<Seq<char>>, t: Seq<char>)
    ensures
        !release_spec(tags, t).contains(t),
    decreases tags.len(),
{
    if tags.len() > 0 {
        lemma_release_removes(tags.drop_last(), t);
        let prev = release_spec(tags.drop_last(), t);
        if tags.last() != t {
            assert forall|k: int| 0 <= k < prev.push(tags.last()).len() implies prev.push(
                tags.last(),
            )[k] != t by {
                if k < prev.len() {
                    assert(prev.push(tags.last())[k] == prev[k]);
                }
            }
        }
    }
}

fn same_chars(a: &[char], b: &[char]) -> (r: bool)
    ensures
        r == (a@ == b@),
{
    let r = a.len() == b.len() && crate::text::matches_at(a, b, 0);
    proof {
        if a@.len() == b@.len() {
            assert(a@.subrange(0, b@.len() as int) =~= a@);
        }
    }
    r
}

impl JobRegistry {
    pub fn new() -> (r: JobRegistry)
        ensures
            r@ == Seq::<Seq<char>>::empty(),
            r@.no_duplicates(),
    {
        let r = JobRegistry { tags: Vec::new() };
        assert(r@ =~= Seq::<Seq<char>>::empty());
        r
    }

    pub fn is_running(&self, tag: &str) -> (r: bool)
        ensures
            r == self@.contains(tag@),
    {
        let t = to_chars(tag);
        let mut i: usize = 0;
        while i < self.tags.len()
            invariant
                i <= self.tags@.len(),
                t@ == tag@,
                forall|k: int| 0 <= k < i ==> self@[k] != tag@,
            decreases self.tags@.len() - i,
        {
            if same_chars(self.tags[i].as_slice(), t.as_slice()) {
                assert(self@[i as int] == tag@);
                return true;
            }
            i = i + 1;
        }
        false
    }

    /// Records a job with this tag as running; fails with `JobAlreadyRunning`
    /// while one is.
    pub fn register(&mut self, tag: &str) -> (r: Result<(), SupervisorError>)
        ensures
            old(self)@.contains(tag@) ==> r == Err::<(), SupervisorError>(
                SupervisorError::JobAlreadyRunning,
            ) && final(self)@ == old(self)@,
            !old(self)@.contains(tag@) ==> r is Ok && final(self)@ == old(self)@.push(tag@),
            old(self)@.no_duplicates() ==> final(self)@.no_duplicates(),
    {
        if self.is_running(tag) {
            return Err(SupervisorError::JobAlreadyRunning);
        }
        let ghost before = self@;
        self.tags.push(to_chars(tag));
        assert(self@ =~= before.push(tag@));
        proof {
            if before.no_duplicates() {
                assert forall|i: int, j: int|
                    0 <= i < self@.len() && 0 <= j < self@.len() && i != j implies self@[i]
                    != self@[j] by {
                    if i < before.len() && j < before.len() {
                        assert(self@[i] == before[i] && self@[j] == before[j]);
                    } else if i < before.len() {
                        assert(self@[i] == before[i]);
                    } else if j < before.len() {
                        assert(self@[j] == before[j]);
                    }
                }
            }
        }
        Ok(())
    }

    /// Clears the slot of the job with this tag.
    pub fn release(&mut self, tag: &str)
        ensures
            final(self)@ == release_spec(old(self)@, tag@),
            !final(self)@.contains(tag@),
            old(self)@.no_duplicates() ==> final(self)@.no_duplicates(),
    {
        let t = to_chars(tag);
        let mut kept: Vec<Vec<char>> = Vec::new();
        let mut i: usize = 0;
        while i < self.tags.len()
            invariant
                i <= self.tags@.len(),
                t@ == tag@,
                crate::text::views(kept@) == release_spec(
                    crate::text::views(self.tags@).take(i as int),
                    tag@,
                ),
            decreases self.tags@.len() - i,
        {
            let ghost v = crate::text::views(self.tags@);
            let ghost before = crate::text::views(kept@);
            proof {
                assert(v.take(i + 1).drop_last() =~= v.take(i as int));
                assert(v.take(i + 1).last() == v[i as int]);
            }
            if !same_chars(self.tags[i].as_slice(), t.as_slice()) {
                kept.push(self.tags[i].clone());
                assert(crate::text::views(kept@) =~= before.push(v[i as int]));
            }
            i = i + 1;
        }
        proof {
            assert(crate::text::views(self.tags@).take(self.tags@.len() as int)
                =~= crate::text::views(self.tags@));
            lemma_release_removes(crate::text::views(self.tags@), tag@);
            lemma_release_distinct(crate::text::views(self.tags@), tag@);
        }
        self.tags = kept;
    }
}

/// After a cancel, once the caller clears the job's slot, no job with that
/// tag is registered and a new one may start.
pub proof fn lemma_cancel_frees_slot(j: JobView, tags: Seq<Seq<char>>)
    requires
        j.outcome is None,
    ensures
        step_spec(j, InputView::Cancel).0.outcome is Some,
        !release_spec(tags, j.tag).contains(j.tag),
{
    lemma_release_removes(tags, j.tag);
}

} // verus!
