//! The answerer's output protocol: `PROGRESS:` lines carry a JSON progress
//! record, a `FINAL_ANSWER:` line opens the answer, and every later line
//! belongs to it. The JSON itself is read by the caller.
use vstd::prelude::*;
use crate::grammar::trim_start_exec;
use crate::text::{
    count_digits, digit_run, from_chars, has_prefix, lemma_digit_run, lines_of, parse_u32,
    parse_u32_spec, push_char, push_chars, split_lines, starts_with, sub_vec, to_chars, trim,
    trim_start, trimmed, unsigned_digits, views,
};

verus! {

/// What one line of the answerer's output is.
#[derive(Debug, Clone)]
pub enum RagLine {
    /// A progress record: the JSON text after `PROGRESS:`.
    Progress(String),
    /// The answer starts after this line.
    FinalAnswer,
    /// A line of the answer.
    Answer,
    /// Output before the answer that is no progress record.
    Other,
}

/// The answer lines joined with `\n`.
pub open spec fn joined(ls: Seq<Seq<char>>) -> Seq<char>
    decreases ls.len(),
{
    if ls.len() == 0 {
        Seq::empty()
    } else if ls.len() == 1 {
        ls[0]
    } else {
        joined(ls.drop_last()) + seq!['\n'] + ls.last()
    }
}

/// The state of one answer session: whether the answer has begun, and its
/// lines so far.
pub struct RagSession {
    in_answer: bool,
    answer: String,
    has_lines: bool,
    lines: Ghost<Seq<Seq<char>>>,
}

pub open spec fn classify_spec(in_answer: bool, line: Seq<char>) -> (bool, Option<Seq<char>>) {
    if starts_with(line, "PROGRESS:"@) {
        (in_answer, None)
    } else if starts_with(line, "FINAL_ANSWER:"@) {
        (true, None)
    } else if in_answer {
        (true, Some(line))
    } else {
        (false, None)
    }
}

impl RagSession {
    pub closed spec fn in_answer(&self) -> bool {
        self.in_answer
    }

    /// The answer lines collected so far.
    pub closed spec fn answer_lines(&self) -> Seq<Seq<char>> {
        self.lines@
    }

    pub closed spec fn wf(&self) -> bool {
        &&& self.answer@ == joined(self.lines@)
        &&& self.has_lines == (self.lines@.len() > 0)
    }

    pub fn new() -> (r: RagSession)
        ensures
            r.wf(),
            !r.in_answer(),
            r.answer_lines() == Seq::<Seq<char>>::empty(),
    {
        RagSession {
            in_answer: false,
            answer: String::new(),
            has_lines: false,
            lines: Ghost(Seq::empty()),
        }
    }

    /// Reads one output line. A progress record is handed back; the
    /// `FINAL_ANSWER:` marker opens the answer; later lines are kept as the
    /// answer.
    pub fn feed(&mut self, line: &str) -> (r: RagLine)
        requires
            old(self).wf(),
        ensures
            final(self).wf(),
            (final(self).in_answer(), if final(self).answer_lines().len() > old(self).answer_lines().len() {
                Some(line@)
            } else {
                None
            }) == classify_spec(old(self).in_answer(), line@),
            final(self).answer_lines().len() > old(self).answer_lines().len() ==> final(self).answer_lines()
                == old(self).answer_lines().push(line@),
            final(self).answer_lines().len() <= old(self).answer_lines().len() ==> final(self).answer_lines()
                == old(self).answer_lines(),
            match r {
                RagLine::Progress(p) => starts_with(line@, "PROGRESS:"@) && p@ == line@.skip(
                    "PROGRESS:"@.len() as int,
                ),
                RagLine::FinalAnswer => !starts_with(line@, "PROGRESS:"@) && starts_with(
                    line@,
                    "FINAL_ANSWER:"@,
                ),
                RagLine::Answer => classify_spec(old(self).in_answer(), line@).1 is Some,
                RagLine::Other => !starts_with(line@, "PROGRESS:"@) && classify_spec(
                    old(self).in_answer(),
                    line@,
                ) == (false, None::<Seq<char>>),
            },
    {
        let c = to_chars(line);
        let progress = to_chars("PROGRESS:");
        let marker = to_chars("FINAL_ANSWER:");
        if has_prefix(c.as_slice(), progress.as_slice()) {
            let rest = sub_vec(c.as_slice(), progress.len(), c.len());
            assert(rest@ =~= c@.skip(progress@.len() as int));
            return RagLine::Progress(crate::text::from_chars(rest.as_slice()));
        }
        if has_prefix(c.as_slice(), marker.as_slice()) {
            self.in_answer = true;
            return RagLine::FinalAnswer;
        }
        if self.in_answer {
            let ghost before = self.lines@;
            if self.has_lines {
                push_char(&mut self.answer, '\n');
            }
            self.has_lines = true;
            push_chars(&mut self.answer, c.as_slice());
            self.lines = Ghost(before.push(c@));
            proof {
                let ls = self.lines@;
                assert(ls.drop_last() =~= before);
                assert(ls.last() == c@);
                if before.len() == 0 {
                    assert(joined(ls) == c@);
                    assert(self.answer@ =~= c@);
                } else {
                    assert(self.answer@ =~= joined(before) + seq!['\n'] + c@);
                }
            }
            return RagLine::Answer;
        }
        RagLine::Other
    }

    /// The answer collected so far, its lines joined with `\n`.
    pub fn answer(&self) -> (r: String)
        requires
            self.wf(),
        ensures
            r@ == joined(self.answer_lines()),
    {
        self.answer.clone()
    }
}

// ---------------------------------------------------------------- channel list

/// `(M개 영상)` at `p` of `r`, spaces allowed before `영상`: the digits of M.
pub open spec fn count_suffix_at(r: Seq<char>, p: int) -> Option<Seq<char>> {
    if 0 <= p < r.len() && r[p] == '(' {
        let t = r.skip(p + 1);
        let k = digit_run(t);
        let after = t.skip(k as int);
        if k > 0 && after.len() > 0 && after[0] == '개' && starts_with(
            trim_start(after.skip(1)),
            "영상)"@,
        ) {
            Some(t.take(k as int))
        } else {
            None
        }
    } else {
        None
    }
}

/// The first position at or after `from` where a count suffix stands.
pub open spec fn first_count_suffix(r: Seq<char>, from: int) -> Option<int>
    decreases r.len() - from,
{
    if from < 0 || from >= r.len() {
        None
    } else if count_suffix_at(r, from) is Some {
        Some(from)
    } else {
        first_count_suffix(r, from + 1)
    }
}

/// A line `N. name (M개 영상)` of the answerer's channel listing: the name,
/// trimmed, and M.
pub open spec fn channel_line(line: Seq<char>) -> Option<(Seq<char>, u32)> {
    let t = trim_start(line);
    let k = digit_run(t);
    if k > 0 && t.len() > k && t[k as int] == '.' {
        let rest = trim_start(t.skip(k + 1 as int));
        match first_count_suffix(rest, 1) {
            Some(p) => match parse_u32_spec(count_suffix_at(rest, p)->0) {
                Some(n) => Some((trim(rest.take(p)), n)),
                None => None,
            },
            None => None,
        }
    } else {
        None
    }
}

/// The channels of a listing, in order.
pub open spec fn channel_lines(ls: Seq<Seq<char>>) -> Seq<(Seq<char>, u32)>
    decreases ls.len(),
{
    if ls.len() == 0 {
        Seq::empty()
    } else {
        let prev = channel_lines(ls.drop_last());
        match channel_line(ls.last()) {
            Some(c) => prev.push(c),
            None => prev,
        }
    }
}

/// A channel that the answerer can answer about.
#[derive(Debug, Clone)]
pub struct AiChannel {
    pub name: String,
    pub video_count: u32,
}

fn count_suffix_exec(r: &[char], p: usize) -> (res: Option<Vec<char>>)
    requires
        p < r@.len(),
    ensures
        match res {
            Some(d) => count_suffix_at(r@, p as int) == Some(d@),
            None => count_suffix_at(r@, p as int) is None,
        },
{
    if r[p] != '(' {
        return None;
    }
    let ghost t = r@.skip(p + 1);
    let k = count_digits(r, p + 1);
    if k == 0 {
        return None;
    }
    let a = p + 1 + k;
    assert(t.skip(k as int) =~= r@.skip(a as int));
    if !(a < r.len() && r[a] == '개') {
        assert(!(r@.skip(a as int).len() > 0 && r@.skip(a as int)[0] == '개'));
        return None;
    }
    assert(r@.skip(a as int)[0] == r@[a as int]);
    let after = sub_vec(r, a + 1, r.len());
    assert(after@ =~= r@.skip(a as int).skip(1));
    let t2 = trim_start_exec(after.as_slice());
    let tail = to_chars("영상)");
    if !has_prefix(t2.as_slice(), tail.as_slice()) {
        return None;
    }
    let d = sub_vec(r, p + 1, a);
    assert(d@ =~= t.take(k as int));
    Some(d)
}

/// The channel on one line of the listing.
pub fn parse_channel_line(line: &str) -> (r: Option<AiChannel>)
    ensures
        match r {
            Some(c) => channel_line(line@) == Some((c.name@, c.video_count)),
            None => channel_line(line@) is None,
        },
{
    let t = trim_start_exec(to_chars(line).as_slice());
    let k = count_digits(t.as_slice(), 0);
    assert(t@.skip(0) =~= t@);
    if !(k > 0 && t.len() > k && t[k] == '.') {
        return None;
    }
    let after_dot = sub_vec(t.as_slice(), k + 1, t.len());
    assert(after_dot@ =~= t@.skip(k + 1 as int));
    let rest = trim_start_exec(after_dot.as_slice());
    let mut p: usize = 1;
    while p < rest.len()
        invariant
            1 <= p,
            t@ == trim_start(line@),
            k == digit_run(t@),
            k > 0 && t@.len() > k && t@[k as int] == '.',
            rest@ == trim_start(t@.skip(k + 1 as int)),
            first_count_suffix(rest@, 1) == first_count_suffix(rest@, p as int),
        decreases rest@.len() - p,
    {
        match count_suffix_exec(rest.as_slice(), p) {
            Some(d) => {
                proof {
                    lemma_digit_run(rest@.skip(p + 1));
                    assert(d@[0] != '+');
                    assert(unsigned_digits(d@) == d@);
                }
                return match parse_u32(d.as_slice()) {
                    Some(n) => {
                        let head = sub_vec(rest.as_slice(), 0, p);
                        assert(head@ =~= rest@.take(p as int));
                        Some(AiChannel { name: from_chars(trimmed(head.as_slice()).as_slice()), video_count: n })
                    },
                    None => None,
                };
            },
            None => {},
        }
        p = p + 1;
    }
    None
}

/// The channels listed in the answerer's output, one per matching line.
pub fn parse_channel_list(output: &str) -> (r: Vec<AiChannel>)
    ensures
        r@.len() == channel_lines(lines_of(output@)).len(),
        forall|i: int|
            0 <= i < r@.len() ==> ((#[trigger] r@[i]).name@, r@[i].video_count) == channel_lines(
                lines_of(output@),
            )[i],
{
    let lines = split_lines(to_chars(output).as_slice());
    let mut r: Vec<AiChannel> = Vec::new();
    let mut i: usize = 0;
    while i < lines.len()
        invariant
            i <= lines@.len(),
            views(lines@) == lines_of(output@),
            r@.len() == channel_lines(views(lines@).take(i as int)).len(),
            forall|k: int|
                0 <= k < r@.len() ==> ((#[trigger] r@[k]).name@, r@[k].video_count)
                    == channel_lines(views(lines@).take(i as int))[k],
        decreases lines@.len() - i,
    {
        let ghost v = views(lines@);
        proof {
            assert(v.take(i + 1).drop_last() =~= v.take(i as int));
            assert(v.take(i + 1).last() == v[i as int]);
        }
        let text = from_chars(lines[i].as_slice());
        match parse_channel_line(text.as_str()) {
            Some(c) => r.push(c),
            None => {},
        }
        i = i + 1;
    }
    assert(views(lines@).take(lines@.len() as int) =~= views(lines@));
    r
}

} // verus!
