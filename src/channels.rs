//! The channel list file: one channel URL per line, `# URL` for a disabled
//! channel, any other line kept as it is. Every operation works on the whole
//! file's lines and the caller writes the result back in full.
use vstd::prelude::*;
use crate::text::{
    join_lines, lemma_join_lines_push, lemma_lines_round_trip, lines_of, push_char, push_chars,
    split_lines, contains_ws, from_chars, has_ws, lemma_last_index_of, lemma_trim_id, last_index_of, matches_at,
    occurs_at, rfind_char, starts_with, sub_vec, to_chars, trim, trimmed, views, is_ws,
};
use crate::urlenc::{decode_lossy, lossy_decoded};

verus! {

#[derive(Debug, Clone, Copy, PartialEq, Eq, Structural)]
pub enum ChannelError {
    /// The URL is already listed, enabled or disabled.
    DuplicateChannel,
    /// The URL is empty, starts with `#` or holds whitespace.
    Malformed,
}

/// One listed channel.
#[derive(Debug, Clone)]
pub struct ChannelEntry {
    pub url: String,
    /// The part of the URL after its last `@` (else its last `/`),
    /// percent-decoded.
    pub name: String,
    pub enabled: bool,
}

/// A channel URL: non-empty, no whitespace, not starting with `#`.
pub open spec fn is_url(u: Seq<char>) -> bool {
    u.len() > 0 && u[0] != '#' && !has_ws(u)
}

pub open spec fn disabled_prefix() -> Seq<char> {
    seq!['#', ' ']
}

/// The entry a line holds, as (url, enabled): `URL` or `# URL` once trimmed.
pub open spec fn line_entry(line: Seq<char>) -> Option<(Seq<char>, bool)> {
    let t = trim(line);
    if is_url(t) {
        Some((t, true))
    } else if starts_with(t, disabled_prefix()) && is_url(t.skip(2)) {
        Some((t.skip(2), false))
    } else {
        None
    }
}

pub open spec fn line_has_url(line: Seq<char>, u: Seq<char>) -> bool {
    line_entry(line) is Some && (line_entry(line)->0).0 == u
}

/// The entries of the lines, in file order.
pub open spec fn entry_lines(ls: Seq<Seq<char>>) -> Seq<(Seq<char>, bool)>
    decreases ls.len(),
{
    if ls.len() == 0 {
        Seq::empty()
    } else {
        let prev = entry_lines(ls.drop_last());
        match line_entry(ls.last()) {
            Some(e) => prev.push(e),
            None => prev,
        }
    }
}

/// The last part of a channel URL, percent-decoded.
pub open spec fn channel_name(url: Seq<char>) -> Seq<char> {
    let at = last_index_of(url, '@');
    let slash = last_index_of(url, '/');
    let raw = if at >= 0 {
        url.skip(at + 1)
    } else if slash >= 0 {
        url.skip(slash + 1)
    } else {
        url
    };
    lossy_decoded(raw)
}

pub open spec fn listed(ls: Seq<Seq<char>>, u: Seq<char>) -> bool {
    exists|i: int| 0 <= i < ls.len() && line_has_url(#[trigger] ls[i], u)
}

pub open spec fn add_spec(ls: Seq<Seq<char>>, u: Seq<char>) -> (
    Result<(), ChannelError>,
    Seq<Seq<char>>,
) {
    if !is_url(u) {
        (Err(ChannelError::Malformed), ls)
    } else if listed(ls, u) {
        (Err(ChannelError::DuplicateChannel), ls)
    } else {
        (Ok(()), ls.push(u))
    }
}

/// The lines without those whose entry has URL `u`.
pub open spec fn remove_spec(ls: Seq<Seq<char>>, u: Seq<char>) -> Seq<Seq<char>>
    decreases ls.len(),
{
    if ls.len() == 0 {
        Seq::empty()
    } else {
        let prev = remove_spec(ls.drop_last(), u);
        if line_has_url(ls.last(), u) {
            prev
        } else {
            prev.push(ls.last())
        }
    }
}

pub open spec fn toggled_line(l: Seq<char>, u: Seq<char>) -> Seq<char> {
    if line_has_url(l, u) {
        if (line_entry(l)->0).1 {
            disabled_prefix() + u
        } else {
            u
        }
    } else {
        l
    }
}

/// Each line whose entry has URL `u` flipped between `u` and `# u`.
pub open spec fn toggle_spec(ls: Seq<Seq<char>>, u: Seq<char>) -> Seq<Seq<char>> {
    Seq::new(ls.len(), |k: int| toggled_line(ls[k], u))
}

/// The lines of a channel list file.
pub struct ChannelList {
    lines: Vec<Vec<char>>,
}

impl View for ChannelList {
    type V = Seq<Seq<char>>;

    closed spec fn view(&self) -> Seq<Seq<char>> {
        views(self.lines@)
    }
}

pub proof fn lemma_canonical_entries(u: Seq<char>)
    requires
        is_url(u),
    ensures
        line_entry(u) == Some((u, true)),
        line_entry(disabled_prefix() + u) == Some((u, false)),
{
    lemma_trim_id(u);
    let d = disabled_prefix() + u;
    assert(d[0] == '#');
    assert(d.last() == u.last());
    assert(!is_ws(u.last())) by {
        if is_ws(u.last()) {
            assert(is_ws(u[u.len() - 1]));
        }
    }
    lemma_trim_id(d);
    assert(d.take(2) =~= disabled_prefix());
    assert(d.skip(2) =~= u);
}

pub fn is_channel_url(u: &[char]) -> (r: bool)
    ensures
        r == is_url(u@),
{
    u.len() > 0 && u[0] != '#' && !contains_ws(u)
}

/// The entry of one line, if it holds one.
pub fn classify_line(line: &[char]) -> (r: Option<(Vec<char>, bool)>)
    ensures
        match r {
            Some(e) => line_entry(line@) == Some((e.0@, e.1)),
            None => line_entry(line@) is None,
        },
{
    let t = trimmed(line);
    if is_channel_url(t.as_slice()) {
        return Some((t, true));
    }
    if t.len() >= 2 && t[0] == '#' && t[1] == ' ' {
        assert(t@.take(2) =~= disabled_prefix());
        let rest = sub_vec(t.as_slice(), 2, t.len());
        assert(rest@ =~= t@.skip(2));
        if is_channel_url(rest.as_slice()) {
            return Some((rest, false));
        }
    } else {
        assert(!starts_with(t@, disabled_prefix())) by {
            if starts_with(t@, disabled_prefix()) {
                assert(t@.take(2)[0] == '#');
                assert(t@.take(2)[1] == ' ');
            }
        }
    }
    None
}

/// Whether the line's entry, if any, has URL `u`.
fn line_matches(line: &[char], u: &[char]) -> (r: bool)
    ensures
        r == line_has_url(line@, u@),
{
    match classify_line(line) {
        Some(e) => {
            let same = e.0.len() == u.len() && matches_at(e.0.as_slice(), u, 0);
            proof {
                if e.0@.len() == u@.len() {
                    assert(occurs_at(e.0@, u@, 0) <==> e.0@ == u@) by {
                        assert(e.0@.subrange(0, u@.len() as int) =~= e.0@);
                    }
                }
            }
            same
        },
        None => false,
    }
}

/// The display name of a channel URL: what follows its last `@`, else its
/// last `/`, else the whole URL; percent-decoded where that gives UTF-8.
pub fn extract_channel_name_from_url(url: &str) -> (r: String)
    ensures
        r@ == channel_name(url@),
{
    let u = to_chars(url);
    proof {
        lemma_last_index_of(u@, '@');
        lemma_last_index_of(u@, '/');
    }
    let start: usize = match rfind_char(u.as_slice(), '@') {
        Some(i) => i + 1,
        None => match rfind_char(u.as_slice(), '/') {
            Some(i) => i + 1,
            None => 0,
        },
    };
    proof {
        lemma_last_index_of(u@, '@');
        lemma_last_index_of(u@, '/');
    }
    let raw = sub_vec(u.as_slice(), start, u.len());
    proof {
        assert(u@.skip(0) =~= u@);
        assert(raw@ =~= u@.skip(start as int));
    }
    let d = decode_lossy(raw.as_slice());
    from_chars(d.as_slice())
}

/// A comment line that holds `text` and no entry.
fn note_line(text: &str) -> (r: Vec<char>)
    ensures
        line_entry(r@) is None,
{
    let t = to_chars(text);
    let mut line: Vec<char> = Vec::new();
    line.push('#');
    if t.len() > 0 {
        line.push(' ');
    }
    let mut i: usize = 0;
    while i < t.len()
        invariant
            i <= t@.len(),
        decreases t@.len() - i,
    {
        line.push(t[i]);
        i = i + 1;
    }
    if classify_line(line.as_slice()).is_some() {
        let bare = vec!['#'];
        proof {
            lemma_trim_id(bare@);
            assert(!starts_with(bare@, disabled_prefix()));
        }
        return bare;
    }
    line
}

impl ChannelList {
    /// The lines of `content`, split as `str::lines` does.
    pub fn parse(content: &str) -> (r: ChannelList)
        ensures
            r@ == lines_of(content@),
    {
        let c = to_chars(content);
        let lines = split_lines(c.as_slice());
        ChannelList { lines }
    }

    /// The documentation header that a new channel list file starts with; it
    /// holds no entry.
    pub fn with_header() -> (r: ChannelList)
        ensures
            entry_lines(r@) == Seq::<(Seq<char>, bool)>::empty(),
            r@.len() == 8,
    {
        let mut lines: Vec<Vec<char>> = Vec::new();
        lines.push(note_line("유튜브 채널 목록"));
        lines.push(note_line("한 줄에 하나씩 YouTube 채널 URL을 입력하세요"));
        lines.push(note_line("'#'로 시작하는 줄은 주석이고, '# URL' 줄은 비활성화된 채널입니다"));
        lines.push(note_line(""));
        lines.push(note_line("예시 (맨 앞의 '#'를 지우면 활성화됩니다):"));
        lines.push(note_line("  https://www.youtube.com/@채널명"));
        lines.push(note_line(""));
        lines.push(note_line("아래에 다운로드할 채널 URL을 추가하세요:"));
        proof {
            let v = views(lines@);
            assert forall|k: int| 0 <= k < v.len() implies line_entry(#[trigger] v[k]) is None by {
            }
            lemma_no_entries(v);
        }
        ChannelList { lines }
    }

    /// The whole file: every line followed by `\n`.
    pub fn serialize(&self) -> (r: String)
        ensures
            r@ == join_lines(self@),
    {
        let mut r = String::new();
        let mut i: usize = 0;
        while i < self.lines.len()
            invariant
                i <= self.lines@.len(),
                r@ == join_lines(views(self.lines@).take(i as int)),
            decreases self.lines@.len() - i,
        {
            let ghost v = views(self.lines@);
            push_chars(&mut r, self.lines[i].as_slice());
            push_char(&mut r, '\n');
            proof {
                assert(v.take(i + 1) =~= v.take(i as int).push(v[i as int]));
                lemma_join_lines_push(v.take(i as int), v[i as int]);
            }
            i = i + 1;
        }
        proof {
            assert(views(self.lines@).take(self.lines@.len() as int) =~= views(self.lines@));
        }
        r
    }

    /// The listed channels, enabled and disabled, in file order.
    pub fn entries(&self) -> (r: Vec<ChannelEntry>)
        ensures
            r@.len() == entry_lines(self@).len(),
            forall|k: int|
                0 <= k < r@.len() ==> {
                    &&& (#[trigger] r@[k]).url@ == entry_lines(self@)[k].0
                    &&& r@[k].enabled == entry_lines(self@)[k].1
                    &&& r@[k].name@ == channel_name(entry_lines(self@)[k].0)
                },
    {
        let mut r: Vec<ChannelEntry> = Vec::new();
        let mut i: usize = 0;
        while i < self.lines.len()
            invariant
                i <= self.lines@.len(),
                r@.len() == entry_lines(views(self.lines@).take(i as int)).len(),
                forall|k: int|
                    0 <= k < r@.len() ==> {
                        &&& (#[trigger] r@[k]).url@ == entry_lines(
                            views(self.lines@).take(i as int),
                        )[k].0
                        &&& r@[k].enabled == entry_lines(views(self.lines@).take(i as int))[k].1
                        &&& r@[k].name@ == channel_name(
                            entry_lines(views(self.lines@).take(i as int))[k].0,
                        )
                    },
            decreases self.lines@.len() - i,
        {
            let ghost v = views(self.lines@);
            proof {
                assert(v.take(i + 1).drop_last() =~= v.take(i as int));
                assert(v.take(i + 1).last() == v[i as int]);
            }
            match classify_line(self.lines[i].as_slice()) {
                Some(e) => {
                    let url = from_chars(e.0.as_slice());
                    let name = extract_channel_name_from_url(url.as_str());
                    r.push(ChannelEntry { url, name, enabled: e.1 });
                },
                None => {},
            }
            i = i + 1;
        }
        proof {
            assert(views(self.lines@).take(self.lines@.len() as int) =~= views(self.lines@));
        }
        r
    }

    /// Whether some channel of the list is enabled.
    pub fn has_enabled(&self) -> (r: bool)
        ensures
            r == exists|k: int| 0 <= k < entry_lines(self@).len() && (#[trigger] entry_lines(self@)[k]).1,
    {
        let es = self.entries();
        let mut i: usize = 0;
        while i < es.len()
            invariant
                i <= es@.len(),
                es@.len() == entry_lines(self@).len(),
                forall|k: int| 0 <= k < es@.len() ==> (#[trigger] es@[k]).enabled == entry_lines(self@)[k].1,
                forall|k: int| 0 <= k < i ==> !(#[trigger] entry_lines(self@)[k]).1,
            decreases es@.len() - i,
        {
            if es[i].enabled {
                assert(entry_lines(self@)[i as int].1);
                return true;
            }
            i = i + 1;
        }
        false
    }

    /// Whether some line's entry has URL `url`.
    fn lists(&self, url: &[char]) -> (r: bool)
        ensures
            r == listed(self@, url@),
    {
        let mut i: usize = 0;
        while i < self.lines.len()
            invariant
                i <= self.lines@.len(),
                forall|k: int| 0 <= k < i ==> !line_has_url(#[trigger] views(self.lines@)[k], url@),
            decreases self.lines@.len() - i,
        {
            if line_matches(self.lines[i].as_slice(), url) {
                assert(line_has_url(views(self.lines@)[i as int], url@));
                return true;
            }
            i = i + 1;
        }
        false
    }

    /// Appends `url` as an enabled channel. Fails with `Malformed` when it is
    /// no URL and with `DuplicateChannel` when it is listed already.
    pub fn add(&mut self, url: &str) -> (r: Result<(), ChannelError>)
        ensures
            (r, final(self)@) == add_spec(old(self)@, url@),
    {
        let u = to_chars(url);
        if !is_channel_url(u.as_slice()) {
            return Err(ChannelError::Malformed);
        }
        if self.lists(u.as_slice()) {
            return Err(ChannelError::DuplicateChannel);
        }
        let ghost before = self@;
        self.lines.push(u);
        assert(self@ =~= before.push(url@));
        Ok(())
    }

    /// Drops every line whose entry, enabled or disabled, has URL `url`.
    pub fn remove(&mut self, url: &str)
        ensures
            final(self)@ == remove_spec(old(self)@, url@),
    {
        let u = to_chars(url);
        let mut kept: Vec<Vec<char>> = Vec::new();
        let mut i: usize = 0;
        while i < self.lines.len()
            invariant
                i <= self.lines@.len(),
                views(kept@) == remove_spec(views(self.lines@).take(i as int), url@),
                u@ == url@,
            decreases self.lines@.len() - i,
        {
            let ghost v = views(self.lines@);
            let ghost before = views(kept@);
            proof {
                assert(v.take(i + 1).drop_last() =~= v.take(i as int));
                assert(v.take(i + 1).last() == v[i as int]);
            }
            if !line_matches(self.lines[i].as_slice(), u.as_slice()) {
                kept.push(self.lines[i].clone());
                assert(views(kept@) =~= before.push(v[i as int]));
            }
            i = i + 1;
        }
        proof {
            assert(views(self.lines@).take(self.lines@.len() as int) =~= views(self.lines@));
        }
        self.lines = kept;
    }

    /// Flips each line whose entry has URL `url` between `url` (enabled) and
    /// `# url` (disabled); other lines stay as they are.
    pub fn toggle(&mut self, url: &str)
        ensures
            final(self)@ == toggle_spec(old(self)@, url@),
    {
        let u = to_chars(url);
        let mut out: Vec<Vec<char>> = Vec::new();
        let mut i: usize = 0;
        while i < self.lines.len()
            invariant
                i <= self.lines@.len(),
                views(out@) =~= toggle_spec(views(self.lines@), url@).take(i as int),
                u@ == url@,
            decreases self.lines@.len() - i,
        {
            let ghost v = views(self.lines@);
            let ghost before = views(out@);
            match classify_line(self.lines[i].as_slice()) {
                Some(e) => {
                    let same = e.0.len() == u.len() && matches_at(e.0.as_slice(), u.as_slice(), 0);
                    proof {
                        if e.0@.len() == u@.len() {
                            assert(occurs_at(e.0@, u@, 0) <==> e.0@ == u@) by {
                                assert(e.0@.subrange(0, u@.len() as int) =~= e.0@);
                            }
                        }
                    }
                    if same {
                        if e.1 {
                            let mut line: Vec<char> = vec!['#', ' '];
                            let ghost pre = line@;
                            let mut k: usize = 0;
                            while k < u.len()
                                invariant
                                    k <= u@.len(),
                                    line@ == pre + u@.take(k as int),
                                decreases u@.len() - k,
                            {
                                line.push(u[k]);
                                assert(u@.take(k + 1) =~= u@.take(k as int).push(u@[k as int]));
                                k = k + 1;
                            }
                            assert(u@.take(u@.len() as int) =~= u@);
                            assert(pre =~= disabled_prefix());
                            out.push(line);
                        } else {
                            out.push(u.clone());
                        }
                    } else {
                        out.push(self.lines[i].clone());
                    }
                },
                None => {
                    out.push(self.lines[i].clone());
                },
            }
            proof {
                assert(views(out@) =~= before.push(toggled_line(v[i as int], url@)));
            }
            i = i + 1;
        }
        self.lines = out;
    }
}

proof fn lemma_no_entries(v: Seq<Seq<char>>)
    requires
        forall|k: int| 0 <= k < v.len() ==> line_entry(#[trigger] v[k]) is None,
    ensures
        entry_lines(v) == Seq::<(Seq<char>, bool)>::empty(),
    decreases v.len(),
{
    if v.len() > 0 {
        assert forall|k: int| 0 <= k < v.drop_last().len() implies line_entry(
            #[trigger] v.drop_last()[k],
        ) is None by {
            assert(v.drop_last()[k] == v[k]);
        }
        lemma_no_entries(v.drop_last());
        assert(line_entry(v[v.len() - 1]) is None);
    }
}

/// A channel list file that ends with a newline and has no carriage return
/// comes back byte for byte after toggling a URL twice, provided each line
/// that lists that URL is written plainly (`URL` or `# URL`).
pub proof fn lemma_toggle_twice_round_trip(content: Seq<char>, url: Seq<char>)
    requires
        forall|i: int| 0 <= i < content.len() ==> content[i] != '\r',
        content.len() > 0 ==> content.last() == '\n',
        forall|i: int|
            0 <= i < lines_of(content).len() && line_has_url(#[trigger] lines_of(content)[i], url)
                ==> lines_of(content)[i] == url || lines_of(content)[i] == disabled_prefix() + url,
    ensures
        join_lines(toggle_spec(toggle_spec(lines_of(content), url), url)) == content,
{
    let ls = lines_of(content);
    let once = toggle_spec(ls, url);
    let twice = toggle_spec(once, url);
    assert forall|i: int| 0 <= i < ls.len() implies #[trigger] twice[i] == ls[i] by {
        let l = ls[i];
        if line_has_url(l, url) {
            lemma_canonical_entries(url);
        } else {
            assert(once[i] == l);
        }
    }
    assert(twice =~= ls);
    lemma_lines_round_trip(content);
}

/// Adding a URL a second time fails with `DuplicateChannel` and leaves the
/// list as it is, whatever the first add returned.
pub proof fn lemma_add_twice_duplicate(ls: Seq<Seq<char>>, url: Seq<char>)
    requires
        is_url(url),
    ensures
        add_spec(add_spec(ls, url).1, url) == (
            Err::<(), ChannelError>(ChannelError::DuplicateChannel),
            add_spec(ls, url).1,
        ),
{
    let once = add_spec(ls, url).1;
    if !listed(ls, url) {
        lemma_canonical_entries(url);
        assert(once[ls.len() as int] == url);
        assert(line_has_url(once[ls.len() as int], url));
    }
}

} // verus!
