//! Caption frontmatter: a line-oriented subset of YAML between two `---`
//! lines, and the defaults that a video folder's path gives.
use vstd::prelude::*;
use crate::text::{
    find_char_from, from_chars, index_of, lines_of, matches_at, parse_u32, parse_u32_spec, split_char, split_lines, split_on, sub_vec, to_chars, trim, trim_char, trimmed, trimmed_char, views,
};
use crate::urlenc::{decode_lossy, lossy_decoded};

verus! {

/// A value with surrounding whitespace, then double quotes, then single
/// quotes removed.
pub open spec fn unquoted(v: Seq<char>) -> Seq<char> {
    trim_char(trim_char(trim(v), '"'), '\'')
}

/// The key of a `key: value` line, trimmed, if the line has a colon.
pub open spec fn line_key(line: Seq<char>) -> Option<Seq<char>> {
    let c = index_of(line, ':');
    if c < line.len() {
        Some(trim(line.take(c as int)))
    } else {
        None
    }
}

/// What follows the first colon of a line, trimmed.
pub open spec fn line_value(line: Seq<char>) -> Seq<char> {
    trim(line.skip(index_of(line, ':') + 1 as int))
}

/// The value of the first line whose key is `field`, unquoted.
pub open spec fn yaml_field(lines: Seq<Seq<char>>, field: Seq<char>) -> Option<Seq<char>>
    decreases lines.len(),
{
    if lines.len() == 0 {
        None
    } else if line_key(lines[0]) == Some(field) {
        Some(unquoted(line_value(lines[0])))
    } else {
        yaml_field(lines.drop_first(), field)
    }
}

/// The non-empty unquoted items of a comma-separated list.
pub open spec fn list_items(parts: Seq<Seq<char>>) -> Seq<Seq<char>>
    decreases parts.len(),
{
    if parts.len() == 0 {
        Seq::empty()
    } else {
        let prev = list_items(parts.drop_last());
        let item = unquoted(parts.last());
        if item.len() > 0 {
            prev.push(item)
        } else {
            prev
        }
    }
}

/// Whether a value is written `[...]`.
pub open spec fn is_bracketed(v: Seq<char>) -> bool {
    v.len() >= 2 && v[0] == '[' && v.last() == ']'
}

/// The items of a `[a, b, c]` value; `None` when none is left.
pub open spec fn array_items(v: Seq<char>) -> Option<Seq<Seq<char>>> {
    let items = list_items(split_on(v.subrange(1, v.len() - 1), ','));
    if items.len() == 0 {
        None
    } else {
        Some(items)
    }
}

/// The items of the first line whose key is `field` and whose value is
/// bracketed.
pub open spec fn yaml_array(lines: Seq<Seq<char>>, field: Seq<char>) -> Option<Seq<Seq<char>>>
    decreases lines.len(),
{
    if lines.len() == 0 {
        None
    } else if line_key(lines[0]) == Some(field) && is_bracketed(line_value(lines[0])) {
        array_items(line_value(lines[0]))
    } else {
        yaml_array(lines.drop_first(), field)
    }
}

pub open spec fn string_views(v: Seq<String>) -> Seq<Seq<char>> {
    v.map_values(|s: String| s@)
}

/// The key and value of a `key: value` line.
fn split_key_value(line: &[char]) -> (r: Option<(Vec<char>, Vec<char>)>)
    ensures
        match r {
            Some(kv) => line_key(line@) == Some(kv.0@) && kv.1@ == line_value(line@),
            None => line_key(line@) is None,
        },
{
    let c = find_char_from(line, ':', 0);
    assert(line@.skip(0) =~= line@);
    if c == line.len() {
        return None;
    }
    let k = sub_vec(line, 0, c);
    let v = sub_vec(line, c + 1, line.len());
    assert(k@ =~= line@.take(c as int));
    assert(v@ =~= line@.skip(c + 1 as int));
    Some((trimmed(k.as_slice()), trimmed(v.as_slice())))
}

fn unquote(v: &[char]) -> (r: Vec<char>)
    ensures
        r@ == unquoted(v@),
{
    let t = trimmed(v);
    let d = trimmed_char(t.as_slice(), '"');
    trimmed_char(d.as_slice(), '\'')
}

fn same_chars(a: &[char], b: &[char]) -> (r: bool)
    ensures
        r == (a@ == b@),
{
    let r = a.len() == b.len() && matches_at(a, b, 0);
    proof {
        if a@.len() == b@.len() {
            assert(a@.subrange(0, b@.len() as int) =~= a@);
        }
    }
    r
}

/// The value of `field` among the lines.
fn field_in_lines(lines: &[Vec<char>], field: &[char]) -> (r: Option<Vec<char>>)
    ensures
        match r {
            Some(v) => yaml_field(views(lines@), field@) == Some(v@),
            None => yaml_field(views(lines@), field@) is None,
        },
{
    let mut i: usize = 0;
    assert(views(lines@).skip(0) =~= views(lines@));
    while i < lines.len()
        invariant
            i <= lines@.len(),
            yaml_field(views(lines@), field@) == yaml_field(views(lines@).skip(i as int), field@),
        decreases lines@.len() - i,
    {
        let ghost rest = views(lines@).skip(i as int);
        assert(rest[0] == lines@[i as int]@);
        assert(rest.drop_first() =~= views(lines@).skip(i + 1));
        match split_key_value(lines[i].as_slice()) {
            Some(kv) => {
                if same_chars(kv.0.as_slice(), field) {
                    return Some(unquote(kv.1.as_slice()));
                }
            },
            None => {},
        }
        i = i + 1;
    }
    None
}

/// The items of a bracketed value.
fn items_of(v: &[char]) -> (r: Option<Vec<String>>)
    requires
        is_bracketed(v@),
    ensures
        match r {
            Some(items) => array_items(v@) == Some(string_views(items@)),
            None => array_items(v@) is None,
        },
{
    let inner = sub_vec(v, 1, v.len() - 1);
    let parts = split_char(inner.as_slice(), ',');
    let mut items: Vec<String> = Vec::new();
    let mut i: usize = 0;
    while i < parts.len()
        invariant
            i <= parts@.len(),
            string_views(items@) == list_items(views(parts@).take(i as int)),
        decreases parts@.len() - i,
    {
        let ghost pv = views(parts@);
        let ghost before = string_views(items@);
        proof {
            assert(pv.take(i + 1).drop_last() =~= pv.take(i as int));
            assert(pv.take(i + 1).last() == pv[i as int]);
        }
        let item = unquote(parts[i].as_slice());
        if item.len() > 0 {
            items.push(from_chars(item.as_slice()));
            assert(string_views(items@) =~= before.push(item@));
        }
        i = i + 1;
    }
    proof {
        assert(views(parts@).take(parts@.len() as int) =~= views(parts@));
    }
    if items.len() == 0 {
        None
    } else {
        Some(items)
    }
}

/// The items of `field` among the lines.
fn array_in_lines(lines: &[Vec<char>], field: &[char]) -> (r: Option<Vec<String>>)
    ensures
        match r {
            Some(v) => yaml_array(views(lines@), field@) == Some(string_views(v@)),
            None => yaml_array(views(lines@), field@) is None,
        },
{
    let mut i: usize = 0;
    assert(views(lines@).skip(0) =~= views(lines@));
    while i < lines.len()
        invariant
            i <= lines@.len(),
            yaml_array(views(lines@), field@) == yaml_array(views(lines@).skip(i as int), field@),
        decreases lines@.len() - i,
    {
        let ghost rest = views(lines@).skip(i as int);
        assert(rest[0] == lines@[i as int]@);
        assert(rest.drop_first() =~= views(lines@).skip(i + 1));
        match split_key_value(lines[i].as_slice()) {
            Some(kv) => {
                let v = kv.1;
                if same_chars(kv.0.as_slice(), field) && v.len() >= 2 && v[0] == '[' && v[v.len()
                    - 1] == ']' {
                    return items_of(v.as_slice());
                }
            },
            None => {},
        }
        i = i + 1;
    }
    None
}

/// The value of the first `field: value` line of `yaml`, trimmed and with
/// surrounding quotes removed.
pub fn extract_yaml_field(yaml: &str, field: &str) -> (r: Option<String>)
    ensures
        match r {
            Some(v) => yaml_field(lines_of(yaml@), field@) == Some(v@),
            None => yaml_field(lines_of(yaml@), field@) is None,
        },
{
    let lines = split_lines(to_chars(yaml).as_slice());
    let f = to_chars(field);
    match field_in_lines(lines.as_slice(), f.as_slice()) {
        Some(v) => Some(from_chars(v.as_slice())),
        None => None,
    }
}

/// The items of the first `field: [a, b, c]` line of `yaml`: split at
/// commas, trimmed, unquoted, empty ones dropped; `None` when none is left.
pub fn extract_yaml_array(yaml: &str, field: &str) -> (r: Option<Vec<String>>)
    ensures
        match r {
            Some(v) => yaml_array(lines_of(yaml@), field@) == Some(string_views(v@)),
            None => yaml_array(lines_of(yaml@), field@) is None,
        },
{
    let lines = split_lines(to_chars(yaml).as_slice());
    let f = to_chars(field);
    array_in_lines(lines.as_slice(), f.as_slice())
}

// ---------------------------------------------------------------- frontmatter

pub open spec fn dashes() -> Seq<char> {
    seq!['-', '-', '-']
}

/// The first line at or after `from` that is exactly `---`.
pub open spec fn dashes_from(lines: Seq<Seq<char>>, from: int) -> Option<int>
    decreases lines.len() - from,
{
    if from < 0 || from >= lines.len() {
        None
    } else if lines[from] == dashes() {
        Some(from)
    } else {
        dashes_from(lines, from + 1)
    }
}

/// The lines between a first line `---` and the next line `---`.
pub open spec fn frontmatter(lines: Seq<Seq<char>>) -> Option<Seq<Seq<char>>> {
    if lines.len() > 0 && lines[0] == dashes() {
        match dashes_from(lines, 1) {
            Some(k) => Some(lines.subrange(1, k)),
            None => None,
        }
    } else {
        None
    }
}

/// The components of a path that name something: empty and `.` ones dropped.
pub open spec fn named_segments(parts: Seq<Seq<char>>) -> Seq<Seq<char>>
    decreases parts.len(),
{
    if parts.len() == 0 {
        Seq::empty()
    } else {
        let prev = named_segments(parts.drop_last());
        let p = parts.last();
        if p.len() == 0 || p == seq!['.'] {
            prev
        } else {
            prev.push(p)
        }
    }
}

pub open spec fn path_segments(p: Seq<char>) -> Seq<Seq<char>> {
    named_segments(split_on(p, '/'))
}

/// The last component of a path, as `Path::file_name` gives it.
pub open spec fn title_from_path(p: Seq<char>) -> Seq<char> {
    let segs = path_segments(p);
    if segs.len() == 0 || segs.last() == seq!['.', '.'] {
        "Unknown Title"@
    } else {
        segs.last()
    }
}

/// The component after the first `10_videos` component that has one.
pub open spec fn segment_after(segs: Seq<Seq<char>>, marker: Seq<char>, from: int) -> Option<
    Seq<char>,
>
    decreases segs.len() - from,
{
    if from < 0 || from + 1 >= segs.len() {
        None
    } else if segs[from] == marker {
        Some(segs[from + 1])
    } else {
        segment_after(segs, marker, from + 1)
    }
}

/// The channel folder of a path under the videos directory, percent-decoded.
pub open spec fn channel_from_path(p: Seq<char>) -> Seq<char> {
    match segment_after(path_segments(p), "10_videos"@, 0) {
        Some(c) => lossy_decoded(c),
        None => "Unknown Channel"@,
    }
}

fn named_path_segments(p: &[char]) -> (r: Vec<Vec<char>>)
    ensures
        views(r@) == path_segments(p@),
{
    let parts = split_char(p, '/');
    let mut r: Vec<Vec<char>> = Vec::new();
    let mut i: usize = 0;
    while i < parts.len()
        invariant
            i <= parts@.len(),
            views(r@) == named_segments(views(parts@).take(i as int)),
        decreases parts@.len() - i,
    {
        let ghost pv = views(parts@);
        let ghost before = views(r@);
        proof {
            assert(pv.take(i + 1).drop_last() =~= pv.take(i as int));
            assert(pv.take(i + 1).last() == pv[i as int]);
        }
        let seg = &parts[i];
        let dot = seg.len() == 1 && seg[0] == '.';
        assert(dot == (seg@ == seq!['.'])) by {
            if seg@.len() == 1 {
                if seg@[0] == '.' {
                    assert(seg@ =~= seq!['.']);
                }
            }
        }
        if seg.len() > 0 && !dot {
            r.push(seg.clone());
            assert(views(r@) =~= before.push(pv[i as int]));
        }
        i = i + 1;
    }
    proof {
        assert(views(parts@).take(parts@.len() as int) =~= views(parts@));
    }
    r
}

/// The last component of `path`, or `Unknown Title`.
pub fn extract_title_from_path(path: &str) -> (r: String)
    ensures
        r@ == title_from_path(path@),
{
    let segs = named_path_segments(to_chars(path).as_slice());
    if segs.len() == 0 {
        let mut r = String::new();
        crate::text::push_str(&mut r, "Unknown Title");
        assert(r@ =~= "Unknown Title"@);
        return r;
    }
    let last = &segs[segs.len() - 1];
    let parent = last.len() == 2 && last[0] == '.' && last[1] == '.';
    assert(parent == (last@ == seq!['.', '.'])) by {
        if last@.len() == 2 && last@[0] == '.' && last@[1] == '.' {
            assert(last@ =~= seq!['.', '.']);
        }
    }
    if parent {
        let mut r = String::new();
        crate::text::push_str(&mut r, "Unknown Title");
        assert(r@ =~= "Unknown Title"@);
        return r;
    }
    from_chars(last.as_slice())
}

/// The percent-decoded component that follows `10_videos` in `path`, or
/// `Unknown Channel`.
pub fn extract_channel_from_path(path: &str) -> (r: String)
    ensures
        r@ == channel_from_path(path@),
{
    let segs = named_path_segments(to_chars(path).as_slice());
    let marker = to_chars("10_videos");
    let n = segs.len();
    let mut i: usize = 0;
    while i < n
        invariant
            i <= n,
            n == segs@.len(),
            views(segs@) == path_segments(path@),
            marker@ == "10_videos"@,
            segment_after(views(segs@), marker@, 0) == segment_after(views(segs@), marker@, i as int),
        decreases n - i,
    {
        if i + 1 < n && same_chars(segs[i].as_slice(), marker.as_slice()) {
            let d = decode_lossy(segs[i + 1].as_slice());
            return from_chars(d.as_slice());
        }
        i = i + 1;
    }
    let mut r = String::new();
    crate::text::push_str(&mut r, "Unknown Channel");
    assert(r@ =~= "Unknown Channel"@);
    r
}

// ---------------------------------------------------------------- metadata

/// What the frontmatter of a video's captions says about it.
#[derive(Debug, Clone)]
pub struct VideoMetadata {
    pub title: String,
    pub channel: String,
    pub upload_date: Option<String>,
    pub duration: Option<String>,
    pub duration_seconds: Option<u32>,
    pub view_count: Option<u32>,
    pub topic: Option<Vec<String>>,
    pub video_id: Option<String>,
    pub source_url: Option<String>,
    pub excerpt: Option<String>,
}

pub struct MetadataView {
    pub title: Seq<char>,
    pub channel: Seq<char>,
    pub upload_date: Option<Seq<char>>,
    pub duration: Option<Seq<char>>,
    pub duration_seconds: Option<u32>,
    pub view_count: Option<u32>,
    pub topic: Option<Seq<Seq<char>>>,
    pub video_id: Option<Seq<char>>,
    pub source_url: Option<Seq<char>>,
    pub excerpt: Option<Seq<char>>,
}

pub open spec fn opt_view(o: Option<String>) -> Option<Seq<char>> {
    match o {
        Some(s) => Some(s@),
        None => None,
    }
}

impl View for VideoMetadata {
    type V = MetadataView;

    open spec fn view(&self) -> MetadataView {
        MetadataView {
            title: self.title@,
            channel: self.channel@,
            upload_date: opt_view(self.upload_date),
            duration: opt_view(self.duration),
            duration_seconds: self.duration_seconds,
            view_count: self.view_count,
            topic: match self.topic {
                Some(v) => Some(string_views(v@)),
                None => None,
            },
            video_id: opt_view(self.video_id),
            source_url: opt_view(self.source_url),
            excerpt: opt_view(self.excerpt),
        }
    }
}

pub open spec fn or_default(o: Option<Seq<char>>, d: Seq<char>) -> Seq<char> {
    match o {
        Some(v) => v,
        None => d,
    }
}

pub open spec fn parsed_count(o: Option<Seq<char>>) -> Option<u32> {
    match o {
        Some(v) => parse_u32_spec(v),
        None => None,
    }
}

/// The defaults that a path gives: its last component as title, its channel
/// folder as channel, nothing else.
pub open spec fn path_metadata(p: Seq<char>) -> MetadataView {
    MetadataView {
        title: title_from_path(p),
        channel: channel_from_path(p),
        upload_date: None,
        duration: None,
        duration_seconds: None,
        view_count: None,
        topic: None,
        video_id: None,
        source_url: None,
        excerpt: None,
    }
}

/// The metadata of a captions file with content `c` in folder `folder`;
/// a missing title or channel falls back to what the folder's path gives.
pub open spec fn metadata_spec(c: Seq<char>, folder: Seq<char>) -> MetadataView {
    match frontmatter(lines_of(c)) {
        Some(y) => MetadataView {
            title: or_default(yaml_field(y, "title"@), title_from_path(folder)),
            channel: or_default(yaml_field(y, "channel"@), channel_from_path(folder)),
            upload_date: yaml_field(y, "upload"@),
            duration: yaml_field(y, "duration"@),
            duration_seconds: parsed_count(yaml_field(y, "duration_seconds"@)),
            view_count: parsed_count(yaml_field(y, "view_count"@)),
            topic: yaml_array(y, "topic"@),
            video_id: yaml_field(y, "video_id"@),
            source_url: yaml_field(y, "source_url"@),
            excerpt: yaml_field(y, "excerpt"@),
        },
        None => path_metadata(folder),
    }
}

fn field_string(lines: &[Vec<char>], field: &str) -> (r: Option<String>)
    ensures
        opt_view(r) == yaml_field(views(lines@), field@),
{
    match field_in_lines(lines, to_chars(field).as_slice()) {
        Some(v) => Some(from_chars(v.as_slice())),
        None => None,
    }
}

fn field_count(lines: &[Vec<char>], field: &str) -> (r: Option<u32>)
    ensures
        r == parsed_count(yaml_field(views(lines@), field@)),
{
    match field_in_lines(lines, to_chars(field).as_slice()) {
        Some(v) => parse_u32(v.as_slice()),
        None => None,
    }
}

/// The lines strictly between the opening `---` and the closing one.
fn frontmatter_lines(lines: &Vec<Vec<char>>) -> (r: Option<Vec<Vec<char>>>)
    ensures
        match r {
            Some(y) => frontmatter(views(lines@)) == Some(views(y@)),
            None => frontmatter(views(lines@)) is None,
        },
{
    let d = vec!['-', '-', '-'];
    if lines.len() == 0 || !same_chars(lines[0].as_slice(), d.as_slice()) {
        return None;
    }
    let mut k: usize = 1;
    while k < lines.len() && !same_chars(lines[k].as_slice(), d.as_slice())
        invariant
            1 <= k <= lines@.len(),
            d@ == dashes(),
            dashes_from(views(lines@), 1) == dashes_from(views(lines@), k as int),
        decreases lines@.len() - k,
    {
        k = k + 1;
    }
    if k == lines.len() {
        return None;
    }
    let mut y: Vec<Vec<char>> = Vec::new();
    let mut i: usize = 1;
    while i < k
        invariant
            1 <= i <= k < lines@.len(),
            views(y@) == views(lines@).subrange(1, i as int),
        decreases k - i,
    {
        let ghost before = views(y@);
        let line = lines[i].clone();
        assert(line@ == lines@[i as int]@);
        y.push(line);
        assert(views(y@) =~= before.push(lines@[i as int]@));
        assert(views(y@) =~= views(lines@).subrange(1, i + 1));
        i = i + 1;
    }
    Some(y)
}

/// The metadata of a video from the content of its `captions.md`: the
/// frontmatter's fields where it has one, else the defaults of `folder`.
pub fn parse_markdown_metadata(content: &str, folder: &str) -> (r: VideoMetadata)
    ensures
        r@ == metadata_spec(content@, folder@),
{
    let lines = split_lines(to_chars(content).as_slice());
    match frontmatter_lines(&lines) {
        Some(y) => {
            let y = y.as_slice();
            VideoMetadata {
                title: match field_string(y, "title") {
                    Some(t) => t,
                    None => extract_title_from_path(folder),
                },
                channel: match field_string(y, "channel") {
                    Some(c) => c,
                    None => extract_channel_from_path(folder),
                },
                upload_date: field_string(y, "upload"),
                duration: field_string(y, "duration"),
                duration_seconds: field_count(y, "duration_seconds"),
                view_count: field_count(y, "view_count"),
                topic: array_in_lines(y, to_chars("topic").as_slice()),
                video_id: field_string(y, "video_id"),
                source_url: field_string(y, "source_url"),
                excerpt: field_string(y, "excerpt"),
            }
        },
        None => metadata_from_path(folder),
    }
}

/// The defaults that `path` gives.
pub fn metadata_from_path(path: &str) -> (r: VideoMetadata)
    ensures
        r@ == path_metadata(path@),
{
    VideoMetadata {
        title: extract_title_from_path(path),
        channel: extract_channel_from_path(path),
        upload_date: None,
        duration: None,
        duration_seconds: None,
        view_count: None,
        topic: None,
        video_id: None,
        source_url: None,
        excerpt: None,
    }
}

} // verus!
