//! Where things are: the project root found from the working directory, and
//! the paths derived from it. Nothing here looks at the disk.
use vstd::prelude::*;
use crate::text::{
    ends_with, find_first, find_spec, from_chars, has_suffix, is_ascii_digit, is_digit,
    last_index_of, lemma_last_index_of, push_str, rfind_char, sub_vec, to_chars, matches_at,
};

verus! {

/// The last component of a path: what follows its last `/`.
pub open spec fn base_name(p: Seq<char>) -> Seq<char> {
    p.skip(last_index_of(p, '/') + 1)
}

/// The folder that holds a path, as `Path::parent` gives it; `None` for the
/// root and for an empty path.
pub open spec fn parent_dir(p: Seq<char>) -> Option<Seq<char>> {
    let i = last_index_of(p, '/');
    if p.len() == 0 || p == seq!['/'] {
        None
    } else if i < 0 {
        Some(Seq::empty())
    } else if i == 0 {
        Some(seq!['/'])
    } else {
        Some(p.take(i))
    }
}

/// The project root for a working directory: two levels up from the native
/// backend folder, one up from the app folder, the part before `/app/` when
/// the path passes through it, else the directory itself.
pub open spec fn project_root_spec(cwd: Seq<char>) -> Seq<char> {
    let name = base_name(cwd);
    if name == "src-tauri"@ {
        match parent_dir(cwd) {
            Some(up) => match parent_dir(up) {
                Some(up_again) => up_again,
                None => cwd,
            },
            None => cwd,
        }
    } else if name == "app"@ {
        match parent_dir(cwd) {
            Some(up) => up,
            None => cwd,
        }
    } else {
        match find_spec(cwd, "/app/"@, 0) {
            Some(i) => cwd.take(i),
            None => cwd,
        }
    }
}

fn same_text(a: &[char], b: &str) -> (r: bool)
    ensures
        r == (a@ == b@),
{
    let bc = to_chars(b);
    let r = a.len() == bc.len() && matches_at(a, bc.as_slice(), 0);
    proof {
        if a@.len() == bc@.len() {
            assert(a@.subrange(0, bc@.len() as int) =~= a@);
        }
    }
    r
}

fn parent_of(p: &[char]) -> (r: Option<Vec<char>>)
    ensures
        match r {
            Some(q) => parent_dir(p@) == Some(q@),
            None => parent_dir(p@) is None,
        },
{
    proof {
        lemma_last_index_of(p@, '/');
    }
    if p.len() == 0 || (p.len() == 1 && p[0] == '/') {
        assert(p@.len() == 1 && p@[0] == '/' ==> p@ =~= seq!['/']);
        return None;
    }
    assert(p@ != seq!['/']) by {
        if p@ == seq!['/'] {
            assert(p@.len() == 1 && p@[0] == '/');
        }
    }
    match rfind_char(p, '/') {
        None => Some(Vec::new()),
        Some(i) => {
            if i == 0 {
                let r = vec!['/'];
                Some(r)
            } else {
                Some(sub_vec(p, 0, i))
            }
        },
    }
}

/// Finds the project root from the working directory's path.
pub fn project_root_of(cwd: &str) -> (r: String)
    ensures
        r@ == project_root_spec(cwd@),
{
    let c = to_chars(cwd);
    proof {
        lemma_last_index_of(c@, '/');
    }
    let start: usize = match rfind_char(c.as_slice(), '/') {
        Some(i) => i + 1,
        None => 0,
    };
    let name = sub_vec(c.as_slice(), start, c.len());
    assert(name@ =~= base_name(c@));
    if same_text(name.as_slice(), "src-tauri") {
        match parent_of(c.as_slice()) {
            Some(up) => match parent_of(up.as_slice()) {
                Some(up_again) => from_chars(up_again.as_slice()),
                None => from_chars(c.as_slice()),
            },
            None => from_chars(c.as_slice()),
        }
    } else if same_text(name.as_slice(), "app") {
        match parent_of(c.as_slice()) {
            Some(up) => from_chars(up.as_slice()),
            None => from_chars(c.as_slice()),
        }
    } else {
        let marker = to_chars("/app/");
        match find_first(c.as_slice(), marker.as_slice(), 0) {
            Some(i) => {
                proof {
                    crate::grammar::lemma_find_spec(c@, marker@, 0);
                }
                let head = sub_vec(c.as_slice(), 0, i);
                assert(head@ =~= c@.take(i as int));
                from_chars(head.as_slice())
            },
            None => from_chars(c.as_slice()),
        }
    }
}

/// `base` and `rel` joined with one `/`.
pub open spec fn join_spec(base: Seq<char>, rel: Seq<char>) -> Seq<char> {
    if base.len() > 0 && base.last() == '/' {
        base + rel
    } else {
        base.push('/') + rel
    }
}

pub fn join_path(base: &str, rel: &str) -> (r: String)
    ensures
        r@ == join_spec(base@, rel@),
{
    let b = to_chars(base);
    let mut r = from_chars(b.as_slice());
    if !(b.len() > 0 && b[b.len() - 1] == '/') {
        crate::text::push_char(&mut r, '/');
    }
    push_str(&mut r, rel);
    r
}

/// The paths under a project root that the backend uses.
#[derive(Debug, Clone)]
pub struct ProjectPaths {
    root: String,
}

impl View for ProjectPaths {
    type V = Seq<char>;

    closed spec fn view(&self) -> Seq<char> {
        self.root@
    }
}

impl ProjectPaths {
    /// The paths of the project that contains the working directory `cwd`.
    pub fn from_working_dir(cwd: &str) -> (r: ProjectPaths)
        ensures
            r@ == project_root_spec(cwd@),
    {
        ProjectPaths { root: project_root_of(cwd) }
    }

    pub fn root(&self) -> (r: String)
        ensures
            r@ == self@,
    {
        self.root.clone()
    }

    /// `<root>/<rel>`.
    pub fn under_root(&self, rel: &str) -> (r: String)
        ensures
            r@ == join_spec(self@, rel@),
    {
        join_path(self.root.as_str(), rel)
    }

    pub fn vault(&self) -> (r: String)
        ensures
            r@ == join_spec(self@, "vault"@),
    {
        self.under_root("vault")
    }

    /// Where the videos lie, one folder per channel.
    pub fn videos_dir(&self) -> (r: String)
        ensures
            r@ == join_spec(self@, "vault/10_videos"@),
    {
        self.under_root("vault/10_videos")
    }

    /// Where the worker scripts and the indices lie.
    pub fn indices_dir(&self) -> (r: String)
        ensures
            r@ == join_spec(self@, "vault/90_indices"@),
    {
        self.under_root("vault/90_indices")
    }

    /// Where the downloader leaves partial files.
    pub fn staging_dir(&self) -> (r: String)
        ensures
            r@ == join_spec(self@, "vault/downloads"@),
    {
        self.under_root("vault/downloads")
    }

    pub fn channels_file(&self) -> (r: String)
        ensures
            r@ == join_spec(self@, "channels.txt"@),
    {
        self.under_root("channels.txt")
    }

    /// A worker script under the indices folder.
    pub fn script(&self, name: &str) -> (r: String)
        ensures
            r@ == join_spec(join_spec(self@, "vault/90_indices"@), name@),
    {
        let d = self.indices_dir();
        join_path(d.as_str(), name)
    }

    /// The interpreter that the downloader runs under: `python3` of the
    /// virtual environment on POSIX.
    pub fn downloader_python(&self, windows: bool) -> (r: String)
        ensures
            r@ == join_spec(
                self@,
                if windows {
                    "venv/Scripts/python.exe"@
                } else {
                    "venv/bin/python3"@
                },
            ),
    {
        if windows {
            self.under_root("venv/Scripts/python.exe")
        } else {
            self.under_root("venv/bin/python3")
        }
    }

    /// The virtual environment's interpreter.
    pub fn python(&self, windows: bool) -> (r: String)
        ensures
            r@ == join_spec(
                self@,
                if windows {
                    "venv/Scripts/python.exe"@
                } else {
                    "venv/bin/python"@
                },
            ),
    {
        if windows {
            self.under_root("venv/Scripts/python.exe")
        } else {
            self.under_root("venv/bin/python")
        }
    }
}

// ---------------------------------------------------------------- staging

/// Length of the run of digits that `s` ends with.
pub open spec fn trailing_digits(s: Seq<char>) -> nat
    decreases s.len(),
{
    if s.len() > 0 && is_digit(s.last()) {
        1 + trailing_digits(s.drop_last())
    } else {
        0
    }
}

/// `stem` ends with `.f` and one or more digits, as a downloader's format
/// stream does.
pub open spec fn has_format_suffix(stem: Seq<char>) -> bool {
    let k = trailing_digits(stem);
    k > 0 && stem.len() >= k + 2 && stem[stem.len() - k - 1] == 'f' && stem[stem.len() - k - 2]
        == '.'
}

/// A partial download: `*.part`, `*.ytdl`, `*.tmp`, or a format stream
/// `*.fNN.mp4` / `*.fNN.webm`.
pub open spec fn is_residue(name: Seq<char>) -> bool {
    ends_with(name, ".part"@) || ends_with(name, ".ytdl"@) || ends_with(name, ".tmp"@) || (
    ends_with(name, ".mp4"@) && has_format_suffix(name.take(name.len() - ".mp4"@.len())))
        || (ends_with(name, ".webm"@) && has_format_suffix(
        name.take(name.len() - ".webm"@.len()),
    ))
}

fn format_suffix(stem: &[char]) -> (r: bool)
    ensures
        r == has_format_suffix(stem@),
{
    let mut i: usize = stem.len();
    assert(stem@.take(i as int) =~= stem@);
    while i > 0 && is_ascii_digit(stem[i - 1])
        invariant
            i <= stem@.len(),
            trailing_digits(stem@) == (stem@.len() - i) + trailing_digits(stem@.take(i as int)),
        decreases i,
    {
        assert(stem@.take(i as int).drop_last() =~= stem@.take(i - 1));
        i = i - 1;
    }
    proof {
        if i > 0 {
            assert(stem@.take(i as int).last() == stem@[i - 1]);
        }
    }
    let k = stem.len() - i;
    k > 0 && i >= 2 && stem[i - 1] == 'f' && stem[i - 2] == '.'
}

/// Whether a file of the staging folder is left over from an unfinished
/// download and should be removed.
pub fn is_staging_residue(file_name: &str) -> (r: bool)
    ensures
        r == is_residue(file_name@),
{
    let n = to_chars(file_name);
    let part = to_chars(".part");
    let ytdl = to_chars(".ytdl");
    let tmp = to_chars(".tmp");
    let mp4 = to_chars(".mp4");
    let webm = to_chars(".webm");
    if has_suffix(n.as_slice(), part.as_slice()) || has_suffix(n.as_slice(), ytdl.as_slice())
        || has_suffix(n.as_slice(), tmp.as_slice()) {
        return true;
    }
    if has_suffix(n.as_slice(), mp4.as_slice()) {
        let stem = sub_vec(n.as_slice(), 0, n.len() - mp4.len());
        assert(stem@ =~= n@.take(n@.len() - mp4@.len()));
        if format_suffix(stem.as_slice()) {
            return true;
        }
    }
    if has_suffix(n.as_slice(), webm.as_slice()) {
        let stem = sub_vec(n.as_slice(), 0, n.len() - webm.len());
        assert(stem@ =~= n@.take(n@.len() - webm@.len()));
        return format_suffix(stem.as_slice());
    }
    false
}

} // verus!
