//! Request handling of the loopback media endpoint: which file a request
//! names, which bytes of it go out, and with which status and headers.
use vstd::prelude::*;
use vstd::utf8::encode_utf8;
use crate::text::{
    decimal, from_chars, index_of, last_index_of, lemma_last_index_of, matches_at, occurs_at, parse_u64, parse_u64_spec, push_decimal, push_str, rfind_char, starts_with, has_prefix, find_char_from, sub_vec, to_chars, contains, find_from,
};
use crate::urlenc::{decode_lossy, encode_component, lossy_decoded, percent_encoded};

verus! {

// ---------------------------------------------------------------- ranges

/// What `parse_range_header` reads from a `Range` header for a file of `n`
/// bytes: the inclusive bounds, `0` and `n - 1` where a bound is missing or
/// unreadable, the end clamped to `n - 1`.
pub open spec fn range_bounds(h: Option<Seq<char>>, n: u64) -> (u64, u64) {
    let last = (n - 1) as u64;
    match h {
        Some(r) => {
            if starts_with(r, "bytes="@) {
                let v = r.skip("bytes="@.len() as int);
                let k = index_of(v, '-');
                if k < v.len() {
                    let a = v.take(k as int);
                    let b = v.skip(k + 1 as int);
                    let start = match parse_u64_spec(a) {
                        Some(x) => x,
                        None => 0,
                    };
                    let end = if b.len() == 0 {
                        last
                    } else {
                        match parse_u64_spec(b) {
                            Some(y) => if y < last {
                                y
                            } else {
                                last
                            },
                            None => last,
                        }
                    };
                    (start, end)
                } else {
                    (0, last)
                }
            } else {
                (0, last)
            }
        },
        None => (0, last),
    }
}

/// Reads `Range: bytes=START-END` for a file of `file_size` bytes. Either
/// bound may be missing; the end is clamped to the last byte.
pub fn parse_range_header(range_header: Option<&str>, file_size: u64) -> (r: (u64, u64))
    requires
        file_size > 0,
    ensures
        r == range_bounds(
            match range_header {
                Some(h) => Some(h@),
                None => None,
            },
            file_size,
        ),
{
    let last = file_size - 1;
    match range_header {
        None => (0, last),
        Some(h) => {
            let r = to_chars(h);
            let p = to_chars("bytes=");
            if !has_prefix(r.as_slice(), p.as_slice()) {
                return (0, last);
            }
            let v = sub_vec(r.as_slice(), p.len(), r.len());
            assert(v@ =~= r@.skip(p@.len() as int));
            let k = find_char_from(v.as_slice(), '-', 0);
            assert(v@.skip(0) =~= v@);
            if k == v.len() {
                return (0, last);
            }
            let a = sub_vec(v.as_slice(), 0, k);
            let b = sub_vec(v.as_slice(), k + 1, v.len());
            assert(a@ =~= v@.take(k as int));
            assert(b@ =~= v@.skip(k + 1 as int));
            let start = match parse_u64(a.as_slice()) {
                Some(x) => x,
                None => 0,
            };
            let end = if b.len() == 0 {
                last
            } else {
                match parse_u64(b.as_slice()) {
                    Some(y) => if y < last {
                        y
                    } else {
                        last
                    },
                    None => last,
                }
            };
            (start, end)
        },
    }
}

/// `bytes A-B/N`.
pub open spec fn content_range_text(a: u64, b: u64, n: u64) -> Seq<char> {
    "bytes "@ + decimal(a as nat) + seq!['-'] + decimal(b as nat) + seq!['/'] + decimal(n as nat)
}

/// `bytes */N`, the reply to a range that lies outside the file.
pub open spec fn unsatisfiable_range_text(n: u64) -> Seq<char> {
    "bytes */"@ + decimal(n as nat)
}

/// How a request for a file of `n` bytes is answered, as (status, offset of
/// the body in the file, body length, `Content-Range` value).
pub open spec fn reply_spec(h: Option<Seq<char>>, n: u64) -> (u16, u64, u64, Option<Seq<char>>) {
    if n == 0 {
        (200, 0, 0, None)
    } else {
        let (a, b) = range_bounds(h, n);
        if a > b {
            (416, 0, 0, Some(unsatisfiable_range_text(n)))
        } else if h is Some && (a != 0 || b + 1 != n) {
            (206, a, (b - a + 1) as u64, Some(content_range_text(a, b, n)))
        } else {
            (200, 0, n, None)
        }
    }
}

/// The answer to a request for a file: status, the bytes of the file that
/// form the body, and the `Content-Range` header where one is sent.
#[derive(Debug, Clone)]
pub struct RangeReply {
    /// 200 for the whole file, 206 for a part of it, 416 for a range that
    /// lies outside the file.
    pub status: u16,
    /// Where the body starts in the file.
    pub offset: u64,
    /// How many bytes the body holds; also the `Content-Length`.
    pub length: u64,
    pub content_range: Option<String>,
}

pub open spec fn reply_view(r: RangeReply) -> (u16, u64, u64, Option<Seq<char>>) {
    (
        r.status,
        r.offset,
        r.length,
        match r.content_range {
            Some(s) => Some(s@),
            None => None,
        },
    )
}

/// Decides the answer to a request with the given `Range` header for a file
/// of `file_size` bytes: 200 with the whole file when the header is absent
/// or covers the whole file, 206 with the range otherwise, 416 when the
/// range starts past its end.
pub fn plan_range_reply(range_header: Option<&str>, file_size: u64) -> (r: RangeReply)
    ensures
        reply_view(r) == reply_spec(
            match range_header {
                Some(h) => Some(h@),
                None => None,
            },
            file_size,
        ),
{
    if file_size == 0 {
        return RangeReply { status: 200, offset: 0, length: 0, content_range: None };
    }
    let (a, b) = parse_range_header(range_header, file_size);
    if a > b {
        let mut cr = String::new();
        push_str(&mut cr, "bytes */");
        push_decimal(&mut cr, file_size);
        return RangeReply { status: 416, offset: 0, length: 0, content_range: Some(cr) };
    }
    if range_header.is_some() && (a != 0 || b + 1 != file_size) {
        let mut cr = String::new();
        push_str(&mut cr, "bytes ");
        push_decimal(&mut cr, a);
        crate::text::push_char(&mut cr, '-');
        push_decimal(&mut cr, b);
        crate::text::push_char(&mut cr, '/');
        push_decimal(&mut cr, file_size);
        proof {
            assert(cr@ =~= content_range_text(a, b, file_size));
        }
        RangeReply { status: 206, offset: a, length: b - a + 1, content_range: Some(cr) }
    } else {
        RangeReply { status: 200, offset: 0, length: file_size, content_range: None }
    }
}

/// A request for bytes `a` to `b` of a file of `n` bytes, with
/// `0 <= a <= b <= n - 1` and not the whole file, is answered 206 with exactly
/// those bytes and `Content-Range: bytes a-b/n`.
pub proof fn lemma_range_reply_exact(a: u64, b: u64, n: u64)
    requires
        a <= b,
        b < n,
        a != 0 || b + 1 != n,
    ensures
        reply_spec(Some("bytes="@ + decimal(a as nat) + seq!['-'] + decimal(b as nat)), n) == (
            206u16,
            a,
            (b - a + 1) as u64,
            Some(content_range_text(a, b, n)),
        ),
{
    let p = "bytes="@;
    let h = p + decimal(a as nat) + seq!['-'] + decimal(b as nat);
    assert(h.take(p.len() as int) =~= p);
    let v = h.skip(p.len() as int);
    assert(v =~= decimal(a as nat) + seq!['-'] + decimal(b as nat));
    lemma_decimal_digits(a as nat);
    lemma_decimal_digits(b as nat);
    let da = decimal(a as nat);
    assert forall|j: int| 0 <= j < da.len() implies v[j] != '-' by {
        assert(v[j] == da[j]);
        assert(crate::text::is_digit(da[j]));
    }
    assert(v[da.len() as int] == '-');
    crate::text::lemma_index_of_at(v, '-', da.len() as int);
    assert(v.take(da.len() as int) =~= da);
    assert(v.skip(da.len() + 1 as int) =~= decimal(b as nat));
    lemma_parse_decimal(a);
    lemma_parse_decimal(b);
}

/// The decimal form of a number is a non-empty run of digits.
pub proof fn lemma_decimal_digits(n: nat)
    ensures
        decimal(n).len() > 0,
        crate::text::all_digits(decimal(n)),
        decimal(n)[0] != '+',
    decreases n,
{
    if n >= 10 {
        lemma_decimal_digits(n / 10);
        let d = decimal(n / 10);
        assert forall|i: int| 0 <= i < decimal(n).len() implies crate::text::is_digit(
            #[trigger] decimal(n)[i],
        ) by {
            if i < d.len() {
                assert(decimal(n)[i] == d[i]);
            }
        }
        assert(decimal(n)[0] == d[0]);
    }
}

/// Reading the decimal form of a number gives the number back.
pub proof fn lemma_parse_decimal(n: u64)
    ensures
        parse_u64_spec(decimal(n as nat)) == Some(n),
{
    lemma_decimal_value(n as nat);
    lemma_decimal_digits(n as nat);
}

pub proof fn lemma_decimal_value(n: nat)
    ensures
        crate::text::digits_value(decimal(n)) == n,
    decreases n,
{
    crate::text::lemma_digit_char(n);
    crate::text::lemma_digit_char(n % 10);
    assert((n % 10) % 10 == n % 10);
    if n >= 10 {
        lemma_decimal_value(n / 10);
        assert(decimal(n).drop_last() =~= decimal(n / 10));
        assert(decimal(n).last() == crate::text::digit_char(n % 10));
        assert((n / 10) * 10 + n % 10 == n) by (nonlinear_arith);
        let d = decimal(n);
        assert(d.len() > 0);
        assert(crate::text::digits_value(d) == crate::text::digits_value(d.drop_last()) * 10
            + crate::text::digit_value(d.last()));
        assert(crate::text::digits_value(d.drop_last()) == n / 10);
        assert(crate::text::digit_value(d.last()) == n % 10);
    } else {
        let d = decimal(n);
        assert(d =~= seq![crate::text::digit_char(n)]);
        assert(d.drop_last() =~= Seq::<char>::empty());
        assert(crate::text::digits_value(d) == crate::text::digits_value(d.drop_last()) * 10
            + crate::text::digit_value(d.last()));
        assert(n % 10 == n);
    }
}

// ---------------------------------------------------------------- paths

pub open spec fn is_separator(c: char) -> bool {
    c == '/' || c == '\\'
}

pub open spec fn strip_separators(s: Seq<char>) -> Seq<char>
    decreases s.len(),
{
    if s.len() > 0 && is_separator(s[0]) {
        strip_separators(s.drop_first())
    } else {
        s
    }
}

/// Whether `..` stands in `s` as a whole path segment.
pub open spec fn has_parent_segment(s: Seq<char>) -> bool {
    exists|i: int| parent_segment_at(s, i)
}

/// Whether a `..` segment starts at `i`.
pub open spec fn parent_segment_at(s: Seq<char>, i: int) -> bool {
    occurs_at(s, seq!['.', '.'], i) && (i == 0 || is_separator(s[i - 1])) && (i + 2 == s.len()
        || is_separator(s[i + 2]))
}

/// The path under the vault that a request tail names: refused when the raw
/// tail holds `..`, or when its decoded form holds a `..` segment; leading
/// separators dropped so that the path stays relative.
pub open spec fn resolve_spec(tail: Seq<char>) -> Option<Seq<char>> {
    let d = lossy_decoded(tail);
    let p = strip_separators(d);
    if contains(tail, seq!['.', '.']) || has_parent_segment(d) || has_parent_segment(p) {
        None
    } else {
        Some(p)
    }
}

pub fn is_path_separator(c: char) -> (r: bool)
    ensures
        r == is_separator(c),
{
    c == '/' || c == '\\'
}

pub fn contains_parent_segment(s: &[char]) -> (r: bool)
    ensures
        r == has_parent_segment(s@),
{
    let dots = vec!['.', '.'];
    let mut i: usize = 0;
    while i < s.len()
        invariant
            i <= s@.len(),
            dots@ == seq!['.', '.'],
            forall|j: int| 0 <= j < i ==> !parent_segment_at(s@, j),
        decreases s@.len() - i,
    {
        if matches_at(s, dots.as_slice(), i) {
            let before = i == 0 || is_path_separator(s[i - 1]);
            let after = i + 2 == s.len() || is_path_separator(s[i + 2]);
            if before && after {
                assert(parent_segment_at(s@, i as int));
                return true;
            }
        }
        i = i + 1;
    }
    assert forall|j: int| j >= s@.len() implies !parent_segment_at(s@, j) by {}
    false
}

fn strip_leading_separators(s: &[char]) -> (r: Vec<char>)
    ensures
        r@ == strip_separators(s@),
{
    let mut lo: usize = 0;
    assert(s@.skip(0) =~= s@);
    while lo < s.len() && is_path_separator(s[lo])
        invariant
            lo <= s@.len(),
            strip_separators(s@) == strip_separators(s@.skip(lo as int)),
        decreases s@.len() - lo,
    {
        assert(s@.skip(lo as int).drop_first() =~= s@.skip(lo + 1));
        lo = lo + 1;
    }
    let r = sub_vec(s, lo, s.len());
    assert(r@ =~= s@.skip(lo as int));
    r
}

/// The path under the vault that the tail of `GET /video/<tail>` names, or
/// `None` (answered 404) when it tries to leave the vault.
pub fn resolve_media_path(tail: &str) -> (r: Option<String>)
    ensures
        match r {
            Some(p) => resolve_spec(tail@) == Some(p@),
            None => resolve_spec(tail@) is None,
        },
{
    let t = to_chars(tail);
    let dots = vec!['.', '.'];
    if find_from(t.as_slice(), dots.as_slice(), 0).is_some() {
        return None;
    }
    assert(!contains(t@, seq!['.', '.'])) by {
        if contains(t@, seq!['.', '.']) {
            let i = choose|i: int| occurs_at(t@, seq!['.', '.'], i);
            assert(dots@ == seq!['.', '.']);
        }
    }
    let d = decode_lossy(t.as_slice());
    let p = strip_leading_separators(d.as_slice());
    if contains_parent_segment(d.as_slice()) || contains_parent_segment(p.as_slice()) {
        return None;
    }
    Some(from_chars(p.as_slice()))
}

/// A request whose decoded path holds a `..` segment is refused, and a path
/// that is accepted holds no `..` segment and does not start at the root.
pub proof fn lemma_no_path_escape(tail: Seq<char>)
    ensures
        has_parent_segment(lossy_decoded(tail)) ==> resolve_spec(tail) is None,
        resolve_spec(tail) is Some ==> !has_parent_segment(resolve_spec(tail)->0) && (
        resolve_spec(tail)->0.len() == 0 || !is_separator(resolve_spec(tail)->0[0])),
{
    lemma_strip_separators(lossy_decoded(tail));
}

proof fn lemma_strip_separators(s: Seq<char>)
    ensures
        strip_separators(s).len() == 0 || !is_separator(strip_separators(s)[0]),
    decreases s.len(),
{
    if s.len() > 0 && is_separator(s[0]) {
        lemma_strip_separators(s.drop_first());
    }
}

// ---------------------------------------------------------------- content type

/// Relies on `mime_guess::from_ext(ext).first_or_octet_stream()`: a fixed
/// table from extension to MIME type; no extension gives
/// `application/octet-stream`.
pub uninterp spec fn guessed_mime(ext: Seq<char>) -> Seq<char>;

/// Relies on `mime_guess::from_ext` and `MimeGuess::first_or_octet_stream`:
/// the first MIME type registered for the extension, else
/// `application/octet-stream`.
#[verifier::external_body]
fn guess_mime(ext: &str) -> (r: String)
    ensures
        r@ == guessed_mime(ext@),
        ext@.len() == 0 ==> r@ == "application/octet-stream"@,
{
    mime_guess::from_ext(ext).first_or_octet_stream().to_string()
}

/// The extension of the path's last component, as `Path::extension` reads
/// it; empty when there is none.
pub open spec fn extension_of(path: Seq<char>) -> Seq<char> {
    let name = path.skip(last_index_of(path, '/') + 1);
    let dot = last_index_of(name, '.');
    if dot > 0 {
        name.skip(dot + 1)
    } else {
        Seq::empty()
    }
}

pub open spec fn content_type_spec(path: Seq<char>) -> Seq<char> {
    let ext = extension_of(path);
    if ext == "mp4"@ {
        "video/mp4"@
    } else {
        guessed_mime(ext)
    }
}

/// The `Content-Type` of a served file: `video/mp4` for `.mp4`, otherwise the
/// type registered for its extension, `application/octet-stream` by default.
pub fn content_type_for(path: &str) -> (r: String)
    ensures
        r@ == content_type_spec(path@),
{
    let p = to_chars(path);
    let n = p.len();
    proof {
        lemma_last_index_of(p@, '/');
    }
    let start: usize = match rfind_char(p.as_slice(), '/') {
        Some(i) => {
            assert(i < n);
            i + 1
        },
        None => 0,
    };
    let name = sub_vec(p.as_slice(), start, p.len());
    assert(name@ =~= p@.skip(last_index_of(p@, '/') + 1));
    proof {
        lemma_last_index_of(name@, '.');
    }
    let ext: Vec<char> = match rfind_char(name.as_slice(), '.') {
        Some(d) => if d > 0 {
            sub_vec(name.as_slice(), d + 1, name.len())
        } else {
            Vec::new()
        },
        None => Vec::new(),
    };
    assert(ext@ =~= extension_of(p@));
    let mp4 = to_chars("mp4");
    if ext.len() == mp4.len() && matches_at(ext.as_slice(), mp4.as_slice(), 0) {
        assert(ext@ =~= mp4@) by {
            assert(ext@.subrange(0, mp4@.len() as int) =~= ext@);
        }
        let mut r = String::new();
        push_str(&mut r, "video/mp4");
        assert(r@ =~= "video/mp4"@);
        r
    } else {
        assert(ext@ != "mp4"@) by {
            if ext@ == "mp4"@ {
                assert(ext@.subrange(0, mp4@.len() as int) =~= ext@);
            }
        }
        let e = from_chars(ext.as_slice());
        guess_mime(e.as_str())
    }
}

// ---------------------------------------------------------------- URLs

pub open spec fn without_vault_prefix(p: Seq<char>) -> Seq<char> {
    if starts_with(p, "vault/"@) {
        p.skip("vault/"@.len() as int)
    } else {
        p
    }
}

pub open spec fn video_url_spec(port: u16, video_path: Seq<char>) -> Seq<char> {
    "http://127.0.0.1:"@ + decimal(port as nat) + "/video/"@ + percent_encoded(
        encode_utf8(without_vault_prefix(video_path)),
    )
}

/// The URL under which the media endpoint on `port` serves `video_path`: a
/// leading `vault/` dropped, the rest percent-encoded as one segment.
pub fn video_url(port: u16, video_path: &str) -> (r: String)
    ensures
        r@ == video_url_spec(port, video_path@),
{
    let p = to_chars(video_path);
    let v = to_chars("vault/");
    let rest = if has_prefix(p.as_slice(), v.as_slice()) {
        sub_vec(p.as_slice(), v.len(), p.len())
    } else {
        sub_vec(p.as_slice(), 0, p.len())
    };
    assert(rest@ =~= without_vault_prefix(p@));
    let rest_s = from_chars(rest.as_slice());
    let enc = encode_component(rest_s.as_str());
    let mut r = String::new();
    push_str(&mut r, "http://127.0.0.1:");
    push_decimal(&mut r, port as u64);
    push_str(&mut r, "/video/");
    push_str(&mut r, enc.as_str());
    r
}

// ---------------------------------------------------------------- server slot

#[derive(Debug, Clone, Copy, PartialEq, Eq, Structural)]
pub enum MediaError {
    /// The media endpoint has not been started.
    NotRunning,
}

/// The port of the one media endpoint of the process, while it runs.
#[derive(Debug, Clone, Copy)]
pub struct ServerSlot {
    pub port: Option<u16>,
}

impl ServerSlot {
    pub fn new() -> (r: ServerSlot)
        ensures
            r.port is None,
    {
        ServerSlot { port: None }
    }

    /// The port to report for a start request when the endpoint already
    /// runs; `None` means that a new endpoint must be started.
    pub fn running_port(&self) -> (r: Option<u16>)
        ensures
            r == self.port,
    {
        self.port
    }

    /// Records the port of a newly started endpoint.
    pub fn record(&mut self, port: u16)
        ensures
            final(self).port == Some(port),
    {
        self.port = Some(port);
    }

    /// Forgets the endpoint once it is stopped.
    pub fn clear(&mut self)
        ensures
            final(self).port is None,
    {
        self.port = None;
    }

    /// The URL of `video_path` on the running endpoint.
    pub fn video_url(&self, video_path: &str) -> (r: Result<String, MediaError>)
        ensures
            match self.port {
                Some(p) => r is Ok && r->Ok_0@ == video_url_spec(p, video_path@),
                None => r == Err::<String, MediaError>(MediaError::NotRunning),
            },
    {
        match self.port {
            Some(p) => Ok(video_url(p, video_path)),
            None => Err(MediaError::NotRunning),
        }
    }
}

} // verus!
