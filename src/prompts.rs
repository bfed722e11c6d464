//! Per-channel answer prompts: folder names made safe for the file system,
//! and the version numbers of saved prompts.
use vstd::prelude::*;
use crate::text::{
    decimal, ends_with, from_chars, has_prefix, has_suffix, index_of, parse_u32, parse_u32_spec,
    push_decimal, push_str, starts_with, sub_vec, to_chars, trim, trim_char, trimmed,
    trimmed_char, find_char_from, lemma_index_of,
};

verus! {

/// `char::is_alphanumeric`: the Unicode `Alphabetic` or `Numeric` property.
pub uninterp spec fn alphanumeric(c: char) -> bool;

/// Relies on `char::is_alphanumeric`: whether the character is alphabetic
/// or numeric in Unicode.
#[verifier::external_body]
fn is_alphanumeric(c: char) -> (r: bool)
    ensures
        r == alphanumeric(c),
{
    c.is_alphanumeric()
}

/// Each run of underscores shortened to one.
pub open spec fn collapsed(s: Seq<char>) -> Seq<char>
    decreases s.len(),
{
    if s.len() < 2 {
        s
    } else if s[0] == '_' && s[1] == '_' {
        collapsed(s.drop_first())
    } else {
        seq![s[0]] + collapsed(s.drop_first())
    }
}

/// Relies on `regex::Regex::replace_all` with the pattern `_+` and the
/// replacement `_`: every maximal run of underscores becomes one underscore.
#[verifier::external_body]
fn collapse_underscores(s: &str) -> (r: String)
    ensures
        r@ == collapsed(s@),
{
    regex::Regex::new("_+").unwrap().replace_all(s, "_").into_owned()
}

/// Characters kept as they are in a folder name.
pub open spec fn kept(c: char) -> bool {
    alphanumeric(c) || "가나다라마바사아자차카타파하"@.contains(c) || c == '_' || c == '-'
}

pub open spec fn mapped(s: Seq<char>) -> Seq<char> {
    Seq::new(
        s.len(),
        |i: int|
            if kept(s[i]) {
                s[i]
            } else {
                '_'
            },
    )
}

/// The longest name a prompt folder gets, in characters.
pub const MAX_FOLDER_NAME: usize = 50;

/// A channel name as a folder name: other characters turned into
/// underscores, runs of underscores shortened, underscores at either end
/// dropped, at most fifty characters kept.
pub open spec fn sanitized(name: Seq<char>) -> Seq<char> {
    tidied(mapped(name))
}

/// Runs of underscores shortened, underscores at either end dropped, at
/// most fifty characters kept.
pub open spec fn tidied(s: Seq<char>) -> Seq<char> {
    let t = trim_char(collapsed(s), '_');
    if t.len() <= MAX_FOLDER_NAME {
        t
    } else {
        t.take(MAX_FOLDER_NAME as int)
    }
}

fn is_kept(c: char) -> (r: bool)
    ensures
        r == kept(c),
{
    if is_alphanumeric(c) || c == '_' || c == '-' {
        return true;
    }
    let extra = to_chars("가나다라마바사아자차카타파하");
    let mut i: usize = 0;
    while i < extra.len()
        invariant
            i <= extra@.len(),
            extra@ == "가나다라마바사아자차카타파하"@,
            forall|k: int| 0 <= k < i ==> extra@[k] != c,
        decreases extra@.len() - i,
    {
        if extra[i] == c {
            assert(extra@[i as int] == c);
            return true;
        }
        i = i + 1;
    }
    false
}

/// The folder name under which a channel's prompts are kept.
pub fn sanitize_channel_name(name: &str) -> (r: String)
    ensures
        r@ == sanitized(name@),
{
    let c = to_chars(name);
    let mut m = String::new();
    let mut i: usize = 0;
    while i < c.len()
        invariant
            i <= c@.len(),
            m@ == mapped(c@).take(i as int),
        decreases c@.len() - i,
    {
        let ch = if is_kept(c[i]) {
            c[i]
        } else {
            '_'
        };
        crate::text::push_char(&mut m, ch);
        assert(mapped(c@).take(i + 1) =~= mapped(c@).take(i as int).push(ch));
        i = i + 1;
    }
    assert(mapped(c@).take(c@.len() as int) =~= mapped(c@));
    tidy_folder_name(m.as_str())
}

/// The last steps of making a folder name: runs of underscores shortened,
/// underscores at either end dropped, at most fifty characters kept.
pub fn tidy_folder_name(s: &str) -> (r: String)
    ensures
        r@ == tidied(s@),
{
    let col = collapse_underscores(s);
    let t = trimmed_char(to_chars(col.as_str()).as_slice(), '_');
    if t.len() <= MAX_FOLDER_NAME {
        from_chars(t.as_slice())
    } else {
        let head = sub_vec(t.as_slice(), 0, MAX_FOLDER_NAME);
        assert(head@ =~= t@.take(MAX_FOLDER_NAME as int));
        from_chars(head.as_slice())
    }
}

// ---------------------------------------------------------------- versions

/// The version in the answer of the prompt generator (`... v3 생성 완료`):
/// the number between the first `v` and the first space after it, else 1.
pub open spec fn generated_version(out: Seq<char>) -> u32 {
    let v = index_of(out, 'v');
    if v < out.len() {
        let sp = index_of(out.skip(v as int), ' ');
        if sp < out.len() - v {
            match parse_u32_spec(out.subrange(v + 1 as int, v + sp as int)) {
                Some(n) => n,
                None => 1,
            }
        } else {
            1
        }
    } else {
        1
    }
}

pub fn parse_generated_version(output: &str) -> (r: u32)
    ensures
        r == generated_version(output@),
{
    let s = to_chars(output);
    let v = find_char_from(s.as_slice(), 'v', 0);
    assert(s@.skip(0) =~= s@);
    if v == s.len() {
        return 1;
    }
    let sp = find_char_from(s.as_slice(), ' ', v);
    if sp == s.len() {
        return 1;
    }
    proof {
        lemma_index_of(s@, 'v');
        lemma_index_of(s@.skip(v as int), ' ');
    }
    assert(sp > v) by {
        assert(s@.skip(v as int)[0] == 'v');
    }
    let digits = sub_vec(s.as_slice(), v + 1, sp);
    match parse_u32(digits.as_slice()) {
        Some(n) => n,
        None => 1,
    }
}

/// The active version that `active.txt` names, 1 when it names none.
pub open spec fn active_version(content: Seq<char>) -> u32 {
    match parse_u32_spec(trim(content)) {
        Some(n) => n,
        None => 1,
    }
}

pub fn active_prompt_version(content: &str) -> (r: u32)
    ensures
        r == active_version(content@),
{
    let t = trimmed(to_chars(content).as_slice());
    match parse_u32(t.as_slice()) {
        Some(n) => n,
        None => 1,
    }
}

/// The version of a file named `prompt_v<N>.json`.
pub open spec fn file_version(name: Seq<char>) -> Option<u32> {
    if starts_with(name, "prompt_v"@) && name.len() >= "prompt_v"@.len() + ".json"@.len()
        && ends_with(name, ".json"@) {
        parse_u32_spec(name.subrange("prompt_v"@.len() as int, name.len() - ".json"@.len()))
    } else {
        None
    }
}

/// The highest version among the file names, 0 when there is none.
pub open spec fn highest_version(names: Seq<Seq<char>>) -> u32
    decreases names.len(),
{
    if names.len() == 0 {
        0
    } else {
        let prev = highest_version(names.drop_last());
        match file_version(names.last()) {
            Some(n) => if n > prev {
                n
            } else {
                prev
            },
            None => prev,
        }
    }
}

fn version_of_file(name: &[char]) -> (r: Option<u32>)
    ensures
        r == file_version(name@),
{
    let pre = to_chars("prompt_v");
    let suf = to_chars(".json");
    if !(has_prefix(name, pre.as_slice()) && name.len() - pre.len() >= suf.len() && has_suffix(
        name,
        suf.as_slice(),
    )) {
        return None;
    }
    let mid = sub_vec(name, pre.len(), name.len() - suf.len());
    parse_u32(mid.as_slice())
}

/// The version that the next saved prompt of a channel gets: one past the
/// highest `prompt_v<N>.json` among the folder's file names; `None` when
/// that number does not fit.
pub fn next_prompt_version(file_names: &Vec<String>) -> (r: Option<u32>)
    ensures
        highest_version(crate::jobs::texts(file_names@)) < u32::MAX ==> r == Some(
            (highest_version(crate::jobs::texts(file_names@)) + 1) as u32,
        ),
        highest_version(crate::jobs::texts(file_names@)) == u32::MAX ==> r is None,
{
    let mut best: u32 = 0;
    let mut i: usize = 0;
    while i < file_names.len()
        invariant
            i <= file_names@.len(),
            best == highest_version(crate::jobs::texts(file_names@).take(i as int)),
        decreases file_names@.len() - i,
    {
        let ghost v = crate::jobs::texts(file_names@);
        proof {
            assert(v.take(i + 1).drop_last() =~= v.take(i as int));
            assert(v.take(i + 1).last() == v[i as int]);
        }
        match version_of_file(to_chars(file_names[i].as_str()).as_slice()) {
            Some(n) => {
                if n > best {
                    best = n;
                }
            },
            None => {},
        }
        i = i + 1;
    }
    assert(crate::jobs::texts(file_names@).take(file_names@.len() as int) =~= crate::jobs::texts(
        file_names@,
    ));
    if best == u32::MAX {
        None
    } else {
        Some(best + 1)
    }
}

/// `prompt_v<N>.json`.
pub fn prompt_file_name(version: u32) -> (r: String)
    ensures
        r@ == "prompt_v"@ + decimal(version as nat) + ".json"@,
{
    let mut r = String::new();
    push_str(&mut r, "prompt_v");
    push_decimal(&mut r, version as u64);
    push_str(&mut r, ".json");
    assert(r@ =~= "prompt_v"@ + decimal(version as nat) + ".json"@);
    r
}

} // verus!
