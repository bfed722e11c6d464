//! Records of the video vault: one per folder that holds `video.mp4`, and the
//! query that groups them by channel.
use vstd::prelude::*;
use vstd::multiset::Multiset;
use crate::metadata::{
    metadata_from_path, metadata_spec, parse_markdown_metadata, path_metadata, MetadataView,
    VideoMetadata,
};
use crate::text::{
    from_chars, has_prefix, last_index_of, lemma_last_index_of, push_str, rfind_char, starts_with, sub_vec, to_chars,
};

verus! {

broadcast use vstd::seq_lib::group_to_multiset_ensures, vstd::multiset::group_multiset_axioms;

/// Code-point order on texts, which is the byte order of their UTF-8 form
/// and the order of `String`'s `Ord`.
pub open spec fn str_lt(a: Seq<char>, b: Seq<char>) -> bool
    decreases a.len(),
{
    if a.len() == 0 {
        b.len() > 0
    } else if b.len() == 0 {
        false
    } else if a[0] != b[0] {
        (a[0] as u32) < (b[0] as u32)
    } else {
        str_lt(a.drop_first(), b.drop_first())
    }
}

proof fn lemma_char_ne(c: char, d: char)
    requires
        c != d,
    ensures
        (c as u32) != (d as u32),
{
    vstd::utf8::char_u32_cast(c, c as u32);
    vstd::utf8::char_u32_cast(d, d as u32);
}

pub proof fn lemma_str_lt_irreflexive(a: Seq<char>)
    ensures
        !str_lt(a, a),
    decreases a.len(),
{
    if a.len() > 0 {
        lemma_str_lt_irreflexive(a.drop_first());
    }
}

pub proof fn lemma_str_lt_total(a: Seq<char>, b: Seq<char>)
    ensures
        a == b || str_lt(a, b) || str_lt(b, a),
    decreases a.len(),
{
    if a.len() > 0 && b.len() > 0 {
        if a[0] != b[0] {
            lemma_char_ne(a[0], b[0]);
        } else {
            lemma_str_lt_total(a.drop_first(), b.drop_first());
            if a.drop_first() == b.drop_first() {
                assert(a =~= seq![a[0]] + a.drop_first());
                assert(b =~= seq![b[0]] + b.drop_first());
            }
        }
    } else if a.len() == 0 && b.len() == 0 {
        assert(a =~= b);
    }
}

pub proof fn lemma_str_lt_transitive(a: Seq<char>, b: Seq<char>, c: Seq<char>)
    requires
        str_lt(a, b),
        str_lt(b, c),
    ensures
        str_lt(a, c),
    decreases a.len(),
{
    if a.len() > 0 && b.len() > 0 && c.len() > 0 {
        if a[0] == b[0] && b[0] == c[0] {
            lemma_str_lt_transitive(a.drop_first(), b.drop_first(), c.drop_first());
        } else if a[0] != c[0] {
        } else {
            // a[0] == c[0] with a[0] < b[0] < c[0] or similar is impossible
            if a[0] != b[0] {
                lemma_char_ne(a[0], b[0]);
            }
            if b[0] != c[0] {
                lemma_char_ne(b[0], c[0]);
            }
        }
    }
}

/// Whether `a` comes before `b` in code-point order.
pub fn str_less(a: &[char], b: &[char]) -> (r: bool)
    ensures
        r == str_lt(a@, b@),
{
    let mut i: usize = 0;
    assert(a@.skip(0) =~= a@);
    assert(b@.skip(0) =~= b@);
    while i < a.len() && i < b.len() && a[i] == b[i]
        invariant
            i <= a@.len(),
            i <= b@.len(),
            str_lt(a@, b@) == str_lt(a@.skip(i as int), b@.skip(i as int)),
        decreases a@.len() - i,
    {
        assert(a@.skip(i as int).drop_first() =~= a@.skip(i + 1));
        assert(b@.skip(i as int).drop_first() =~= b@.skip(i + 1));
        i = i + 1;
    }
    if i == a.len() {
        i < b.len()
    } else if i == b.len() {
        false
    } else {
        assert(a@.skip(i as int)[0] == a@[i as int]);
        assert(b@.skip(i as int)[0] == b@[i as int]);
        (a[i] as u32) < (b[i] as u32)
    }
}

/// One video of the vault.
#[derive(Debug, Clone)]
pub struct VideoInfo {
    /// The video file, relative to the project root where it lies under it.
    pub video_path: String,
    /// The captions file, relative in the same way.
    pub captions_path: String,
    pub metadata: VideoMetadata,
}

pub struct VideoView {
    pub video_path: Seq<char>,
    pub captions_path: Seq<char>,
    pub metadata: MetadataView,
}

impl View for VideoInfo {
    type V = VideoView;

    open spec fn view(&self) -> VideoView {
        VideoView {
            video_path: self.video_path@,
            captions_path: self.captions_path@,
            metadata: self.metadata@,
        }
    }
}

/// The videos of one channel.
#[derive(Debug, Clone)]
pub struct ChannelVideos {
    pub channel_name: String,
    pub videos: Vec<VideoInfo>,
}

pub open spec fn video_views(v: Seq<VideoInfo>) -> Seq<VideoView> {
    v.map_values(|x: VideoInfo| x@)
}

pub open spec fn group_view(g: ChannelVideos) -> (Seq<char>, Seq<VideoView>) {
    (g.channel_name@, video_views(g.videos@))
}

pub open spec fn group_views(v: Seq<ChannelVideos>) -> Seq<(Seq<char>, Seq<VideoView>)> {
    v.map_values(|g: ChannelVideos| group_view(g))
}

/// Every video of the groups, counted with repetition.
pub open spec fn members(gs: Seq<(Seq<char>, Seq<VideoView>)>) -> Multiset<VideoView>
    decreases gs.len(),
{
    if gs.len() == 0 {
        Multiset::empty()
    } else {
        members(gs.drop_last()).add(gs.last().1.to_multiset())
    }
}

/// Groups in strictly increasing order of channel name.
pub open spec fn names_sorted(gs: Seq<(Seq<char>, Seq<VideoView>)>) -> bool {
    forall|i: int, j: int| 0 <= i < j < gs.len() ==> str_lt(#[trigger] gs[i].0, #[trigger] gs[j].0)
}

/// No group is empty.
pub open spec fn groups_nonempty(gs: Seq<(Seq<char>, Seq<VideoView>)>) -> bool {
    forall|i: int| 0 <= i < gs.len() ==> (#[trigger] gs[i]).1.len() > 0
}

/// Each group holds only videos of its channel.
pub open spec fn groups_consistent(gs: Seq<(Seq<char>, Seq<VideoView>)>) -> bool {
    forall|i: int, k: int|
        0 <= i < gs.len() && 0 <= k < gs[i].1.len() ==> (#[trigger] gs[i].1[k]).metadata.channel
            == gs[i].0
}

proof fn lemma_members_update(
    gs: Seq<(Seq<char>, Seq<VideoView>)>,
    k: int,
    v: VideoView,
)
    requires
        0 <= k < gs.len(),
    ensures
        members(gs.update(k, (gs[k].0, gs[k].1.push(v)))) == members(gs).insert(v),
    decreases gs.len(),
{
    let gs2 = gs.update(k, (gs[k].0, gs[k].1.push(v)));
    if k == gs.len() - 1 {
        assert(gs2.drop_last() =~= gs.drop_last());
        assert(members(gs2) =~= members(gs).insert(v));
    } else {
        lemma_members_update(gs.drop_last(), k, v);
        assert(gs2.drop_last() =~= gs.drop_last().update(k, (gs[k].0, gs[k].1.push(v))));
        assert(members(gs2) =~= members(gs).insert(v));
    }
}

proof fn lemma_members_insert(
    gs: Seq<(Seq<char>, Seq<VideoView>)>,
    p: int,
    name: Seq<char>,
    v: VideoView,
)
    requires
        0 <= p <= gs.len(),
    ensures
        members(gs.insert(p, (name, seq![v]))) == members(gs).insert(v),
    decreases gs.len(),
{
    let gs2 = gs.insert(p, (name, seq![v]));
    assert(seq![v] =~= Seq::<VideoView>::empty().push(v));
    if p == gs.len() {
        assert(gs2.drop_last() =~= gs);
        assert(members(gs2) =~= members(gs).insert(v));
    } else {
        lemma_members_insert(gs.drop_last(), p, name, v);
        assert(gs2.drop_last() =~= gs.drop_last().insert(p, (name, seq![v])));
        assert(gs2.last() == gs.last());
        assert(members(gs2) =~= members(gs).insert(v));
    }
}

/// Puts one video into its channel's group, adding the group in name order
/// where it is missing.
fn add_to_group(groups: &mut Vec<ChannelVideos>, v: VideoInfo)
    requires
        names_sorted(group_views(old(groups)@)),
        groups_consistent(group_views(old(groups)@)),
        groups_nonempty(group_views(old(groups)@)),
    ensures
        groups_nonempty(group_views(final(groups)@)),
        names_sorted(group_views(final(groups)@)),
        groups_consistent(group_views(final(groups)@)),
        members(group_views(final(groups)@)) == members(group_views(old(groups)@)).insert(v@),
{
    let name = to_chars(v.metadata.channel.as_str());
    let ghost gs = group_views(groups@);
    let mut p: usize = 0;
    let mut stop = false;
    while p < groups.len() && !stop
        invariant
            p <= groups@.len(),
            gs == group_views(groups@),
            name@ == v@.metadata.channel,
            forall|i: int| 0 <= i < p ==> str_lt(#[trigger] gs[i].0, name@),
            stop ==> p < groups@.len() && !str_lt(gs[p as int].0, name@),
        decreases groups@.len() - p + (if stop {
            0int
        } else {
            1int
        }),
    {
        let here = to_chars(groups[p].channel_name.as_str());
        if str_less(here.as_slice(), name.as_slice()) {
            p = p + 1;
        } else {
            stop = true;
        }
    }
    if p < groups.len() {
        let here = to_chars(groups[p].channel_name.as_str());
        if here.len() == name.len() && crate::text::matches_at(here.as_slice(), name.as_slice(), 0) {
            proof {
                assert(here@.subrange(0, name@.len() as int) =~= here@);
            }
            let ghost old_group = gs[p as int];
            let mut g = groups.remove(p);
            let ghost gv = group_view(g);
            assert(gv == old_group);
            g.videos.push(v);
            assert(group_view(g) == (old_group.0, old_group.1.push(v@))) by {
                assert(video_views(g.videos@) =~= old_group.1.push(v@));
            }
            groups.insert(p, g);
            proof {
                assert(group_views(groups@) =~= gs.update(
                    p as int,
                    (old_group.0, old_group.1.push(v@)),
                ));
                lemma_members_update(gs, p as int, v@);
            }
            return;
        }
        proof {
            if here@.len() == name@.len() {
                assert(here@.subrange(0, name@.len() as int) =~= here@);
            }
            assert(here@ != name@);
            lemma_str_lt_total(gs[p as int].0, name@);
            assert(str_lt(name@, gs[p as int].0));
            assert forall|j: int| p < j < gs.len() implies str_lt(name@, #[trigger] gs[j].0) by {
                lemma_str_lt_transitive(name@, gs[p as int].0, gs[j].0);
            }
        }
    }
    let ghost vv = v@;
    let mut videos: Vec<VideoInfo> = Vec::new();
    videos.push(v);
    let g = ChannelVideos { channel_name: from_chars(name.as_slice()), videos };
    assert(group_view(g) == (name@, seq![vv])) by {
        assert(video_views(g.videos@) =~= seq![vv]);
    }
    groups.insert(p, g);
    proof {
        let gs2 = group_views(groups@);
        assert(gs2 =~= gs.insert(p as int, (name@, seq![vv])));
        lemma_members_insert(gs, p as int, name@, vv);
        assert forall|i: int, j: int| 0 <= i < j < gs2.len() implies str_lt(
            #[trigger] gs2[i].0,
            #[trigger] gs2[j].0,
        ) by {
            if j < p {
            } else if j == p {
            } else if i < p {
                assert(gs2[j] == gs[j - 1]);
                if p < gs.len() {
                    lemma_str_lt_transitive(gs[i].0, name@, gs[j - 1].0);
                }
            } else if i == p {
                assert(gs2[j] == gs[j - 1]);
            } else {
                assert(gs2[i] == gs[i - 1]);
                assert(gs2[j] == gs[j - 1]);
            }
        }
        assert forall|i: int| 0 <= i < gs2.len() implies (#[trigger] gs2[i]).1.len() > 0 by {
            if i > p {
                assert(gs2[i] == gs[i - 1]);
            }
        }
        assert forall|i: int, k: int|
            0 <= i < gs2.len() && 0 <= k < gs2[i].1.len() implies (#[trigger] gs2[i].1[k]).metadata.channel
            == gs2[i].0 by {
            if i < p {
            } else if i == p {
            } else {
                assert(gs2[i] == gs[i - 1]);
            }
        }
    }
}

/// The videos grouped by channel, groups in order of channel name: every
/// video lands in exactly the group of its channel.
pub fn group_by_channel(videos: Vec<VideoInfo>) -> (r: Vec<ChannelVideos>)
    ensures
        names_sorted(group_views(r@)),
        groups_consistent(group_views(r@)),
        groups_nonempty(group_views(r@)),
        members(group_views(r@)) == video_views(videos@).to_multiset(),
{
    let ghost input = video_views(videos@);
    let mut rest = videos;
    let mut reversed: Vec<VideoInfo> = Vec::new();
    while rest.len() > 0
        invariant
            input == video_views(rest@) + video_views(reversed@).reverse(),
        decreases rest@.len(),
    {
        let ghost before_rest = video_views(rest@);
        let ghost before_rev = video_views(reversed@);
        let v = rest.pop().unwrap();
        reversed.push(v);
        proof {
            assert(video_views(rest@) =~= before_rest.drop_last());
            assert(video_views(reversed@) =~= before_rev.push(v@));
            assert(video_views(reversed@).reverse() =~= seq![v@] + before_rev.reverse());
            assert(before_rest =~= before_rest.drop_last().push(v@));
            assert(input =~= video_views(rest@) + video_views(reversed@).reverse());
        }
    }
    let mut groups: Vec<ChannelVideos> = Vec::new();
    proof {
        assert(video_views(rest@) =~= Seq::<VideoView>::empty());
        assert(input =~= video_views(reversed@).reverse());
        assert(input.skip(0) =~= input);
        assert(input.take(0) =~= Seq::<VideoView>::empty());
        assert(group_views(groups@) =~= Seq::<(Seq<char>, Seq<VideoView>)>::empty());
    }
    let ghost n = reversed@.len();
    while reversed.len() > 0
        invariant
            n == input.len(),
            reversed@.len() <= n,
            video_views(reversed@).reverse() == input.skip(n - reversed@.len()),
            names_sorted(group_views(groups@)),
            groups_consistent(group_views(groups@)),
            groups_nonempty(group_views(groups@)),
            members(group_views(groups@)) == input.take(n - reversed@.len()).to_multiset(),
        decreases reversed@.len(),
    {
        let ghost before = video_views(reversed@);
        let ghost done = (n - reversed@.len()) as int;
        let v = reversed.pop().unwrap();
        proof {
            assert(video_views(reversed@) =~= before.drop_last());
            assert(before.reverse()[0] == v@);
            assert(input.skip(done)[0] == v@);
            assert(input[done] == v@);
            assert(input.take(done + 1) =~= input.take(done).push(v@));
            assert(before.reverse() =~= seq![v@] + video_views(reversed@).reverse());
            assert(input.skip(done + 1) =~= input.skip(done).drop_first());
            assert(video_views(reversed@).reverse() =~= input.skip(done + 1));
        }
        add_to_group(&mut groups, v);
    }
    proof {
        assert(input.take(n as int) =~= input);
    }
    groups
}

// ---------------------------------------------------------------- records

/// `root` with one trailing `/`.
pub open spec fn dir_prefix(root: Seq<char>) -> Seq<char> {
    if root.len() > 0 && root.last() == '/' {
        root
    } else {
        root.push('/')
    }
}

/// `p` relative to `root` where it lies under it, else `p` itself.
pub open spec fn relative_spec(p: Seq<char>, root: Seq<char>) -> Seq<char> {
    if starts_with(p, dir_prefix(root)) {
        p.skip(dir_prefix(root).len() as int)
    } else {
        p
    }
}

/// The folder that holds `p`: what precedes its last `/`.
pub open spec fn parent_spec(p: Seq<char>) -> Seq<char> {
    let i = last_index_of(p, '/');
    if i >= 0 {
        p.take(i)
    } else {
        Seq::empty()
    }
}

/// The record of the video at `video_path`: frontmatter metadata when the
/// folder has a `captions.md` (its content is given), path defaults
/// otherwise; the captions file is `captions.txt` where there is one.
pub open spec fn video_info_spec(
    video_path: Seq<char>,
    root: Seq<char>,
    captions_md: Option<Seq<char>>,
    has_captions_txt: bool,
) -> VideoView {
    let folder = parent_spec(video_path);
    let captions = folder + if has_captions_txt {
        "/captions.txt"@
    } else {
        "/captions.md"@
    };
    VideoView {
        video_path: relative_spec(video_path, root),
        captions_path: relative_spec(captions, root),
        metadata: match captions_md {
            Some(c) => metadata_spec(c, folder),
            None => path_metadata(video_path),
        },
    }
}

/// `path` relative to `root` where it lies under it.
pub fn relative_to(path: &[char], root: &[char]) -> (r: String)
    ensures
        r@ == relative_spec(path@, root@),
{
    let mut prefix = sub_vec(root, 0, root.len());
    assert(prefix@ =~= root@);
    if !(root.len() > 0 && root[root.len() - 1] == '/') {
        prefix.push('/');
    }
    if has_prefix(path, prefix.as_slice()) {
        let rest = sub_vec(path, prefix.len(), path.len());
        assert(rest@ =~= path@.skip(prefix@.len() as int));
        from_chars(rest.as_slice())
    } else {
        from_chars(path)
    }
}

/// The record of one video, from what the caller found on disk.
pub fn build_video_info(
    video_path: &str,
    project_root: &str,
    captions_md: Option<&str>,
    has_captions_txt: bool,
) -> (r: VideoInfo)
    ensures
        r@ == video_info_spec(
            video_path@,
            project_root@,
            match captions_md {
                Some(c) => Some(c@),
                None => None,
            },
            has_captions_txt,
        ),
{
    let p = to_chars(video_path);
    let root = to_chars(project_root);
    proof {
        lemma_last_index_of(p@, '/');
    }
    let folder: Vec<char> = match rfind_char(p.as_slice(), '/') {
        Some(i) => sub_vec(p.as_slice(), 0, i),
        None => Vec::new(),
    };
    assert(folder@ =~= parent_spec(p@));
    let folder_s = from_chars(folder.as_slice());
    let mut captions = from_chars(folder.as_slice());
    if has_captions_txt {
        push_str(&mut captions, "/captions.txt");
    } else {
        push_str(&mut captions, "/captions.md");
    }
    let metadata = match captions_md {
        Some(c) => parse_markdown_metadata(c, folder_s.as_str()),
        None => metadata_from_path(video_path),
    };
    let cap = to_chars(captions.as_str());
    VideoInfo {
        video_path: relative_to(p.as_slice(), root.as_slice()),
        captions_path: relative_to(cap.as_slice(), root.as_slice()),
        metadata,
    }
}

// ---------------------------------------------------------------- names

pub open spec fn string_views(v: Seq<String>) -> Seq<Seq<char>> {
    v.map_values(|s: String| s@)
}

/// No name comes after a later one.
pub open spec fn sorted_texts(v: Seq<Seq<char>>) -> bool {
    forall|i: int, j: int| 0 <= i < j < v.len() ==> !str_lt(#[trigger] v[j], #[trigger] v[i])
}

pub proof fn lemma_str_lt_asymmetric(a: Seq<char>, b: Seq<char>)
    requires
        str_lt(a, b),
    ensures
        !str_lt(b, a),
{
    if str_lt(b, a) {
        lemma_str_lt_transitive(a, b, a);
        lemma_str_lt_irreflexive(a);
    }
}

/// The names in code-point order, as `sort` orders `String`s.
pub fn sort_names(names: Vec<String>) -> (r: Vec<String>)
    ensures
        sorted_texts(string_views(r@)),
        string_views(r@).to_multiset() == string_views(names@).to_multiset(),
{
    let mut out: Vec<String> = Vec::new();
    let mut rest = names;
    let ghost all = string_views(rest@);
    proof {
        assert(string_views(out@) =~= Seq::<Seq<char>>::empty());
        assert(string_views(out@).to_multiset().add(all.to_multiset()) =~= all.to_multiset());
    }
    while rest.len() > 0
        invariant
            sorted_texts(string_views(out@)),
            string_views(out@).to_multiset().add(string_views(rest@).to_multiset())
                == all.to_multiset(),
        decreases rest@.len(),
    {
        let ghost before_rest = string_views(rest@);
        let ghost before_out = string_views(out@);
        let name = rest.pop().unwrap();
        let nc = to_chars(name.as_str());
        let mut p: usize = 0;
        let mut stop = false;
        while p < out.len() && !stop
            invariant
                p <= out@.len(),
                before_out == string_views(out@),
                nc@ == name@,
                forall|i: int| 0 <= i < p ==> !str_lt(nc@, #[trigger] before_out[i]),
                stop ==> p < out@.len() && str_lt(nc@, before_out[p as int]),
            decreases out@.len() - p + (if stop {
                0int
            } else {
                1int
            }),
        {
            let here = to_chars(out[p].as_str());
            if str_less(nc.as_slice(), here.as_slice()) {
                stop = true;
            } else {
                p = p + 1;
            }
        }
        let ghost nv = name@;
        out.insert(p, name);
        proof {
            let after = string_views(out@);
            assert(after =~= before_out.insert(p as int, nv));
            assert(before_rest =~= string_views(rest@).push(nv));
            assert forall|i: int, j: int| 0 <= i < j < after.len() implies !str_lt(
                #[trigger] after[j],
                #[trigger] after[i],
            ) by {
                if j < p {
                } else if j == p {
                } else if i < p {
                    assert(after[j] == before_out[j - 1]);
                } else if i == p {
                    assert(after[j] == before_out[j - 1]);
                    // the name comes before the element it was put in front of,
                    // which comes no later than any element after it
                    let q = before_out[p as int];
                    let w = before_out[j - 1];
                    if j - 1 > p {
                        lemma_str_lt_total(q, w);
                        if str_lt(q, w) {
                            lemma_str_lt_transitive(nv, q, w);
                        }
                    }
                    lemma_str_lt_asymmetric(nv, w);
                } else {
                    assert(after[i] == before_out[i - 1]);
                    assert(after[j] == before_out[j - 1]);
                }
            }
            assert(after.to_multiset() == before_out.to_multiset().insert(nv));
            assert(before_rest.to_multiset() == string_views(rest@).to_multiset().insert(nv));
            assert(after.to_multiset().add(string_views(rest@).to_multiset())
                =~= before_out.to_multiset().add(before_rest.to_multiset()));
        }
    }
    proof {
        assert(string_views(rest@) =~= Seq::<Seq<char>>::empty());
        assert(string_views(out@).to_multiset().add(string_views(rest@).to_multiset())
            =~= string_views(out@).to_multiset());
    }
    out
}

} // verus!
