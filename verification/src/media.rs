//! Media path rewriting: every image reference in a parsed document tree
//! has its URL nudged with a redundant parent-directory segment, so the
//! downstream media-extraction step treats it as non-original and
//! deduplicates it by content hash instead of copying it in place.

use vstd::prelude::*;

use crate::text::{
    chars_of, contains_sub, copy_range, find_sub, has_prefix, push_all, spec_find,
    string_from_chars,
};

verus! {

/// A URL that is already resolved elsewhere: a fragment, an absolute
/// `http(s)` or `data` URL, or one that already walks a parent directory.
pub open spec fn is_external(u: Seq<char>) -> bool {
    (u.len() > 0 && u[0] == '#') || has_prefix(u, "http://"@) || has_prefix(u, "https://"@)
        || has_prefix(u, "data:"@) || contains_sub(u, ".."@)
}

/// `u` with every leading `./` segment removed.
pub open spec fn trim_dot_slash(u: Seq<char>) -> Seq<char>
    decreases u.len(),
{
    if has_prefix(u, "./"@) {
        proof {
            reveal_strlit("./");
        }
        trim_dot_slash(u.skip(2))
    } else {
        u
    }
}

/// The rewritten form of a media URL. External URLs stay untouched. A
/// relative URL `dir/rest` (after dropping leading `./` segments) becomes
/// `dir/../dir/rest`; a bare filename gets `../` prefixed.
pub open spec fn spec_bump(u: Seq<char>) -> Seq<char> {
    if is_external(u) {
        u
    } else {
        let t = trim_dot_slash(u);
        match spec_find(t, seq!['/']) {
            Some(i) => t.subrange(0, i) + "/../"@ + t,
            None => "../"@ + u,
        }
    }
}

/// A rewritten URL of a non-external relative path contains `..`, so a
/// second application leaves it untouched: the rewrite is idempotent.
pub proof fn lemma_bump_idempotent(u: Seq<char>)
    ensures
        spec_bump(spec_bump(u)) == spec_bump(u),
{
    reveal_strlit("..");
    reveal_strlit("/../");
    reveal_strlit("../");
    if !is_external(u) {
        let t = trim_dot_slash(u);
        let b = spec_bump(u);
        match spec_find(t, seq!['/']) {
            Some(i) => {
                crate::text::lemma_find_from(t, seq!['/'], 0);
                let pre = t.subrange(0, i);
                assert(b == pre + "/../"@ + t);
                assert(b.subrange(pre.len() as int + 1, pre.len() as int + 3) =~= ".."@);
                assert(crate::text::occurs_at(b, ".."@, pre.len() as int + 1));
                assert(contains_sub(b, ".."@));
            },
            None => {
                assert(b == "../"@ + u);
                assert(b.subrange(0, 2) =~= ".."@);
                assert(crate::text::occurs_at(b, ".."@, 0));
                assert(contains_sub(b, ".."@));
            },
        }
        assert(is_external(b));
    }
}

/// Rewrites one media URL in place, as `spec_bump` describes; external
/// URLs are left byte-for-byte unchanged.
pub fn bump_media_path(url: &mut String)
    ensures
        final(url)@ == spec_bump(old(url)@),
        is_external(old(url)@) ==> final(url)@ == old(url)@,
{
    let v = chars_of(url.as_str());
    if is_external_exec(&v) {
        return ;
    }
    let start = trim_start_index(&v);
    let slash: Vec<char> = vec!['/'];
    assert(slash@ =~= seq!['/']);
    let t = copy_range(&v, start, v.len());
    proof {
        assert(t@ =~= v@.skip(start as int));
    }
    match find_sub(&t, &slash) {
        Some(i) => {
            let mut out = copy_range(&t, 0, i);
            let mid = chars_of("/../");
            push_all(&mut out, &mid);
            push_all(&mut out, &t);
            *url = string_from_chars(&out);
        },
        None => {
            let mut out = chars_of("../");
            push_all(&mut out, &v);
            *url = string_from_chars(&out);
        },
    }
}

/// Exact test for `is_external`.
fn is_external_exec(v: &Vec<char>) -> (b: bool)
    ensures
        b == is_external(v@),
{
    if v.len() > 0 && v[0] == '#' {
        return true;
    }
    let http = chars_of("http://");
    let https = chars_of("https://");
    let data = chars_of("data:");
    let dots = chars_of("..");
    if crate::text::starts_with(v, &http) || crate::text::starts_with(v, &https)
        || crate::text::starts_with(v, &data) {
        return true;
    }
    match find_sub(v, &dots) {
        Some(_) => true,
        None => {
            proof {
                crate::text::lemma_no_find_no_occurrence(v@, ".."@);
            }
            false
        },
    }
}

/// Index past every leading `./` segment.
#[verifier::rlimit(50)]
fn trim_start_index(v: &Vec<char>) -> (r: usize)
    ensures
        r <= v@.len(),
        trim_dot_slash(v@) =~= v@.skip(r as int),
{
    proof {
        reveal_strlit("./");
    }
    let n = v.len();
    let mut i: usize = 0;
    assert(v@.skip(0) =~= v@);
    while n - i >= 2 && v[i] == '.' && v[i + 1] == '/'
        invariant
            0 <= i <= n,
            n == v@.len(),
            trim_dot_slash(v@) == trim_dot_slash(v@.skip(i as int)),
        decreases n - i,
    {
        proof {
            reveal_strlit("./");
            assert(v@.skip(i as int).subrange(0, 2) =~= "./"@);
            assert(has_prefix(v@.skip(i as int), "./"@));
            assert(v@.skip(i as int).skip(2) =~= v@.skip(i + 2));
        }
        i += 2;
    }
    proof {
        let t = v@.skip(i as int);
        if has_prefix(t, "./"@) {
            assert(t.subrange(0, 2)[0] == t[0]);
            assert(t.subrange(0, 2)[1] == t[1]);
            assert(v@[i as int] == '.' && v@[i + 1] == '/');
        }
    }
    i
}

/// One node of a parsed document: an image reference carrying its target
/// URL, any other labelled construct, or a textual leaf. An adapter at
/// the conversion-engine boundary normalizes the engine's own encodings
/// (list-shaped or keyed-object-shaped) into this one canonical shape.
pub enum DocNode {
    Image { url: String, parts: Vec<DocNode> },
    Node { label: String, parts: Vec<DocNode> },
    Leaf { text: String },
}

/// `b` is `a` with every image URL, at any depth, rewritten by
/// `spec_bump`, and nothing else changed.
pub open spec fn rewritten(a: DocNode, b: DocNode) -> bool
    decreases a,
{
    match a {
        DocNode::Image { url: u1, parts: p1 } => match b {
            DocNode::Image { url: u2, parts: p2 } => u2@ == spec_bump(u1@) && p2.len() == p1.len()
                && (forall|i: int|
                0 <= i < p1.len() ==> rewritten(#[trigger] p1@[i], p2@[i])),
            _ => false,
        },
        DocNode::Node { label: l1, parts: p1 } => match b {
            DocNode::Node { label: l2, parts: p2 } => l2@ == l1@ && p2.len() == p1.len() && (
            forall|i: int| 0 <= i < p1.len() ==> rewritten(#[trigger] p1@[i], p2@[i])),
            _ => false,
        },
        DocNode::Leaf { text: t1 } => match b {
            DocNode::Leaf { text: t2 } => t2@ == t1@,
            _ => false,
        },
    }
}

/// Rewrites every image URL in the tree, at any nesting depth.
pub fn rewrite_media_links(n: &DocNode) -> (r: DocNode)
    ensures
        rewritten(*n, r),
    decreases *n,
{
    match n {
        DocNode::Image { url, parts } => {
            let mut u = url.clone();
            bump_media_path(&mut u);
            DocNode::Image { url: u, parts: rewrite_parts(parts) }
        },
        DocNode::Node { label, parts } => DocNode::Node {
            label: label.clone(),
            parts: rewrite_parts(parts),
        },
        DocNode::Leaf { text } => DocNode::Leaf { text: text.clone() },
    }
}

/// Rewrites each node of a sibling list.
fn rewrite_parts(v: &Vec<DocNode>) -> (r: Vec<DocNode>)
    ensures
        r@.len() == v@.len(),
        forall|i: int| 0 <= i < v@.len() ==> rewritten(#[trigger] v@[i], r@[i]),
    decreases v@,
{
    let mut out: Vec<DocNode> = Vec::new();
    let mut i: usize = 0;
    while i < v.len()
        invariant
            0 <= i <= v@.len(),
            out@.len() == i,
            forall|k: int| 0 <= k < i ==> rewritten(#[trigger] v@[k], out@[k]),
        decreases v@.len() - i,
    {
        out.push(rewrite_media_links(&v[i]));
        i += 1;
    }
    out
}

} // verus!
