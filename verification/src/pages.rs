//! The compiled page table and the module-compiler helpers around it:
//! assembling a `Page` from extracted metadata and converted HTML,
//! substituting the pooled-media path prefix for the chosen delivery
//! mode, and deriving a module's slug from its document path.

use vstd::prelude::*;

use crate::frontmatter::Meta;
use crate::text::{
    chars_of, copy_range, ends_with, has_suffix, replace_all, spec_replace_all, string_from_chars,
};

verus! {

/// One compiled page: the immutable artifact a module becomes.
#[verifier::ext_equal]
pub struct Page {
    pub slug: String,
    pub title: String,
    pub category: String,
    pub order: u32,
    pub html: String,
}

/// A field-for-field copy of a page.
pub fn clone_page(p: &Page) -> (r: Page)
    ensures
        r == *p,
{
    let r = Page {
        slug: p.slug.clone(),
        title: p.title.clone(),
        category: p.category.clone(),
        order: p.order,
        html: p.html.clone(),
    };
    assert(r =~= *p);
    r
}

/// How the compiled site will be delivered: opened as a local file, or
/// served over a network.
#[derive(Clone, Copy, PartialEq, Eq, Structural)]
pub enum DeliveryMode {
    LocalFile,
    Networked,
}

/// The asset prefix substituted for the pooled media directory: relative
/// for local files (the `file:` protocol has no root), absolute for a
/// served site.
pub open spec fn spec_asset_prefix(mode: DeliveryMode) -> Seq<char> {
    match mode {
        DeliveryMode::LocalFile => "./assets/"@,
        DeliveryMode::Networked => "/assets/"@,
    }
}

/// The asset prefix for a delivery mode.
pub fn asset_prefix(mode: DeliveryMode) -> (r: &'static str)
    ensures
        r@ == spec_asset_prefix(mode),
{
    match mode {
        DeliveryMode::LocalFile => "./assets/",
        DeliveryMode::Networked => "/assets/",
    }
}

/// Replaces every occurrence of the pooled media directory prefix in the
/// converted HTML with the delivery-mode prefix.
pub fn rewrite_asset_prefix(html: &str, media_prefix: &str, mode: DeliveryMode) -> (r: String)
    requires
        media_prefix@.len() > 0,
    ensures
        r@ == spec_replace_all(html@, media_prefix@, spec_asset_prefix(mode)),
{
    let h = chars_of(html);
    let pat = chars_of(media_prefix);
    let rep = chars_of(asset_prefix(mode));
    let out = replace_all(&h, &pat, &rep);
    string_from_chars(&out)
}

/// Assembles the page of one module from its slug, its extracted
/// metadata and its converted HTML, substituting the pooled media prefix
/// for the delivery mode's prefix.
pub fn make_page(
    slug: &str,
    meta: Meta,
    html: &str,
    media_prefix: &str,
    mode: DeliveryMode,
) -> (r: Page)
    requires
        media_prefix@.len() > 0,
    ensures
        r.slug@ == slug@,
        r.title@ == meta.title@,
        r.category@ == meta.category@,
        r.order == meta.order,
        r.html@ == spec_replace_all(html@, media_prefix@, spec_asset_prefix(mode)),
{
    let html = rewrite_asset_prefix(html, media_prefix, mode);
    Page { slug: slug.to_owned(), title: meta.title, category: meta.category, order: meta.order, html }
}

/// The last `/` of `s`, if any.
pub open spec fn spec_rfind_slash(s: Seq<char>) -> Option<int>
    decreases s.len(),
{
    if s.len() == 0 {
        None
    } else if s[s.len() - 1] == '/' {
        Some(s.len() - 1)
    } else {
        spec_rfind_slash(s.drop_last())
    }
}

/// The name of the directory that immediately encloses the file at
/// `path`: the text between the last two `/` separators (or before the
/// only one). `None` when the path names no enclosing directory.
pub open spec fn spec_slug_of(path: Seq<char>) -> Option<Seq<char>> {
    match spec_rfind_slash(path) {
        None => None,
        Some(i) => {
            let dir = path.take(i);
            let slug = match spec_rfind_slash(dir) {
                None => dir,
                Some(k) => dir.skip(k + 1),
            };
            if slug.len() == 0 {
                None
            } else {
                Some(slug)
            }
        },
    }
}

/// Exact search for the last `/` in `v`.
fn rfind_slash(v: &Vec<char>, upto: usize) -> (r: Option<usize>)
    requires
        upto <= v@.len(),
    ensures
        match r {
            Some(i) => i < upto && spec_rfind_slash(v@.take(upto as int)) == Some(i as int),
            None => spec_rfind_slash(v@.take(upto as int)) is None,
        },
{
    let mut i = upto;
    while i > 0
        invariant
            0 <= i <= upto <= v@.len(),
            spec_rfind_slash(v@.take(upto as int)) == spec_rfind_slash(v@.take(i as int)),
        decreases i,
    {
        proof {
            assert(v@.take(i as int).drop_last() =~= v@.take(i - 1));
            assert(v@.take(i as int)[i - 1] == v@[i - 1]);
        }
        if v[i - 1] == '/' {
            return Some(i - 1);
        }
        i -= 1;
    }
    proof {
        assert(v@.take(0) =~= Seq::<char>::empty());
    }
    None
}

/// Derives a module's slug — its enclosing directory's name — from the
/// path of its document file. `None` when the path has no directory part.
pub fn slug_of_path(path: &str) -> (r: Option<String>)
    ensures
        match r {
            Some(s) => spec_slug_of(path@) == Some(s@),
            None => spec_slug_of(path@) is None,
        },
{
    let v = chars_of(path);
    match rfind_slash(&v, v.len()) {
        None => {
            proof {
                assert(v@.take(v@.len() as int) =~= v@);
            }
            None
        },
        Some(i) => {
            proof {
                assert(v@.take(v@.len() as int) =~= v@);
            }
            let from = match rfind_slash(&v, i) {
                None => 0,
                Some(k) => k + 1,
            };
            proof {
                assert(v@.take(i as int).skip(from as int) =~= v@.subrange(from as int, i as int));
                assert(v@.take(i as int).take(i as int) =~= v@.take(i as int));
            }
            if from == i {
                None
            } else {
                let slug = copy_range(&v, from, i);
                Some(string_from_chars(&slug))
            }
        },
    }
}

/// A directory entry that holds a module document: a markdown file.
pub fn is_doc_file(name: &str) -> (r: bool)
    ensures
        r == has_suffix(name@, ".md"@),
{
    let v = chars_of(name);
    let suf = chars_of(".md");
    ends_with(&v, &suf)
}

/// Whether the table already holds a page of this slug; the compiler
/// treats a duplicate as fatal rather than letting a later module
/// shadow an earlier one.
pub fn slug_taken(pages: &Vec<Page>, slug: &str) -> (r: bool)
    ensures
        r == exists|i: int| 0 <= i < pages@.len() && pages@[i].slug@ == slug@,
{
    let s = chars_of(slug);
    let mut i: usize = 0;
    while i < pages.len()
        invariant
            0 <= i <= pages@.len(),
            s@ == slug@,
            forall|k: int| 0 <= k < i ==> pages@[k].slug@ != slug@,
        decreases pages@.len() - i,
    {
        let n = chars_of(pages[i].slug.as_str());
        if crate::text::eq_chars(&n, &s) {
            return true;
        }
        i += 1;
    }
    false
}

} // verus!
