//! Navigation building: groups the compiled page table by category —
//! categories ordered by name, pages within a category by their `order`
//! field, ties keeping table order — for the sidebar to render.

use vstd::prelude::*;

use crate::pages::{clone_page, Page};
use crate::text::{chars_of, eq_chars};

verus! {

/// A category of the navigation tree: its name and its pages, in
/// presentation order.
pub struct Category {
    pub name: String,
    pub pages: Vec<Page>,
}

/// The view of a built navigation: each category as its name and pages.
pub open spec fn cats_view(v: Seq<Category>) -> Seq<(Seq<char>, Seq<Page>)> {
    v.map_values(|c: Category| (c.name@, c.pages@))
}

/// Lexicographic order on names, by code point.
pub open spec fn lex_le(a: Seq<char>, b: Seq<char>) -> bool
    decreases a.len(),
{
    if a.len() == 0 {
        true
    } else if b.len() == 0 {
        false
    } else if (a[0] as u32) < (b[0] as u32) {
        true
    } else if (a[0] as u32) > (b[0] as u32) {
        false
    } else {
        lex_le(a.skip(1), b.skip(1))
    }
}

/// First category of `acc` named `name`, scanning from `i`.
pub open spec fn find_cat_from(acc: Seq<(Seq<char>, Seq<Page>)>, name: Seq<char>, i: int) -> Option<
    int,
>
    decreases acc.len() - i,
{
    if i < 0 || i >= acc.len() {
        None
    } else if acc[i].0 == name {
        Some(i)
    } else {
        find_cat_from(acc, name, i + 1)
    }
}

/// A page entering a category goes after every page of equal or smaller
/// `order`: within one category the table order breaks ties.
pub open spec fn insert_by_order(s: Seq<Page>, p: Page) -> Seq<Page>
    decreases s.len(),
{
    if s.len() == 0 {
        seq![p]
    } else if s[0].order <= p.order {
        seq![s[0]] + insert_by_order(s.skip(1), p)
    } else {
        seq![p] + s
    }
}

/// A new category enters the list at its place in name order.
pub open spec fn insert_cat(
    acc: Seq<(Seq<char>, Seq<Page>)>,
    c: (Seq<char>, Seq<Page>),
) -> Seq<(Seq<char>, Seq<Page>)>
    decreases acc.len(),
{
    if acc.len() == 0 {
        seq![c]
    } else if lex_le(acc[0].0, c.0) {
        seq![acc[0]] + insert_cat(acc.skip(1), c)
    } else {
        seq![c] + acc
    }
}

/// Files one page into the grouping so far.
pub open spec fn add_page(
    acc: Seq<(Seq<char>, Seq<Page>)>,
    p: Page,
) -> Seq<(Seq<char>, Seq<Page>)> {
    match find_cat_from(acc, p.category@, 0) {
        Some(k) => acc.update(k, (acc[k].0, insert_by_order(acc[k].1, p))),
        None => insert_cat(acc, (p.category@, seq![p])),
    }
}

/// The grouping of a page table: pages filed in table order.
pub open spec fn spec_navigation(pages: Seq<Page>) -> Seq<(Seq<char>, Seq<Page>)>
    decreases pages.len(),
{
    if pages.len() == 0 {
        Seq::empty()
    } else {
        add_page(spec_navigation(pages.drop_last()), pages.last())
    }
}


/// Adjacent categories stand in name order.
pub open spec fn names_sorted(acc: Seq<(Seq<char>, Seq<Page>)>) -> bool {
    forall|k: int| 0 <= k < acc.len() - 1 ==> lex_le(#[trigger] acc[k].0, acc[k + 1].0)
}

/// Adjacent pages stand in ascending `order`.
pub open spec fn orders_sorted(s: Seq<Page>) -> bool {
    forall|i: int| 0 <= i < s.len() - 1 ==> #[trigger] s[i].order <= s[i + 1].order
}

/// Every category's pages stand in ascending `order`.
pub open spec fn cats_pages_sorted(acc: Seq<(Seq<char>, Seq<Page>)>) -> bool {
    forall|k: int| 0 <= k < acc.len() ==> orders_sorted(#[trigger] acc[k].1)
}

/// The name order relates any two names one way or the other.
pub proof fn lemma_lex_le_total(a: Seq<char>, b: Seq<char>)
    ensures
        lex_le(a, b) || lex_le(b, a),
    decreases a.len(),
{
    if a.len() > 0 && b.len() > 0 && (a[0] as u32) == (b[0] as u32) {
        lemma_lex_le_total(a.skip(1), b.skip(1));
    }
}

/// Inserting grows the list by one.
pub proof fn lemma_insert_by_order_len(s: Seq<Page>, p: Page)
    ensures
        insert_by_order(s, p).len() == s.len() + 1,
    decreases s.len(),
{
    if s.len() > 0 && s[0].order <= p.order {
        lemma_insert_by_order_len(s.skip(1), p);
    }
}

/// Inserting a page by `order` keeps the list sorted.
pub proof fn lemma_insert_by_order_sorted(s: Seq<Page>, p: Page)
    requires
        orders_sorted(s),
    ensures
        orders_sorted(insert_by_order(s, p)),
    decreases s.len(),
{
    let r = insert_by_order(s, p);
    if s.len() == 0 {
    } else if s[0].order <= p.order {
        let t = s.skip(1);
        assert forall|i: int| 0 <= i < t.len() - 1 implies #[trigger] t[i].order <= t[i + 1].order
            by {
            assert(s[i + 1].order <= s[i + 2].order);
        }
        lemma_insert_by_order_sorted(t, p);
        lemma_insert_by_order_len(t, p);
        let ri = insert_by_order(t, p);
        assert(r == seq![s[0]] + ri);
        assert forall|i: int| 0 <= i < r.len() - 1 implies #[trigger] r[i].order <= r[i + 1].order
            by {
            if i == 0 {
                if t.len() == 0 || !(t[0].order <= p.order) {
                    assert(ri[0] == p);
                } else {
                    assert(ri[0] == t[0]);
                    assert(s[0].order <= s[1].order);
                }
            } else {
                assert(r[i] == ri[i - 1] && r[i + 1] == ri[i]);
            }
        }
    } else {
        assert(r == seq![p] + s);
        assert forall|i: int| 0 <= i < r.len() - 1 implies #[trigger] r[i].order <= r[i + 1].order
            by {
            if i > 0 {
                assert(s[i - 1].order <= s[i].order);
            }
        }
    }
}

/// Inserting grows the category list by one.
pub proof fn lemma_insert_cat_len(acc: Seq<(Seq<char>, Seq<Page>)>, c: (Seq<char>, Seq<Page>))
    ensures
        insert_cat(acc, c).len() == acc.len() + 1,
    decreases acc.len(),
{
    if acc.len() > 0 && lex_le(acc[0].0, c.0) {
        lemma_insert_cat_len(acc.skip(1), c);
    }
}

/// Inserting a category by name keeps the list in name order, and keeps
/// every category's pages sorted when the new one's are.
pub proof fn lemma_insert_cat_sorted(acc: Seq<(Seq<char>, Seq<Page>)>, c: (Seq<char>, Seq<Page>))
    requires
        names_sorted(acc),
        cats_pages_sorted(acc),
        orders_sorted(c.1),
    ensures
        names_sorted(insert_cat(acc, c)),
        cats_pages_sorted(insert_cat(acc, c)),
    decreases acc.len(),
{
    let r = insert_cat(acc, c);
    if acc.len() == 0 {
    } else if lex_le(acc[0].0, c.0) {
        let t = acc.skip(1);
        assert forall|k: int| 0 <= k < t.len() - 1 implies lex_le(#[trigger] t[k].0, t[k + 1].0)
            by {
            assert(lex_le(acc[k + 1].0, acc[k + 2].0));
        }
        assert forall|k: int| 0 <= k < t.len() implies orders_sorted(#[trigger] t[k].1) by {
            assert(orders_sorted(acc[k + 1].1));
        }
        lemma_insert_cat_sorted(t, c);
        lemma_insert_cat_len(t, c);
        let ri = insert_cat(t, c);
        assert(r == seq![acc[0]] + ri);
        assert forall|k: int| 0 <= k < r.len() - 1 implies lex_le(#[trigger] r[k].0, r[k + 1].0)
            by {
            if k == 0 {
                if t.len() == 0 || !lex_le(t[0].0, c.0) {
                    assert(ri[0] == c);
                } else {
                    assert(ri[0] == t[0]);
                    assert(lex_le(acc[0].0, acc[1].0));
                }
            } else {
                assert(r[k] == ri[k - 1] && r[k + 1] == ri[k]);
            }
        }
        assert forall|k: int| 0 <= k < r.len() implies orders_sorted(#[trigger] r[k].1) by {
            if k == 0 {
                assert(orders_sorted(acc[0].1));
            } else {
                assert(orders_sorted(ri[k - 1].1));
            }
        }
    } else {
        lemma_lex_le_total(acc[0].0, c.0);
        assert(r == seq![c] + acc);
        assert forall|k: int| 0 <= k < r.len() - 1 implies lex_le(#[trigger] r[k].0, r[k + 1].0)
            by {
            if k > 0 {
                assert(lex_le(acc[k - 1].0, acc[k].0));
            }
        }
        assert forall|k: int| 0 <= k < r.len() implies orders_sorted(#[trigger] r[k].1) by {
            if k > 0 {
                assert(orders_sorted(acc[k - 1].1));
            }
        }
    }
}

/// What a found category index means: it lies within the list.
pub proof fn lemma_find_cat_bounds(acc: Seq<(Seq<char>, Seq<Page>)>, name: Seq<char>, i: int)
    requires
        0 <= i,
    ensures
        find_cat_from(acc, name, i) matches Some(k) ==> i <= k < acc.len(),
    decreases acc.len() - i,
{
    if i < acc.len() && !(acc[i].0 == name) {
        lemma_find_cat_bounds(acc, name, i + 1);
    }
}

/// Filing one page keeps categories in name order and pages sorted.
pub proof fn lemma_add_page_sorted(acc: Seq<(Seq<char>, Seq<Page>)>, p: Page)
    requires
        names_sorted(acc),
        cats_pages_sorted(acc),
    ensures
        names_sorted(add_page(acc, p)),
        cats_pages_sorted(add_page(acc, p)),
{
    match find_cat_from(acc, p.category@, 0) {
        Some(k) => {
            lemma_find_cat_bounds(acc, p.category@, 0);
            lemma_insert_by_order_sorted(acc[k].1, p);
            let r = acc.update(k, (acc[k].0, insert_by_order(acc[k].1, p)));
            assert forall|m: int| 0 <= m < r.len() - 1 implies lex_le(
                #[trigger] r[m].0,
                r[m + 1].0,
            ) by {
                assert(lex_le(acc[m].0, acc[m + 1].0));
            }
            assert forall|m: int| 0 <= m < r.len() implies orders_sorted(#[trigger] r[m].1) by {
                if m != k {
                    assert(orders_sorted(acc[m].1));
                }
            }
        },
        None => {
            lemma_insert_cat_sorted(acc, (p.category@, seq![p]));
        },
    }
}

/// The navigation of any page table comes out with its categories in
/// name order and each category's pages in ascending `order`.
pub proof fn lemma_navigation_sorted(pages: Seq<Page>)
    ensures
        names_sorted(spec_navigation(pages)),
        cats_pages_sorted(spec_navigation(pages)),
    decreases pages.len(),
{
    if pages.len() > 0 {
        lemma_navigation_sorted(pages.drop_last());
        lemma_add_page_sorted(spec_navigation(pages.drop_last()), pages.last());
    }
}

/// Exact lexicographic comparison of two names.
fn lex_le_exec(a: &Vec<char>, b: &Vec<char>) -> (r: bool)
    ensures
        r == lex_le(a@, b@),
{
    let mut i: usize = 0;
    assert(a@.skip(0) =~= a@);
    assert(b@.skip(0) =~= b@);
    loop
        invariant
            0 <= i <= a@.len(),
            i <= b@.len(),
            lex_le(a@, b@) == lex_le(a@.skip(i as int), b@.skip(i as int)),
        decreases a@.len() - i,
    {
        if i == a.len() {
            return true;
        }
        if i == b.len() {
            return false;
        }
        let ca = a[i] as u32;
        let cb = b[i] as u32;
        proof {
            assert(a@.skip(i as int)[0] == a@[i as int]);
            assert(b@.skip(i as int)[0] == b@[i as int]);
            assert(a@.skip(i as int).skip(1) =~= a@.skip(i + 1));
            assert(b@.skip(i as int).skip(1) =~= b@.skip(i + 1));
        }
        if ca < cb {
            return true;
        }
        if ca > cb {
            return false;
        }
        i += 1;
    }
}

/// Exact insertion of a page by `order`.
fn insert_by_order_exec(s: Vec<Page>, p: Page) -> (r: Vec<Page>)
    ensures
        r@ == insert_by_order(s@, p),
    decreases s@.len(),
{
    let mut s = s;
    if s.len() == 0 {
        let mut v: Vec<Page> = Vec::new();
        v.push(p);
        assert(v@ =~= seq![p]);
        v
    } else if s[0].order <= p.order {
        let ghost s0 = s@;
        let head = s.remove(0);
        proof {
            assert(s@ =~= s0.skip(1));
        }
        let mut r = insert_by_order_exec(s, p);
        r.insert(0, head);
        proof {
            assert(r@ =~= seq![s0[0]] + insert_by_order(s0.skip(1), p));
        }
        r
    } else {
        let ghost s0 = s@;
        s.insert(0, p);
        proof {
            assert(s@ =~= seq![p] + s0);
        }
        s
    }
}

/// Exact insertion of a category by name.
fn insert_cat_exec(acc: Vec<Category>, c: Category) -> (r: Vec<Category>)
    ensures
        cats_view(r@) == insert_cat(cats_view(acc@), (c.name@, c.pages@)),
    decreases acc@.len(),
{
    let mut acc = acc;
    if acc.len() == 0 {
        let mut v: Vec<Category> = Vec::new();
        v.push(c);
        assert(cats_view(v@) =~= insert_cat(cats_view(acc@), (c.name@, c.pages@)));
        v
    } else {
        let na = chars_of(acc[0].name.as_str());
        let nc = chars_of(c.name.as_str());
        if lex_le_exec(&na, &nc) {
            let ghost a0 = acc@;
            let head = acc.remove(0);
            proof {
                assert(acc@ =~= a0.skip(1));
                assert(cats_view(a0.skip(1)) =~= cats_view(a0).skip(1));
            }
            let mut r = insert_cat_exec(acc, c);
            r.insert(0, head);
            proof {
                assert(cats_view(r@) =~= seq![cats_view(a0)[0]] + insert_cat(
                    cats_view(a0).skip(1),
                    (c.name@, c.pages@),
                ));
            }
            r
        } else {
            let ghost a0 = acc@;
            acc.insert(0, c);
            proof {
                assert(cats_view(acc@) =~= seq![(acc@[0].name@, acc@[0].pages@)] + cats_view(a0));
            }
            acc
        }
    }
}

/// Groups the page table by category for the sidebar: categories come
/// out in name order, pages within each category in ascending `order`,
/// equal orders keeping their table order.
pub fn get_navigation(pages: &Vec<Page>) -> (r: Vec<Category>)
    ensures
        cats_view(r@) == spec_navigation(pages@),
        names_sorted(cats_view(r@)),
        cats_pages_sorted(cats_view(r@)),
{
    proof {
        lemma_navigation_sorted(pages@);
    }
    let mut acc: Vec<Category> = Vec::new();
    let mut i: usize = 0;
    assert(cats_view(acc@) =~= spec_navigation(pages@.take(0)));
    while i < pages.len()
        invariant
            0 <= i <= pages@.len(),
            cats_view(acc@) == spec_navigation(pages@.take(i as int)),
        decreases pages@.len() - i,
    {
        let p = clone_page(&pages[i]);
        let cat_name = chars_of(p.category.as_str());
        let found = find_cat_exec(&acc, &cat_name);
        proof {
            assert(pages@.take(i + 1).drop_last() =~= pages@.take(i as int));
            assert(pages@.take(i + 1).last() == pages@[i as int]);
        }
        match found {
            Some(k) => {
                let ghost a0 = cats_view(acc@);
                let cat = acc.remove(k);
                let pages2 = insert_by_order_exec(cat.pages, p);
                let cat2 = Category { name: cat.name, pages: pages2 };
                acc.insert(k, cat2);
                proof {
                    assert(cats_view(acc@) =~= a0.update(
                        k as int,
                        (a0[k as int].0, insert_by_order(a0[k as int].1, pages@[i as int])),
                    ));
                }
            },
            None => {
                let name = p.category.clone();
                let mut only: Vec<Page> = Vec::new();
                only.push(p);
                let c = Category { name, pages: only };
                assert(c.pages@ =~= seq![pages@[i as int]]);
                acc = insert_cat_exec(acc, c);
            },
        }
        i += 1;
    }
    proof {
        assert(pages@.take(pages@.len() as int) =~= pages@);
    }
    acc
}

/// First category of `acc` whose name is `name`.
fn find_cat_exec(acc: &Vec<Category>, name: &Vec<char>) -> (r: Option<usize>)
    ensures
        match r {
            Some(k) => k < acc@.len() && find_cat_from(cats_view(acc@), name@, 0) == Some(
                k as int,
            ) && cats_view(acc@)[k as int].0 == name@,
            None => find_cat_from(cats_view(acc@), name@, 0) is None,
        },
{
    let mut k: usize = 0;
    loop
        invariant
            0 <= k <= acc@.len(),
            find_cat_from(cats_view(acc@), name@, 0) == find_cat_from(
                cats_view(acc@),
                name@,
                k as int,
            ),
        decreases acc@.len() - k,
    {
        if k == acc.len() {
            return None;
        }
        let nk = chars_of(acc[k].name.as_str());
        if eq_chars(&nk, name) {
            return Some(k);
        }
        k += 1;
    }
}

} // verus!
