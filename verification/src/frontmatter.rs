//! Frontmatter extraction: pulls an optional `---`-delimited header of
//! `title`, `category` and `order` fields off the top of a document and
//! returns the remaining body. A missing or malformed header silently
//! falls back to defaults with the document returned unchanged.

use vstd::prelude::*;

use crate::text::{
    chars_of, copy_range, eq_chars, find_sub, find_sub_from, has_prefix, has_suffix,
    lemma_find_from, occurs_at, spec_find, spec_find_from, starts_with, string_from_chars,
};
use crate::DEFAULT_ORDER;

verus! {

/// Metadata carried by a module's frontmatter, with defaults applied.
pub struct Meta {
    pub title: String,
    pub category: String,
    pub order: u32,
}

/// The category given to pages whose frontmatter names none.
pub open spec fn default_category() -> Seq<char> {
    "Uncategorized"@
}

/// Fields as they accumulate while the header is parsed; `None` marks a
/// field the header has not given.
pub ghost struct FmFields {
    pub title: Option<Seq<char>>,
    pub category: Option<Seq<char>>,
    pub order: Option<u32>,
}

pub open spec fn fm_empty() -> FmFields {
    FmFields { title: None, category: None, order: None }
}

/// `c` is a decimal digit.
pub open spec fn is_digit(c: char) -> bool {
    48 <= c as u32 <= 57
}

pub open spec fn all_digits(s: Seq<char>) -> bool {
    forall|i: int| 0 <= i < s.len() ==> is_digit(#[trigger] s[i])
}

/// The value of one digit character; other characters count zero, though
/// they never parse.
pub open spec fn digit_of(c: char) -> nat {
    if is_digit(c) {
        (c as u32 - 48) as nat
    } else {
        0
    }
}

/// The number written in decimal as `s`.
pub open spec fn digits_val(s: Seq<char>) -> nat
    decreases s.len(),
{
    if s.len() == 0 {
        0
    } else {
        digits_val(s.take(s.len() - 1)) * 10 + digit_of(s[s.len() - 1])
    }
}

/// A nonempty, all-digit string whose value fits in a `u32` parses; any
/// other string does not.
pub open spec fn spec_parse_u32(s: Seq<char>) -> Option<u32> {
    if s.len() > 0 && all_digits(s) && digits_val(s) <= u32::MAX {
        Some(digits_val(s) as u32)
    } else {
        None
    }
}

/// `s` with its leading spaces removed.
pub open spec fn drop_spaces(s: Seq<char>) -> Seq<char>
    decreases s.len(),
{
    if s.len() > 0 && s[0] == ' ' {
        drop_spaces(s.skip(1))
    } else {
        s
    }
}

/// One header line: empty lines are skipped; otherwise the text before the
/// first `:` must name a known field, and the value is the rest of the
/// line with leading spaces dropped. An unknown key, a line without `:`,
/// or an unparsable `order` value makes the whole header malformed.
pub open spec fn parse_line(line: Seq<char>, acc: FmFields) -> Option<FmFields> {
    if line.len() == 0 {
        Some(acc)
    } else {
        match spec_find(line, seq![':']) {
            None => None,
            Some(i) => {
                let key = line.subrange(0, i);
                let value = drop_spaces(line.skip(i + 1));
                if key == "title"@ {
                    Some(FmFields { title: Some(value), ..acc })
                } else if key == "category"@ {
                    Some(FmFields { category: Some(value), ..acc })
                } else if key == "order"@ {
                    match spec_parse_u32(value) {
                        None => None,
                        Some(v) => Some(FmFields { order: Some(v), ..acc }),
                    }
                } else {
                    None
                }
            },
        }
    }
}

/// Folds `parse_line` over the newline-terminated lines of `content`.
pub open spec fn parse_fields(content: Seq<char>, acc: FmFields) -> Option<FmFields>
    decreases content.len(),
{
    if content.len() == 0 {
        Some(acc)
    } else {
        match spec_find(content, seq!['\n']) {
            None => None,
            Some(i) => {
                proof {
                    lemma_find_from(content, seq!['\n'], 0);
                }
                match parse_line(content.subrange(0, i), acc) {
                    None => None,
                    Some(acc2) => parse_fields(content.skip(i + 1), acc2),
                }
            },
        }
    }
}

/// Splits a document that opens with a `---` line at its closing `---`
/// line: `Some((content, body))` where `content` is the newline-terminated
/// header text and `body` what follows the closing line. `None` when the
/// document does not open with the delimiter or never closes it.
pub open spec fn header_split(text: Seq<char>) -> Option<(Seq<char>, Seq<char>)> {
    if !has_prefix(text, "---\n"@) {
        None
    } else {
        match spec_find_from(text, "\n---\n"@, 3) {
            Some(j) => Some((text.subrange(4, j + 1), text.skip(j + 5))),
            None => {
                if text.len() >= 7 && has_suffix(text, "\n---"@) {
                    Some((text.subrange(4, text.len() - 3), Seq::empty()))
                } else {
                    None
                }
            },
        }
    }
}

/// What `extract_frontmatter` returns, as `(title, category, order, body)`.
pub open spec fn spec_extract(text: Seq<char>, slug: Seq<char>) -> (Seq<char>, Seq<char>, u32, Seq<char>) {
    let fallback = (slug, default_category(), DEFAULT_ORDER, text);
    match header_split(text) {
        None => fallback,
        Some((content, body)) => match parse_fields(content, fm_empty()) {
            None => fallback,
            Some(f) => (
                match f.title {
                    Some(t) => t,
                    None => slug,
                },
                match f.category {
                    Some(c) => c,
                    None => default_category(),
                },
                match f.order {
                    Some(o) => o,
                    None => DEFAULT_ORDER,
                },
                body,
            ),
        },
    }
}

/// A well-formed document is exactly the opening line, the header content,
/// the closing line and the body, in that order: the returned body
/// excludes the header and the closing delimiter, once.
pub proof fn lemma_header_decomposition(text: Seq<char>)
    requires
        header_split(text) is Some,
    ensures
        ({
            let (content, body) = header_split(text)->Some_0;
            text =~= "---\n"@ + content + "---\n"@ + body || (text =~= "---\n"@ + content
                + "---"@ && body.len() == 0)
        }),
{
    reveal_strlit("---\n");
    reveal_strlit("\n---\n");
    reveal_strlit("\n---");
    reveal_strlit("---");
    assert(has_prefix(text, "---\n"@));
    match spec_find_from(text, "\n---\n"@, 3) {
        Some(j) => {
            lemma_find_from(text, "\n---\n"@, 3);
            let content = text.subrange(4, j + 1);
            let body = text.skip(j + 5);
            assert(occurs_at(text, "\n---\n"@, j));
            let rhs = "---\n"@ + content + "---\n"@ + body;
            assert forall|k: int| 0 <= k < text.len() implies text[k] == rhs[k] by {
                if k < 4 {
                    assert(text.subrange(0, 4)[k] == text[k]);
                } else if k < j + 1 {
                    assert(content[k - 4] == text[k]);
                } else if k < j + 5 {
                    assert(text.subrange(j, j + 5)[k - j] == text[k]);
                } else {
                    assert(body[k - (j + 5)] == text[k]);
                }
            }
            assert(text =~= rhs);
        },
        None => {
            let ll = text.len() as int;
            let content = text.subrange(4, ll - 3);
            let rhs = "---\n"@ + content + "---"@;
            assert forall|k: int| 0 <= k < text.len() implies text[k] == rhs[k] by {
                if k < 4 {
                    assert(text.subrange(0, 4)[k] == text[k]);
                } else if k < ll - 3 {
                    assert(content[k - 4] == text[k]);
                } else {
                    assert(text.subrange(ll - 4, ll)[k - (ll - 4)] == text[k]);
                }
            }
            assert(text =~= rhs);
        },
    }
}

/// Exec mirror of `drop_spaces`: index of the first non-space character.
fn skip_spaces_index(v: &Vec<char>, from: usize) -> (r: usize)
    requires
        from <= v@.len(),
    ensures
        from <= r <= v@.len(),
        drop_spaces(v@.skip(from as int)) =~= v@.skip(r as int),
{
    let mut i = from;
    let n = v.len();
    while i < n && v[i] == ' '
        invariant
            from <= i <= n,
            n == v@.len(),
            drop_spaces(v@.skip(from as int)) == drop_spaces(v@.skip(i as int)),
        decreases n - i,
    {
        proof {
            assert(v@.skip(i as int).skip(1) =~= v@.skip(i + 1));
        }
        i += 1;
    }
    proof {
        if i < n {
            assert(v@.skip(i as int)[0] == v@[i as int]);
        }
    }
    i
}

/// Exec mirror of `spec_parse_u32`.
fn parse_u32_exec(v: &Vec<char>, from: usize, to: usize) -> (r: Option<u32>)
    requires
        from <= to <= v@.len(),
    ensures
        r == spec_parse_u32(v@.subrange(from as int, to as int)),
{
    let ghost s = v@.subrange(from as int, to as int);
    if from == to {
        return None;
    }
    let mut acc: u32 = 0;
    let mut i = from;
    while i < to
        invariant
            from <= i <= to <= v@.len(),
            s == v@.subrange(from as int, to as int),
            all_digits(s.take(i - from)),
            acc == digits_val(s.take(i - from)),
        decreases to - i,
    {
        let d = v[i] as u32;
        if d < 48 || d > 57 {
            proof {
                assert(s[i - from] == v@[i as int]);
                assert(!is_digit(s[i - from]));
            }
            return None;
        }
        let d = d - 48;
        if acc > (u32::MAX - d) / 10 {
            proof {
                lemma_digits_val_grows(s, i - from + 1);
                assert(s.take(i - from + 1).take(i + 1 - from - 1) =~= s.take(i - from));
                assert(s.take(i - from + 1)[i - from] == v@[i as int]);
                assert(digit_of(v@[i as int]) == d);
                assert(digits_val(s.take(i - from + 1)) == acc * 10 + d);
                assert(acc * 10 + d > u32::MAX) by (nonlinear_arith)
                    requires
                        acc > (u32::MAX - d) / 10,
                        d <= 9,
                        acc <= u32::MAX,
                ;
            }
            return None;
        }
        proof {
            assert(s.take(i - from + 1).take(i + 1 - from - 1) =~= s.take(i - from));
            assert(s.take(i - from + 1)[i - from] == v@[i as int]);
            assert(digit_of(v@[i as int]) == d);
            assert(acc * 10 + d <= u32::MAX) by (nonlinear_arith)
                requires
                    acc <= (u32::MAX - d) / 10,
                    d <= 9,
            ;
        }
        acc = acc * 10 + d;
        i += 1;
    }
    proof {
        assert(s.take(to - from) =~= s);
    }
    Some(acc)
}

/// Once too large, the written number stays too large as digits follow.
proof fn lemma_digits_val_grows(s: Seq<char>, i: int)
    requires
        0 <= i <= s.len(),
    ensures
        digits_val(s) >= digits_val(s.take(i)),
    decreases s.len() - i,
{
    if i < s.len() {
        lemma_digits_val_grows(s, i + 1);
        assert(s.take(i + 1).take(i) =~= s.take(i));
        assert(digits_val(s.take(i + 1)) == digits_val(s.take(i)) * 10 + digit_of(s.take(i + 1)[i]));
        assert(digits_val(s.take(i)) * 10 >= digits_val(s.take(i))) by (nonlinear_arith)
            requires
                digits_val(s.take(i)) >= 0,
        ;
    } else {
        assert(s.take(i) =~= s);
    }
}

/// Exec mirror of `parse_line` over `v[from..to]`.
fn parse_line_exec(v: &Vec<char>, from: usize, to: usize, acc: ExFields) -> (r: Option<ExFields>)
    requires
        from <= to <= v@.len(),
    ensures
        match r {
            Some(a) => parse_line(v@.subrange(from as int, to as int), acc@) == Some(a@),
            None => parse_line(v@.subrange(from as int, to as int), acc@) is None,
        },
{
    let ghost line = v@.subrange(from as int, to as int);
    if from == to {
        return Some(acc);
    }
    let seg = copy_range(v, from, to);
    let colon: Vec<char> = vec![':'];
    assert(colon@ =~= seq![':']);
    match find_sub(&seg, &colon) {
        None => None,
        Some(i) => {
            let key = copy_range(&seg, 0, i);
            assert(key@ =~= line.subrange(0, i as int));
            let vstart = skip_spaces_index(&seg, i + 1);
            proof {
                assert(seg@.skip(i + 1) =~= line.skip(i + 1));
            }
            let title_key = chars_of("title");
            let category_key = chars_of("category");
            let order_key = chars_of("order");
            if eq_chars(&key, &title_key) {
                let value = copy_range(&seg, vstart, seg.len());
                assert(value@ =~= seg@.skip(vstart as int));
                Some(ExFields { title: Some(value), ..acc })
            } else if eq_chars(&key, &category_key) {
                let value = copy_range(&seg, vstart, seg.len());
                assert(value@ =~= seg@.skip(vstart as int));
                Some(ExFields { category: Some(value), ..acc })
            } else if eq_chars(&key, &order_key) {
                proof {
                    assert(seg@.subrange(vstart as int, seg@.len() as int) =~= seg@.skip(
                        vstart as int,
                    ));
                }
                match parse_u32_exec(&seg, vstart, seg.len()) {
                    None => None,
                    Some(o) => Some(ExFields { order: Some(o), ..acc }),
                }
            } else {
                None
            }
        },
    }
}

/// Field values as the executable parser accumulates them.
pub struct ExFields {
    pub title: Option<Vec<char>>,
    pub category: Option<Vec<char>>,
    pub order: Option<u32>,
}

impl View for ExFields {
    type V = FmFields;

    open spec fn view(&self) -> FmFields {
        FmFields {
            title: match self.title {
                Some(ref t) => Some(t@),
                None => None,
            },
            category: match self.category {
                Some(ref c) => Some(c@),
                None => None,
            },
            order: self.order,
        }
    }
}

/// Exec mirror of `parse_fields` over `v[from..]`.
fn parse_fields_exec(v: &Vec<char>, from: usize, acc: ExFields) -> (r: Option<ExFields>)
    requires
        from <= v@.len(),
    ensures
        match r {
            Some(a) => parse_fields(v@.skip(from as int), acc@) == Some(a@),
            None => parse_fields(v@.skip(from as int), acc@) is None,
        },
    decreases v@.len() - from,
{
    let ghost content = v@.skip(from as int);
    if from == v.len() {
        return Some(acc);
    }
    let nl: Vec<char> = vec!['\n'];
    assert(nl@ =~= seq!['\n']);
    match find_sub_from(v, &nl, from) {
        None => {
            proof {
                lemma_find_rebase(v@, seq!['\n'], from as int);
            }
            None
        },
        Some(j) => {
            proof {
                lemma_find_rebase(v@, seq!['\n'], from as int);
                assert(spec_find(content, seq!['\n']) == Some(j - from as int));
                assert(content.subrange(0, j - from as int) =~= v@.subrange(from as int, j as int));
            }
            match parse_line_exec(v, from, j, acc) {
                None => None,
                Some(acc2) => {
                    proof {
                        assert(content.skip(j - from as int + 1) =~= v@.skip(j + 1));
                    }
                    parse_fields_exec(v, j + 1, acc2)
                },
            }
        },
    }
}

/// Finding inside a suffix is finding from an offset, shifted.
proof fn lemma_find_rebase(h: Seq<char>, n: Seq<char>, s: int)
    requires
        0 <= s <= h.len(),
    ensures
        match spec_find_from(h, n, s) {
            Some(j) => spec_find(h.skip(s), n) == Some(j - s),
            None => spec_find(h.skip(s), n) is None,
        },
{
    lemma_find_from(h, n, s);
    lemma_find_from(h.skip(s), n, 0);
    let t = h.skip(s);
    assert forall|k: int| 0 <= k <= t.len() - n.len() implies occurs_at(t, n, k) == occurs_at(
        h,
        n,
        k + s,
    ) by {
        assert(t.subrange(k, k + n.len() as int) =~= h.subrange(k + s, k + s + n.len() as int));
    }
    match spec_find_from(h, n, s) {
        Some(j) => {
            assert(occurs_at(t, n, j - s));
            match spec_find(t, n) {
                Some(m) => {
                    assert(occurs_at(h, n, m + s));
                    assert(!(m + s < j));
                    assert(!(j - s < m));
                },
                None => {
                    assert(!occurs_at(t, n, j - s));
                },
            }
        },
        None => {
            match spec_find(t, n) {
                Some(m) => {
                    assert(occurs_at(h, n, m + s));
                },
                None => {},
            }
        },
    }
}

/// Pulls the frontmatter off `text`: returns the metadata (with defaults
/// applied; the default title is `slug`) and the remaining body. A
/// document without a well-formed header comes back unchanged, under
/// all-default metadata — never an error.
pub fn extract_frontmatter(text: &str, slug: &str) -> (r: (Meta, String))
    ensures
        ({
            let (title, category, order, body) = spec_extract(text@, slug@);
            r.0.title@ == title && r.0.category@ == category && r.0.order == order && r.1@ == body
        }),
        header_split(text@) is None ==> r.1@ == text@ && r.0.title@ == slug@ && r.0.category@
            == default_category() && r.0.order == DEFAULT_ORDER,
{
    let v = chars_of(text);
    let total = v.len();
    let open_pat = chars_of("---\n");
    if !starts_with(&v, &open_pat) {
        let title = slug.to_owned();
        let category = "Uncategorized".to_owned();
        assert(category@ == default_category());
        return (Meta { title, category, order: DEFAULT_ORDER }, text.to_owned());
    }
    proof {
        reveal_strlit("---\n");
    }
    let close_pat = chars_of("\n---\n");
    proof {
        reveal_strlit("\n---\n");
    }
    let (content_to, body_from): (usize, usize) = match find_sub_from(&v, &close_pat, 3) {
        Some(j) => (j + 1, j + 5),
        None => {
            let close_end = chars_of("\n---");
            proof {
                reveal_strlit("\n---");
            }
            if v.len() >= 7 && crate::text::ends_with(&v, &close_end) {
                (v.len() - 3, v.len())
            } else {
                let title = slug.to_owned();
                let category = "Uncategorized".to_owned();
                assert(category@ == default_category());
                return (Meta { title, category, order: DEFAULT_ORDER }, text.to_owned());
            }
        },
    };
    let content = copy_range(&v, 4, content_to);
    let ghost pair = header_split(text@)->Some_0;
    proof {
        assert(content@ =~= pair.0);
        assert(content@.skip(0) =~= content@);
    }
    let acc = ExFields { title: None, category: None, order: None };
    match parse_fields_exec(&content, 0, acc) {
        None => {
            let title = slug.to_owned();
            let category = "Uncategorized".to_owned();
            assert(category@ == default_category());
            (Meta { title, category, order: DEFAULT_ORDER }, text.to_owned())
        },
        Some(f) => {
            let title = match f.title {
                Some(t) => string_from_chars(&t),
                None => slug.to_owned(),
            };
            let category = match f.category {
                Some(c) => string_from_chars(&c),
                None => {
                    let c = "Uncategorized".to_owned();
                    assert(c@ == default_category());
                    c
                },
            };
            let order = match f.order {
                Some(o) => o,
                None => DEFAULT_ORDER,
            };
            let body = copy_range(&v, body_from, v.len());
            proof {
                assert(body@ =~= pair.1);
            }
            (Meta { title, category, order }, string_from_chars(&body))
        },
    }
}

} // verus!
