//! Bundle location: the compiled script and binary-module files carry
//! content hashes in their names, so they are found by prefix, suffix
//! and an optional excluded substring rather than by exact name.

use vstd::prelude::*;

use crate::text::{
    chars_of, contains_sub, ends_with, find_sub, has_prefix, has_suffix, lemma_no_find_no_occurrence,
    starts_with,
};

verus! {

/// A directory entry qualifies when its name carries the prefix and the
/// suffix and, where one is given, avoids the excluded substring.
pub open spec fn name_matches(
    n: Seq<char>,
    prefix: Seq<char>,
    suffix: Seq<char>,
    exclude: Option<Seq<char>>,
) -> bool {
    has_prefix(n, prefix) && has_suffix(n, suffix) && match exclude {
        Some(e) => !contains_sub(n, e),
        None => true,
    }
}

/// The first qualifying name at or after `i`.
pub open spec fn spec_pick_from(
    names: Seq<Seq<char>>,
    prefix: Seq<char>,
    suffix: Seq<char>,
    exclude: Option<Seq<char>>,
    i: int,
) -> Option<int>
    decreases names.len() - i,
{
    if i < 0 || i >= names.len() {
        None
    } else if name_matches(names[i], prefix, suffix, exclude) {
        Some(i)
    } else {
        spec_pick_from(names, prefix, suffix, exclude, i + 1)
    }
}

/// The views of a list of names.
pub open spec fn names_view(names: Seq<String>) -> Seq<Seq<char>> {
    names.map_values(|s: String| s@)
}

/// Picks the first directory entry whose name starts with `prefix`, ends
/// with `suffix` and, when `exclude` is given, does not contain it;
/// `None` when no entry qualifies, which the patch stage treats as fatal.
pub fn pick_file(
    names: &Vec<String>,
    prefix: &str,
    suffix: &str,
    exclude: Option<&str>,
) -> (r: Option<usize>)
    ensures
        ({
            let ex = match exclude {
                Some(e) => Some(e@),
                None => None,
            };
            match r {
                Some(i) => i < names@.len() && spec_pick_from(
                    names_view(names@),
                    prefix@,
                    suffix@,
                    ex,
                    0,
                ) == Some(i as int) && name_matches(names@[i as int]@, prefix@, suffix@, ex),
                None => spec_pick_from(names_view(names@), prefix@, suffix@, ex, 0) is None,
            }
        }),
{
    let ghost ex = match exclude {
        Some(e) => Some(e@),
        None => None,
    };
    let p = chars_of(prefix);
    let s = chars_of(suffix);
    let mut i: usize = 0;
    loop
        invariant
            0 <= i <= names@.len(),
            p@ == prefix@,
            s@ == suffix@,
            ex == match exclude {
                Some(e) => Some(e@),
                None => None::<Seq<char>>,
            },
            spec_pick_from(names_view(names@), prefix@, suffix@, ex, 0) == spec_pick_from(
                names_view(names@),
                prefix@,
                suffix@,
                ex,
                i as int,
            ),
        decreases names@.len() - i,
    {
        if i == names.len() {
            return None;
        }
        let n = chars_of(names[i].as_str());
        let mut ok = starts_with(&n, &p) && ends_with(&n, &s);
        if ok {
            match exclude {
                Some(e) => {
                    let ev = chars_of(e);
                    match find_sub(&n, &ev) {
                        Some(_) => {
                            ok = false;
                        },
                        None => {
                            proof {
                                lemma_no_find_no_occurrence(n@, ev@);
                            }
                        },
                    }
                },
                None => {},
            }
        }
        if ok {
            return Some(i);
        }
        i += 1;
    }
}

} // verus!
