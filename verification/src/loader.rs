//! Loader patching: strips the network-module constructs from the HTML
//! shell — module script blocks, preload links, cross-origin attributes —
//! and installs a plain script tag plus an inline initializer that keeps
//! the application's startup-event contract.

use vstd::prelude::*;

use crate::embed::is_ws;
use crate::patch::PatchError;
use crate::text::{
    chars_of, contains_sub, copy_range, count_occ, count_sub, find_sub, find_sub_from,
    lemma_find_from, lemma_no_find_no_occurrence, occurs_at, push_all, spec_find, spec_find_from,
    spec_replace_all, replace_all, string_from_chars,
};

verus! {

/// The opening of an inline module script block.
pub open spec fn module_open() -> Seq<char> {
    "<script type=\"module\">"@
}

/// The closing of a script block.
pub open spec fn script_close() -> Seq<char> {
    "</script>"@
}

/// The openings of the two preload link forms.
pub open spec fn modulepreload_open() -> Seq<char> {
    "<link rel=\"modulepreload\""@
}

pub open spec fn preload_open() -> Seq<char> {
    "<link rel=\"preload\""@
}

/// The cross-origin attribute word.
pub open spec fn xo_word() -> Seq<char> {
    "crossorigin"@
}

/// The head end tag the loader goes before.
pub open spec fn head_close() -> Seq<char> {
    "</head>"@
}

/// `h` with every module script block removed, first block first; `None`
/// when a block opens and never closes.
pub open spec fn spec_strip_modules(h: Seq<char>) -> Option<Seq<char>>
    decreases h.len(),
{
    match spec_find(h, module_open()) {
        None => Some(h),
        Some(i) => {
            proof {
                lemma_find_from(h, module_open(), 0);
                reveal_strlit("<script type=\"module\">");
                reveal_strlit("</script>");
            }
            match spec_find_from(h, script_close(), i + module_open().len()) {
                None => None,
                Some(j) => {
                    proof {
                        lemma_find_from(h, script_close(), i + module_open().len());
                    }
                    spec_strip_modules(h.subrange(0, i) + h.skip(j + script_close().len()))
                },
            }
        },
    }
}

/// `h` with every link tag that opens with `open_pat` removed through its
/// closing `>`; `None` when one never closes.
pub open spec fn spec_strip_links(h: Seq<char>, open_pat: Seq<char>) -> Option<Seq<char>>
    decreases h.len(),
{
    match spec_find(h, open_pat) {
        None => Some(h),
        Some(i) => {
            proof {
                lemma_find_from(h, open_pat, 0);
            }
            match spec_find_from(h, seq!['>'], i + open_pat.len()) {
                None => None,
                Some(j) => {
                    proof {
                        lemma_find_from(h, seq!['>'], i + open_pat.len());
                    }
                    spec_strip_links(h.subrange(0, i) + h.skip(j + 1), open_pat)
                },
            }
        },
    }
}

/// A cross-origin attribute sits at `c`: the word, preceded by at least
/// one whitespace character.
pub open spec fn xo_at(h: Seq<char>, c: int) -> bool {
    occurs_at(h, xo_word(), c) && c > 0 && is_ws(h[c - 1])
}

/// The first cross-origin attribute at or after `i`.
pub open spec fn find_xo_from(h: Seq<char>, i: int) -> Option<int>
    decreases h.len() - i,
{
    if i < 0 || i >= h.len() {
        None
    } else if xo_at(h, i) {
        Some(i)
    } else {
        find_xo_from(h, i + 1)
    }
}

/// The start of the whitespace run ending at `c`.
pub open spec fn ws_start(h: Seq<char>, c: int) -> int
    decreases c,
{
    if 0 < c <= h.len() && is_ws(h[c - 1]) {
        ws_start(h, c - 1)
    } else {
        c
    }
}

/// Where the attribute found at `c` ends: past an optional `="..."` value.
pub open spec fn xo_end(h: Seq<char>, c: int) -> int {
    let w = c + xo_word().len();
    if w + 2 <= h.len() && h[w] == '=' && h[w + 1] == '"' {
        match spec_find_from(h, seq!['"'], w + 2) {
            Some(q) => q + 1,
            None => w,
        }
    } else {
        w
    }
}

/// `h` with every whitespace-preceded cross-origin attribute removed,
/// leftmost first, together with the whitespace run before it and its
/// optional quoted value.
pub open spec fn spec_strip_xo(h: Seq<char>) -> Seq<char>
    decreases h.len(),
{
    match find_xo_from(h, 0) {
        None => h,
        Some(c) => {
            proof {
                lemma_find_xo(h, 0);
                reveal_strlit("crossorigin");
                lemma_ws_start(h, c);
                lemma_xo_end(h, c);
            }
            spec_strip_xo(h.subrange(0, ws_start(h, c)) + h.skip(xo_end(h, c)))
        },
    }
}

/// What `find_xo_from` returns: a real attribute position, after `s`.
pub proof fn lemma_find_xo(h: Seq<char>, s: int)
    requires
        0 <= s,
    ensures
        match find_xo_from(h, s) {
            Some(c) => s <= c < h.len() && xo_at(h, c),
            None => forall|k: int| k >= s ==> !xo_at(h, k),
        },
    decreases h.len() - s,
{
    if s >= h.len() {
        assert forall|k: int| k >= s implies !xo_at(h, k) by {
            reveal_strlit("crossorigin");
        }
    } else if xo_at(h, s) {
    } else {
        lemma_find_xo(h, s + 1);
    }
}

/// The whitespace run before `c` starts at or before `c`.
pub proof fn lemma_ws_start(h: Seq<char>, c: int)
    requires
        0 <= c <= h.len(),
    ensures
        0 <= ws_start(h, c) <= c,
    decreases c,
{
    if 0 < c && is_ws(h[c - 1]) {
        lemma_ws_start(h, c - 1);
    }
}

/// The attribute's end lies past its word and within the text.
pub proof fn lemma_xo_end(h: Seq<char>, c: int)
    requires
        0 <= c,
        occurs_at(h, xo_word(), c),
    ensures
        c + xo_word().len() <= xo_end(h, c) <= h.len(),
{
    reveal_strlit("crossorigin");
    let w = c + xo_word().len();
    if w + 2 <= h.len() && h[w] == '=' && h[w + 1] == '"' {
        lemma_find_from(h, seq!['"'], w + 2);
    }
}

/// The loader installed before the head end tag: a plain script tag for
/// the patched script, then an inline block that initializes the module,
/// republishes its bindings and dispatches the startup event.
pub open spec fn spec_loader(js: Seq<char>) -> Seq<char> {
    "\n<script src=\"./"@ + js
        + "\"></script>\n<script>\n  wasm_bindgen().then(function(wasm) {\n    console.log('initialized (file: mode)');\n    window.wasmBindings = wasm_bindgen;\n    dispatchEvent(new CustomEvent(\"TrunkApplicationStarted\", {detail: {wasm}}));\n  }).catch(function(err) {\n    console.error('failed to initialize:', err);\n  });\n</script>\n"@
}

/// `h` holds a whitespace-preceded cross-origin attribute somewhere.
pub open spec fn any_xo(h: Seq<char>) -> bool {
    exists|c: int| xo_at(h, c)
}

/// What patching the HTML shell comes to, stage by stage; the final
/// checks make a shell that would still carry a module script block or a
/// cross-origin attribute, or that would not reference the patched
/// script exactly once, an error rather than a quiet bad bundle.
pub open spec fn spec_patch_html(html: Seq<char>, js: Seq<char>) -> Result<Seq<char>, PatchError> {
    match spec_strip_modules(html) {
        None => Err(PatchError::UnclosedModuleScript),
        Some(h1) => match spec_strip_links(h1, modulepreload_open()) {
            None => Err(PatchError::UnclosedLink),
            Some(h2) => match spec_strip_links(h2, preload_open()) {
                None => Err(PatchError::UnclosedLink),
                Some(h3) => {
                    let h4 = spec_strip_xo(h3);
                    if spec_find(h4, head_close()) is None {
                        Err(PatchError::HeadMissing)
                    } else {
                        let out = spec_replace_all(h4, head_close(), spec_loader(js) + head_close());
                        if contains_sub(out, module_open()) {
                            Err(PatchError::ResidualModuleScript)
                        } else if any_xo(out) {
                            Err(PatchError::ResidualCrossOrigin)
                        } else if count_occ(out, js) != 1 {
                            Err(PatchError::ScriptRefMiscount)
                        } else {
                            Ok(out)
                        }
                    }
                },
            },
        },
    }
}

/// Exec mirror of `spec_strip_modules`.
fn strip_modules(h: Vec<char>) -> (r: Option<Vec<char>>)
    ensures
        match r {
            Some(out) => spec_strip_modules(h@) == Some(out@),
            None => spec_strip_modules(h@) is None,
        },
{
    let open_pat = chars_of("<script type=\"module\">");
    let close_pat = chars_of("</script>");
    assert(open_pat@ == module_open());
    assert(close_pat@ == script_close());
    proof {
        reveal_strlit("<script type=\"module\">");
        reveal_strlit("</script>");
    }
    let mut cur = h;
    loop
        invariant
            open_pat@ == module_open(),
            close_pat@ == script_close(),
            open_pat@.len() == 22,
            close_pat@.len() == 9,
            spec_strip_modules(h@) == spec_strip_modules(cur@),
        decreases cur@.len(),
    {
        let n = cur.len();
        match find_sub(&cur, &open_pat) {
            None => {
                return Some(cur);
            },
            Some(i) => {
                match find_sub_from(&cur, &close_pat, i + open_pat.len()) {
                    None => {
                        return None;
                    },
                    Some(j) => {
                        let mut next = copy_range(&cur, 0, i);
                        let rest = copy_range(&cur, j + close_pat.len(), n);
                        push_all(&mut next, &rest);
                        proof {
                            assert(rest@ =~= cur@.skip(j + script_close().len() as int));
                            assert(next@ =~= cur@.subrange(0, i as int) + cur@.skip(
                                j + script_close().len() as int,
                            ));
                        }
                        cur = next;
                    },
                }
            },
        }
    }
}

/// Exec mirror of `spec_strip_links` for one opening form.
fn strip_links(h: Vec<char>, open_pat: &Vec<char>) -> (r: Option<Vec<char>>)
    requires
        open_pat@.len() > 0,
    ensures
        match r {
            Some(out) => spec_strip_links(h@, open_pat@) == Some(out@),
            None => spec_strip_links(h@, open_pat@) is None,
        },
{
    let gt: Vec<char> = vec!['>'];
    assert(gt@ =~= seq!['>']);
    let mut cur = h;
    loop
        invariant
            gt@ == seq!['>'],
            open_pat@.len() > 0,
            spec_strip_links(h@, open_pat@) == spec_strip_links(cur@, open_pat@),
        decreases cur@.len(),
    {
        let n = cur.len();
        match find_sub(&cur, open_pat) {
            None => {
                return Some(cur);
            },
            Some(i) => {
                match find_sub_from(&cur, &gt, i + open_pat.len()) {
                    None => {
                        return None;
                    },
                    Some(j) => {
                        let mut next = copy_range(&cur, 0, i);
                        let rest = copy_range(&cur, j + 1, n);
                        push_all(&mut next, &rest);
                        proof {
                            assert(rest@ =~= cur@.skip(j + 1));
                            assert(next@ =~= cur@.subrange(0, i as int) + cur@.skip(j + 1));
                        }
                        cur = next;
                    },
                }
            },
        }
    }
}

/// Exec search for the first whitespace-preceded cross-origin attribute.
fn find_xo_exec(h: &Vec<char>, word: &Vec<char>) -> (r: Option<usize>)
    requires
        word@ == xo_word(),
    ensures
        match r {
            Some(c) => find_xo_from(h@, 0) == Some(c as int) && xo_at(h@, c as int) && c < h@.len(),
            None => find_xo_from(h@, 0) is None,
        },
{
    proof {
        reveal_strlit("crossorigin");
    }
    let n = h.len();
    let mut i: usize = 0;
    loop
        invariant
            0 <= i <= n,
            n == h@.len(),
            word@ == xo_word(),
            word@.len() == 11,
            find_xo_from(h@, 0) == find_xo_from(h@, i as int),
        decreases n - i,
    {
        if i == n {
            return None;
        }
        let mut hit = false;
        if i > 0 && word.len() <= n && i <= n - word.len() {
            let c = h[i - 1];
            if c == ' ' || c == '\t' || c == '\n' || c == '\r' || c as u32 == 11 || c as u32
                == 12 {
                hit = crate::text::occurs_at_exec(h, word, i);
            }
        }
        proof {
            if i + word@.len() > h@.len() {
                assert(!occurs_at(h@, xo_word(), i as int));
            }
        }
        if hit {
            return Some(i);
        }
        i += 1;
    }
}

/// Exec mirror of `spec_strip_xo`.
fn strip_xo(h: Vec<char>) -> (r: Vec<char>)
    ensures
        r@ == spec_strip_xo(h@),
{
    let word = chars_of("crossorigin");
    assert(word@ == xo_word());
    proof {
        reveal_strlit("crossorigin");
    }
    let quote: Vec<char> = vec!['"'];
    assert(quote@ =~= seq!['"']);
    let mut cur = h;
    loop
        invariant
            word@ == xo_word(),
            word@.len() == 11,
            quote@ == seq!['"'],
            spec_strip_xo(h@) == spec_strip_xo(cur@),
        decreases cur@.len(),
    {
        let n = cur.len();
        match find_xo_exec(&cur, &word) {
            None => {
                return cur;
            },
            Some(c) => {
                proof {
                    lemma_find_xo(cur@, 0);
                }
                let mut s = c;
                while s > 0 && (cur[s - 1] == ' ' || cur[s - 1] == '\t' || cur[s - 1] == '\n'
                    || cur[s - 1] == '\r' || cur[s - 1] as u32 == 11 || cur[s - 1] as u32 == 12)
                    invariant
                        0 <= s <= c <= cur@.len(),
                        ws_start(cur@, c as int) == ws_start(cur@, s as int),
                    decreases s,
                {
                    s -= 1;
                }
                let w = c + word.len();
                let e: usize = if n - w >= 2 && cur[w] == '=' && cur[w + 1] == '"' {
                    match find_sub_from(&cur, &quote, w + 2) {
                        Some(q) => q + 1,
                        None => w,
                    }
                } else {
                    w
                };
                proof {
                    assert(e == xo_end(cur@, c as int));
                    lemma_xo_end(cur@, c as int);
                }
                let mut next = copy_range(&cur, 0, s);
                let rest = copy_range(&cur, e, n);
                push_all(&mut next, &rest);
                proof {
                    assert(rest@ =~= cur@.skip(e as int));
                    assert(next@ =~= cur@.subrange(0, s as int) + cur@.skip(e as int));
                }
                cur = next;
            },
        }
    }
}

/// Patches the HTML shell for offline use: deletes module script blocks
/// and preload links, strips cross-origin attributes, and installs the
/// loader before the head end tag. A shell in which a block never
/// closes, which has no head end tag, or which would come out still
/// carrying a module script block or cross-origin attribute — or not
/// referencing the patched script exactly once — is an error.
pub fn patch_html_text(html: &str, js_filename: &str) -> (r: Result<String, PatchError>)
    requires
        js_filename@.len() > 0,
    ensures
        match r {
            Ok(out) => spec_patch_html(html@, js_filename@) == Ok::<Seq<char>, PatchError>(out@),
            Err(e) => spec_patch_html(html@, js_filename@) == Err::<Seq<char>, PatchError>(e),
        },
        r matches Ok(out) ==> !contains_sub(out@, module_open()) && !any_xo(out@) && count_occ(
            out@,
            js_filename@,
        ) == 1,
{
    let h = chars_of(html);
    let h1 = match strip_modules(h) {
        None => {
            return Err(PatchError::UnclosedModuleScript);
        },
        Some(v) => v,
    };
    let mp = chars_of("<link rel=\"modulepreload\"");
    assert(mp@ == modulepreload_open());
    proof {
        reveal_strlit("<link rel=\"modulepreload\"");
    }
    let h2 = match strip_links(h1, &mp) {
        None => {
            return Err(PatchError::UnclosedLink);
        },
        Some(v) => v,
    };
    let pl = chars_of("<link rel=\"preload\"");
    assert(pl@ == preload_open());
    proof {
        reveal_strlit("<link rel=\"preload\"");
    }
    let h3 = match strip_links(h2, &pl) {
        None => {
            return Err(PatchError::UnclosedLink);
        },
        Some(v) => v,
    };
    let h4 = strip_xo(h3);
    let head = chars_of("</head>");
    assert(head@ == head_close());
    proof {
        reveal_strlit("</head>");
    }
    match find_sub(&h4, &head) {
        None => {
            return Err(PatchError::HeadMissing);
        },
        Some(_) => {},
    }
    let js = chars_of(js_filename);
    let mut loader = chars_of("\n<script src=\"./");
    push_all(&mut loader, &js);
    let loader_rest = chars_of(
        "\"></script>\n<script>\n  wasm_bindgen().then(function(wasm) {\n    console.log('initialized (file: mode)');\n    window.wasmBindings = wasm_bindgen;\n    dispatchEvent(new CustomEvent(\"TrunkApplicationStarted\", {detail: {wasm}}));\n  }).catch(function(err) {\n    console.error('failed to initialize:', err);\n  });\n</script>\n",
    );
    push_all(&mut loader, &loader_rest);
    assert(loader@ =~= spec_loader(js_filename@));
    let mut rep = loader;
    push_all(&mut rep, &head);
    assert(rep@ =~= spec_loader(js_filename@) + head_close());
    let out = replace_all(&h4, &head, &rep);
    let mopen = chars_of("<script type=\"module\">");
    assert(mopen@ == module_open());
    match find_sub(&out, &mopen) {
        Some(_) => {
            return Err(PatchError::ResidualModuleScript);
        },
        None => {
            proof {
                lemma_no_find_no_occurrence(out@, module_open());
            }
        },
    }
    let word = chars_of("crossorigin");
    assert(word@ == xo_word());
    match find_xo_exec(&out, &word) {
        Some(_) => {
            return Err(PatchError::ResidualCrossOrigin);
        },
        None => {
            proof {
                lemma_find_xo(out@, 0);
                assert forall|c: int| !xo_at(out@, c) by {
                    if c >= 0 {
                        assert(!xo_at(out@, c));
                    }
                }
            }
        },
    }
    let refs = count_sub(&out, &js);
    if refs != 1 {
        proof {
            lemma_count_small(out@, js_filename@);
        }
        return Err(PatchError::ScriptRefMiscount);
    }
    proof {
        lemma_count_small(out@, js_filename@);
    }
    Ok(string_from_chars(&out))
}

/// A count that fits the machine word is reported exactly.
proof fn lemma_count_small(h: Seq<char>, pat: Seq<char>)
    requires
        pat.len() > 0,
    ensures
        count_occ(h, pat) <= h.len(),
    decreases h.len(),
{
    match spec_find(h, pat) {
        None => {},
        Some(i) => {
            lemma_find_from(h, pat, 0);
            lemma_count_small(h.skip(i + pat.len() as int), pat);
        },
    }
}

} // verus!
