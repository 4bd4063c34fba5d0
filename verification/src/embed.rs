//! Binary embedding: the compiled binary module's bytes are base64-encoded
//! and spliced into the script as an inline decoder block, and the
//! script's network fetch-path fallback is replaced by a direct use of
//! the embedded bytes — so nothing is fetched at run time.

use vstd::prelude::*;

use base64::Engine;

use crate::patch::PatchError;
use crate::text::{
    chars_of, copy_range, find_sub_from, has_prefix, has_suffix, occurs_at, push_all, spec_find,
    string_from_chars,
};

verus! {

/// The character the standard base64 alphabet writes for a sextet.
pub open spec fn b64_char(v: int) -> char {
    if v < 26 {
        ((65 + v) as u8) as char
    } else if v < 52 {
        ((97 + (v - 26)) as u8) as char
    } else if v < 62 {
        ((48 + (v - 52)) as u8) as char
    } else if v == 62 {
        '+'
    } else {
        '/'
    }
}

/// The sextet a character stands for, or -1 for one outside the alphabet.
pub open spec fn b64_val(c: char) -> int {
    let u = c as int;
    if 65 <= u <= 90 {
        u - 65
    } else if 97 <= u <= 122 {
        u - 97 + 26
    } else if 48 <= u <= 57 {
        u - 48 + 52
    } else if u == 43 {
        62
    } else if u == 47 {
        63
    } else {
        -1
    }
}

/// The alphabet is invertible, and never writes the padding character.
pub proof fn lemma_b64_alphabet(v: int)
    requires
        0 <= v < 64,
    ensures
        b64_val(b64_char(v)) == v,
        b64_char(v) != '=',
{
}

/// The four characters encoding one full three-byte group.
pub open spec fn enc3(b0: u8, b1: u8, b2: u8) -> Seq<char> {
    let x0 = b0 as int;
    let x1 = b1 as int;
    let x2 = b2 as int;
    seq![
        b64_char(x0 / 4),
        b64_char((x0 % 4) * 16 + x1 / 16),
        b64_char((x1 % 16) * 4 + x2 / 64),
        b64_char(x2 % 64),
    ]
}

/// Standard base64 with padding, as RFC 4648 lays it out: three bytes
/// become four characters; a trailing group of one or two bytes is
/// padded with `=`.
pub open spec fn spec_b64_encode(s: Seq<u8>) -> Seq<char>
    decreases s.len(),
{
    if s.len() == 0 {
        Seq::empty()
    } else if s.len() == 1 {
        seq![b64_char(s[0] as int / 4), b64_char((s[0] as int % 4) * 16), '=', '=']
    } else if s.len() == 2 {
        seq![
            b64_char(s[0] as int / 4),
            b64_char((s[0] as int % 4) * 16 + s[1] as int / 16),
            b64_char((s[1] as int % 16) * 4),
            '=',
        ]
    } else {
        enc3(s[0], s[1], s[2]) + spec_b64_encode(s.skip(3))
    }
}

/// The three bytes a full four-character group decodes to.
pub open spec fn dec_quad(c0: char, c1: char, c2: char, c3: char) -> Seq<u8> {
    let v0 = b64_val(c0);
    let v1 = b64_val(c1);
    let v2 = b64_val(c2);
    let v3 = b64_val(c3);
    seq![
        (v0 * 4 + v1 / 16) as u8,
        ((v1 % 16) * 16 + v2 / 4) as u8,
        ((v2 % 4) * 64 + v3) as u8,
    ]
}

/// Strict base64 decoding: the length must be a multiple of four, every
/// character must come from the alphabet, `=` may pad only the final
/// group, and padded bits must be zero.
pub open spec fn spec_b64_decode(s: Seq<char>) -> Option<Seq<u8>>
    decreases s.len(),
{
    if s.len() == 0 {
        Some(Seq::empty())
    } else if s.len() % 4 != 0 {
        None
    } else {
        let c0 = s[0];
        let c1 = s[1];
        let c2 = s[2];
        let c3 = s[3];
        if b64_val(c0) < 0 || b64_val(c1) < 0 {
            None
        } else if s.len() == 4 && c2 == '=' && c3 == '=' {
            if b64_val(c1) % 16 == 0 {
                Some(seq![(b64_val(c0) * 4 + b64_val(c1) / 16) as u8])
            } else {
                None
            }
        } else if s.len() == 4 && c3 == '=' {
            if b64_val(c2) >= 0 && b64_val(c2) % 4 == 0 {
                Some(
                    seq![
                        (b64_val(c0) * 4 + b64_val(c1) / 16) as u8,
                        ((b64_val(c1) % 16) * 16 + b64_val(c2) / 4) as u8,
                    ],
                )
            } else {
                None
            }
        } else if b64_val(c2) < 0 || b64_val(c3) < 0 {
            None
        } else {
            match spec_b64_decode(s.skip(4)) {
                None => None,
                Some(rest) => Some(dec_quad(c0, c1, c2, c3) + rest),
            }
        }
    }
}

/// The encoding of `s` is four characters per started three-byte group.
pub proof fn lemma_b64_encode_len(s: Seq<u8>)
    ensures
        spec_b64_encode(s).len() == 4 * ((s.len() + 2) / 3),
    decreases s.len(),
{
    if s.len() >= 3 {
        lemma_b64_encode_len(s.skip(3));
    }
}

/// Decoding inverts encoding: the bytes written into the script can be
/// recovered exactly.
pub proof fn lemma_b64_round_trip(bytes: Seq<u8>)
    ensures
        spec_b64_decode(spec_b64_encode(bytes)) == Some(bytes),
    decreases bytes.len(),
{
    let e = spec_b64_encode(bytes);
    if bytes.len() == 0 {
        assert(spec_b64_decode(e) == Some(Seq::<u8>::empty()));
        assert(Seq::<u8>::empty() =~= bytes);
    } else if bytes.len() == 1 {
        let b = bytes[0] as int;
        lemma_b64_alphabet(b / 4);
        lemma_b64_alphabet((b % 4) * 16);
        assert(spec_b64_decode(e) == Some(seq![((b / 4) * 4 + ((b % 4) * 16) / 16) as u8]));
        assert(seq![((b / 4) * 4 + ((b % 4) * 16) / 16) as u8] =~= bytes);
    } else if bytes.len() == 2 {
        let b0 = bytes[0] as int;
        let b1 = bytes[1] as int;
        lemma_b64_alphabet(b0 / 4);
        lemma_b64_alphabet((b0 % 4) * 16 + b1 / 16);
        lemma_b64_alphabet((b1 % 16) * 4);
        let v1 = (b0 % 4) * 16 + b1 / 16;
        assert(v1 / 16 == b0 % 4 && v1 % 16 == b1 / 16);
        assert(spec_b64_decode(e) == Some(
            seq![((b0 / 4) * 4 + v1 / 16) as u8, ((v1 % 16) * 16 + ((b1 % 16) * 4) / 4) as u8],
        ));
        assert(seq![((b0 / 4) * 4 + v1 / 16) as u8, ((v1 % 16) * 16 + ((b1 % 16) * 4) / 4) as u8]
            =~= bytes);
    } else {
        let b0 = bytes[0] as int;
        let b1 = bytes[1] as int;
        let b2 = bytes[2] as int;
        let rest = bytes.skip(3);
        lemma_b64_round_trip(rest);
        lemma_b64_encode_len(rest);
        lemma_b64_encode_len(bytes);
        let v0 = b0 / 4;
        let v1 = (b0 % 4) * 16 + b1 / 16;
        let v2 = (b1 % 16) * 4 + b2 / 64;
        let v3 = b2 % 64;
        lemma_b64_alphabet(v0);
        lemma_b64_alphabet(v1);
        lemma_b64_alphabet(v2);
        lemma_b64_alphabet(v3);
        assert(e =~= enc3(bytes[0], bytes[1], bytes[2]) + spec_b64_encode(rest));
        assert(e.len() % 4 == 0);
        assert(e[0] == b64_char(v0) && e[1] == b64_char(v1) && e[2] == b64_char(v2) && e[3]
            == b64_char(v3));
        assert(e.skip(4) =~= spec_b64_encode(rest));
        assert(v1 / 16 == b0 % 4 && v1 % 16 == b1 / 16);
        assert(v2 / 4 == b1 % 16 && v2 % 4 == b2 / 64);
        assert(dec_quad(e[0], e[1], e[2], e[3]) =~= seq![b0 as u8, b1 as u8, b2 as u8]);
        if e.len() == 4 {
            assert(rest.len() == 0);
            assert(spec_b64_decode(e) == Some(dec_quad(e[0], e[1], e[2], e[3]) + Seq::<
                u8,
            >::empty()));
        }
        assert(spec_b64_decode(e) == Some(seq![b0 as u8, b1 as u8, b2 as u8] + rest));
        assert(seq![b0 as u8, b1 as u8, b2 as u8] + rest =~= bytes);
    }
}

/// Relies on base64's `STANDARD` engine (`Engine::encode`): standard
/// RFC 4648 alphabet with `=` padding, four characters per started
/// three-byte group, as `spec_b64_encode` lays out.
#[verifier::external_body]
fn b64_encode(bytes: &Vec<u8>) -> (r: Vec<char>)
    requires
        bytes@.len() < 0x4000000000000000,
    ensures
        r@ == spec_b64_encode(bytes@),
{
    base64::engine::general_purpose::STANDARD.encode(bytes).chars().collect()
}

/// The line the script opens its initialization closure with; the
/// decoder block goes right after it.
pub open spec fn anchor() -> Seq<char> {
    "let wasm_bindgen;\n(function() {"@
}

/// The decoder text before the base64 constant.
pub open spec fn dec_head() -> Seq<char> {
    "\n// Embedded binary module (base64) for file: protocol support\nconst __offlineWasmBytes = (function() {\n  const binary = atob('"@
}

/// The decoder text after the base64 constant.
pub open spec fn dec_tail() -> Seq<char> {
    "');\n  const bytes = new Uint8Array(binary.length);\n  for (let i = 0; i < binary.length; i++) {\n    bytes[i] = binary.charCodeAt(i);\n  }\n  return bytes;\n})();\n"@
}

/// The fetch-path fallback's opening, body and closing, which may be
/// separated by arbitrary whitespace.
pub open spec fn pat_open() -> Seq<char> {
    "if (typeof module_or_path === 'undefined' && typeof script_src !== 'undefined') {"@
}

pub open spec fn pat_body() -> Seq<char> {
    "module_or_path = script_src.replace(/\\.js$/, '_bg.wasm');"@
}

pub open spec fn pat_close() -> Seq<char> {
    "}"@
}

/// What replaces the fetch-path fallback: a direct use of the embedded
/// bytes.
pub open spec fn pat_repl() -> Seq<char> {
    "if (typeof module_or_path === 'undefined') { module_or_path = __offlineWasmBytes; }"@
}

/// The whitespace the fallback pattern may carry between its pieces.
pub open spec fn is_ws(c: char) -> bool {
    c == ' ' || c == '\t' || c == '\n' || c == '\r' || c as u32 == 11 || c as u32 == 12
}

/// The first non-whitespace position at or after `i`.
pub open spec fn ws_end(h: Seq<char>, i: int) -> int
    decreases h.len() - i,
{
    if 0 <= i < h.len() && is_ws(h[i]) {
        ws_end(h, i + 1)
    } else {
        i
    }
}

/// Where the fallback pattern, matched at `i`, ends; `None` when it does
/// not match at `i`.
pub open spec fn triple_end_at(h: Seq<char>, i: int) -> Option<int> {
    if occurs_at(h, pat_open(), i) {
        let p = ws_end(h, i + pat_open().len());
        if occurs_at(h, pat_body(), p) {
            let q = ws_end(h, p + pat_body().len());
            if occurs_at(h, pat_close(), q) {
                Some(q + pat_close().len())
            } else {
                None
            }
        } else {
            None
        }
    } else {
        None
    }
}

/// The leftmost fallback-pattern match at or after `i`: its start and end.
pub open spec fn find_triple_from(h: Seq<char>, i: int) -> Option<(int, int)>
    decreases h.len() - i,
{
    if i < 0 || i > h.len() {
        None
    } else if i == h.len() {
        None
    } else {
        match triple_end_at(h, i) {
            Some(e) => Some((i, e)),
            None => find_triple_from(h, i + 1),
        }
    }
}

/// What patching a script comes to: replace the leftmost fetch-path
/// fallback, then splice the decoder block right after the anchor line.
pub open spec fn spec_patch_js(js: Seq<char>, wasm: Seq<u8>) -> Result<Seq<char>, PatchError> {
    match find_triple_from(js, 0) {
        None => Err(PatchError::FetchPatternMissing),
        Some((s, e)) => {
            let x = js.subrange(0, s) + pat_repl() + js.skip(e);
            match spec_find(x, anchor()) {
                None => Err(PatchError::AnchorMissing),
                Some(i) => Ok(
                    x.subrange(0, i) + anchor() + dec_head() + spec_b64_encode(wasm) + dec_tail()
                        + x.skip(i + anchor().len()),
                ),
            }
        },
    }
}

/// Exec scan to the first non-whitespace position.
fn ws_end_exec(h: &Vec<char>, i: usize) -> (r: usize)
    requires
        i <= h@.len(),
    ensures
        i <= r <= h@.len(),
        r == ws_end(h@, i as int),
{
    let n = h.len();
    let mut j = i;
    while j < n && (h[j] == ' ' || h[j] == '\t' || h[j] == '\n' || h[j] == '\r' || h[j] as u32
        == 11 || h[j] as u32 == 12)
        invariant
            i <= j <= n,
            n == h@.len(),
            ws_end(h@, i as int) == ws_end(h@, j as int),
        decreases n - j,
    {
        j += 1;
    }
    j
}

/// Exec check whether the fallback pattern matches at `i`.
fn triple_end_exec(h: &Vec<char>, i: usize, po: &Vec<char>, pb: &Vec<char>, pc: &Vec<char>) -> (r:
    Option<usize>)
    requires
        i <= h@.len(),
        po@ == pat_open(),
        pb@ == pat_body(),
        pc@ == pat_close(),
    ensures
        match r {
            Some(e) => triple_end_at(h@, i as int) == Some(e as int) && i <= e <= h@.len(),
            None => triple_end_at(h@, i as int) is None,
        },
{
    let hn = h.len();
    if !(po.len() <= hn && i <= hn - po.len()) {
        proof {
            assert(!occurs_at(h@, pat_open(), i as int));
        }
        return None;
    }
    if !crate::text::occurs_at_exec(h, po, i) {
        return None;
    }
    let p = ws_end_exec(h, i + po.len());
    if !(pb.len() <= hn && p <= hn - pb.len()) {
        proof {
            assert(!occurs_at(h@, pat_body(), p as int));
        }
        return None;
    }
    if !crate::text::occurs_at_exec(h, pb, p) {
        return None;
    }
    let q = ws_end_exec(h, p + pb.len());
    if !(pc.len() <= hn && q <= hn - pc.len()) {
        proof {
            assert(!occurs_at(h@, pat_close(), q as int));
        }
        return None;
    }
    if !crate::text::occurs_at_exec(h, pc, q) {
        return None;
    }
    Some(q + pc.len())
}

/// Patches the script text for offline use: replaces the fetch-path
/// fallback with a use of the embedded bytes and splices a base64
/// decoder block — holding exactly the encoded binary module — after the
/// anchor line. A script in which either landmark is missing is an
/// error, not a silent no-op.
pub fn patch_js_text(js: &str, wasm: &Vec<u8>) -> (r: Result<String, PatchError>)
    requires
        wasm@.len() < 0x4000000000000000,
    ensures
        match r {
            Ok(out) => spec_patch_js(js@, wasm@) == Ok::<Seq<char>, PatchError>(out@),
            Err(e) => spec_patch_js(js@, wasm@) == Err::<Seq<char>, PatchError>(e),
        },
        r matches Ok(out) ==> exists|pre: Seq<char>, post: Seq<char>|
            #![trigger pre + spec_b64_encode(wasm@) + post]
            out@ == pre + spec_b64_encode(wasm@) + post && has_suffix(pre, "atob('"@) && has_prefix(
                post,
                "')"@,
            ),
{
    let h = chars_of(js);
    let po = chars_of(
        "if (typeof module_or_path === 'undefined' && typeof script_src !== 'undefined') {",
    );
    let pb = chars_of("module_or_path = script_src.replace(/\\.js$/, '_bg.wasm');");
    let pc = chars_of("}");
    let found: Option<(usize, usize)> = find_triple_exec(&h, &po, &pb, &pc);
    match found {
        None => Err(PatchError::FetchPatternMissing),
        Some((s, e)) => {
            let mut x = copy_range(&h, 0, s);
            let repl = chars_of(
                "if (typeof module_or_path === 'undefined') { module_or_path = __offlineWasmBytes; }",
            );
            assert(repl@ == pat_repl());
            push_all(&mut x, &repl);
            let tail = copy_range(&h, e, h.len());
            push_all(&mut x, &tail);
            proof {
                assert(tail@ =~= h@.skip(e as int));
            }
            let anchor_v = chars_of("let wasm_bindgen;\n(function() {");
            assert(anchor_v@ == anchor());
            match find_sub_from(&x, &anchor_v, 0) {
                None => Err(PatchError::AnchorMissing),
                Some(i) => {
                    let enc = b64_encode(wasm);
                    let head_v = chars_of(
                        "\n// Embedded binary module (base64) for file: protocol support\nconst __offlineWasmBytes = (function() {\n  const binary = atob('",
                    );
                    assert(head_v@ == dec_head());
                    let tail_v = chars_of(
                        "');\n  const bytes = new Uint8Array(binary.length);\n  for (let i = 0; i < binary.length; i++) {\n    bytes[i] = binary.charCodeAt(i);\n  }\n  return bytes;\n})();\n",
                    );
                    assert(tail_v@ == dec_tail());
                    let xl = x.len();
                    let mut out = copy_range(&x, 0, i);
                    push_all(&mut out, &anchor_v);
                    push_all(&mut out, &head_v);
                    push_all(&mut out, &enc);
                    push_all(&mut out, &tail_v);
                    let xt = copy_range(&x, i + anchor_v.len(), xl);
                    push_all(&mut out, &xt);
                    proof {
                        assert(xt@ =~= x@.skip(i + anchor().len() as int));
                        let pre = x@.subrange(0, i as int) + anchor() + dec_head();
                        let post = dec_tail() + x@.skip(i + anchor().len() as int);
                        assert(out@ =~= pre + spec_b64_encode(wasm@) + post);
                        reveal_strlit("atob('");
                        reveal_strlit(
                            "\n// Embedded binary module (base64) for file: protocol support\nconst __offlineWasmBytes = (function() {\n  const binary = atob('",
                        );
                        assert(has_suffix(dec_head(), "atob('"@)) by {
                            assert(dec_head().subrange(
                                dec_head().len() - 6,
                                dec_head().len() as int,
                            ) =~= "atob('"@);
                        }
                        assert(pre.subrange(pre.len() - 6, pre.len() as int) =~= "atob('"@);
                        assert(has_suffix(pre, "atob('"@));
                        reveal_strlit("')");
                        reveal_strlit(
                            "');\n  const bytes = new Uint8Array(binary.length);\n  for (let i = 0; i < binary.length; i++) {\n    bytes[i] = binary.charCodeAt(i);\n  }\n  return bytes;\n})();\n",
                        );
                        assert(post.subrange(0, 2) =~= "')"@);
                        assert(has_prefix(post, "')"@));
                    }
                    Ok(string_from_chars(&out))
                },
            }
        },
    }
}

/// The leftmost fallback-pattern match in `h`.
fn find_triple_exec(h: &Vec<char>, po: &Vec<char>, pb: &Vec<char>, pc: &Vec<char>) -> (r: Option<
    (usize, usize),
>)
    requires
        po@ == pat_open(),
        pb@ == pat_body(),
        pc@ == pat_close(),
    ensures
        match r {
            Some(p) => find_triple_from(h@, 0) == Some((p.0 as int, p.1 as int)) && p.0 <= p.1
                <= h@.len(),
            None => find_triple_from(h@, 0) is None,
        },
{
    let mut i: usize = 0;
    loop
        invariant
            0 <= i <= h@.len(),
            po@ == pat_open(),
            pb@ == pat_body(),
            pc@ == pat_close(),
            find_triple_from(h@, 0) == find_triple_from(h@, i as int),
        decreases h@.len() - i,
    {
        if i == h.len() {
            return None;
        }
        match triple_end_exec(h, i, po, pb, pc) {
            Some(e) => {
                return Some((i, e));
            },
            None => {},
        }
        i += 1;
    }
}

} // verus!
