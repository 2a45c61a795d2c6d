//! What is kept of the engine's reply: the translation, without the wrapping that a model
//! adds against its instruction (a code block, a preamble, quotation marks).

use vstd::prelude::*;
use vstd::utf8::encode_utf8;

use crate::text::{chars_of, is_blank, lemma_trim, lower_ascii, lower_ascii_char, lower_char, trim, trim_range};

verus! {

/// The code fence of Markdown.
pub open spec fn fence() -> Seq<char> {
    seq!['`', '`', '`']
}

/// A fence starts at position `i` of `s`.
pub open spec fn fence_at(s: Seq<char>, i: int) -> bool {
    0 <= i && i + 3 <= s.len() && s.subrange(i, i + 3) == fence()
}

/// Where the last fence of `s` starts (`str::rfind("```")`).
#[verifier::opaque]
pub open spec fn last_fence(s: Seq<char>) -> Option<int> {
    if exists|i: int| fence_at(s, i) && forall|j: int| i < j ==> !#[trigger] fence_at(s, j) {
        Some(choose|i: int| fence_at(s, i) && forall|j: int| i < j ==> !#[trigger] fence_at(s, j))
    } else {
        None
    }
}

/// Where the first `c` of `s` stands (`str::find`).
#[verifier::opaque]
pub open spec fn first_index(s: Seq<char>, c: char) -> Option<int> {
    if s.contains(c) {
        Some(choose|i: int| 0 <= i < s.len() && s[i] == c && !s.subrange(0, i).contains(c))
    } else {
        None
    }
}

/// `s` cut at its first line break: the first line, and what follows the break
/// (`str::split_once('\n')`).
pub open spec fn split_line(s: Seq<char>) -> Option<(Seq<char>, Seq<char>)> {
    match first_index(s, '\n') {
        Some(i) => Some((s.subrange(0, i), s.subrange(i + 1, s.len() as int))),
        None => None,
    }
}

/// `s` begins with `p`.
pub open spec fn starts_with(s: Seq<char>, p: Seq<char>) -> bool {
    p.len() <= s.len() && s.subrange(0, p.len() as int) == p
}

/// What a code block holds, `inside` being the text between the fences: its first line goes
/// where it can name a language: no space in it and under 20 bytes of UTF-8.
#[verifier::opaque]
pub open spec fn block_body(inside: Seq<char>) -> Seq<char> {
    match split_line(inside) {
        Some((head, rest)) => if !head.contains(' ') && encode_utf8(head).len() < 20 {
            rest
        } else {
            inside
        },
        None => inside,
    }
}

/// A text that is a code block as a whole, `t` being already trimmed, is replaced by what
/// the block holds, trimmed. It is a code block when it opens with a fence and its last fence
/// starts after the opening one.
#[verifier::opaque]
pub open spec fn unwrap_code_block(t: Seq<char>) -> Seq<char> {
    if starts_with(t, fence()) {
        match last_fence(t) {
            Some(fin) => if fin > 3 {
                trim(block_body(t.subrange(3, fin)))
            } else {
                t
            },
            None => t,
        }
    } else {
        t
    }
}

/// The first line, trimmed and in small letters, announces the translation.
#[verifier::opaque]
pub open spec fn announces_translation(l: Seq<char>) -> bool {
    ||| starts_with(l, "voici la traduction"@)
    ||| starts_with(l, "voici le texte traduit"@)
    ||| starts_with(l, "traduction :"@)
    ||| starts_with(l, "here is the translation"@)
    ||| starts_with(l, "here's the translation"@)
    ||| starts_with(l, "translation:"@)
}

/// A first line that announces the translation goes, only when text remains after it;
/// what remains is trimmed.
#[verifier::opaque]
pub open spec fn drop_preamble(t: Seq<char>) -> Seq<char> {
    match split_line(t) {
        Some((head, rest)) => if !is_blank(rest) && announces_translation(lower_ascii(trim(head))) {
            trim(rest)
        } else {
            t
        },
        None => t,
    }
}

/// An opening and a closing quotation mark that go together.
pub open spec fn quote_pair(a: char, z: char) -> bool {
    ||| a == '"' && z == '"'
    ||| a == '«' && z == '»'
    ||| a == '“' && z == '”'
    ||| a == '\'' && z == '\''
}

/// Quotation marks around the whole text go, with the white space inside them, unless the
/// opening mark occurs again inside: then they are the text's own.
pub open spec fn drop_quotes(t: Seq<char>) -> Seq<char> {
    if t.len() >= 2 && quote_pair(t[0], t.last()) && !t.subrange(1, t.len() - 1).contains(t[0]) {
        trim(t.subrange(1, t.len() - 1))
    } else {
        t
    }
}

/// The engine's reply without what a model adds: trimmed, then unwrapped from a code block,
/// then without a preamble line, then without enclosing quotation marks.
pub open spec fn cleaned(s: Seq<char>) -> Seq<char> {
    drop_quotes(drop_preamble(unwrap_code_block(trim(s))))
}

/// A text cut to `n` characters: trimmed, and where still longer, its first `n` characters
/// followed by an ellipsis.
pub open spec fn truncated(s: Seq<char>, n: nat) -> Seq<char> {
    let t = trim(s);
    if t.len() <= n {
        t
    } else {
        t.subrange(0, n as int) + "…"@
    }
}


/// What `first_index` gives is a position of `c`; where it gives none, `c` does not occur.
pub proof fn lemma_first_index_props(s: Seq<char>, c: char)
    ensures
        first_index(s, c) is Some ==> {
            let k = first_index(s, c)->0;
            0 <= k < s.len() && s[k] == c
        },
        first_index(s, c) is None ==> !s.contains(c),
{
    reveal(first_index);
    if s.contains(c) {
        let w = choose|w: int| 0 <= w < s.len() && s[w] == c;
        lemma_first_occurrence_exists(s, c, w);
    }
}

/// Where `c` occurs at `w`, some occurrence of `c` has none before it.
proof fn lemma_first_occurrence_exists(s: Seq<char>, c: char, w: int)
    requires
        0 <= w < s.len(),
        s[w] == c,
    ensures
        exists|i: int| 0 <= i < s.len() && s[i] == c && !s.subrange(0, i).contains(c),
    decreases w,
{
    if s.subrange(0, w).contains(c) {
        let v = choose|v: int| 0 <= v < w && s.subrange(0, w)[v] == c;
        lemma_first_occurrence_exists(s, c, v);
    } else {
        assert(0 <= w < s.len() && s[w] == c && !s.subrange(0, w).contains(c));
    }
}

/// What `last_fence` gives is where a fence starts.
pub proof fn lemma_last_fence_props(s: Seq<char>)
    ensures
        last_fence(s) is Some ==> fence_at(s, last_fence(s)->0),
{
    reveal(last_fence);
}

/// The first `c` of `s` is at `i` when `s[i]` is `c` and no `c` comes before.
pub proof fn lemma_first_index(s: Seq<char>, c: char, at: int)
    requires
        0 <= at < s.len(),
        s[at] == c,
        forall|j: int| 0 <= j < at ==> s[j] != c,
    ensures
        first_index(s, c) == Some(at),
{
    reveal(first_index);
    assert(!s.subrange(0, at).contains(c)) by {
        if s.subrange(0, at).contains(c) {
            let j = choose|j: int| 0 <= j < at && s.subrange(0, at)[j] == c;
            assert(s[j] == c);
        }
    }
    assert(s.contains(c)) by {
        assert(s[at] == c);
    }
    assert(0 <= at < s.len() && s[at] == c && !s.subrange(0, at).contains(c));
    let i = first_index(s, c)->0;
    assert(0 <= i < s.len() && s[i] == c && !s.subrange(0, i).contains(c));
    if i < at {
        assert(s.subrange(0, at)[i] == c);
    } else if i > at {
        assert(s.subrange(0, i)[at] == c);
    }
    assert(i == at);
    assert(first_index(s, c) == Some(i));
}

/// The position of the first `c` in `v[lo..hi]`, counted from the start of `v`.
fn find_char(v: &Vec<char>, lo: usize, hi: usize, c: char) -> (r: Option<usize>)
    requires
        lo <= hi <= v.len(),
    ensures
        match r {
            Some(k) => lo <= k < hi && first_index(v@.subrange(lo as int, hi as int), c) == Some(
                k - lo,
            ),
            None => first_index(v@.subrange(lo as int, hi as int), c) is None,
        },
{
    let ghost s = v@.subrange(lo as int, hi as int);
    let mut k = lo;
    while k < hi
        invariant
            lo <= k <= hi <= v.len(),
            s == v@.subrange(lo as int, hi as int),
            forall|j: int| 0 <= j < k - lo ==> s[j] != c,
        decreases hi - k,
    {
        if v[k] == c {
            proof {
                lemma_first_index(s, c, k - lo);
            }
            return Some(k);
        }
        k = k + 1;
    }
    proof {
        reveal(first_index);
        if s.contains(c) {
            let j = choose|j: int| 0 <= j < s.len() && s[j] == c;
            assert(s[j] != c);
        }
    }
    None
}

/// Does `v[lo..hi]` hold the character `c`?
fn contains_char(v: &Vec<char>, lo: usize, hi: usize, c: char) -> (r: bool)
    requires
        lo <= hi <= v.len(),
    ensures
        r == v@.subrange(lo as int, hi as int).contains(c),
{
    let ghost s = v@.subrange(lo as int, hi as int);
    proof {
        lemma_first_index_props(s, c);
    }
    match find_char(v, lo, hi, c) {
        Some(k) => true,
        None => false,
    }
}


/// The last fence of `s` starts at `at` when one starts there and none starts later.
pub proof fn lemma_last_fence(s: Seq<char>, at: int)
    requires
        fence_at(s, at),
        forall|j: int| at < j ==> !#[trigger] fence_at(s, j),
    ensures
        last_fence(s) == Some(at),
{
    reveal(last_fence);
    assert(fence_at(s, at) && forall|j: int| at < j ==> !#[trigger] fence_at(s, j));
    let i = last_fence(s)->0;
    assert(fence_at(s, i) && forall|j: int| i < j ==> !#[trigger] fence_at(s, j));
    if i < at {
        assert(fence_at(s, at));
    } else if i > at {
        assert(fence_at(s, i));
    }
}

/// Does a fence start at `v[k]`? (`s` being `v[lo..hi]`, positions in `s` count from `lo`.)
fn fence_starts(v: &Vec<char>, lo: usize, hi: usize, k: usize) -> (r: bool)
    requires
        lo <= k,
        k + 3 <= hi <= v.len(),
    ensures
        r == fence_at(v@.subrange(lo as int, hi as int), k - lo),
{
    let ghost s = v@.subrange(lo as int, hi as int);
    let r = v[k] == '`' && v[k + 1] == '`' && v[k + 2] == '`';
    proof {
        let w = s.subrange(k - lo, k - lo + 3);
        if r {
            assert(w =~= fence());
        } else if w == fence() {
            assert(w[0] == '`' && w[1] == '`' && w[2] == '`');
        }
    }
    r
}

/// Where the last fence of `v[lo..hi]` starts, counted from the start of `v`.
fn rfind_fence(v: &Vec<char>, lo: usize, hi: usize) -> (r: Option<usize>)
    requires
        lo <= hi <= v.len(),
    ensures
        match r {
            Some(k) => lo <= k && last_fence(v@.subrange(lo as int, hi as int)) == Some(k - lo),
            None => last_fence(v@.subrange(lo as int, hi as int)) is None,
        },
{
    let ghost s = v@.subrange(lo as int, hi as int);
    if hi - lo < 3 {
        proof {
            lemma_last_fence_props(s);
        }
        return None;
    }
    let mut k = hi - 3;
    loop
        invariant
            lo <= k,
            k + 3 <= hi <= v.len(),
            s == v@.subrange(lo as int, hi as int),
            forall|j: int| k - lo < j ==> !#[trigger] fence_at(s, j),
        decreases k - lo,
    {
        if fence_starts(v, lo, hi, k) {
            proof {
                lemma_last_fence(s, k - lo);
            }
            return Some(k);
        }
        if k == lo {
            proof {
                lemma_last_fence_props(s);
            }
            return None;
        }
        k = k - 1;
    }
}


/// Does `l` begin with `p`?
fn begins_with(l: &Vec<char>, p: &str) -> (r: bool)
    ensures
        r == starts_with(l@, p@),
{
    let n = p.unicode_len();
    if n > l.len() {
        return false;
    }
    let mut i: usize = 0;
    while i < n
        invariant
            n == p@.len(),
            n <= l.len(),
            i <= n,
            forall|j: int| 0 <= j < i ==> l@[j] == p@[j],
        decreases n - i,
    {
        if l[i] != p.get_char(i) {
            assert(l@.subrange(0, n as int)[i as int] != p@[i as int]);
            return false;
        }
        i = i + 1;
    }
    assert(l@.subrange(0, n as int) =~= p@);
    true
}

/// `announces_translation`, computed.
fn is_announcement(l: &Vec<char>) -> (r: bool)
    ensures
        r == announces_translation(l@),
{
    reveal(announces_translation);
    begins_with(l, "voici la traduction") || begins_with(l, "voici le texte traduit")
        || begins_with(l, "traduction :") || begins_with(l, "here is the translation")
        || begins_with(l, "here's the translation") || begins_with(l, "translation:")
}

/// `quote_pair`, computed.
fn is_quote_pair(a: char, z: char) -> (r: bool)
    ensures
        r == quote_pair(a, z),
{
    (a == '"' && z == '"') || (a == '«' && z == '»') || (a == '“' && z == '”') || (a == '\''
        && z == '\'')
}

/// `v[a..b]` with its ASCII capitals made small.
fn lower_range(v: &Vec<char>, a: usize, b: usize) -> (r: Vec<char>)
    requires
        a <= b <= v.len(),
    ensures
        r@ == lower_ascii(v@.subrange(a as int, b as int)),
{
    let mut r: Vec<char> = Vec::new();
    let mut k = a;
    while k < b
        invariant
            a <= k <= b <= v.len(),
            r@ == lower_ascii(v@.subrange(a as int, k as int)),
        decreases b - k,
    {
        r.push(lower_char(v[k]));
        proof {
            assert(lower_ascii(v@.subrange(a as int, k + 1)) =~= lower_ascii(
                v@.subrange(a as int, k as int),
            ).push(lower_ascii_char(v@[k as int])));
        }
        k = k + 1;
    }
    r
}


/// `block_body` where the text between the fences has no line break.
proof fn lemma_block_body_one_line(inside: Seq<char>)
    requires
        first_index(inside, '\n') is None,
    ensures
        block_body(inside) == inside,
{
    reveal(block_body);
}

/// `block_body` where the first line break between the fences is at `k`.
proof fn lemma_block_body_lines(inside: Seq<char>, k: int)
    requires
        first_index(inside, '\n') == Some(k),
    ensures
        block_body(inside) == (if !inside.subrange(0, k).contains(' ') && encode_utf8(
            inside.subrange(0, k),
        ).len() < 20 {
            inside.subrange(k + 1, inside.len() as int)
        } else {
            inside
        }),
{
    reveal(block_body);
}

/// `unwrap_code_block` where `t` is not a code block.
proof fn lemma_not_code_block(t: Seq<char>)
    requires
        !starts_with(t, fence()) || last_fence(t) is None || last_fence(t)->0 <= 3,
    ensures
        unwrap_code_block(t) == t,
{
    reveal(unwrap_code_block);
}

/// `unwrap_code_block` where `t` is a code block whose last fence starts at `fin`.
proof fn lemma_code_block(t: Seq<char>, fin: int)
    requires
        starts_with(t, fence()),
        last_fence(t) == Some(fin),
        fin > 3,
    ensures
        unwrap_code_block(t) == trim(block_body(t.subrange(3, fin))),
{
    reveal(unwrap_code_block);
}

/// Bounds, within `lo..hi`, of `block_body(v[lo..hi])`; `v` holds the characters of `s`.
fn block_body_range(s: &str, v: &Vec<char>, lo: usize, hi: usize) -> (r: (usize, usize))
    requires
        v@ == s@,
        lo <= hi <= v.len(),
    ensures
        lo <= r.0 <= r.1 <= hi,
        v@.subrange(r.0 as int, r.1 as int) == block_body(v@.subrange(lo as int, hi as int)),
{
    let ghost inside = v@.subrange(lo as int, hi as int);
    match find_char(v, lo, hi, '\n') {
        None => {
            proof {
                lemma_block_body_one_line(inside);
            }
            (lo, hi)
        },
        Some(nl) => {
            proof {
                lemma_block_body_lines(inside, nl - lo);
                assert(inside.subrange(0, nl - lo) =~= v@.subrange(lo as int, nl as int));
                assert(inside.subrange(nl - lo + 1, inside.len() as int) =~= v@.subrange(
                    nl + 1,
                    hi as int,
                ));
                lemma_utf8_len_bounds(v@.subrange(lo as int, nl as int));
            }
            let spaced = contains_char(v, lo, nl, ' ');
            if !spaced && nl - lo < 20 && s.substring_char(lo, nl).len() < 20 {
                (nl + 1, hi)
            } else {
                (lo, hi)
            }
        },
    }
}

/// Bounds, within `lo..hi`, of `unwrap_code_block(v[lo..hi])`; `v` holds the characters of `s`.
fn code_block_range(s: &str, v: &Vec<char>, lo: usize, hi: usize) -> (r: (usize, usize))
    requires
        v@ == s@,
        lo <= hi <= v.len(),
    ensures
        lo <= r.0 <= r.1 <= hi,
        v@.subrange(r.0 as int, r.1 as int) == unwrap_code_block(v@.subrange(lo as int, hi as int)),
{
    let ghost t = v@.subrange(lo as int, hi as int);
    if hi - lo < 3 {
        proof {
            lemma_not_code_block(t);
        }
        return (lo, hi);
    }
    let opens = fence_starts(v, lo, hi, lo);
    proof {
        assert(t.subrange(0, 3) == t.subrange(0, fence().len() as int));
    }
    if !opens {
        proof {
            lemma_not_code_block(t);
        }
        return (lo, hi);
    }
    match rfind_fence(v, lo, hi) {
        None => {
            proof {
                lemma_not_code_block(t);
            }
            (lo, hi)
        },
        Some(fin) => {
            if fin - lo <= 3 {
                proof {
                    lemma_not_code_block(t);
                }
                return (lo, hi);
            }
            proof {
                lemma_last_fence_props(t);
                lemma_code_block(t, fin - lo);
                assert(t.subrange(3, fin - lo) =~= v@.subrange(lo + 3, fin as int));
            }
            let (blo, bhi) = block_body_range(s, v, lo + 3, fin);
            trim_range(v, blo, bhi)
        },
    }
}

/// `drop_preamble` where `t` has no line break.
proof fn lemma_drop_preamble_one_line(t: Seq<char>)
    requires
        first_index(t, '\n') is None,
    ensures
        drop_preamble(t) == t,
{
    reveal(drop_preamble);
}

/// `drop_preamble` where the first line break of `t` is at `k`.
proof fn lemma_drop_preamble_lines(t: Seq<char>, k: int)
    requires
        first_index(t, '\n') == Some(k),
    ensures
        drop_preamble(t) == (if !is_blank(t.subrange(k + 1, t.len() as int))
            && announces_translation(lower_ascii(trim(t.subrange(0, k)))) {
            trim(t.subrange(k + 1, t.len() as int))
        } else {
            t
        }),
{
    reveal(drop_preamble);
}

/// Bounds, within `lo..hi`, of `drop_preamble(v[lo..hi])`.
fn preamble_range(v: &Vec<char>, lo: usize, hi: usize) -> (r: (usize, usize))
    requires
        lo <= hi <= v.len(),
    ensures
        lo <= r.0 <= r.1 <= hi,
        v@.subrange(r.0 as int, r.1 as int) == drop_preamble(v@.subrange(lo as int, hi as int)),
{
    let ghost t = v@.subrange(lo as int, hi as int);
    match find_char(v, lo, hi, '\n') {
        None => {
            proof {
                lemma_drop_preamble_one_line(t);
            }
            (lo, hi)
        },
        Some(nl) => {
            proof {
                lemma_drop_preamble_lines(t, nl - lo);
                assert(t.subrange(0, nl - lo) =~= v@.subrange(lo as int, nl as int));
                assert(t.subrange(nl - lo + 1, t.len() as int) =~= v@.subrange(nl + 1, hi as int));
            }
            let (rlo, rhi) = trim_range(v, nl + 1, hi);
            if rlo == rhi {
                return (lo, hi);
            }
            let (hlo, hhi) = trim_range(v, lo, nl);
            let l = lower_range(v, hlo, hhi);
            if is_announcement(&l) {
                (rlo, rhi)
            } else {
                (lo, hi)
            }
        },
    }
}

/// Bounds, within `lo..hi`, of `drop_quotes(v[lo..hi])`.
fn quotes_range(v: &Vec<char>, lo: usize, hi: usize) -> (r: (usize, usize))
    requires
        lo <= hi <= v.len(),
    ensures
        lo <= r.0 <= r.1 <= hi,
        v@.subrange(r.0 as int, r.1 as int) == drop_quotes(v@.subrange(lo as int, hi as int)),
{
    let ghost t = v@.subrange(lo as int, hi as int);
    if hi - lo < 2 {
        return (lo, hi);
    }
    let a = v[lo];
    let z = v[hi - 1];
    proof {
        assert(t.subrange(1, t.len() - 1) =~= v@.subrange(lo + 1, hi - 1));
    }
    if is_quote_pair(a, z) && !contains_char(v, lo + 1, hi - 1, a) {
        trim_range(v, lo + 1, hi - 1)
    } else {
        (lo, hi)
    }
}

/// The engine's reply without what a model adds against its instruction (see `cleaned`):
/// a code block around the whole text, a first line that announces the translation,
/// quotation marks around the whole text.
pub fn nettoyer(s: &str) -> (r: String)
    ensures
        r@ == cleaned(s@),
{
    let v = chars_of(s);
    proof {
        assert(v@.subrange(0, v@.len() as int) =~= v@);
    }
    let (a, b) = trim_range(&v, 0, v.len());
    let (a, b) = code_block_range(s, &v, a, b);
    let (a, b) = preamble_range(&v, a, b);
    let (a, b) = quotes_range(&v, a, b);
    String::from_str(s.substring_char(a, b))
}

/// The text cut to `n` characters (see `truncated`).
pub fn tronquer(s: &str, n: usize) -> (r: String)
    ensures
        r@ == truncated(s@, n as nat),
{
    let v = chars_of(s);
    proof {
        assert(v@.subrange(0, v@.len() as int) =~= v@);
    }
    let (a, b) = trim_range(&v, 0, v.len());
    if b - a <= n {
        String::from_str(s.substring_char(a, b))
    } else {
        proof {
            assert(v@.subrange(a as int, b as int).subrange(0, n as int) =~= v@.subrange(
                a as int,
                a + n,
            ));
        }
        let mut r = String::from_str(s.substring_char(a, a + n));
        r.append("…");
        r
    }
}


/// A character takes one to four bytes of UTF-8.
pub proof fn lemma_utf8_len_bounds(s: Seq<char>)
    ensures
        s.len() <= encode_utf8(s).len() <= 4 * s.len(),
    decreases s.len(),
{
    if s.len() > 0 {
        lemma_utf8_len_bounds(s.drop_first());
    }
}


/// `x` is a contiguous part of `s`.
pub open spec fn is_part_of(x: Seq<char>, s: Seq<char>) -> bool {
    exists|i: int, j: int| 0 <= i <= j <= s.len() && x == s.subrange(i, j)
}

/// `x` has no white space at either end.
pub open spec fn is_trimmed(x: Seq<char>) -> bool {
    trim(x) == x
}

proof fn lemma_part_of_self(s: Seq<char>)
    ensures
        is_part_of(s, s),
{
    assert(s == s.subrange(0, s.len() as int));
}

pub proof fn lemma_part_of_part(x: Seq<char>, y: Seq<char>, s: Seq<char>)
    requires
        is_part_of(x, y),
        is_part_of(y, s),
    ensures
        is_part_of(x, s),
{
    let (i, j) = choose|i: int, j: int| 0 <= i <= j <= y.len() && x == y.subrange(i, j);
    let (k, l) = choose|k: int, l: int| 0 <= k <= l <= s.len() && y == s.subrange(k, l);
    assert(x == s.subrange(k + i, k + j));
}

proof fn lemma_trim_part(s: Seq<char>)
    ensures
        is_part_of(trim(s), s),
        is_trimmed(trim(s)),
{
    lemma_trim(s);
}

proof fn lemma_block_body_part(inside: Seq<char>)
    ensures
        is_part_of(block_body(inside), inside),
{
    reveal(block_body);
    lemma_part_of_self(inside);
    lemma_first_index_props(inside, '\n');
    if first_index(inside, '\n') is Some {
        let k = first_index(inside, '\n')->0;
        assert(0 <= k < inside.len());
        assert(inside.subrange(k + 1, inside.len() as int) == inside.subrange(k + 1, inside.len() as int));
    }
}

proof fn lemma_unwrap_code_block(t: Seq<char>)
    requires
        is_trimmed(t),
    ensures
        is_part_of(unwrap_code_block(t), t),
        is_trimmed(unwrap_code_block(t)),
{
    reveal(unwrap_code_block);
    lemma_part_of_self(t);
    if starts_with(t, fence()) && last_fence(t) is Some && last_fence(t)->0 > 3 {
        let fin = last_fence(t)->0;
        lemma_last_fence_props(t);
        let inside = t.subrange(3, fin);
        assert(is_part_of(inside, t));
        lemma_block_body_part(inside);
        lemma_trim_part(block_body(inside));
        lemma_part_of_part(block_body(inside), inside, t);
        lemma_part_of_part(trim(block_body(inside)), block_body(inside), t);
    }
}

proof fn lemma_drop_preamble(t: Seq<char>)
    requires
        is_trimmed(t),
    ensures
        is_part_of(drop_preamble(t), t),
        is_trimmed(drop_preamble(t)),
{
    reveal(drop_preamble);
    lemma_part_of_self(t);
    lemma_first_index_props(t, '\n');
    if first_index(t, '\n') is Some {
        let k = first_index(t, '\n')->0;
        assert(0 <= k < t.len());
        let rest = t.subrange(k + 1, t.len() as int);
        assert(is_part_of(rest, t));
        lemma_trim_part(rest);
        lemma_part_of_part(trim(rest), rest, t);
    }
}

proof fn lemma_drop_quotes(t: Seq<char>)
    requires
        is_trimmed(t),
    ensures
        is_part_of(drop_quotes(t), t),
        is_trimmed(drop_quotes(t)),
{
    lemma_part_of_self(t);
    if t.len() >= 2 {
        let inner = t.subrange(1, t.len() - 1);
        assert(is_part_of(inner, t));
        lemma_trim_part(inner);
        lemma_part_of_part(trim(inner), inner, t);
    }
}

/// Cleaning only takes away: what is kept of a reply is a contiguous part of it, with no
/// white space at either end.
pub proof fn law_cleaning_keeps_a_part(s: Seq<char>)
    ensures
        is_part_of(cleaned(s), s),
        is_trimmed(cleaned(s)),
{
    let t0 = trim(s);
    lemma_trim_part(s);
    let t1 = unwrap_code_block(t0);
    lemma_unwrap_code_block(t0);
    let t2 = drop_preamble(t1);
    lemma_drop_preamble(t1);
    lemma_drop_quotes(t2);
    lemma_part_of_part(t1, t0, s);
    lemma_part_of_part(t2, t1, s);
    lemma_part_of_part(drop_quotes(t2), t2, s);
}

/// A text cut to `n` characters holds at most `n` characters and the ellipsis; a trimmed
/// text of at most `n` characters is not cut.
pub proof fn law_truncation_bound(s: Seq<char>, n: nat)
    ensures
        truncated(s, n).len() <= n + 1,
        trim(s).len() <= n ==> truncated(s, n) == trim(s),
{
    reveal_strlit("…");
}


/// A first line that announces the translation goes, whatever its case and the white space
/// around it, when text follows it: the reply is then that text, trimmed. The six
/// announcements are "voici la traduction", "voici le texte traduit", "traduction :",
/// "here is the translation", "here's the translation" and "translation:".
pub proof fn law_announcement_line_goes(head: Seq<char>, rest: Seq<char>)
    requires
        !head.contains('\n'),
        !is_blank(rest),
        ({
            let l = lower_ascii(trim(head));
            ||| starts_with(l, "voici la traduction"@)
            ||| starts_with(l, "voici le texte traduit"@)
            ||| starts_with(l, "traduction :"@)
            ||| starts_with(l, "here is the translation"@)
            ||| starts_with(l, "here's the translation"@)
            ||| starts_with(l, "translation:"@)
        }),
    ensures
        drop_preamble(head + seq!['\n'] + rest) == trim(rest),
{
    let t = head + seq!['\n'] + rest;
    let k = head.len() as int;
    assert forall|j: int| 0 <= j < k implies t[j] != '\n' by {
        assert(t[j] == head[j]);
    }
    lemma_first_index(t, '\n', k);
    lemma_drop_preamble_lines(t, k);
    assert(t.subrange(0, k) =~= head);
    assert(t.subrange(k + 1, t.len() as int) =~= rest);
    reveal(announces_translation);
}

/// A first line that announces nothing stays.
pub proof fn law_other_first_line_stays(head: Seq<char>, rest: Seq<char>)
    requires
        !head.contains('\n'),
        ({
            let l = lower_ascii(trim(head));
            &&& !starts_with(l, "voici la traduction"@)
            &&& !starts_with(l, "voici le texte traduit"@)
            &&& !starts_with(l, "traduction :"@)
            &&& !starts_with(l, "here is the translation"@)
            &&& !starts_with(l, "here's the translation"@)
            &&& !starts_with(l, "translation:"@)
        }),
    ensures
        drop_preamble(head + seq!['\n'] + rest) == head + seq!['\n'] + rest,
{
    let t = head + seq!['\n'] + rest;
    let k = head.len() as int;
    assert forall|j: int| 0 <= j < k implies t[j] != '\n' by {
        assert(t[j] == head[j]);
    }
    lemma_first_index(t, '\n', k);
    lemma_drop_preamble_lines(t, k);
    assert(t.subrange(0, k) =~= head);
    reveal(announces_translation);
}

/// A reply of a single line keeps its preamble step unchanged.
pub proof fn law_single_line_has_no_preamble(t: Seq<char>)
    requires
        !t.contains('\n'),
    ensures
        drop_preamble(t) == t,
{
    lemma_first_index_props(t, '\n');
    if first_index(t, '\n') is Some {
        let k = first_index(t, '\n')->0;
        assert(t[k] == '\n');
    }
    lemma_drop_preamble_one_line(t);
}

/// Quotation marks that open and close the whole text, in any of the four pairs `"…"`,
/// `«…»`, `“…”`, `'…'`, go with the white space inside them, unless the opening mark occurs
/// again inside.
pub proof fn law_enclosing_quotes_go(a: char, inner: Seq<char>, z: char)
    requires
        (a == '"' && z == '"') || (a == '«' && z == '»') || (a == '“' && z == '”') || (a
            == '\'' && z == '\''),
    ensures
        !inner.contains(a) ==> drop_quotes(seq![a] + inner + seq![z]) == trim(inner),
        inner.contains(a) ==> drop_quotes(seq![a] + inner + seq![z]) == seq![a] + inner + seq![z],
{
    let t = seq![a] + inner + seq![z];
    assert(t[0] == a);
    assert(t.last() == z);
    assert(t.subrange(1, t.len() - 1) =~= inner);
}

/// Text without an enclosing pair of quotation marks keeps its quotes.
pub proof fn law_unpaired_quotes_stay(t: Seq<char>)
    requires
        t.len() < 2 || !((t[0] == '"' && t.last() == '"') || (t[0] == '«' && t.last() == '»') || (
        t[0] == '“' && t.last() == '”') || (t[0] == '\'' && t.last() == '\'')),
    ensures
        drop_quotes(t) == t,
{
}

/// A text that opens with three backquotes and closes with three more, with room between
/// them, is a code block: it becomes what the block holds, trimmed. What the block holds
/// loses its first line when that line names a language: no space in it and under 20 bytes
/// of UTF-8; otherwise it is kept whole.
pub proof fn law_code_block_is_unwrapped(inside: Seq<char>)
    requires
        inside.len() >= 1,
    ensures
        unwrap_code_block(seq!['`', '`', '`'] + inside + seq!['`', '`', '`']) == trim(
            block_body(inside),
        ),
        !inside.contains('\n') ==> block_body(inside) == inside,
{
    let f = seq!['`', '`', '`'];
    let t = f + inside + f;
    let fin = t.len() - 3;
    assert(t.subrange(0, 3) =~= fence());
    assert(t.subrange(fin, fin + 3) =~= fence());
    assert forall|j: int| fin < j implies !#[trigger] fence_at(t, j) by {}
    lemma_last_fence(t, fin);
    lemma_code_block(t, fin);
    assert(t.subrange(3, fin) =~= inside);
    lemma_first_index_props(inside, '\n');
    if !inside.contains('\n') {
        lemma_block_body_one_line(inside);
    }
}

/// What a code block holds loses a first line that can name a language (no space, under
/// 20 bytes of UTF-8), and keeps any other first line.
pub proof fn law_language_line_goes(head: Seq<char>, rest: Seq<char>)
    requires
        !head.contains('\n'),
    ensures
        !head.contains(' ') && encode_utf8(head).len() < 20 ==> block_body(
            head + seq!['\n'] + rest,
        ) == rest,
        head.contains(' ') || encode_utf8(head).len() >= 20 ==> block_body(
            head + seq!['\n'] + rest,
        ) == head + seq!['\n'] + rest,
{
    let t = head + seq!['\n'] + rest;
    let k = head.len() as int;
    assert forall|j: int| 0 <= j < k implies t[j] != '\n' by {
        assert(t[j] == head[j]);
    }
    lemma_first_index(t, '\n', k);
    lemma_block_body_lines(t, k);
    assert(t.subrange(0, k) =~= head);
    assert(t.subrange(k + 1, t.len() as int) =~= rest);
}


/// A trimmed text longer than `n` characters is cut to its first `n` characters followed by
/// one ellipsis character `…`.
pub proof fn law_truncation_shape(s: Seq<char>, n: nat)
    requires
        trim(s).len() > n,
    ensures
        truncated(s, n).len() == n + 1,
        forall|i: int| 0 <= i < n ==> truncated(s, n)[i] == trim(s)[i],
        truncated(s, n)[n as int] == '…',
{
    reveal_strlit("…");
}

/// Three backquotes followed by at most three characters are no code block: they stay.
pub proof fn law_fences_must_enclose_text(x: Seq<char>)
    requires
        x.len() <= 3,
    ensures
        unwrap_code_block(seq!['`', '`', '`'] + x) == seq!['`', '`', '`'] + x,
{
    let t = seq!['`', '`', '`'] + x;
    lemma_last_fence_props(t);
    lemma_not_code_block(t);
}

} // verus!
