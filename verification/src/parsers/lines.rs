use crate::parsers::text::{is_whitespace, is_whitespace_spec};
use vstd::prelude::*;

verus! {

/// The position of the first character of `s` from `i` on that is not
/// whitespace.
pub open spec fn skip_ws(s: Seq<char>, i: int) -> int
    decreases s.len() - i,
{
    if 0 <= i < s.len() && is_whitespace_spec(s[i]) {
        skip_ws(s, i + 1)
    } else {
        i
    }
}

/// The position after the last character of `s` before `j` that is not
/// whitespace, looking no further back than `lo`.
pub open spec fn skip_ws_back(s: Seq<char>, lo: int, j: int) -> int
    decreases j - lo,
{
    if lo < j && j <= s.len() && is_whitespace_spec(s[j - 1]) {
        skip_ws_back(s, lo, j - 1)
    } else {
        j
    }
}

/// `s` without leading and trailing whitespace (`str::trim`).
pub open spec fn trimmed(s: Seq<char>) -> Seq<char> {
    let a = skip_ws(s, 0);
    let b = skip_ws_back(s, a, s.len() as int);
    s.subrange(a, b)
}

proof fn lemma_skip_ws_bounds(s: Seq<char>, i: int)
    requires
        0 <= i <= s.len(),
    ensures
        i <= skip_ws(s, i) <= s.len(),
    decreases s.len() - i,
{
    if i < s.len() && is_whitespace_spec(s[i]) {
        lemma_skip_ws_bounds(s, i + 1);
    }
}

proof fn lemma_skip_ws_back_bounds(s: Seq<char>, lo: int, j: int)
    requires
        0 <= lo <= j <= s.len(),
    ensures
        lo <= skip_ws_back(s, lo, j) <= j,
    decreases j - lo,
{
    if lo < j && is_whitespace_spec(s[j - 1]) {
        lemma_skip_ws_back_bounds(s, lo, j - 1);
    }
}

/// The bounds of `s` without leading and trailing whitespace.
pub fn trim_bounds(s: &[char]) -> (r: (usize, usize))
    ensures
        r.0 <= r.1 <= s@.len(),
        s@.subrange(r.0 as int, r.1 as int) == trimmed(s@),
{
    let mut a: usize = 0;
    while a < s.len() && is_whitespace(s[a])
        invariant
            a <= s@.len(),
            skip_ws(s@, 0) == skip_ws(s@, a as int),
        decreases s.len() - a,
    {
        a = a + 1;
    }
    let mut b: usize = s.len();
    while b > a && is_whitespace(s[b - 1])
        invariant
            a <= b <= s@.len(),
            skip_ws(s@, 0) == a,
            skip_ws_back(s@, a as int, s@.len() as int) == skip_ws_back(s@, a as int, b as int),
        decreases b - a,
    {
        b = b - 1;
    }
    (a, b)
}

/// The characters of `s` without leading and trailing whitespace.
pub fn trim(s: &[char]) -> (r: Vec<char>)
    ensures
        r@ == trimmed(s@),
{
    let (a, b) = trim_bounds(s);
    slice_to_vec(s, a, b)
}

/// The characters `s[a..b]`.
pub fn slice_to_vec(s: &[char], a: usize, b: usize) -> (r: Vec<char>)
    requires
        a <= b <= s@.len(),
    ensures
        r@ == s@.subrange(a as int, b as int),
{
    let mut r: Vec<char> = Vec::new();
    let mut k = a;
    while k < b
        invariant
            a <= k <= b <= s@.len(),
            r@ == s@.subrange(a as int, k as int),
        decreases b - k,
    {
        r.push(s[k]);
        k = k + 1;
        assert(r@ =~= s@.subrange(a as int, k as int));
    }
    r
}

/// The pieces of `s` between line feeds (one more than there are line feeds).
pub open spec fn split_newlines(s: Seq<char>) -> Seq<Seq<char>>
    decreases s.len(),
{
    if s.len() == 0 {
        seq![Seq::empty()]
    } else if s.last() == '\n' {
        split_newlines(s.drop_last()).push(Seq::empty())
    } else {
        let p = split_newlines(s.drop_last());
        p.update(p.len() - 1, p.last().push(s.last()))
    }
}

/// `t` without a final carriage return.
pub open spec fn strip_cr(t: Seq<char>) -> Seq<char> {
    if t.len() > 0 && t.last() == '\r' {
        t.drop_last()
    } else {
        t
    }
}

/// The lines of `s` as `str::lines` gives them: split at line feeds, without a
/// carriage return before a line feed, and with no empty line after a final
/// line feed.
pub open spec fn lines_of(s: Seq<char>) -> Seq<Seq<char>> {
    let pieces = split_newlines(s);
    let kept = if s.len() == 0 || s.last() == '\n' {
        pieces.drop_last()
    } else {
        pieces
    };
    Seq::new(
        kept.len(),
        |i: int|
            if i < pieces.len() - 1 || s.last() == '\n' {
                strip_cr(kept[i])
            } else {
                kept[i]
            },
    )
}

proof fn lemma_split_len(s: Seq<char>)
    ensures
        split_newlines(s).len() >= 1,
    decreases s.len(),
{
    if s.len() > 0 {
        lemma_split_len(s.drop_last());
    }
}

/// The lines of `s`, as `lines_of` gives them.
pub fn split_lines(s: &[char]) -> (r: Vec<Vec<char>>)
    ensures
        r@.len() == lines_of(s@).len(),
        forall|i: int| 0 <= i < r@.len() ==> #[trigger] r@[i]@ == lines_of(s@)[i],
{
    let mut pieces: Vec<Vec<char>> = Vec::new();
    let mut cur: Vec<char> = Vec::new();
    let mut k: usize = 0;
    while k < s.len()
        invariant
            k <= s@.len(),
            pieces@.len() + 1 == split_newlines(s@.take(k as int)).len(),
            forall|i: int|
                0 <= i < pieces@.len() ==> #[trigger] pieces@[i]@ == split_newlines(
                    s@.take(k as int),
                )[i],
            cur@ == split_newlines(s@.take(k as int)).last(),
        decreases s.len() - k,
    {
        let c = s[k];
        proof {
            assert(s@.take(k + 1).drop_last() =~= s@.take(k as int));
            lemma_split_len(s@.take(k as int));
        }
        if c == '\n' {
            pieces.push(cur);
            cur = Vec::new();
        } else {
            cur.push(c);
        }
        k = k + 1;
        proof {
            let p = split_newlines(s@.take(k - 1));
            assert forall|i: int| 0 <= i < pieces@.len() implies #[trigger] pieces@[i]@
                == split_newlines(s@.take(k as int))[i] by {}
        }
    }
    proof {
        assert(s@.take(k as int) =~= s@);
    }
    let ends_with_newline = s.len() == 0 || s[s.len() - 1] == '\n';
    if !ends_with_newline {
        pieces.push(cur);
    }
    proof {
        lemma_split_len(s@);
    }
    let mut r: Vec<Vec<char>> = Vec::new();
    let n = pieces.len();
    let mut i: usize = 0;
    while i < n
        invariant
            n == pieces@.len(),
            n == lines_of(s@).len(),
            ends_with_newline == (s@.len() == 0 || s@.last() == '\n'),
            split_newlines(s@).len() >= 1,
            ends_with_newline ==> n == split_newlines(s@).len() - 1,
            !ends_with_newline ==> n == split_newlines(s@).len(),
            i <= n,
            r@.len() == i,
            forall|j: int|
                0 <= j < n ==> #[trigger] pieces@[j]@ == (if s@.len() == 0 || s@.last() == '\n' {
                    split_newlines(s@).drop_last()
                } else {
                    split_newlines(s@)
                })[j],
            forall|j: int| 0 <= j < i ==> #[trigger] r@[j]@ == lines_of(s@)[j],
        decreases n - i,
    {
        let piece = &pieces[i];
        let strip = (i + 1 < n || ends_with_newline) && piece.len() > 0 && piece[piece.len() - 1]
            == '\r';
        let line = if strip {
            slice_to_vec(piece.as_slice(), 0, piece.len() - 1)
        } else {
            slice_to_vec(piece.as_slice(), 0, piece.len())
        };
        proof {
            assert(piece@.subrange(0, piece@.len() as int) =~= piece@);
            if piece@.len() > 0 {
                assert(piece@.subrange(0, piece@.len() - 1) =~= piece@.drop_last());
            }
            let cond = i < split_newlines(s@).len() - 1 || s@.last() == '\n';
            assert(cond == (i + 1 < n || ends_with_newline));
            assert(line@ == lines_of(s@)[i as int]);
        }
        r.push(line);
        i = i + 1;
    }
    r
}

} // verus!
