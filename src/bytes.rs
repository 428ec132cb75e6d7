use vstd::prelude::*;

verus! {

/// The number of bytes of the whitespace character whose UTF-8 encoding
/// starts at index `i` of `s`, or 0 where none does. Whitespace is Unicode's
/// White_Space, as `char::is_whitespace` and `split_whitespace` take it:
/// U+0009 to U+000D, U+0020, U+0085, U+00A0, U+1680, U+2000 to U+200A,
/// U+2028, U+2029, U+202F, U+205F and U+3000.
pub open spec fn space_len(s: Seq<u8>, i: int) -> int {
    if i < 0 || i >= s.len() {
        0
    } else if (9u8 <= s[i] <= 13u8) || s[i] == 32u8 {
        1
    } else if s[i] == 0xC2u8 && i + 1 < s.len() && (s[i + 1] == 0x85u8 || s[i + 1] == 0xA0u8) {
        2
    } else if i + 2 < s.len() && (
    (s[i] == 0xE1u8 && s[i + 1] == 0x9Au8 && s[i + 2] == 0x80u8) || (s[i] == 0xE2u8 && s[i + 1]
        == 0x80u8 && ((0x80u8 <= s[i + 2] <= 0x8Au8) || s[i + 2] == 0xA8u8 || s[i + 2] == 0xA9u8
        || s[i + 2] == 0xAFu8)) || (s[i] == 0xE2u8 && s[i + 1] == 0x81u8 && s[i + 2] == 0x9Fu8)
        || (s[i] == 0xE3u8 && s[i + 1] == 0x80u8 && s[i + 2] == 0x80u8)) {
        3
    } else {
        0
    }
}

/// The first index at or after `i` where no whitespace character starts,
/// stepping over whole characters, or `s.len()`.
pub open spec fn skip_space(s: Seq<u8>, i: int) -> int
    decreases s.len() - i,
{
    if i < 0 || i >= s.len() {
        s.len() as int
    } else if space_len(s, i) > 0 {
        skip_space(s, i + space_len(s, i))
    } else {
        i
    }
}

/// The first index at or after `i` where a whitespace character starts, or
/// `s.len()`.
pub open spec fn word_end(s: Seq<u8>, i: int) -> int
    decreases s.len() - i,
{
    if i < 0 || i >= s.len() {
        s.len() as int
    } else if space_len(s, i) > 0 {
        i
    } else {
        word_end(s, i + 1)
    }
}

pub proof fn lemma_skip_space_bounds(s: Seq<u8>, i: int)
    requires
        0 <= i <= s.len(),
    ensures
        i <= skip_space(s, i) <= s.len(),
    decreases s.len() - i,
{
    if i < s.len() && space_len(s, i) > 0 {
        lemma_skip_space_bounds(s, i + space_len(s, i));
    }
}

pub proof fn lemma_word_end_bounds(s: Seq<u8>, i: int)
    requires
        0 <= i <= s.len(),
    ensures
        i <= word_end(s, i) <= s.len(),
    decreases s.len() - i,
{
    if i < s.len() && space_len(s, i) == 0 {
        lemma_word_end_bounds(s, i + 1);
    }
}

/// `sep` occurs in `s` starting at index `i`.
pub open spec fn occurs_at(s: Seq<u8>, i: int, sep: Seq<u8>) -> bool {
    0 <= i && i + sep.len() <= s.len() && s.subrange(i, i + sep.len()) == sep
}

/// The first index at or after `i` where `sep` occurs, or `s.len()`.
pub open spec fn find_sep(s: Seq<u8>, i: int, sep: Seq<u8>) -> int
    decreases s.len() - i,
{
    if i >= s.len() {
        s.len() as int
    } else if occurs_at(s, i, sep) {
        i
    } else {
        find_sep(s, i + 1, sep)
    }
}

pub proof fn lemma_find_sep_bounds(s: Seq<u8>, i: int, sep: Seq<u8>)
    requires
        0 <= i <= s.len(),
    ensures
        i <= find_sep(s, i, sep) <= s.len(),
        find_sep(s, i, sep) < s.len() ==> occurs_at(s, find_sep(s, i, sep), sep),
    decreases s.len() - i,
{
    if i < s.len() && !occurs_at(s, i, sep) {
        lemma_find_sep_bounds(s, i + 1, sep);
    }
}

/// The pieces of `s` from index `i` on, cut at each occurrence of `sep`, as
/// `str::split` cuts them: a separator at either end leaves an empty piece.
pub open spec fn pieces_from(s: Seq<u8>, i: int, sep: Seq<u8>) -> Seq<Seq<u8>>
    decreases s.len() - i,
    via pieces_from_decreases
{
    if i < 0 || i > s.len() || sep.len() == 0 {
        seq![]
    } else {
        let j = find_sep(s, i, sep);
        if j < s.len() {
            seq![s.subrange(i, j)] + pieces_from(s, j + sep.len(), sep)
        } else {
            seq![s.subrange(i, j)]
        }
    }
}

#[via_fn]
proof fn pieces_from_decreases(s: Seq<u8>, i: int, sep: Seq<u8>) {
    if 0 <= i <= s.len() && sep.len() > 0 {
        lemma_find_sep_bounds(s, i, sep);
    }
}

pub proof fn lemma_find_sep_at_most(s: Seq<u8>, i: int, k: int, sep: Seq<u8>)
    requires
        0 <= i <= k < s.len(),
        occurs_at(s, k, sep),
    ensures
        find_sep(s, i, sep) <= k,
    decreases k - i,
{
    if i < k && !occurs_at(s, i, sep) {
        lemma_find_sep_at_most(s, i + 1, k, sep);
    }
}

pub proof fn lemma_find_sep_none(s: Seq<u8>, i: int, sep: Seq<u8>)
    requires
        0 <= i <= s.len(),
        forall|k: int| i <= k < s.len() ==> !occurs_at(s, k, sep),
    ensures
        find_sep(s, i, sep) == s.len(),
    decreases s.len() - i,
{
    if i < s.len() {
        lemma_find_sep_none(s, i + 1, sep);
    }
}

/// With no separator anywhere in `s`, splitting leaves `s` whole.
pub proof fn lemma_split_whole(s: Seq<u8>, sep: Seq<u8>)
    requires
        sep.len() > 0,
        forall|k: int| 0 <= k < s.len() ==> !occurs_at(s, k, sep),
    ensures
        split(s, sep) == seq![s],
{
    lemma_find_sep_none(s, 0, sep);
    assert(s.subrange(0, s.len() as int) =~= s);
}

/// Where a one-byte separator ends at `m` and never occurs after, the last
/// piece from any earlier start is what follows `m`.
pub proof fn lemma_last_piece(s: Seq<u8>, i: int, m: int, sep: Seq<u8>)
    requires
        sep.len() == 1,
        0 <= i <= m <= s.len(),
        forall|k: int| m <= k < s.len() ==> !occurs_at(s, k, sep),
        i < m ==> occurs_at(s, m - 1, sep),
    ensures
        pieces_from(s, i, sep).len() > 0,
        pieces_from(s, i, sep).last() == s.subrange(m, s.len() as int),
    decreases m - i,
{
    if i == m {
        lemma_find_sep_none(s, m, sep);
    } else {
        lemma_find_sep_at_most(s, i, m - 1, sep);
        lemma_find_sep_bounds(s, i, sep);
        let j = find_sep(s, i, sep);
        lemma_last_piece(s, j + 1, m, sep);
        let rest = pieces_from(s, j + 1, sep);
        assert((seq![s.subrange(i, j)] + rest).last() == rest.last());
    }
}

/// `s` cut at every occurrence of a non-empty `sep`.
pub open spec fn split(s: Seq<u8>, sep: Seq<u8>) -> Seq<Seq<u8>> {
    pieces_from(s, 0, sep)
}

/// The views of a vector of byte vectors.
pub open spec fn views(v: Seq<Vec<u8>>) -> Seq<Seq<u8>> {
    v.map_values(|b: Vec<u8>| b@)
}

/// The bytes of `s` from `lo` up to `hi`, as a vector of their own.
pub fn copy_range(s: &[u8], lo: usize, hi: usize) -> (r: Vec<u8>)
    requires
        lo <= hi <= s@.len(),
    ensures
        r@ == s@.subrange(lo as int, hi as int),
{
    vstd::slice::slice_to_vec(vstd::slice::slice_subrange(s, lo, hi))
}

/// Whether two byte strings are equal.
pub fn bytes_eq(a: &[u8], b: &[u8]) -> (r: bool)
    ensures
        r == (a@ == b@),
{
    if a.len() != b.len() {
        return false;
    }
    let mut k: usize = 0;
    while k < a.len()
        invariant
            a@.len() == b@.len(),
            k <= a@.len(),
            forall|m: int| 0 <= m < k ==> a@[m] == b@[m],
        decreases a@.len() - k,
    {
        if a[k] != b[k] {
            return false;
        }
        k = k + 1;
    }
    assert(a@ =~= b@);
    true
}

/// Whether `sep` occurs in `s` at index `i`.
pub fn occurs_at_exec(s: &[u8], i: usize, sep: &[u8]) -> (r: bool)
    requires
        i <= s@.len(),
    ensures
        r == occurs_at(s@, i as int, sep@),
{
    let n = s.len();
    if sep.len() > n - i {
        return false;
    }
    let mut k: usize = 0;
    while k < sep.len()
        invariant
            n == s@.len(),
            i + sep@.len() <= s@.len(),
            k <= sep@.len(),
            forall|m: int| 0 <= m < k ==> s@[i + m] == sep@[m],
        decreases sep@.len() - k,
    {
        if s[i + k] != sep[k] {
            assert(s@.subrange(i as int, i + sep@.len())[k as int] != sep@[k as int]);
            return false;
        }
        k = k + 1;
    }
    assert(s@.subrange(i as int, i + sep@.len()) =~= sep@);
    true
}

/// The first index at or after `i` where `sep` occurs, or `s.len()`.
pub fn find_from(s: &[u8], i: usize, sep: &[u8]) -> (j: usize)
    requires
        i <= s@.len(),
    ensures
        j == find_sep(s@, i as int, sep@),
{
    let mut j: usize = i;
    while j < s.len()
        invariant
            i <= j <= s@.len(),
            find_sep(s@, i as int, sep@) == find_sep(s@, j as int, sep@),
        decreases s@.len() - j,
    {
        if occurs_at_exec(s, j, sep) {
            return j;
        }
        j = j + 1;
    }
    j
}

/// The number of bytes of the whitespace character that starts at index `i`,
/// or 0.
pub fn space_len_at(s: &[u8], i: usize) -> (r: usize)
    requires
        i < s@.len(),
    ensures
        r == space_len(s@, i as int),
{
    let n = s.len();
    let b = s[i];
    if (9u8 <= b && b <= 13u8) || b == 32u8 {
        1
    } else if b == 0xC2u8 && i + 1 < n && (s[i + 1] == 0x85u8 || s[i + 1] == 0xA0u8) {
        2
    } else if n - i > 2 {
        let c = s[i + 1];
        let d = s[i + 2];
        if (b == 0xE1u8 && c == 0x9Au8 && d == 0x80u8) || (b == 0xE2u8 && c == 0x80u8 && ((0x80u8
            <= d && d <= 0x8Au8) || d == 0xA8u8 || d == 0xA9u8 || d == 0xAFu8)) || (b == 0xE2u8
            && c == 0x81u8 && d == 0x9Fu8) || (b == 0xE3u8 && c == 0x80u8 && d == 0x80u8) {
            3
        } else {
            0
        }
    } else {
        0
    }
}

/// The first index at or after `i` where no whitespace character starts.
pub fn skip_space_from(s: &[u8], i: usize) -> (j: usize)
    requires
        i <= s@.len(),
    ensures
        j == skip_space(s@, i as int),
{
    let mut j: usize = i;
    while j < s.len()
        invariant
            i <= j <= s@.len(),
            skip_space(s@, i as int) == skip_space(s@, j as int),
        decreases s@.len() - j,
    {
        let w = space_len_at(s, j);
        if w == 0 {
            return j;
        }
        j = j + w;
    }
    j
}

/// The first index at or after `i` where a whitespace character starts.
pub fn word_end_from(s: &[u8], i: usize) -> (j: usize)
    requires
        i <= s@.len(),
    ensures
        j == word_end(s@, i as int),
{
    let mut j: usize = i;
    while j < s.len()
        invariant
            i <= j <= s@.len(),
            word_end(s@, i as int) == word_end(s@, j as int),
        decreases s@.len() - j,
    {
        if space_len_at(s, j) > 0 {
            return j;
        }
        j = j + 1;
    }
    j
}

/// `s` cut at every occurrence of `sep`.
pub fn split_at_sep(s: &[u8], sep: &[u8]) -> (r: Vec<Vec<u8>>)
    requires
        sep@.len() > 0,
    ensures
        views(r@) == split(s@, sep@),
        r@.len() > 0,
{
    let mut out: Vec<Vec<u8>> = Vec::new();
    let mut i: usize = 0;
    loop
        invariant_except_break
            views(out@) + pieces_from(s@, i as int, sep@) == split(s@, sep@),
        invariant
            sep@.len() > 0,
            i <= s@.len(),
        ensures
            views(out@) == split(s@, sep@),
            out@.len() > 0,
        decreases s@.len() - i,
    {
        let j = find_from(s, i, sep);
        proof {
            lemma_find_sep_bounds(s@, i as int, sep@);
        }
        let piece = copy_range(s, i, j);
        let ghost before = out@;
        out.push(piece);
        assert(views(out@) =~= views(before).push(s@.subrange(i as int, j as int)));
        if j == s.len() {
            assert(views(out@) =~= views(before) + pieces_from(s@, i as int, sep@));
            break;
        }
        proof {
            assert(pieces_from(s@, i as int, sep@) == seq![s@.subrange(i as int, j as int)]
                + pieces_from(s@, j + sep@.len(), sep@));
            assert(views(out@) + pieces_from(s@, j + sep@.len(), sep@) =~= views(before)
                + pieces_from(s@, i as int, sep@));
        }
        i = j + sep.len();
    }
    out
}

} // verus!
