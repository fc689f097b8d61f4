//! The C runtime that the game links against: string routines,
//! number parsing and in-memory `FILE` streams over the RAM file system.
//!
//! A C string is a byte slice that holds a NUL; its text is the bytes
//! before the first NUL.  Routines that hand back a pointer into a string
//! hand back the byte offset instead.

use vstd::prelude::*;
use crate::initrd::{first_nul, lemma_first_nul};
use crate::fs::{RamFs, lookup, written};

verus! {

/// The slice holds a NUL, so it holds a complete C string.
pub open spec fn has_nul(s: Seq<u8>) -> bool {
    exists|i: int| 0 <= i < s.len() && s[i] == 0
}

/// The text of the C string in `s`: the bytes before the first NUL.
pub open spec fn cstr(s: Seq<u8>) -> Seq<u8> {
    s.take(first_nul(s) as int)
}

proof fn lemma_has_nul(s: Seq<u8>)
    requires
        has_nul(s),
    ensures
        first_nul(s) < s.len(),
        s[first_nul(s) as int] == 0,
        forall|k: int| 0 <= k < first_nul(s) ==> #[trigger] s[k] != 0,
{
    lemma_first_nul(s);
    if first_nul(s) == s.len() {
        let i = choose|i: int| 0 <= i < s.len() && s[i] == 0;
        assert(s[i] != 0);
    }
}

/// Length of the C string in `s`.
pub fn strlen(s: &[u8]) -> (n: usize)
    requires
        has_nul(s@),
    ensures
        n == first_nul(s@),
{
    proof { lemma_has_nul(s@); }
    let mut n: usize = 0;
    while s[n] != 0
        invariant
            n <= first_nul(s@),
            first_nul(s@) < s@.len(),
            s@[first_nul(s@) as int] == 0,
            forall|k: int| 0 <= k < first_nul(s@) ==> #[trigger] s@[k] != 0,
        decreases first_nul(s@) - n,
    {
        n = n + 1;
    }
    n
}

/// ASCII upper-case letters to lower case; other bytes unchanged.
pub open spec fn spec_lower(c: u8) -> u8 {
    if 65 <= c <= 90 { (c + 32) as u8 } else { c }
}

/// Lower-cases an ASCII letter.
pub fn lower(c: u8) -> (r: u8)
    ensures
        r == spec_lower(c),
{
    if c >= 65 && c <= 90 {
        c + 32
    } else {
        c
    }
}

/// The byte as compared: folded to lower case when `fold` holds.
pub open spec fn fc(c: u8, fold: bool) -> u8 {
    if fold { spec_lower(c) } else { c }
}

/// Index where comparing `a` and `b` stops: the first byte that differs or
/// that ends `a`, or the end of the shorter slice.
pub open spec fn stop_index(a: Seq<u8>, b: Seq<u8>, fold: bool) -> nat
    decreases a.len(),
{
    if a.len() == 0 || b.len() == 0 {
        0
    } else if fc(a[0], fold) != fc(b[0], fold) || fc(a[0], fold) == 0 {
        0
    } else {
        1 + stop_index(a.drop_first(), b.drop_first(), fold)
    }
}

proof fn lemma_stop_index(a: Seq<u8>, b: Seq<u8>, fold: bool)
    ensures
        stop_index(a, b, fold) <= a.len(),
        stop_index(a, b, fold) <= b.len(),
        forall|j: int| 0 <= j < stop_index(a, b, fold) ==>
            fc(#[trigger] a[j], fold) == fc(b[j], fold) && fc(a[j], fold) != 0,
        stop_index(a, b, fold) < a.len() && stop_index(a, b, fold) < b.len() ==>
            (fc(a[stop_index(a, b, fold) as int], fold) != fc(b[stop_index(a, b, fold) as int], fold)
                || fc(a[stop_index(a, b, fold) as int], fold) == 0),
    decreases a.len(),
{
    if a.len() > 0 && b.len() > 0 && !(fc(a[0], fold) != fc(b[0], fold) || fc(a[0], fold) == 0) {
        lemma_stop_index(a.drop_first(), b.drop_first(), fold);
        assert forall|j: int| 0 <= j < stop_index(a, b, fold) implies
            fc(#[trigger] a[j], fold) == fc(b[j], fold) && fc(a[j], fold) != 0 by {
            if j > 0 {
                assert(a[j] == a.drop_first()[j - 1]);
                assert(b[j] == b.drop_first()[j - 1]);
            }
        }
    }
}

/// With both strings complete, comparison stops inside both slices.
proof fn lemma_stop_index_inside(a: Seq<u8>, b: Seq<u8>, fold: bool)
    requires
        has_nul(a),
        has_nul(b),
    ensures
        stop_index(a, b, fold) < a.len(),
        stop_index(a, b, fold) < b.len(),
{
    lemma_stop_index(a, b, fold);
    lemma_has_nul(a);
    lemma_has_nul(b);
    let k = stop_index(a, b, fold);
    if k == a.len() {
        let i = first_nul(a) as int;
        assert(fc(a[i], fold) != 0);
    }
    if k == b.len() {
        let i = first_nul(b) as int;
        assert(fc(a[i], fold) == fc(b[i], fold) && fc(a[i], fold) != 0);
    }
}

/// Result of comparing `a` and `b`: the difference of the folded bytes
/// where comparison stops.
pub open spec fn compare_all(a: Seq<u8>, b: Seq<u8>, fold: bool) -> int {
    let k = stop_index(a, b, fold) as int;
    fc(a[k], fold) - fc(b[k], fold)
}

/// Result of comparing at most `n` bytes: 0 when the first `n` bytes agree,
/// else as `compare_all`.
pub open spec fn compare_upto(a: Seq<u8>, b: Seq<u8>, n: usize, fold: bool) -> int {
    if n <= stop_index(a, b, fold) { 0 } else { compare_all(a, b, fold) }
}

/// Comparing `a` and `b` over at most `n` bytes only reads inside both slices.
pub open spec fn compare_reads_ok(a: Seq<u8>, b: Seq<u8>, n: usize, fold: bool) -> bool {
    let k = stop_index(a, b, fold);
    &&& k < n ==> k < a.len() && k < b.len()
    &&& n <= k ==> n <= a.len() && n <= b.len()
}

fn compare(a: &[u8], b: &[u8], n: Option<usize>, fold: bool) -> (r: i32)
    requires
        match n {
            None => stop_index(a@, b@, fold) < a@.len() && stop_index(a@, b@, fold) < b@.len(),
            Some(m) => compare_reads_ok(a@, b@, m, fold),
        },
    ensures
        n is None ==> r == compare_all(a@, b@, fold),
        n matches Some(m) ==> r == compare_upto(a@, b@, m, fold),
{
    proof { lemma_stop_index(a@, b@, fold); }
    let ghost k = stop_index(a@, b@, fold) as int;
    let mut i: usize = 0;
    loop
        invariant
            0 <= i <= k,
            k == stop_index(a@, b@, fold),
            n matches Some(m) ==> i <= m,
            match n {
                None => k < a@.len() && k < b@.len(),
                Some(m) => compare_reads_ok(a@, b@, m, fold),
            },
            forall|j: int| 0 <= j < k ==> fc(#[trigger] a@[j], fold) == fc(b@[j], fold) && fc(a@[j], fold) != 0,
            k < a@.len() && k < b@.len() ==> (fc(a@[k], fold) != fc(b@[k], fold) || fc(a@[k], fold) == 0),
        decreases k - i,
    {
        if let Some(m) = n {
            if i >= m {
                return 0;
            }
        }
        let x = if fold { lower(a[i]) } else { a[i] };
        let y = if fold { lower(b[i]) } else { b[i] };
        if x != y || x == 0 {
            return x as i32 - y as i32;
        }
        i = i + 1;
    }
}

/// `strcmp`: compares two C strings byte by byte.
pub fn strcmp(a: &[u8], b: &[u8]) -> (r: i32)
    requires
        has_nul(a@),
        has_nul(b@),
    ensures
        r == compare_all(a@, b@, false),
{
    proof { lemma_stop_index_inside(a@, b@, false); }
    compare(a, b, None, false)
}

/// `strncmp`: compares at most `n` bytes of two C strings.
pub fn strncmp(a: &[u8], b: &[u8], n: usize) -> (r: i32)
    requires
        compare_reads_ok(a@, b@, n, false),
    ensures
        r == compare_upto(a@, b@, n, false),
{
    compare(a, b, Some(n), false)
}

/// `strcasecmp`: compares two C strings ignoring ASCII case.
pub fn strcasecmp(a: &[u8], b: &[u8]) -> (r: i32)
    requires
        has_nul(a@),
        has_nul(b@),
    ensures
        r == compare_all(a@, b@, true),
{
    proof { lemma_stop_index_inside(a@, b@, true); }
    compare(a, b, None, true)
}

/// `strncasecmp`: compares at most `n` bytes ignoring ASCII case.
pub fn strncasecmp(a: &[u8], b: &[u8], n: usize) -> (r: i32)
    requires
        compare_reads_ok(a@, b@, n, true),
    ensures
        r == compare_upto(a@, b@, n, true),
{
    compare(a, b, Some(n), true)
}

/// Number of bytes `strncpy` copies from `src`: up to its NUL, at most `n`.
pub open spec fn copy_len(src: Seq<u8>, n: nat) -> nat {
    if first_nul(src) < n { first_nul(src) } else { n }
}

/// `strncpy`: copies the C string `src` into the first `n` bytes of `dest`,
/// padding with NULs; bytes of `dest` past `n` are left alone.
pub fn strncpy(dest: &mut [u8], src: &[u8], n: usize)
    requires
        n <= old(dest)@.len(),
        first_nul(src@) < n ==> first_nul(src@) < src@.len(),
        n <= first_nul(src@) ==> n <= src@.len(),
    ensures
        final(dest)@.len() == old(dest)@.len(),
        forall|i: int| 0 <= i < copy_len(src@, n as nat) ==> #[trigger] final(dest)@[i] == src@[i],
        forall|i: int| copy_len(src@, n as nat) <= i < n ==> #[trigger] final(dest)@[i] == 0,
        forall|i: int| n <= i < old(dest)@.len() ==> #[trigger] final(dest)@[i] == old(dest)@[i],
{
    proof { lemma_first_nul(src@); }
    let ghost m = copy_len(src@, n as nat);
    let mut i: usize = 0;
    while i < n && src[i] != 0
        invariant
            i <= m,
            m <= n,
            n <= dest@.len(),
            dest@.len() == old(dest)@.len(),
            m == copy_len(src@, n as nat),
            first_nul(src@) < n ==> first_nul(src@) < src@.len() && src@[first_nul(src@) as int] == 0,
            n <= first_nul(src@) ==> n <= src@.len(),
            forall|k: int| 0 <= k < first_nul(src@) ==> #[trigger] src@[k] != 0,
            forall|k: int| 0 <= k < i ==> #[trigger] dest@[k] == src@[k],
            forall|k: int| n <= k < old(dest)@.len() ==> #[trigger] dest@[k] == old(dest)@[k],
        decreases n - i,
    {
        let c = src[i];
        dest[i] = c;
        i = i + 1;
    }
    assert(i == m);
    while i < n
        invariant
            m <= i <= n,
            n <= dest@.len(),
            dest@.len() == old(dest)@.len(),
            forall|k: int| 0 <= k < m ==> #[trigger] dest@[k] == src@[k],
            forall|k: int| m <= k < i ==> #[trigger] dest@[k] == 0,
            forall|k: int| n <= k < old(dest)@.len() ==> #[trigger] dest@[k] == old(dest)@[k],
        decreases n - i,
    {
        dest[i] = 0;
        i = i + 1;
    }
}

/// Offset of the last byte equal to `c` among the first `i` bytes.
pub open spec fn last_index_upto(s: Seq<u8>, c: u8, i: int) -> Option<int>
    decreases i,
{
    if i <= 0 {
        None
    } else if s[i - 1] == c {
        Some(i - 1)
    } else {
        last_index_upto(s, c, i - 1)
    }
}

/// Offset of the last byte `c` in the C string `s`, its NUL included.
pub open spec fn last_match(s: Seq<u8>, c: u8) -> Option<usize> {
    match last_index_upto(s, c, first_nul(s) + 1int) {
        Some(k) => Some(k as usize),
        None => None,
    }
}

/// `strrchr`: offset of the last occurrence of the byte `c as u8` in the C
/// string `s`, its terminating NUL included.
pub fn strrchr(s: &[u8], c: i32) -> (r: Option<usize>)
    requires
        has_nul(s@),
    ensures
        r == last_match(s@, c as u8),
{
    proof { lemma_has_nul(s@); }
    let b = c as u8;
    let mut found: Option<usize> = None;
    let mut i: usize = 0;
    loop
        invariant
            i <= first_nul(s@),
            first_nul(s@) < s@.len(),
            s@[first_nul(s@) as int] == 0,
            forall|k: int| 0 <= k < first_nul(s@) ==> #[trigger] s@[k] != 0,
            b == c as u8,
            match last_index_upto(s@, b, i as int) {
                Some(k) => found == Some(k as usize) && 0 <= k < i,
                None => found is None,
            },
        decreases first_nul(s@) - i,
    {
        let sc = s[i];
        if sc == b {
            found = Some(i);
        }
        if sc == 0 {
            assert(i as int == first_nul(s@));
            assert(last_index_upto(s@, b, i + 1int) == (if sc == b { Some(i as int) } else { last_index_upto(s@, b, i as int) }));
            assert(found == match last_index_upto(s@, b, i + 1int) { Some(k) => Some(k as usize), None => None::<usize> });
            assert(found == last_match(s@, b));
            return found;
        }
        i = i + 1;
    }
}

/// Offset of the first place at or after `i` where `n` occurs in `h`.
pub open spec fn find_from(h: Seq<u8>, n: Seq<u8>, i: int) -> Option<int>
    decreases h.len() + 1 - i,
{
    if i < 0 || i + n.len() > h.len() {
        None
    } else if h.subrange(i, i + n.len()) == n {
        Some(i)
    } else {
        find_from(h, n, i + 1)
    }
}

/// Where the C string `needle` first occurs in the C string `hay`; an empty
/// needle occurs at once.
pub open spec fn spec_strstr(hay: Seq<u8>, needle: Seq<u8>) -> Option<int> {
    if cstr(needle).len() == 0 {
        Some(0)
    } else {
        find_from(cstr(hay), cstr(needle), 0)
    }
}

/// `find_from` gives the first place at or after `i` where `n` occurs.
proof fn lemma_find_from(h: Seq<u8>, n: Seq<u8>, i: int)
    requires
        i >= 0,
    ensures
        match find_from(h, n, i) {
            Some(k) => {
                &&& i <= k
                &&& k + n.len() <= h.len()
                &&& h.subrange(k, k + n.len()) == n
                &&& forall|j: int| i <= j < k ==> #[trigger] h.subrange(j, j + n.len()) != n
            },
            None => forall|j: int| i <= j && j + n.len() <= h.len() ==> #[trigger] h.subrange(j, j + n.len()) != n,
        },
    decreases h.len() + 1 - i,
{
    if i + n.len() <= h.len() && h.subrange(i, i + n.len()) != n {
        lemma_find_from(h, n, i + 1);
    }
}

/// The search finds the first occurrence: the result is the least offset
/// where the needle's text occurs in the haystack's text, and there is no
/// result only when the text occurs nowhere.  An empty needle is found at
/// offset 0, and so is a needle that starts the haystack.
pub proof fn law_strchr_finds_first_occurrence(hay: Seq<u8>, needle: Seq<u8>)
    ensures
        ({
            let h = hay.take(first_nul(hay) as int);
            let n = needle.take(first_nul(needle) as int);
            &&& match spec_strstr(hay, needle) {
                Some(k) => {
                    &&& 0 <= k
                    &&& k + n.len() <= h.len()
                    &&& h.subrange(k, k + n.len()) == n
                    &&& forall|j: int| 0 <= j < k ==> #[trigger] h.subrange(j, j + n.len()) != n
                },
                None => forall|j: int| 0 <= j && j + n.len() <= h.len() ==> #[trigger] h.subrange(j, j + n.len()) != n,
            }
            &&& n.len() <= h.len() && h.subrange(0, n.len() as int) == n ==> spec_strstr(hay, needle) == Some(0int)
        }),
{
    let h = hay.take(first_nul(hay) as int);
    let n = needle.take(first_nul(needle) as int);
    lemma_first_nul(hay);
    lemma_first_nul(needle);
    if n.len() == 0 {
        assert(h.subrange(0, 0) =~= n);
    } else {
        lemma_find_from(h, n, 0);
        if n.len() <= h.len() && h.subrange(0, n.len() as int) == n {
            match find_from(h, n, 0) {
                Some(k) => {
                    if k > 0 {
                        assert(h.subrange(0, 0int + n.len()) != n);
                    }
                },
                None => {
                    assert(h.subrange(0, 0int + n.len()) != n);
                },
            }
        }
    }
}

/// `strchr` of the game's C runtime, which searches for a whole string:
/// the offset of the first occurrence of `needle` in `hay`.
pub fn strchr(hay: &[u8], needle: &[u8]) -> (r: Option<usize>)
    requires
        has_nul(hay@),
        has_nul(needle@),
    ensures
        match spec_strstr(hay@, needle@) {
            Some(k) => r == Some(k as usize),
            None => r is None,
        },
{
    proof { lemma_has_nul(hay@); lemma_has_nul(needle@); }
    let nlen = strlen(needle);
    if nlen == 0 {
        return Some(0);
    }
    let hlen = strlen(hay);
    let ghost h = cstr(hay@);
    let ghost nd = cstr(needle@);
    if nlen > hlen {
        return None;
    }
    let mut i: usize = 0;
    while i <= hlen - nlen
        invariant
            nlen == nd.len(),
            hlen == h.len(),
            nlen <= hlen,
            h == hay@.take(hlen as int),
            nd == needle@.take(nlen as int),
            h == cstr(hay@),
            nd == cstr(needle@),
            hlen < hay@.len(),
            nlen < needle@.len(),
            nlen > 0,
            find_from(h, nd, 0) == find_from(h, nd, i as int),
            i <= hlen - nlen + 1,
        decreases hlen - nlen + 1 - i,
    {
        let mut j: usize = 0;
        let mut same = true;
        while j < nlen
            invariant
                j <= nlen,
                i + nlen <= hlen,
                hlen < hay@.len(),
                nlen < needle@.len(),
                same <==> forall|t: int| 0 <= t < j ==> hay@[i + t] == needle@[t],
            decreases nlen - j,
        {
            if hay[i + j] != needle[j] {
                same = false;
            }
            j = j + 1;
        }
        proof {
            if same {
                assert(h.subrange(i as int, i + nlen) =~= nd);
            } else {
                let t = choose|t: int| 0 <= t < nlen && hay@[i + t] != needle@[t];
                assert(h.subrange(i as int, i + nlen)[t] != nd[t]);
            }
        }
        if same {
            assert(find_from(h, nd, i as int) == Some(i as int));
            assert(find_from(h, nd, 0) == Some(i as int));
            assert(cstr(needle@).len() != 0);
            assert(find_from(cstr(hay@), cstr(needle@), 0) == Some(i as int));
            assert(spec_strstr(hay@, needle@) == Some(i as int));
            return Some(i);
        }
        i = i + 1;
    }
    None
}

/// `toupper`: ASCII lower-case letters to upper case; any other value comes
/// back as its low byte.
pub fn toupper(c: i32) -> (r: i32)
    ensures
        97 <= (c as u8) <= 122 ==> r == (c as u8) - 32,
        !(97 <= (c as u8) <= 122) ==> r == (c as u8),
{
    let c = c as u8;
    if c >= 97 && c <= 122 {
        (c - 32) as i32
    } else {
        c as i32
    }
}

/// The byte is one of the six C white-space characters.
pub open spec fn is_space_byte(b: u8) -> bool {
    b == 32 || b == 9 || b == 10 || b == 13 || b == 11 || b == 12
}

/// `isspace`: 1 when the low byte of `c` is C white space, else 0.
pub fn isspace(c: i32) -> (r: i32)
    ensures
        r == (if is_space_byte(c as u8) { 1i32 } else { 0i32 }),
{
    let b = c as u8;
    if b == 32 || b == 9 || b == 10 || b == 13 || b == 11 || b == 12 {
        1
    } else {
        0
    }
}

/// `abs`: the absolute value, with the most negative value left as is.
pub fn abs(x: i32) -> (r: i32)
    ensures
        x == i32::MIN ==> r == i32::MIN,
        x != i32::MIN ==> r == (if x < 0 { -x } else { x as int }),
{
    if x == i32::MIN {
        x
    } else if x < 0 {
        -x
    } else {
        x
    }
}

/// Comparison stops at the same place whichever string comes first.
proof fn lemma_stop_index_symmetric(a: Seq<u8>, b: Seq<u8>, fold: bool)
    ensures
        stop_index(a, b, fold) == stop_index(b, a, fold),
    decreases a.len(),
{
    if a.len() > 0 && b.len() > 0 && !(fc(a[0], fold) != fc(b[0], fold) || fc(a[0], fold) == 0) {
        lemma_stop_index_symmetric(a.drop_first(), b.drop_first(), fold);
    }
}

/// A C string compares equal to itself.
pub proof fn law_compare_reflexive(a: Seq<u8>, fold: bool)
    requires
        has_nul(a),
    ensures
        compare_all(a, a, fold) == 0,
{
    lemma_stop_index_inside(a, a, fold);
}

/// Swapping the strings negates the comparison.
pub proof fn law_compare_antisymmetric(a: Seq<u8>, b: Seq<u8>, fold: bool)
    requires
        has_nul(a),
        has_nul(b),
    ensures
        compare_all(a, b, fold) == -compare_all(b, a, fold),
{
    lemma_stop_index_symmetric(a, b, fold);
}

/// Two C strings compare equal exactly when their texts agree byte for
/// byte (after folding to lower case when `fold` holds).
pub proof fn law_compare_zero_iff_equal(a: Seq<u8>, b: Seq<u8>, fold: bool)
    requires
        has_nul(a),
        has_nul(b),
    ensures
        compare_all(a, b, fold) == 0 <==>
            cstr(a).map_values(|c: u8| fc(c, fold)) == cstr(b).map_values(|c: u8| fc(c, fold)),
{
    lemma_stop_index(a, b, fold);
    lemma_stop_index_inside(a, b, fold);
    lemma_has_nul(a);
    lemma_has_nul(b);
    let k = stop_index(a, b, fold) as int;
    let fa = first_nul(a) as int;
    let fb = first_nul(b) as int;
    let ma = cstr(a).map_values(|c: u8| fc(c, fold));
    let mb = cstr(b).map_values(|c: u8| fc(c, fold));
    assert(forall|c: u8| fc(c, fold) == 0 <==> c == 0);
    if compare_all(a, b, fold) == 0 {
        assert(fc(a[k], fold) == fc(b[k], fold));
        assert(a[k] == 0);
        assert(b[k] == 0);
        if fa < k {
            assert(fc(a[fa], fold) != 0);
        }
        if fb < k {
            assert(fc(a[fb], fold) == fc(b[fb], fold) && fc(a[fb], fold) != 0);
        }
        assert(fa == k);
        assert(fb == k);
        assert(ma =~= mb);
    }
    if ma == mb {
        assert(ma.len() == fa && mb.len() == fb);
        if k < fa {
            assert(ma[k] == mb[k]);
            assert(a[k] != 0);
        }
        assert(k >= fa) by {
            if k < fa {
                assert(fc(a[k], fold) == fc(b[k], fold));
            }
        }
        if k > fa {
            assert(fc(a[fa], fold) != 0);
        }
        assert(k == fa);
        assert(a[k] == 0 && b[k] == 0);
    }
}

/// Bytes written at a position read back unchanged from that position.
pub proof fn law_read_back_written(data: Seq<u8>, pos: int, src: Seq<u8>)
    requires
        pos >= 0,
    ensures
        spliced(data, pos, src).subrange(pos, pos + src.len()) == src,
        forall|i: int| 0 <= i < data.len() && !(pos <= i < pos + src.len()) ==> #[trigger] spliced(data, pos, src)[i] == data[i],
{
    assert(spliced(data, pos, src).subrange(pos, pos + src.len()) =~= src);
}

/// Length of the leading run of bytes with property `p` starting at `i`.
pub open spec fn run_from(s: Seq<u8>, i: int, digits: bool) -> nat
    decreases s.len() - i,
{
    if i < 0 || i >= s.len() {
        0
    } else if (if digits { 48 <= s[i] <= 57 } else { is_space_byte(s[i]) }) {
        1 + run_from(s, i + 1, digits)
    } else {
        0
    }
}

/// Value of the decimal digits `d`, accumulated with 32-bit wrap-around.
pub open spec fn digits_value(d: Seq<u8>) -> i32
    decreases d.len(),
{
    if d.len() == 0 {
        0
    } else {
        vstd::wrapping::i32_specs::wrapping_add(
            vstd::wrapping::i32_specs::wrapping_mul(digits_value(d.drop_last()), 10),
            (d.last() - 48) as i32,
        )
    }
}

/// Where the digits of `atoi` start: after white space and one sign.
pub open spec fn atoi_start(s: Seq<u8>) -> int {
    let i = run_from(s, 0, false) as int;
    if s[i] == 45 || s[i] == 43 { i + 1 } else { i }
}

/// The number `atoi` reads before applying the sign.
pub open spec fn atoi_magnitude(s: Seq<u8>) -> i32 {
    let st = atoi_start(s);
    digits_value(s.subrange(st, st + run_from(s, st, true)))
}

/// A minus sign precedes the digits.
pub open spec fn atoi_negative(s: Seq<u8>) -> bool {
    s[run_from(s, 0, false) as int] == 45
}

proof fn lemma_run_from(s: Seq<u8>, i: int, digits: bool)
    requires
        0 <= i <= s.len(),
    ensures
        i + run_from(s, i, digits) <= s.len(),
        forall|k: int| i <= k < i + run_from(s, i, digits) ==>
            (if digits { 48 <= #[trigger] s[k] <= 57 } else { is_space_byte(s[k]) }),
        i + run_from(s, i, digits) < s.len() ==>
            !(if digits { 48 <= s[i + run_from(s, i, digits)] <= 57 } else { is_space_byte(s[i + run_from(s, i, digits)]) }),
    decreases s.len() - i,
{
    if i < s.len() && (if digits { 48 <= s[i] <= 57 } else { is_space_byte(s[i]) }) {
        lemma_run_from(s, i + 1, digits);
    }
}

/// With a NUL in the slice, every run ends inside it.
proof fn lemma_run_inside(s: Seq<u8>, i: int, digits: bool)
    requires
        has_nul(s),
        0 <= i <= first_nul(s),
    ensures
        i + run_from(s, i, digits) <= first_nul(s),
{
    lemma_has_nul(s);
    lemma_run_from(s, i, digits);
    if i + run_from(s, i, digits) > first_nul(s) {
        let z = first_nul(s) as int;
        assert(s[z] == 0);
        assert(if digits { 48 <= s[z] <= 57 } else { is_space_byte(s[z]) });
    }
}

/// The two halves of `atoi`: whether a minus sign precedes the digits, and
/// the number the digits make (wrapping around on overflow).
pub fn atoi_parts(s: &[u8]) -> (r: (bool, i32))
    requires
        has_nul(s@),
    ensures
        r == (atoi_negative(s@), atoi_magnitude(s@)),
{
    proof {
        lemma_has_nul(s@);
        lemma_run_inside(s@, 0, false);
        lemma_run_from(s@, 0, false);
    }
    let mut i: usize = 0;
    while isspace(s[i] as i32) != 0
        invariant
            i <= run_from(s@, 0, false),
            run_from(s@, 0, false) <= first_nul(s@),
            first_nul(s@) < s@.len(),
            forall|k: int| 0 <= k < run_from(s@, 0, false) ==> is_space_byte(#[trigger] s@[k]),
            run_from(s@, 0, false) < s@.len() ==> !is_space_byte(s@[run_from(s@, 0, false) as int]),
        decreases run_from(s@, 0, false) - i,
    {
        i = i + 1;
    }
    let mut negative = false;
    if s[i] == 45 {
        negative = true;
        i = i + 1;
    } else if s[i] == 43 {
        i = i + 1;
    }
    let ghost st = i as int;
    proof {
        assert(st == atoi_start(s@));
        assert(st <= first_nul(s@)) by {
            if st > run_from(s@, 0, false) {
                assert(s@[run_from(s@, 0, false) as int] != 0);
            }
        }
        lemma_run_inside(s@, st, true);
        lemma_run_from(s@, st, true);
    }
    let ghost end = st + run_from(s@, st, true);
    let mut value: i32 = 0;
    assert(s@.subrange(st, st) =~= Seq::<u8>::empty());
    while s[i] >= 48 && s[i] <= 57
        invariant
            st <= i <= end,
            end <= first_nul(s@),
            first_nul(s@) < s@.len(),
            end == st + run_from(s@, st, true),
            forall|k: int| st <= k < end ==> 48 <= #[trigger] s@[k] <= 57,
            end < s@.len() ==> !(48 <= s@[end] <= 57),
            value == digits_value(s@.subrange(st, i as int)),
        decreases end - i,
    {
        let d = s[i];
        proof {
            assert(s@.subrange(st, i + 1).drop_last() =~= s@.subrange(st, i as int));
        }
        value = value.wrapping_mul(10).wrapping_add((d - 48) as i32);
        i = i + 1;
    }
    (negative, value)
}

/// `atoi`: skips C white space, reads an optional sign and the decimal
/// digits that follow (wrapping around on overflow), and applies the sign.
pub fn atoi(s: &[u8]) -> (r: i32)
    requires
        has_nul(s@),
        atoi_negative(s@) ==> atoi_magnitude(s@) != i32::MIN,
    ensures
        r == (if atoi_negative(s@) { -atoi_magnitude(s@) } else { atoi_magnitude(s@) as int }),
{
    let (negative, magnitude) = atoi_parts(s);
    if negative { -magnitude } else { magnitude }
}

/// An open file: a copy of its contents, the read/write position, and
/// whether closing it writes the contents back.
pub struct FILE {
    name: String,
    data: Vec<u8>,
    pos: usize,
    write: bool,
}

/// The file's name, contents, position and write-back flag, as values.
pub struct FileState {
    pub name: Seq<char>,
    pub data: Seq<u8>,
    pub pos: nat,
    pub write: bool,
}

/// `mode` asks for writing or appending.
pub open spec fn writes(mode: Seq<char>) -> bool {
    mode.contains('w') || mode.contains('a')
}

/// Contents after writing `src` at `pos`: zero-filled up to `pos` when the
/// file was shorter, `src` in place from `pos` on.
pub open spec fn spliced(data: Seq<u8>, pos: int, src: Seq<u8>) -> Seq<u8> {
    let len = if pos + src.len() > data.len() { pos + src.len() } else { data.len() as int };
    Seq::new(len as nat, |i: int|
        if pos <= i < pos + src.len() { src[i - pos] } else if i < data.len() { data[i] } else { 0u8 })
}

/// The character occurs in the string.
fn contains_char(s: &str, c: char) -> (r: bool)
    ensures
        r == s@.contains(c),
{
    let n = s.unicode_len();
    let mut i: usize = 0;
    while i < n
        invariant
            n == s@.len(),
            i <= n,
            forall|k: int| 0 <= k < i ==> s@[k] != c,
        decreases n - i,
    {
        if s.get_char(i) == c {
            assert(s@[i as int] == c);
            return true;
        }
        i = i + 1;
    }
    false
}

impl FILE {
    pub closed spec fn view(&self) -> FileState {
        FileState { name: self.name@, data: self.data@, pos: self.pos as nat, write: self.write }
    }

    /// The file's name.
    pub fn name(&self) -> (r: &str)
        ensures
            r@ == self@.name,
    {
        self.name.as_str()
    }

    /// Length of the contents.
    pub fn size(&self) -> (n: usize)
        ensures
            n == self@.data.len(),
    {
        self.data.len()
    }

    /// The read/write position.
    pub fn pos(&self) -> (n: usize)
        ensures
            n == self@.pos,
    {
        self.pos
    }

    /// `fopen`: opens the file `name` of `fs`, which must exist; mode `w` or
    /// `a` writes the contents back on close.
    pub fn open(fs: &RamFs, name: &str, mode: &str) -> (r: Option<FILE>)
        ensures
            match lookup(fs@, name@) {
                None => r is None,
                Some(d) => r matches Some(f) && f@ == (FileState { name: name@, data: d, pos: 0, write: writes(mode@) }),
            },
    {
        match fs.read(name) {
            None => None,
            Some(data) => {
                let write = contains_char(mode, 'w') || contains_char(mode, 'a');
                Some(FILE { name: String::from_str(name), data, pos: 0, write })
            },
        }
    }

    /// `fread`: copies up to `count` items of `size` bytes from the position
    /// into `dest`, advances the position, and says how many whole items
    /// were read.
    pub fn fread(&mut self, dest: &mut [u8], size: usize, count: usize) -> (r: usize)
        requires
            size > 0,
            size * count <= usize::MAX,
            old(self)@.pos <= old(self)@.data.len(),
            old(dest)@.len() >= spec_min(size * count, old(self)@.data.len() - old(self)@.pos),
        ensures
            ({
                let amount = spec_min(size * count, old(self)@.data.len() - old(self)@.pos);
                &&& r == amount / size as int
                &&& final(self)@ == (FileState { pos: old(self)@.pos + amount as nat, ..old(self)@ })
                &&& final(dest)@.len() == old(dest)@.len()
                &&& forall|i: int| 0 <= i < amount ==> #[trigger] final(dest)@[i] == old(self)@.data[old(self)@.pos + i]
                &&& forall|i: int| amount <= i < old(dest)@.len() ==> #[trigger] final(dest)@[i] == old(dest)@[i]
            }),
    {
        let bytes = size * count;
        let dlen = self.data.len();
        let remaining = dlen - self.pos;
        let amount = if bytes < remaining { bytes } else { remaining };
        let mut i: usize = 0;
        while i < amount
            invariant
                i <= amount,
                amount <= dest@.len(),
                dest@.len() == old(dest)@.len(),
                self.pos + amount <= self.data@.len(),
                dlen == self.data@.len(),
                self@ == old(self)@,
                forall|k: int| 0 <= k < i ==> #[trigger] dest@[k] == self.data@[self.pos + k],
                forall|k: int| amount <= k < old(dest)@.len() ==> #[trigger] dest@[k] == old(dest)@[k],
            decreases amount - i,
        {
            let b = self.data[self.pos + i];
            dest[i] = b;
            i = i + 1;
        }
        self.pos = self.pos + amount;
        amount / size
    }

    /// `fwrite`: writes `count` items of `size` bytes from `src` at the
    /// position, growing the file as needed, advances the position, and
    /// says `count`.
    pub fn fwrite(&mut self, src: &[u8], size: usize, count: usize) -> (r: usize)
        requires
            size * count <= src@.len(),
            old(self)@.pos + size * count <= usize::MAX,
        ensures
            r == count,
            final(self)@ == (FileState {
                data: spliced(old(self)@.data, old(self)@.pos as int, src@.take(size * count)),
                pos: (old(self)@.pos + size * count) as nat,
                ..old(self)@
            }),
    {
        let bytes = size * count;
        let end = self.pos + bytes;
        let ghost d0 = self.data@;
        if end > self.data.len() {
            while self.data.len() < end
                invariant
                    d0.len() <= self.data@.len() <= end,
                    forall|k: int| 0 <= k < d0.len() ==> #[trigger] self.data@[k] == d0[k],
                    forall|k: int| d0.len() <= k < self.data@.len() ==> #[trigger] self.data@[k] == 0,
                    self.name == old(self).name,
                    self.pos == old(self).pos,
                    self.write == old(self).write,
                    d0 == old(self).data@,
                decreases end - self.data@.len(),
            {
                self.data.push(0);
            }
        }
        let ghost d1 = self.data@;
        let mut i: usize = 0;
        while i < bytes
            invariant
                i <= bytes,
                bytes == size * count,
                bytes <= src@.len(),
                end == self.pos + bytes,
                end <= self.data@.len(),
                self.data@.len() == d1.len(),
                self.name == old(self).name,
                self.pos == old(self).pos,
                self.write == old(self).write,
                forall|k: int| 0 <= k < i ==> #[trigger] self.data@[self.pos + k] == src@[k],
                forall|k: int| 0 <= k < d1.len() && !(self.pos <= k < self.pos + i) ==> #[trigger] self.data@[k] == d1[k],
            decreases bytes - i,
        {
            let b = src[i];
            let at = self.pos + i;
            self.data.set(at, b);
            proof {
                assert forall|k: int| 0 <= k < i + 1 implies #[trigger] self.data@[self.pos + k] == src@[k] by {
                    if k < i {
                        assert(self.data@[self.pos + k] == self.data@[self.pos + k]);
                    }
                }
            }
            i = i + 1;
        }
        proof {
            let want = spliced(d0, self.pos as int, src@.take(bytes as int));
            assert forall|k: int| 0 <= k < want.len() implies #[trigger] self.data@[k] == want[k] by {
                if self.pos <= k < self.pos + bytes {
                    assert(self.data@[self.pos + (k - self.pos)] == src@[k - self.pos]);
                }
            }
            assert(self.data@ =~= want);
        }
        self.pos = end;
        count
    }

    /// `ftell`: the position.
    pub fn ftell(&self) -> (r: i64)
        ensures
            r == self@.pos as i64,
    {
        self.pos as i64
    }

    /// `fseek`: moves the position to `offset` from the start (`whence` 0),
    /// the current position (1) or the end (2), clamped at 0; any other
    /// `whence` is refused with -1.
    pub fn fseek(&mut self, offset: i64, whence: i32) -> (r: i32)
        requires
            whence == 1 ==> i64::MIN <= (old(self)@.pos as i64) + offset <= i64::MAX,
            whence == 2 ==> i64::MIN <= (old(self)@.data.len() as i64) + offset <= i64::MAX,
        ensures
            whence == 0 ==> r == 0 && final(self)@ == (FileState { pos: clamp0(offset as int) as usize as nat, ..old(self)@ }),
            whence == 1 ==> r == 0 && final(self)@ == (FileState {
                pos: clamp0((old(self)@.pos as i64) + offset) as usize as nat,
                ..old(self)@
            }),
            whence == 2 ==> r == 0 && final(self)@ == (FileState {
                pos: clamp0((old(self)@.data.len() as i64) + offset) as usize as nat,
                ..old(self)@
            }),
            !(0 <= whence <= 2) ==> r == -1 && final(self)@ == old(self)@,
    {
        if whence == 0 {
            self.pos = (if offset < 0 { 0 } else { offset }) as usize;
        } else if whence == 1 {
            let t = self.pos as i64 + offset;
            self.pos = (if t < 0 { 0 } else { t }) as usize;
        } else if whence == 2 {
            let t = self.data.len() as i64 + offset;
            self.pos = (if t < 0 { 0 } else { t }) as usize;
        } else {
            return -1;
        }
        0
    }

    /// `fclose`: a file opened for writing stores its contents back under
    /// its name.
    pub fn fclose(self, fs: &mut RamFs) -> (r: i32)
        ensures
            r == 0,
            self@.write ==> final(fs)@ == written(old(fs)@, self@.name, self@.data),
            !self@.write ==> final(fs)@ == old(fs)@,
    {
        if self.write {
            fs.write(self.name.as_str(), self.data.as_slice());
        }
        0
    }
}

/// `x`, or 0 when `x` is negative.
pub open spec fn clamp0(x: int) -> int {
    if x < 0 { 0 } else { x }
}

/// The smaller of two numbers.
pub open spec fn spec_min(a: int, b: int) -> int {
    if a < b { a } else { b }
}

} // verus!
