//! Byte-sequence scanning: first occurrence of a delimiter, prefix tests,
//! ASCII case folding and trimming.
//!
//! The incremental decoders all work by growing a buffer chunk by chunk and
//! searching it for a delimiter. The lemmas here relate a search over a
//! prefix of the stream to a search over the whole stream, which is what
//! makes the decoders' results independent of how the bytes were chunked.

use vstd::prelude::*;
use vstd::string::*;

verus! {

/// The needle `n` occurs in `h` starting at index `i`.
pub open spec fn match_at(h: Seq<u8>, n: Seq<u8>, i: int) -> bool {
    &&& 0 <= i
    &&& i + n.len() <= h.len()
    &&& forall|j: int| 0 <= j < n.len() ==> h[i + j] == n[j]
}

/// First index `>= i` at which `n` occurs in `h`, if any.
pub open spec fn find_from(h: Seq<u8>, n: Seq<u8>, i: int) -> Option<int>
    decreases h.len() + 1 - i,
{
    if i < 0 || i + n.len() > h.len() {
        None
    } else if match_at(h, n, i) {
        Some(i)
    } else {
        find_from(h, n, i + 1)
    }
}

/// First index at which `n` occurs in `h`, if any.
pub open spec fn find_sub(h: Seq<u8>, n: Seq<u8>) -> Option<int> {
    find_from(h, n, 0)
}

pub proof fn lemma_find_from_props(h: Seq<u8>, n: Seq<u8>, i: int)
    requires
        0 <= i,
    ensures
        match find_from(h, n, i) {
            Some(p) => i <= p && match_at(h, n, p) && (forall|j: int|
                i <= j < p ==> !match_at(h, n, j)),
            None => forall|j: int| j >= i ==> !match_at(h, n, j),
        },
    decreases h.len() + 1 - i,
{
    if i + n.len() > h.len() {
    } else if match_at(h, n, i) {
    } else {
        lemma_find_from_props(h, n, i + 1);
    }
}

pub proof fn lemma_find_from_exact(h: Seq<u8>, n: Seq<u8>, i: int, p: int)
    requires
        0 <= i <= p,
        match_at(h, n, p),
        forall|j: int| i <= j < p ==> !match_at(h, n, j),
    ensures
        find_from(h, n, i) == Some(p),
    decreases p - i,
{
    if i < p {
        lemma_find_from_exact(h, n, i + 1, p);
    }
}

/// A match inside the prefix `h.take(k)` is a match in `h`, and conversely.
pub proof fn lemma_match_at_take(h: Seq<u8>, k: int, n: Seq<u8>, j: int)
    requires
        0 <= k <= h.len(),
        0 <= j,
        j + n.len() <= k,
    ensures
        match_at(h.take(k), n, j) <==> match_at(h, n, j),
{
    if match_at(h.take(k), n, j) {
        assert forall|jj: int| 0 <= jj < n.len() implies h[j + jj] == n[jj] by {
            assert(h.take(k)[j + jj] == n[jj]);
        }
    }
    if match_at(h, n, j) {
        assert forall|jj: int| 0 <= jj < n.len() implies h.take(k)[j + jj] == n[jj] by {
            assert(h[j + jj] == n[jj]);
        }
    }
}

/// A delimiter found in a prefix of the stream is the first one in the
/// whole stream as well.
pub proof fn lemma_find_take_some(h: Seq<u8>, k: int, n: Seq<u8>)
    requires
        0 <= k <= h.len(),
        find_sub(h.take(k), n) is Some,
    ensures
        find_sub(h, n) == find_sub(h.take(k), n),
{
    let p = find_sub(h.take(k), n)->Some_0;
    lemma_find_from_props(h.take(k), n, 0);
    lemma_match_at_take(h, k, n, p);
    assert forall|j: int| 0 <= j < p implies !match_at(h, n, j) by {
        lemma_match_at_take(h, k, n, j);
    }
    lemma_find_from_exact(h, n, 0, p);
}

/// When a prefix of the stream holds no match, any match in the whole
/// stream reaches past the prefix.
pub proof fn lemma_find_take_none(h: Seq<u8>, k: int, n: Seq<u8>)
    requires
        0 <= k <= h.len(),
        find_sub(h.take(k), n) is None,
    ensures
        find_sub(h, n) is None || find_sub(h, n)->Some_0 + n.len() > k,
{
    lemma_find_from_props(h.take(k), n, 0);
    if find_sub(h, n) is Some {
        let p = find_sub(h, n)->Some_0;
        lemma_find_from_props(h, n, 0);
        if p + n.len() <= k {
            lemma_match_at_take(h, k, n, p);
        }
    }
}

/// Exact test of one candidate position.
pub fn sub_match_at(hay: &[u8], needle: &[u8], i: usize) -> (r: bool)
    requires
        i + needle@.len() <= hay@.len(),
    ensures
        r == match_at(hay@, needle@, i as int),
{
    let n: usize = needle.len();
    let hlen: usize = hay.len();
    assert(hay@.len() == hlen <= usize::MAX);
    let mut j: usize = 0;
    while j < n
        invariant
            0 <= j <= n,
            n == needle@.len(),
            i + n <= hay@.len() <= usize::MAX,
            forall|jj: int| 0 <= jj < j ==> hay@[i + jj] == needle@[jj],
        decreases n - j,
    {
        if hay[i + j] != needle[j] {
            assert(!match_at(hay@, needle@, i as int));
            return false;
        }
        j += 1;
    }
    true
}

/// First occurrence of `needle` in `hay`.
pub fn find_window(hay: &[u8], needle: &[u8]) -> (r: Option<usize>)
    ensures
        match r {
            Some(p) => find_sub(hay@, needle@) == Some(p as int),
            None => find_sub(hay@, needle@) is None,
        },
{
    if needle.len() == 0 {
        assert(match_at(hay@, needle@, 0));
        return Some(0);
    }
    if needle.len() > hay.len() {
        proof {
            lemma_find_from_props(hay@, needle@, 0);
            if find_sub(hay@, needle@) is Some {
                let p = find_sub(hay@, needle@)->Some_0;
                assert(match_at(hay@, needle@, p));
            }
        }
        return None;
    }
    let end: usize = hay.len() - needle.len();
    let mut i: usize = 0;
    loop
        invariant
            0 <= i <= end + 1,
            end + needle@.len() == hay@.len(),
            hay@.len() <= usize::MAX,
            needle@.len() > 0,
            forall|j: int| 0 <= j < i ==> !match_at(hay@, needle@, j),
        decreases end + 1 - i,
    {
        if i > end {
            proof {
                assert forall|j: int| 0 <= j implies !match_at(hay@, needle@, j) by {
                    if j + needle@.len() <= hay@.len() {
                        assert(j <= end);
                    }
                }
                lemma_find_from_props(hay@, needle@, 0);
                if find_sub(hay@, needle@) is Some {
                    let p = find_sub(hay@, needle@)->Some_0;
                    assert(match_at(hay@, needle@, p));
                }
            }
            return None;
        }
        if sub_match_at(hay, needle, i) {
            proof {
                lemma_find_from_exact(hay@, needle@, 0, i as int);
            }
            return Some(i);
        }
        i += 1;
    }
}

/// `p` is a prefix of `h`.
pub open spec fn is_prefix_of(p: Seq<u8>, h: Seq<u8>) -> bool {
    p.len() <= h.len() && h.take(p.len() as int) == p
}

pub fn slice_starts_with(hay: &[u8], pre: &[u8]) -> (r: bool)
    ensures
        r == is_prefix_of(pre@, hay@),
{
    if pre.len() > hay.len() {
        assert(!is_prefix_of(pre@, hay@));
        return false;
    }
    let m = sub_match_at(hay, pre, 0);
    proof {
        if match_at(hay@, pre@, 0) {
            assert(hay@.take(pre@.len() as int) =~= pre@);
        } else {
            if is_prefix_of(pre@, hay@) {
                assert forall|j: int| 0 <= j < pre@.len() implies hay@[j] == pre@[j] by {
                    assert(hay@.take(pre@.len() as int)[j] == pre@[j]);
                }
            }
        }
    }
    m
}

/// Byte-for-byte equality of two slices.
pub fn slice_eq(a: &[u8], b: &[u8]) -> (r: bool)
    ensures
        r == (a@ == b@),
{
    if a.len() != b.len() {
        return false;
    }
    let m = sub_match_at(a, b, 0);
    proof {
        if match_at(a@, b@, 0) {
            assert(a@ =~= b@);
        }
    }
    m
}

/// Lowercases one ASCII letter; other bytes are unchanged.
pub open spec fn lower_byte(b: u8) -> u8 {
    if 65 <= b <= 90 {
        (b + 32) as u8
    } else {
        b
    }
}

/// ASCII-lowercases every byte of a sequence.
pub open spec fn lower_bytes(s: Seq<u8>) -> Seq<u8> {
    s.map_values(|b: u8| lower_byte(b))
}

/// ASCII case-insensitive equality of two byte slices.
pub fn eq_ignore_ascii(a: &[u8], b: &[u8]) -> (r: bool)
    ensures
        r == (lower_bytes(a@) == lower_bytes(b@)),
{
    if a.len() != b.len() {
        assert(lower_bytes(a@).len() != lower_bytes(b@).len());
        return false;
    }
    let n: usize = a.len();
    let mut i: usize = 0;
    while i < n
        invariant
            0 <= i <= n,
            n == a@.len() == b@.len(),
            forall|j: int| 0 <= j < i ==> lower_byte(a@[j]) == lower_byte(b@[j]),
        decreases n - i,
    {
        let ab = a[i];
        let bb = b[i];
        let la = if 65 <= ab && ab <= 90 { ab + 32 } else { ab };
        let lb = if 65 <= bb && bb <= 90 { bb + 32 } else { bb };
        if la != lb {
            assert(lower_bytes(a@)[i as int] != lower_bytes(b@)[i as int]);
            return false;
        }
        i += 1;
    }
    proof {
        assert(lower_bytes(a@) =~= lower_bytes(b@));
    }
    true
}

/// ASCII whitespace as trimming sees it: space, horizontal tab, and
/// the two line-break bytes.
pub open spec fn is_ws(b: u8) -> bool {
    b == 32 || b == 9 || b == 13 || b == 10
}

/// `s` with leading spaces, tabs and line breaks removed.
pub open spec fn trim_start_bytes(s: Seq<u8>) -> Seq<u8>
    decreases s.len(),
{
    if s.len() > 0 && is_ws(s[0]) {
        trim_start_bytes(s.skip(1))
    } else {
        s
    }
}

/// `s` with trailing spaces, tabs and line breaks removed.
pub open spec fn trim_end_bytes(s: Seq<u8>) -> Seq<u8>
    decreases s.len(),
{
    if s.len() > 0 && is_ws(s[s.len() - 1]) {
        trim_end_bytes(s.drop_last())
    } else {
        s
    }
}

/// `s` with surrounding whitespace removed.
pub open spec fn trim_bytes(s: Seq<u8>) -> Seq<u8> {
    trim_end_bytes(trim_start_bytes(s))
}

proof fn lemma_trim_start_skip(s: Seq<u8>, i: int)
    requires
        0 <= i <= s.len(),
        forall|j: int| 0 <= j < i ==> is_ws(s[j]),
    ensures
        trim_start_bytes(s) == trim_start_bytes(s.skip(i)),
    decreases i,
{
    if i > 0 {
        assert(trim_start_bytes(s) == trim_start_bytes(s.skip(1)));
        lemma_trim_start_skip(s.skip(1), i - 1);
        assert(s.skip(1).skip(i - 1) =~= s.skip(i));
    } else {
        assert(s.skip(0) =~= s);
    }
}

proof fn lemma_trim_end_take(s: Seq<u8>, i: int)
    requires
        0 <= i <= s.len(),
        forall|j: int| i <= j < s.len() ==> is_ws(s[j]),
    ensures
        trim_end_bytes(s) == trim_end_bytes(s.take(i)),
    decreases s.len() - i,
{
    if i < s.len() {
        assert(is_ws(s[s.len() - 1]));
        assert(trim_end_bytes(s) == trim_end_bytes(s.drop_last()));
        assert(s.drop_last() =~= s.take(s.len() - 1));
        lemma_trim_end_take(s.take(s.len() - 1), i);
        assert(s.take(s.len() - 1).take(i) =~= s.take(i));
    } else {
        assert(s.take(i) =~= s);
    }
}

/// Copy of `s` with surrounding ASCII whitespace removed.
pub fn trim_slice(s: &[u8]) -> (r: Vec<u8>)
    ensures
        r@ == trim_bytes(s@),
{
    let n: usize = s.len();
    let mut a: usize = 0;
    while a < n && (s[a] == 32 || s[a] == 9 || s[a] == 13 || s[a] == 10)
        invariant
            0 <= a <= n,
            n == s@.len(),
            forall|j: int| 0 <= j < a ==> is_ws(s@[j]),
        decreases n - a,
    {
        a += 1;
    }
    proof {
        lemma_trim_start_skip(s@, a as int);
    }
    let mut b: usize = n;
    while b > a && (s[b - 1] == 32 || s[b - 1] == 9 || s[b - 1] == 13 || s[b - 1] == 10)
        invariant
            a <= b <= n,
            n == s@.len(),
            forall|j: int| 0 <= j < a ==> is_ws(s@[j]),
            forall|j: int| b <= j < n ==> is_ws(s@[j]),
        decreases b,
    {
        b -= 1;
    }
    let r = vstd::slice::slice_to_vec(&s[a..b]);
    proof {
        let t = trim_start_bytes(s@);
        assert(t == trim_start_bytes(s@.skip(a as int)));
        if b == a {
            // everything from a on is whitespace, so the skip is all whitespace
            assert forall|j: int| 0 <= j < s@.skip(a as int).len() implies is_ws(
                s@.skip(a as int)[j],
            ) by {
                assert(s@.skip(a as int)[j] == s@[a + j]);
            }
            lemma_trim_all_ws(s@.skip(a as int));
            assert(t =~= Seq::<u8>::empty());
            assert(trim_end_bytes(t) == t);
            assert(r@ =~= s@.subrange(a as int, b as int));
            assert(r@ =~= t);
        } else {
            // s[b-1] is not whitespace, so trim_start keeps it: skip(a) begins
            // with a non-ws byte (a < b and s[a] not ws by loop exit), so
            // trim_start_bytes(s.skip(a)) == s.skip(a).
            assert(!is_ws(s@[a as int]));
            assert(s@.skip(a as int)[0] == s@[a as int]);
            assert(t == s@.skip(a as int));
            lemma_trim_end_take(s@.skip(a as int), b - a);
            assert(trim_end_bytes(t) == trim_end_bytes(s@.skip(a as int).take(b - a)));
            assert(s@.skip(a as int).take(b - a) =~= s@.subrange(a as int, b as int));
            assert(!is_ws(s@[b - 1]));
            let u = s@.subrange(a as int, b as int);
            assert(u[u.len() - 1] == s@[b - 1]);
            assert(trim_end_bytes(u) == u);
            assert(r@ =~= u);
        }
    }
    r
}

proof fn lemma_trim_all_ws(s: Seq<u8>)
    requires
        forall|j: int| 0 <= j < s.len() ==> is_ws(s[j]),
    ensures
        trim_start_bytes(s).len() == 0,
    decreases s.len(),
{
    if s.len() > 0 {
        lemma_trim_all_ws(s.skip(1));
    }
}


/// Splits `s` at every occurrence of `sep`, left to right. An empty
/// separator never splits.
pub open spec fn split_bytes(s: Seq<u8>, sep: Seq<u8>) -> Seq<Seq<u8>>
    decreases s.len(),
{
    if sep.len() == 0 {
        seq![s]
    } else {
        match find_sub(s, sep) {
            None => seq![s],
            Some(p) => if 0 <= p && p + sep.len() <= s.len() {
                seq![s.take(p)] + split_bytes(s.skip(p + sep.len()), sep)
            } else {
                seq![s]
            },
        }
    }
}

pub proof fn lemma_split_bytes_len(s: Seq<u8>, sep: Seq<u8>)
    ensures
        split_bytes(s, sep).len() >= 1,
    decreases s.len(),
{
    if sep.len() > 0 {
        if find_sub(s, sep) is Some {
            lemma_find_from_props(s, sep, 0);
        }
    }
}

/// A list of byte segments produced by a split.
pub type ByteSegs = Vec<Vec<u8>>;

/// Splits a byte slice at every occurrence of `sep`.
pub fn split_bytes_window(s: &[u8], sep: &[u8]) -> (r: ByteSegs)
    ensures
        r@.len() == split_bytes(s@, sep@).len(),
        forall|i: int|
            0 <= i < r@.len() ==> #[trigger] r@[i]@ == split_bytes(s@, sep@)[i],
    decreases s@.len(),
{
    if sep.len() == 0 {
        let mut r: ByteSegs = Vec::new();
        r.push(vstd::slice::slice_to_vec(s));
        return r;
    }
    match find_window(s, sep) {
        None => {
            let mut r: ByteSegs = Vec::new();
            r.push(vstd::slice::slice_to_vec(s));
            r
        },
        Some(p) => {
            proof {
                lemma_find_from_props(s@, sep@, 0);
            }
            let slen: usize = s.len();
            let head = vstd::slice::slice_to_vec(&s[0..p]);
            assert(head@ == s@.take(p as int));
            let tail = &s[p + sep.len()..slen];
            assert(tail@ == s@.skip(p + sep@.len()));
            let rest = split_bytes_window(tail, sep);
            let mut r: Vec<Vec<u8>> = Vec::new();
            r.push(head);
            let mut rest_m = rest;
            r.append(&mut rest_m);
            proof {
                let sp = split_bytes(s@, sep@);
                assert(sp == seq![s@.take(p as int)] + split_bytes(s@.skip(p + sep@.len()), sep@));
                assert forall|i: int| 0 <= i < r@.len() implies #[trigger] r@[i]@ == sp[i] by {
                    if i == 0 {
                        assert(sp[0] == s@.take(p as int));
                    } else {
                        assert(r@[i] == rest@[i - 1]);
                        assert(sp[i] == split_bytes(s@.skip(p + sep@.len()), sep@)[i - 1]);
                    }
                }
            }
            r
        },
    }
}

/// First index `>= i` of character `c` in `s`.
pub open spec fn char_find_from(s: Seq<char>, c: char, i: int) -> Option<int>
    decreases s.len() + 1 - i,
{
    if i < 0 || i >= s.len() {
        None
    } else if s[i] == c {
        Some(i)
    } else {
        char_find_from(s, c, i + 1)
    }
}

/// First index of character `c` in `s`.
pub open spec fn char_find(s: Seq<char>, c: char) -> Option<int> {
    char_find_from(s, c, 0)
}

pub proof fn lemma_char_find_props(s: Seq<char>, c: char, i: int)
    requires
        0 <= i,
    ensures
        match char_find_from(s, c, i) {
            Some(p) => i <= p < s.len() && s[p] == c && (forall|j: int| i <= j < p ==> s[j] != c),
            None => forall|j: int| i <= j < s.len() ==> s[j] != c,
        },
    decreases s.len() + 1 - i,
{
    if i < s.len() && s[i] != c {
        lemma_char_find_props(s, c, i + 1);
    }
}

pub proof fn lemma_char_find_exact(s: Seq<char>, c: char, i: int, p: int)
    requires
        0 <= i <= p < s.len(),
        s[p] == c,
        forall|j: int| i <= j < p ==> s[j] != c,
    ensures
        char_find_from(s, c, i) == Some(p),
    decreases p - i,
{
    if i < p {
        lemma_char_find_exact(s, c, i + 1, p);
    }
}

/// First occurrence of a character in a string.
pub fn char_find_str(s: &str, c: char) -> (r: Option<usize>)
    ensures
        match r {
            Some(p) => char_find(s@, c) == Some(p as int),
            None => char_find(s@, c) is None,
        },
{
    let n: usize = s.unicode_len();
    let mut i: usize = 0;
    while i < n
        invariant
            0 <= i <= n,
            n == s@.len(),
            forall|j: int| 0 <= j < i ==> s@[j] != c,
        decreases n - i,
    {
        if s.get_char(i) == c {
            proof {
                lemma_char_find_exact(s@, c, 0, i as int);
            }
            return Some(i);
        }
        i += 1;
    }
    proof {
        lemma_char_find_props(s@, c, 0);
    }
    None
}

/// Splits `s` at every occurrence of the character `c`, left to right.
pub open spec fn split_chars(s: Seq<char>, c: char) -> Seq<Seq<char>>
    decreases s.len(),
{
    match char_find(s, c) {
        None => seq![s],
        Some(p) => if 0 <= p < s.len() {
            seq![s.take(p)] + split_chars(s.skip(p + 1), c)
        } else {
            seq![s]
        },
    }
}

/// Splits a string at every occurrence of the character `c`.
pub fn split_chars_str(s: &str, c: char) -> (r: Vec<String>)
    ensures
        r@.len() == split_chars(s@, c).len(),
        forall|i: int|
            0 <= i < r@.len() ==> #[trigger] r@[i]@ == split_chars(s@, c)[i],
    decreases s@.len(),
{
    let n: usize = s.unicode_len();
    match char_find_str(s, c) {
        None => {
            let mut r: Vec<String> = Vec::new();
            r.push(String::from_str(s));
            r
        },
        Some(p) => {
            proof {
                lemma_char_find_props(s@, c, 0);
            }
            let head = s.substring_char(0, p);
            let tail = s.substring_char(p + 1, n);
            assert(head@ == s@.take(p as int));
            assert(tail@ == s@.skip(p + 1)) by {
                assert(s@.subrange(p + 1, s@.len() as int) =~= s@.skip(p + 1));
            }
            let rest = split_chars_str(tail, c);
            let mut r: Vec<String> = Vec::new();
            r.push(String::from_str(head));
            let mut rest_m = rest;
            r.append(&mut rest_m);
            proof {
                let sp = split_chars(s@, c);
                assert(sp == seq![s@.take(p as int)] + split_chars(s@.skip(p + 1), c));
                assert forall|i: int| 0 <= i < r@.len() implies #[trigger] r@[i]@ == sp[i] by {
                    if i == 0 {
                        assert(sp[0] == s@.take(p as int));
                    } else {
                        assert(r@[i]@ == split_chars(s@.skip(p + 1), c)[i - 1]);
                        assert(sp[i] == split_chars(s@.skip(p + 1), c)[i - 1]);
                    }
                }
            }
            r
        },
    }
}

} // verus!
