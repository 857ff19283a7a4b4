//! Character-level text utilities: whitespace tokens, substrings, case folding.
use vstd::prelude::*;

verus! {

/// Unicode `White_Space` property, the set that `char::is_whitespace` tests.
pub open spec fn is_space(c: char) -> bool {
    let u = c as u32;
    (0x09 <= u <= 0x0D) || u == 0x20 || u == 0x85 || u == 0xA0 || u == 0x1680 || (0x2000 <= u
        <= 0x200A) || u == 0x2028 || u == 0x2029 || u == 0x202F || u == 0x205F || u == 0x3000
}

pub fn is_space_char(c: char) -> (r: bool)
    ensures
        r == is_space(c),
{
    let u = c as u32;
    (0x09 <= u && u <= 0x0D) || u == 0x20 || u == 0x85 || u == 0xA0 || u == 0x1680 || (0x2000 <= u
        && u <= 0x200A) || u == 0x2028 || u == 0x2029 || u == 0x202F || u == 0x205F || u == 0x3000
}

/// `s[a..b]` is a maximal run of non-whitespace characters: one token of
/// `split_whitespace`.
pub open spec fn is_token(s: Seq<char>, a: int, b: int) -> bool {
    &&& 0 <= a < b <= s.len()
    &&& forall|k: int| a <= k < b ==> !is_space(#[trigger] s[k])
    &&& a == 0 || is_space(s[a - 1])
    &&& b == s.len() || is_space(s[b])
}

/// Number of bytes in the UTF-8 encoding of `c`.
pub open spec fn utf8_width(c: char) -> nat {
    let u = c as u32;
    if u < 0x80 {
        1
    } else if u < 0x800 {
        2
    } else if u < 0x10000 {
        3
    } else {
        4
    }
}

/// Number of bytes in the UTF-8 encoding of `s`.
pub open spec fn byte_len(s: Seq<char>) -> nat
    decreases s.len(),
{
    if s.len() == 0 {
        0
    } else {
        byte_len(s.drop_last()) + utf8_width(s.last())
    }
}

/// `needle` occurs in `hay` as a contiguous run.
pub open spec fn contains(hay: Seq<char>, needle: Seq<char>) -> bool {
    exists|i: int|
        0 <= i && i + needle.len() <= hay.len() && #[trigger] hay.subrange(i, i + needle.len())
            == needle
}

/// The characters of `s`, in order.
pub fn chars_of(s: &str) -> (r: Vec<char>)
    ensures
        r@ == s@,
{
    let n = s.unicode_len();
    let mut v: Vec<char> = Vec::new();
    let mut i: usize = 0;
    while i < n
        invariant
            n == s@.len(),
            i <= n,
            v@ == s@.subrange(0, i as int),
        decreases n - i,
    {
        v.push(s.get_char(i));
        i = i + 1;
    }
    assert(v@ == s@.subrange(0, n as int));
    v
}

/// Whether `a` and `b` hold the same characters.
pub fn str_eq(a: &str, b: &str) -> (r: bool)
    ensures
        r == (a@ == b@),
{
    let n = a.unicode_len();
    if n != b.unicode_len() {
        return false;
    }
    let mut i: usize = 0;
    while i < n
        invariant
            n == a@.len(),
            n == b@.len(),
            i <= n,
            a@.subrange(0, i as int) == b@.subrange(0, i as int),
        decreases n - i,
    {
        if a.get_char(i) != b.get_char(i) {
            return false;
        }
        assert(a@.subrange(0, i + 1) == a@.subrange(0, i as int).push(a@[i as int]));
        assert(b@.subrange(0, i + 1) == b@.subrange(0, i as int).push(b@[i as int]));
        i = i + 1;
    }
    assert(a@ == a@.subrange(0, n as int));
    assert(b@ == b@.subrange(0, n as int));
    true
}

/// Whether `s` takes more than `limit` bytes in UTF-8.
pub fn exceeds_bytes(s: &str, limit: usize) -> (r: bool)
    requires
        limit < 0x1000_0000,
    ensures
        r == (byte_len(s@) > limit),
{
    let n = s.unicode_len();
    let mut total: usize = 0;
    let mut k: usize = 0;
    while k < n
        invariant
            n == s@.len(),
            k <= n,
            limit < 0x1000_0000,
            total == byte_len(s@.subrange(0, k as int)),
            total <= limit,
        decreases n - k,
    {
        let u = s.get_char(k) as u32;
        let w: usize = if u < 0x80 {
            1
        } else if u < 0x800 {
            2
        } else if u < 0x10000 {
            3
        } else {
            4
        };
        assert(s@.subrange(0, k + 1).drop_last() == s@.subrange(0, k as int));
        total = total + w;
        k = k + 1;
        if total > limit {
            proof {
                lemma_byte_len_prefix(s@, k as int);
            }
            return true;
        }
    }
    assert(s@.subrange(0, n as int) == s@);
    false
}

/// A prefix never takes more bytes than the whole.
pub proof fn lemma_byte_len_prefix(s: Seq<char>, k: int)
    requires
        0 <= k <= s.len(),
    ensures
        byte_len(s.subrange(0, k)) <= byte_len(s),
    decreases s.len() - k,
{
    if k < s.len() {
        lemma_byte_len_prefix(s, k + 1);
        assert(s.subrange(0, k + 1).drop_last() == s.subrange(0, k));
    } else {
        assert(s.subrange(0, k) == s);
    }
}

/// Whether `needle` occurs in `hay`.
pub fn contains_chars(hay: &Vec<char>, needle: &Vec<char>) -> (r: bool)
    ensures
        r == contains(hay@, needle@),
{
    let h = hay.len();
    let m = needle.len();
    if m > h {
        assert forall|i: int| 0 <= i && i + m <= h implies #[trigger] hay@.subrange(
            i,
            i + m,
        ) != needle@ by {}
        return false;
    }
    let mut i: usize = 0;
    while i <= h - m
        invariant
            m <= h,
            h == hay@.len(),
            m == needle@.len(),
            i <= h - m + 1,
            forall|p: int| 0 <= p < i ==> #[trigger] hay@.subrange(p, p + m) != needle@,
        decreases h - m + 1 - i,
    {
        let mut j: usize = 0;
        while j < m && hay[i + j] == needle[j]
            invariant
                i + m <= h,
                h == hay@.len(),
                m == needle@.len(),
                j <= m,
                forall|k: int| 0 <= k < j ==> hay@[i + k] == needle@[k],
            decreases m - j,
        {
            j = j + 1;
        }
        if j == m {
            assert(hay@.subrange(i as int, i + m) == needle@);
            return true;
        }
        assert(hay@.subrange(i as int, i + m)[j as int] != needle@[j as int]);
        i = i + 1;
    }
    false
}

/// Spans `(a, b)` of the whitespace-delimited tokens of `s`, left to right.
pub fn token_spans(s: &Vec<char>) -> (r: Vec<(usize, usize)>)
    ensures
        forall|k: int| 0 <= k < r@.len() ==> is_token(s@, #[trigger] r@[k].0 as int, r@[k].1 as int),
        forall|k: int, l: int| 0 <= k < l < r@.len() ==> #[trigger] r@[k].1 < #[trigger] r@[l].0,
        forall|a: int, b: int|
            #[trigger] is_token(s@, a, b) ==> exists|k: int|
                0 <= k < r@.len() && #[trigger] r@[k] == (a as usize, b as usize),
{
    let n = s.len();
    let mut r: Vec<(usize, usize)> = Vec::new();
    let mut start: usize = 0;
    let mut inside = false;
    let mut i: usize = 0;
    while i < n
        invariant
            n == s@.len(),
            i <= n,
            inside ==> start < i,
            inside ==> forall|k: int| start <= k < i ==> !is_space(#[trigger] s@[k]),
            inside ==> (start == 0 || is_space(s@[start - 1])),
            !inside ==> (i == 0 || is_space(s@[i - 1])),
            forall|k: int| 0 <= k < r@.len() ==> is_token(s@, #[trigger] r@[k].0 as int, r@[k].1 as int),
            forall|k: int| 0 <= k < r@.len() ==> #[trigger] r@[k].1 < i,
            inside ==> forall|k: int| 0 <= k < r@.len() ==> #[trigger] r@[k].1 < start,
            forall|k: int, l: int| 0 <= k < l < r@.len() ==> #[trigger] r@[k].1 < #[trigger] r@[l].0,
            forall|a: int, b: int|
                #[trigger] is_token(s@, a, b) && b < i ==> exists|k: int|
                    0 <= k < r@.len() && #[trigger] r@[k] == (a as usize, b as usize),
        decreases n - i,
    {
        let sp = is_space_char(s[i]);
        if sp {
            if inside {
                let ghost old_r = r@;
                r.push((start, i));
                assert(is_token(s@, start as int, i as int));
                assert forall|a: int, b: int|
                    #[trigger] is_token(s@, a, b) && b < i + 1 implies exists|k: int|
                        0 <= k < r@.len() && #[trigger] r@[k] == (a as usize, b as usize) by {
                    if b == i {
                        if a < start {
                            assert(!is_space(s@[start - 1]));
                        } else if a > start {
                            assert(!is_space(s@[a - 1]));
                        }
                        assert(r@[old_r.len() as int] == (a as usize, b as usize));
                    } else {
                        let k = choose|k: int|
                            0 <= k < old_r.len() && #[trigger] old_r[k] == (a as usize, b as usize);
                        assert(r@[k] == old_r[k]);
                    }
                }
                inside = false;
            } else {
                assert forall|a: int, b: int|
                    #[trigger] is_token(s@, a, b) && b < i + 1 implies exists|k: int|
                        0 <= k < r@.len() && #[trigger] r@[k] == (a as usize, b as usize) by {
                    if b == i {
                        assert(!is_space(s@[b - 1]));
                    }
                }
            }
        } else {
            if !inside {
                start = i;
                inside = true;
            }
            assert forall|a: int, b: int|
                #[trigger] is_token(s@, a, b) && b < i + 1 implies exists|k: int|
                    0 <= k < r@.len() && #[trigger] r@[k] == (a as usize, b as usize) by {
                if b == i {
                    assert(s@[b] == s@[i as int]);
                }
            }
        }
        i = i + 1;
    }
    if inside {
        let ghost old_r = r@;
        r.push((start, n));
        assert(is_token(s@, start as int, n as int));
        assert forall|a: int, b: int| #[trigger] is_token(s@, a, b) implies exists|k: int|
            0 <= k < r@.len() && #[trigger] r@[k] == (a as usize, b as usize) by {
            if b == n {
                if a < start {
                    assert(!is_space(s@[start - 1]));
                } else if a > start {
                    assert(!is_space(s@[a - 1]));
                }
                assert(r@[old_r.len() as int] == (a as usize, b as usize));
            } else {
                let k = choose|k: int|
                    0 <= k < old_r.len() && #[trigger] old_r[k] == (a as usize, b as usize);
                assert(r@[k] == old_r[k]);
            }
        }
    } else {
        assert forall|a: int, b: int| #[trigger] is_token(s@, a, b) implies exists|k: int|
            0 <= k < r@.len() && #[trigger] r@[k] == (a as usize, b as usize) by {
            if b == n && n > 0 {
                assert(!is_space(s@[b - 1]));
            }
        }
    }
    r
}

/// Name for the result of `str::to_lowercase`: the full Unicode lowercase
/// mapping of each character.
pub uninterp spec fn lower_of(s: Seq<char>) -> Seq<char>;

/// Relies on `str::to_lowercase`: the result depends on the characters alone.
#[verifier::external_body]
pub(crate) fn lowercase(s: &str) -> (r: String)
    ensures
        r@ == lower_of(s@),
{
    s.to_lowercase()
}

} // verus!
