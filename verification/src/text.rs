//! Character-level helpers on strings, stated over their `Seq<char>` views.
use vstd::prelude::*;

verus! {

/// `char::is_whitespace`: the Unicode `White_Space` property.
pub open spec fn is_whitespace_char(c: char) -> bool {
    let u = c as u32;
    ||| 0x09 <= u <= 0x0D
    ||| u == 0x20
    ||| u == 0x85
    ||| u == 0xA0
    ||| u == 0x1680
    ||| 0x2000 <= u <= 0x200A
    ||| u == 0x2028
    ||| u == 0x2029
    ||| u == 0x202F
    ||| u == 0x205F
    ||| u == 0x3000
}

/// The characters of each string of `v`.
pub open spec fn string_views(v: Seq<String>) -> Seq<Seq<char>> {
    v.map_values(|x: String| x@)
}

/// `s` begins with `p`.
pub open spec fn has_prefix(s: Seq<char>, p: Seq<char>) -> bool {
    p.len() <= s.len() && s.subrange(0, p.len() as int) == p
}

/// `needle` occurs in `hay` as a contiguous run.
pub open spec fn occurs_in(hay: Seq<char>, needle: Seq<char>) -> bool {
    exists|i: int|
        0 <= i && i + needle.len() <= hay.len() && #[trigger] hay.subrange(i, i + needle.len())
            == needle
}

/// What `str::to_lowercase` returns for a string (the Unicode lowercase mapping).
pub uninterp spec fn lowercase_of(s: Seq<char>) -> Seq<char>;

/// Calls `str::to_lowercase`. Claimed: the result is `lowercase_of` of the
/// argument, a function of the argument's characters alone.
#[verifier::external_body]
pub(crate) fn to_lowercase(s: &str) -> (r: String)
    ensures
        r@ == lowercase_of(s@),
{
    s.to_lowercase()
}

/// Whether `c` is a Unicode whitespace character.
pub fn is_whitespace(c: char) -> (r: bool)
    ensures
        r == is_whitespace_char(c),
{
    let u = c as u32;
    (0x09 <= u && u <= 0x0D) || u == 0x20 || u == 0x85 || u == 0xA0 || u == 0x1680 || (0x2000 <= u
        && u <= 0x200A) || u == 0x2028 || u == 0x2029 || u == 0x202F || u == 0x205F || u == 0x3000
}

/// The characters of `s`, in order.
pub fn chars_of(s: &str) -> (r: Vec<char>)
    ensures
        r@ == s@,
{
    let n = s.unicode_len();
    let mut out: Vec<char> = Vec::new();
    let mut i: usize = 0;
    while i < n
        invariant
            n == s@.len(),
            i <= n,
            out@ == s@.subrange(0, i as int),
        decreases n - i,
    {
        out.push(s.get_char(i));
        i = i + 1;
    }
    assert(out@ == s@);
    out
}

/// Whether `hay[start..]` begins with `p`.
pub fn has_prefix_at(hay: &Vec<char>, start: usize, p: &Vec<char>) -> (r: bool)
    requires
        start <= hay@.len(),
    ensures
        r == has_prefix(hay@.subrange(start as int, hay@.len() as int), p@),
{
    let n = hay.len();
    let m = p.len();
    if m > n - start {
        return false;
    }
    let mut j: usize = 0;
    while j < m
        invariant
            n == hay@.len(),
            m == p@.len(),
            start + m <= n,
            j <= m,
            forall|k: int| 0 <= k < j ==> hay@[start + k] == p@[k],
        decreases m - j,
    {
        if hay[start + j] != p[j] {
            proof {
                let sub = hay@.subrange(start as int, n as int);
                assert(sub.subrange(0, m as int)[j as int] != p@[j as int]);
            }
            return false;
        }
        j = j + 1;
    }
    proof {
        let sub = hay@.subrange(start as int, n as int);
        assert(sub.subrange(0, m as int) =~= p@);
    }
    true
}

/// Whether `p` occurs in `hay`.
pub fn occurs(hay: &Vec<char>, p: &Vec<char>) -> (r: bool)
    ensures
        r == occurs_in(hay@, p@),
{
    let n = hay.len();
    let m = p.len();
    if m > n {
        return false;
    }
    if m == 0 {
        assert(hay@.subrange(0int, 0int + p@.len()) =~= p@);
        return true;
    }
    let mut i: usize = 0;
    while i <= n - m
        invariant
            n == hay@.len(),
            m == p@.len(),
            1 <= m <= n,
            i <= n - m + 1,
            forall|k: int| 0 <= k < i ==> #[trigger] hay@.subrange(k, k + m) != p@,
        decreases n - m + 1 - i,
    {
        if has_prefix_at(hay, i, p) {
            proof {
                let sub = hay@.subrange(i as int, n as int);
                assert(sub.subrange(0, m as int) =~= hay@.subrange(i as int, i + m));
            }
            return true;
        }
        proof {
            let sub = hay@.subrange(i as int, n as int);
            assert(sub.subrange(0, m as int) =~= hay@.subrange(i as int, i + m));
        }
        i = i + 1;
    }
    proof {
        assert forall|k: int| 0 <= k && k + m <= n implies #[trigger] hay@.subrange(k, k + m)
            != p@ by {
            assert(k < i);
        }
    }
    false
}

/// Whether `a` and `b` hold the same characters.
pub fn same_text(a: &str, b: &str) -> (r: bool)
    ensures
        r == (a@ == b@),
{
    let av = chars_of(a);
    let bv = chars_of(b);
    if av.len() != bv.len() {
        return false;
    }
    let n = av.len();
    let mut i: usize = 0;
    while i < n
        invariant
            n == av@.len(),
            n == bv@.len(),
            av@ == a@,
            bv@ == b@,
            i <= n,
            forall|k: int| 0 <= k < i ==> av@[k] == bv@[k],
        decreases n - i,
    {
        if av[i] != bv[i] {
            assert(av@[i as int] != bv@[i as int]);
            return false;
        }
        i = i + 1;
    }
    assert(av@ =~= bv@);
    true
}

} // verus!
