//! Character-level text operations: whitespace, searching, splitting and
//! trimming, each with a spec-level model and a verified executable form.

use vstd::prelude::*;

verus! {

/// The characters with the Unicode `White_Space` property; these are exactly
/// the characters that whole-text trimming removes from the ends.
pub open spec fn is_ws_char(c: char) -> bool {
    ||| c == ' '
    ||| c == '\t'
    ||| c == '\n'
    ||| c == '\u{0B}'
    ||| c == '\u{0C}'
    ||| c == '\r'
    ||| c == '\u{85}'
    ||| c == '\u{A0}'
    ||| c == '\u{1680}'
    ||| (0x2000 <= c as u32 && c as u32 <= 0x200A)
    ||| c == '\u{2028}'
    ||| c == '\u{2029}'
    ||| c == '\u{202F}'
    ||| c == '\u{205F}'
    ||| c == '\u{3000}'
}

/// Decides `is_ws_char`.
pub fn char_is_ws(c: char) -> (r: bool)
    ensures
        r == is_ws_char(c),
{
    c == ' ' || c == '\t' || c == '\n' || c == '\u{0B}' || c == '\u{0C}' || c == '\r'
        || c == '\u{85}' || c == '\u{A0}' || c == '\u{1680}'
        || (0x2000 <= c as u32 && c as u32 <= 0x200A)
        || c == '\u{2028}' || c == '\u{2029}' || c == '\u{202F}' || c == '\u{205F}'
        || c == '\u{3000}'
}

/// The index of the first occurrence of `c` in `s`, or `s.len()` if absent.
pub open spec fn find_char(s: Seq<char>, c: char) -> int
    decreases s.len(),
{
    if s.len() == 0 {
        0
    } else if s[0] == c {
        0
    } else {
        1 + find_char(s.skip(1), c)
    }
}

/// `find_char` lies between 0 and `s.len()`, no earlier position holds `c`,
/// and the found position (when within bounds) holds `c`.
pub proof fn lemma_find_char(s: Seq<char>, c: char)
    ensures
        0 <= find_char(s, c) <= s.len(),
        forall|j: int| 0 <= j < find_char(s, c) ==> s[j] != c,
        find_char(s, c) < s.len() ==> s[find_char(s, c)] == c,
    decreases s.len(),
{
    if s.len() == 0 {
    } else if s[0] == c {
    } else {
        lemma_find_char(s.skip(1), c);
        assert forall|j: int| 0 <= j < find_char(s, c) implies s[j] != c by {
            if j > 0 {
                assert(s.skip(1)[j - 1] == s[j]);
            }
        }
        if find_char(s, c) < s.len() {
            assert(s.skip(1)[find_char(s, c) - 1] == s[find_char(s, c)]);
        }
    }
}

/// `find_char` is the unique position fitting its characterization.
pub proof fn lemma_find_char_is(s: Seq<char>, c: char, k: int)
    requires
        0 <= k <= s.len(),
        forall|j: int| 0 <= j < k ==> s[j] != c,
        k < s.len() ==> s[k] == c,
    ensures
        find_char(s, c) == k,
{
    lemma_find_char(s, c);
    let f = find_char(s, c);
    if f < k {
        assert(s[f] != c);
    }
    if k < f {
        assert(s[k] != c);
    }
}

/// The pieces of `s` between occurrences of the separator `c`, in order.
/// Splitting always yields at least one piece; a separator at either end or
/// two adjacent separators yield an empty piece.
pub open spec fn split_seq(s: Seq<char>, c: char) -> Seq<Seq<char>>
    decreases s.len(),
{
    let k = find_char(s, c);
    if 0 <= k < s.len() {
        seq![s.take(k)] + split_seq(s.skip(k + 1), c)
    } else {
        seq![s]
    }
}

/// A split has at least one piece.
pub proof fn lemma_split_seq_len(s: Seq<char>, c: char)
    ensures
        split_seq(s, c).len() >= 1,
    decreases s.len(),
{
    let k = find_char(s, c);
    if 0 <= k < s.len() {
        lemma_split_seq_len(s.skip(k + 1), c);
    }
}

/// When `s` holds no separator, the split is `s` itself as the one piece.
pub proof fn lemma_split_seq_whole(s: Seq<char>, c: char)
    requires
        forall|j: int| 0 <= j < s.len() ==> s[j] != c,
    ensures
        split_seq(s, c) == seq![s],
{
    lemma_find_char_is(s, c, s.len() as int);
}

/// When the first separator of `s` stands at `k`, the split is the prefix
/// before `k` followed by the split of the text after `k`.
pub proof fn lemma_split_seq_step(s: Seq<char>, c: char, k: int)
    requires
        0 <= k < s.len(),
        forall|j: int| 0 <= j < k ==> s[j] != c,
        s[k] == c,
    ensures
        split_seq(s, c) == seq![s.take(k)] + split_seq(s.skip(k + 1), c),
{
    lemma_find_char_is(s, c, k);
}

/// The views of a sequence of string slices: each slice as its characters.
pub open spec fn views_of(parts: Seq<&str>) -> Seq<Seq<char>> {
    parts.map_values(|p: &str| p@)
}

/// Appending a slice to a sequence appends its view to the views.
pub proof fn lemma_views_of_push(parts: Seq<&str>, p: &str)
    ensures
        views_of(parts.push(p)) == views_of(parts).push(p@),
{
    assert(views_of(parts.push(p)) =~= views_of(parts).push(p@));
}

/// Splits `s` on the character `sep`, keeping empty pieces, as `split_seq`
/// describes.
pub fn split_str<'a>(s: &'a str, sep: char) -> (parts: Vec<&'a str>)
    ensures
        views_of(parts@) == split_seq(s@, sep),
{
    let n: usize = s.unicode_len();
    let mut parts: Vec<&'a str> = Vec::new();
    let mut start: usize = 0;
    let mut i: usize = 0;
    proof {
        assert(s@.skip(0) =~= s@);
        assert(views_of(parts@) =~= Seq::<Seq<char>>::empty());
        assert(views_of(parts@) + split_seq(s@, sep) =~= split_seq(s@, sep));
    }
    while i < n
        invariant
            0 <= start <= i <= n,
            n == s@.len(),
            forall|j: int| start <= j < i ==> s@[j] != sep,
            split_seq(s@, sep) == views_of(parts@) + split_seq(s@.skip(start as int), sep),
        decreases n - i,
    {
        let ch = s.get_char(i);
        if ch == sep {
            let piece = s.substring_char(start, i);
            proof {
                let t = s@.skip(start as int);
                assert forall|j: int| 0 <= j < i - start implies t[j] != sep by {
                    assert(t[j] == s@[start + j]);
                }
                assert(t[i - start] == s@[i as int]);
                lemma_split_seq_step(t, sep, i - start);
                assert(t.take(i - start) =~= s@.subrange(start as int, i as int));
                assert(t.skip(i - start + 1) =~= s@.skip(i as int + 1));
                lemma_views_of_push(parts@, piece);
                assert(views_of(parts@) + (seq![piece@] + split_seq(s@.skip(i as int + 1), sep))
                    =~= views_of(parts@).push(piece@) + split_seq(s@.skip(i as int + 1), sep));
            }
            parts.push(piece);
            start = i + 1;
        }
        i = i + 1;
    }
    let last = s.substring_char(start, n);
    proof {
        let t = s@.skip(start as int);
        assert forall|j: int| 0 <= j < t.len() implies t[j] != sep by {
            assert(t[j] == s@[start + j]);
        }
        lemma_split_seq_whole(t, sep);
        assert(t =~= s@.subrange(start as int, n as int));
        lemma_views_of_push(parts@, last);
        assert(views_of(parts@) + seq![last@] =~= views_of(parts@).push(last@));
    }
    parts.push(last);
    parts
}

/// The characters of `s`, in order, as a vector.
pub fn chars_of(s: &str) -> (v: Vec<char>)
    ensures
        v@ == s@,
{
    let n: usize = s.unicode_len();
    let mut v: Vec<char> = Vec::new();
    proof {
        assert(v@ =~= s@.subrange(0, 0));
    }
    let mut i: usize = 0;
    while i < n
        invariant
            0 <= i <= n,
            n == s@.len(),
            v@ == s@.subrange(0, i as int),
        decreases n - i,
    {
        v.push(s.get_char(i));
        proof {
            assert(v@ =~= s@.subrange(0, i + 1));
        }
        i = i + 1;
    }
    proof {
        assert(s@.subrange(0, n as int) =~= s@);
    }
    v
}

/// `s` with its leading whitespace characters removed.
pub open spec fn trim_start_spec(s: Seq<char>) -> Seq<char>
    decreases s.len(),
{
    if s.len() > 0 && is_ws_char(s[0]) {
        trim_start_spec(s.skip(1))
    } else {
        s
    }
}

/// `s` with its trailing whitespace characters removed.
pub open spec fn trim_end_spec(s: Seq<char>) -> Seq<char>
    decreases s.len(),
{
    if s.len() > 0 && is_ws_char(s[s.len() - 1]) {
        trim_end_spec(s.drop_last())
    } else {
        s
    }
}

/// `s` with whitespace removed from both ends.
pub open spec fn trim_spec(s: Seq<char>) -> Seq<char> {
    trim_end_spec(trim_start_spec(s))
}

/// When the first `a` characters are whitespace and the character at `a` (if
/// any) is not, trimming the start drops exactly those `a` characters.
pub proof fn lemma_trim_start_at(s: Seq<char>, a: int)
    requires
        0 <= a <= s.len(),
        forall|j: int| 0 <= j < a ==> is_ws_char(s[j]),
        a < s.len() ==> !is_ws_char(s[a]),
    ensures
        trim_start_spec(s) == s.skip(a),
    decreases a,
{
    if a == 0 {
        assert(s.skip(0) =~= s);
    } else {
        lemma_trim_start_at(s.skip(1), a - 1);
        assert(s.skip(1).skip(a - 1) =~= s.skip(a));
    }
}

/// When every character from `b` on is whitespace and the character before
/// `b` (if any) is not, trimming the end keeps exactly the first `b`.
pub proof fn lemma_trim_end_at(s: Seq<char>, b: int)
    requires
        0 <= b <= s.len(),
        forall|j: int| b <= j < s.len() ==> is_ws_char(s[j]),
        b > 0 ==> !is_ws_char(s[b - 1]),
    ensures
        trim_end_spec(s) == s.take(b),
    decreases s.len(),
{
    if b == s.len() {
        if s.len() > 0 {
            assert(s.take(b) =~= s);
        } else {
            assert(s.take(b) =~= s);
        }
    } else {
        lemma_trim_end_at(s.drop_last(), b);
        assert(s.drop_last().take(b) =~= s.take(b));
    }
}

/// Removes leading and trailing whitespace, as `trim_spec` describes.
pub fn trim_str<'a>(s: &'a str) -> (r: &'a str)
    ensures
        r@ == trim_spec(s@),
{
    let n: usize = s.unicode_len();
    let mut a: usize = 0;
    while a < n && char_is_ws(s.get_char(a))
        invariant
            0 <= a <= n,
            n == s@.len(),
            forall|j: int| 0 <= j < a ==> is_ws_char(s@[j]),
        decreases n - a,
    {
        a = a + 1;
    }
    proof {
        lemma_trim_start_at(s@, a as int);
    }
    if a == n {
        let r = s.substring_char(n, n);
        proof {
            assert(s@.skip(n as int) =~= s@.subrange(n as int, n as int));
            assert(trim_end_spec(s@.skip(n as int)) == s@.skip(n as int));
        }
        return r;
    }
    let mut b: usize = n;
    while b > a && char_is_ws(s.get_char(b - 1))
        invariant
            a <= b <= n,
            n == s@.len(),
            a < n,
            !is_ws_char(s@[a as int]),
            forall|j: int| b <= j < n ==> is_ws_char(s@[j]),
        decreases b,
    {
        b = b - 1;
    }
    proof {
        let t = s@.skip(a as int);
        assert forall|j: int| b - a <= j < t.len() implies is_ws_char(t[j]) by {
            assert(t[j] == s@[a + j]);
        }
        if b > a {
            assert(t[b - a - 1] == s@[b - 1]);
        } else {
            assert(t[0] == s@[a as int]);
            assert(!is_ws_char(t[0]));
        }
        lemma_trim_end_at(t, b - a);
        assert(t.take(b - a) =~= s@.subrange(a as int, b as int));
    }
    s.substring_char(a, b)
}

} // verus!
