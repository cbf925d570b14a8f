//! Character-level helpers: the specifications of trimming, splitting and
//! searching a sequence of chars, and the loops that compute them over a
//! `Vec<char>` window `[lo, hi)`.

use vstd::prelude::*;

verus! {

/// Whether `c` has the Unicode `White_Space` property (what `char::is_whitespace` tests).
pub open spec fn is_space(c: char) -> bool {
    ||| ('\u{9}' <= c && c <= '\u{d}')
    ||| c == ' '
    ||| c == '\u{85}'
    ||| c == '\u{a0}'
    ||| c == '\u{1680}'
    ||| ('\u{2000}' <= c && c <= '\u{200a}')
    ||| c == '\u{2028}'
    ||| c == '\u{2029}'
    ||| c == '\u{202f}'
    ||| c == '\u{205f}'
    ||| c == '\u{3000}'
}

/// `s` without its leading white space.
pub open spec fn trim_start(s: Seq<char>) -> Seq<char>
    decreases s.len(),
{
    if s.len() > 0 && is_space(s[0]) {
        trim_start(s.drop_first())
    } else {
        s
    }
}

/// `s` without its trailing white space.
pub open spec fn trim_end(s: Seq<char>) -> Seq<char>
    decreases s.len(),
{
    if s.len() > 0 && is_space(s.last()) {
        trim_end(s.drop_last())
    } else {
        s
    }
}

/// `s` without leading and trailing white space (what `str::trim` gives).
pub open spec fn trim(s: Seq<char>) -> Seq<char> {
    trim_end(trim_start(s))
}

/// The pieces of `s` between occurrences of `sep`, in order (what `str::split` gives):
/// one piece more than `s` holds separators, empty pieces included.
pub open spec fn split(s: Seq<char>, sep: char) -> Seq<Seq<char>>
    decreases s.len(),
{
    if s.len() == 0 {
        seq![Seq::<char>::empty()]
    } else {
        let parts = split(s.drop_last(), sep);
        if s.last() == sep {
            parts.push(Seq::<char>::empty())
        } else {
            parts.update(parts.len() - 1, parts.last().push(s.last()))
        }
    }
}

/// The index of the first `c` in `s`, if any.
pub open spec fn index_of(s: Seq<char>, c: char) -> Option<int>
    decreases s.len(),
{
    if s.len() == 0 {
        None
    } else {
        match index_of(s.drop_last(), c) {
            Some(i) => Some(i),
            None => if s.last() == c {
                Some(s.len() - 1)
            } else {
                None
            },
        }
    }
}

/// The index of the last `c` in `s`, if any.
pub open spec fn last_index_of(s: Seq<char>, c: char) -> Option<int>
    decreases s.len(),
{
    if s.len() == 0 {
        None
    } else if s.last() == c {
        Some(s.len() - 1)
    } else {
        last_index_of(s.drop_last(), c)
    }
}

/// Whether `s` begins with `p`.
pub open spec fn starts_with(s: Seq<char>, p: Seq<char>) -> bool {
    p.len() <= s.len() && s.take(p.len() as int) == p
}

/// Whether `s` ends with `p`.
pub open spec fn ends_with(s: Seq<char>, p: Seq<char>) -> bool {
    p.len() <= s.len() && s.skip(s.len() - p.len()) == p
}

/// The code of `c` with an ASCII upper-case letter made lower case, any other char unchanged.
pub open spec fn ascii_lower(c: char) -> u32 {
    if 'A' <= c && c <= 'Z' {
        ((c as u32) + 32) as u32
    } else {
        c as u32
    }
}

/// Whether `a` and `b` are equal once ASCII letters are folded to lower case.
pub open spec fn eq_ignore_ascii_case(a: Seq<char>, b: Seq<char>) -> bool {
    a.len() == b.len() && forall|i: int| 0 <= i < a.len() ==> ascii_lower(a[i]) == ascii_lower(b[i])
}

/// The decimal digit that stands for `d`, for `d < 10`.
pub open spec fn digit_char(d: nat) -> char {
    ((d + 48) as u32) as char
}

/// The decimal numeral of `n`, without leading zeros.
pub open spec fn decimal(n: nat) -> Seq<char>
    decreases n,
{
    if n < 10 {
        seq![digit_char(n)]
    } else {
        decimal(n / 10).push(digit_char(n % 10))
    }
}

/// `split` never yields an empty list of pieces.
pub proof fn lemma_split_nonempty(s: Seq<char>, sep: char)
    ensures
        split(s, sep).len() >= 1,
    decreases s.len(),
{
    if s.len() > 0 {
        lemma_split_nonempty(s.drop_last(), sep);
    }
}

/// The first index of `c` in a prefix that holds `c` is its first index in the whole.
pub proof fn lemma_index_of_prefix(s: Seq<char>, n: int, c: char)
    requires
        0 <= n <= s.len(),
        index_of(s.take(n), c) is Some,
    ensures
        index_of(s, c) == index_of(s.take(n), c),
    decreases s.len(),
{
    if n == s.len() {
        assert(s.take(n) =~= s);
    } else {
        assert(s.drop_last().take(n) =~= s.take(n));
        lemma_index_of_prefix(s.drop_last(), n, c);
    }
}
/// A text without the separator splits into itself alone.
pub proof fn lemma_split_without_separator(s: Seq<char>, sep: char)
    requires
        index_of(s, sep) is None,
    ensures
        split(s, sep) == seq![s],
    decreases s.len(),
{
    if s.len() == 0 {
        assert(s =~= Seq::<char>::empty());
        assert(split(s, sep) =~= seq![s]);
    } else {
        assert(index_of(s.drop_last(), sep) is None);
        assert(s.last() != sep);
        lemma_split_without_separator(s.drop_last(), sep);
        let parts = split(s.drop_last(), sep);
        assert(parts.last() == s.drop_last());
        assert(s.drop_last().push(s.last()) =~= s);
        assert(split(s, sep) =~= seq![s]);
    }
}

/// Splitting a text joined by the separator splits each side.
pub proof fn lemma_split_concat(a: Seq<char>, b: Seq<char>, sep: char)
    ensures
        split(a + seq![sep] + b, sep) == split(a, sep) + split(b, sep),
    decreases b.len(),
{
    let s = a + seq![sep] + b;
    if b.len() == 0 {
        assert(s.drop_last() =~= a);
        assert(b =~= Seq::<char>::empty());
        assert(split(s, sep) =~= split(a, sep) + split(b, sep));
    } else {
        assert(s.drop_last() =~= a + seq![sep] + b.drop_last());
        lemma_split_concat(a, b.drop_last(), sep);
        lemma_split_nonempty(b.drop_last(), sep);
        lemma_split_nonempty(a, sep);
        assert(split(s, sep) =~= split(a, sep) + split(b, sep));
    }
}

/// Whether `a` and `b` differ at most in the case of ASCII letters.
pub open spec fn same_but_ascii_case(a: Seq<char>, b: Seq<char>) -> bool {
    a.len() == b.len() && forall|i: int| 0 <= i < a.len() ==> ascii_lower(#[trigger] a[i]) == ascii_lower(b[i])
}

/// A char that is no ASCII letter is the only char that folds to it.
pub proof fn lemma_fold_fixes_non_letters(c: char, d: char)
    requires
        ascii_lower(c) == ascii_lower(d),
        !('A' <= c && c <= 'Z'),
        !('a' <= c && c <= 'z'),
    ensures
        c == d,
{
}

/// White space and separators are kept where ASCII case alone differs.
proof fn lemma_fold_keeps_space(c: char, d: char)
    requires
        ascii_lower(c) == ascii_lower(d),
    ensures
        is_space(c) == is_space(d),
{
    if is_space(c) {
        lemma_fold_fixes_non_letters(c, d);
    }
    if is_space(d) {
        lemma_fold_fixes_non_letters(d, c);
    }
}

/// Texts that differ only in ASCII case split into pieces that do, at a
/// separator that is no ASCII letter.
pub proof fn lemma_split_keeps_case_difference(a: Seq<char>, b: Seq<char>, sep: char)
    requires
        same_but_ascii_case(a, b),
        !('A' <= sep && sep <= 'Z'),
        !('a' <= sep && sep <= 'z'),
    ensures
        split(a, sep).len() == split(b, sep).len(),
        forall|k: int| 0 <= k < split(a, sep).len() ==> same_but_ascii_case(#[trigger] split(a, sep)[k], split(b, sep)[k]),
    decreases a.len(),
{
    if a.len() > 0 {
        assert(same_but_ascii_case(a.drop_last(), b.drop_last())) by {
            assert forall|i: int| 0 <= i < a.drop_last().len() implies ascii_lower(#[trigger] a.drop_last()[i]) == ascii_lower(b.drop_last()[i]) by {
                assert(a.drop_last()[i] == a[i]);
                assert(ascii_lower(a[i]) == ascii_lower(b[i]));
            }
        }
        lemma_split_keeps_case_difference(a.drop_last(), b.drop_last(), sep);
        lemma_split_nonempty(a.drop_last(), sep);
        assert(ascii_lower(a[a.len() - 1]) == ascii_lower(b[b.len() - 1]));
        if a.last() == sep {
            lemma_fold_fixes_non_letters(sep, b.last());
        }
        if b.last() == sep {
            lemma_fold_fixes_non_letters(sep, a.last());
        }
        let pa = split(a.drop_last(), sep);
        let pb = split(b.drop_last(), sep);
        if a.last() != sep {
            let x = pa.last().push(a.last());
            let y = pb.last().push(b.last());
            assert(same_but_ascii_case(pa[pa.len() - 1], pb[pb.len() - 1]));
            assert(same_but_ascii_case(x, y)) by {
                assert forall|i: int| 0 <= i < x.len() implies ascii_lower(#[trigger] x[i]) == ascii_lower(y[i]) by {
                    if i < x.len() - 1 {
                        assert(x[i] == pa[pa.len() - 1][i]);
                        assert(y[i] == pb[pb.len() - 1][i]);
                    }
                }
            }
        }
        assert forall|k: int| 0 <= k < split(a, sep).len() implies same_but_ascii_case(#[trigger] split(a, sep)[k], split(b, sep)[k]) by {
            if k < pa.len() - 1 {
                assert(same_but_ascii_case(pa[k], pb[k]));
            } else if a.last() == sep && k == pa.len() - 1 {
                assert(same_but_ascii_case(pa[k], pb[k]));
            }
        }
    }
}

/// Texts that differ only in ASCII case keep doing so once white space is trimmed.
pub proof fn lemma_trim_keeps_case_difference(a: Seq<char>, b: Seq<char>)
    requires
        same_but_ascii_case(a, b),
    ensures
        same_but_ascii_case(trim(a), trim(b)),
{
    lemma_trim_start_keeps_case_difference(a, b);
    lemma_trim_end_keeps_case_difference(trim_start(a), trim_start(b));
}

proof fn lemma_trim_start_keeps_case_difference(a: Seq<char>, b: Seq<char>)
    requires
        same_but_ascii_case(a, b),
    ensures
        same_but_ascii_case(trim_start(a), trim_start(b)),
    decreases a.len(),
{
    if a.len() > 0 {
        assert(ascii_lower(a[0]) == ascii_lower(b[0]));
        lemma_fold_keeps_space(a[0], b[0]);
        if is_space(a[0]) {
            assert(same_but_ascii_case(a.drop_first(), b.drop_first())) by {
                assert forall|i: int| 0 <= i < a.drop_first().len() implies ascii_lower(#[trigger] a.drop_first()[i]) == ascii_lower(b.drop_first()[i]) by {
                    assert(ascii_lower(a[i + 1]) == ascii_lower(b[i + 1]));
                }
            }
            lemma_trim_start_keeps_case_difference(a.drop_first(), b.drop_first());
        }
    }
}

proof fn lemma_trim_end_keeps_case_difference(a: Seq<char>, b: Seq<char>)
    requires
        same_but_ascii_case(a, b),
    ensures
        same_but_ascii_case(trim_end(a), trim_end(b)),
    decreases a.len(),
{
    if a.len() > 0 {
        assert(ascii_lower(a[a.len() - 1]) == ascii_lower(b[b.len() - 1]));
        lemma_fold_keeps_space(a.last(), b.last());
        if is_space(a.last()) {
            assert(same_but_ascii_case(a.drop_last(), b.drop_last())) by {
                assert forall|i: int| 0 <= i < a.drop_last().len() implies ascii_lower(#[trigger] a.drop_last()[i]) == ascii_lower(b.drop_last()[i]) by {
                    assert(ascii_lower(a[i]) == ascii_lower(b[i]));
                }
            }
            lemma_trim_end_keeps_case_difference(a.drop_last(), b.drop_last());
        }
    }
}

/// The characters of `text`, in order.
pub fn chars_of(text: &str) -> (out: Vec<char>)
    ensures
        out@ == text@,
{
    let mut out: Vec<char> = Vec::new();
    for c in it: text.chars()
        invariant
            out@ == it.seq().take(it.index() as int),
    {
        out.push(c);
    }
    out
}

/// Whether `c` is white space.
pub fn is_space_char(c: char) -> (r: bool)
    ensures
        r == is_space(c),
{
    ('\u{9}' <= c && c <= '\u{d}') || c == ' ' || c == '\u{85}' || c == '\u{a0}' || c == '\u{1680}'
        || ('\u{2000}' <= c && c <= '\u{200a}') || c == '\u{2028}' || c == '\u{2029}' || c
        == '\u{202f}' || c == '\u{205f}' || c == '\u{3000}'
}

/// The window `[lo, hi)` of `v` with white space trimmed at both ends.
pub fn trim_window(v: &Vec<char>, lo: usize, hi: usize) -> (r: (usize, usize))
    requires
        lo <= hi <= v.len(),
    ensures
        lo <= r.0 <= r.1 <= hi,
        v@.subrange(r.0 as int, r.1 as int) == trim(v@.subrange(lo as int, hi as int)),
{
    let mut a = lo;
    while a < hi && is_space_char(v[a])
        invariant
            lo <= a <= hi <= v.len(),
            trim_start(v@.subrange(lo as int, hi as int)) == trim_start(v@.subrange(a as int, hi as int)),
        decreases hi - a,
    {
        assert(v@.subrange(a as int, hi as int).drop_first() =~= v@.subrange(a + 1, hi as int));
        a = a + 1;
    }
    assert(trim_start(v@.subrange(a as int, hi as int)) == v@.subrange(a as int, hi as int));
    let mut b = hi;
    while b > a && is_space_char(v[b - 1])
        invariant
            lo <= a <= b <= hi <= v.len(),
            trim(v@.subrange(lo as int, hi as int)) == trim_end(v@.subrange(a as int, b as int)),
        decreases b - a,
    {
        assert(v@.subrange(a as int, b as int).drop_last() =~= v@.subrange(a as int, b - 1));
        b = b - 1;
    }
    (a, b)
}

/// The pieces of the window `[lo, hi)` of `v` between occurrences of `sep`, as windows.
pub fn split_windows(v: &Vec<char>, lo: usize, hi: usize, sep: char) -> (r: Vec<(usize, usize)>)
    requires
        lo <= hi <= v.len(),
    ensures
        r.len() == split(v@.subrange(lo as int, hi as int), sep).len(),
        forall|k: int|
            0 <= k < r.len() ==> lo <= (#[trigger] r[k]).0 <= r[k].1 <= hi && v@.subrange(
                r[k].0 as int,
                r[k].1 as int,
            ) == split(v@.subrange(lo as int, hi as int), sep)[k],
{
    let mut done: Vec<(usize, usize)> = Vec::new();
    let mut start = lo;
    let mut i = lo;
    assert(v@.subrange(lo as int, lo as int) =~= Seq::<char>::empty());
    while i < hi
        invariant
            lo <= start <= i <= hi <= v.len(),
            split(v@.subrange(lo as int, i as int), sep).len() == done.len() + 1,
            split(v@.subrange(lo as int, i as int), sep).last() == v@.subrange(start as int, i as int),
            forall|k: int|
                0 <= k < done.len() ==> lo <= (#[trigger] done[k]).0 <= done[k].1 <= start
                    && v@.subrange(done[k].0 as int, done[k].1 as int) == split(
                    v@.subrange(lo as int, i as int),
                    sep,
                )[k],
        decreases hi - i,
    {
        assert(v@.subrange(lo as int, i + 1).drop_last() =~= v@.subrange(lo as int, i as int));
        if v[i] == sep {
            done.push((start, i));
            start = i + 1;
            assert(v@.subrange(start as int, i + 1) =~= Seq::<char>::empty());
        } else {
            assert(v@.subrange(start as int, i + 1) =~= v@.subrange(start as int, i as int).push(v[i as int]));
        }
        i = i + 1;
    }
    done.push((start, hi));
    done
}

/// The first index of `c` in the window `[lo, hi)` of `v`, counted from `lo`.
pub fn index_in_window(v: &Vec<char>, lo: usize, hi: usize, c: char) -> (r: Option<usize>)
    requires
        lo <= hi <= v.len(),
    ensures
        match r {
            Some(j) => lo <= j < hi && v@[j as int] == c && index_of(v@.subrange(lo as int, hi as int), c)
                == Some(j - lo),
            None => index_of(v@.subrange(lo as int, hi as int), c) is None,
        },
{
    let mut i = lo;
    assert(v@.subrange(lo as int, lo as int) =~= Seq::<char>::empty());
    while i < hi
        invariant
            lo <= i <= hi <= v.len(),
            index_of(v@.subrange(lo as int, i as int), c) is None,
        decreases hi - i,
    {
        assert(v@.subrange(lo as int, i + 1).drop_last() =~= v@.subrange(lo as int, i as int));
        if v[i] == c {
            proof {
                let w = v@.subrange(lo as int, hi as int);
                assert(w.take(i + 1 - lo) =~= v@.subrange(lo as int, i + 1));
                lemma_index_of_prefix(w, i + 1 - lo, c);
            }
            return Some(i);
        }
        i = i + 1;
    }
    assert(v@.subrange(lo as int, i as int) =~= v@.subrange(lo as int, hi as int));
    None
}

/// Whether `a` and `b` hold the same characters.
pub fn same_text(a: &str, b: &str) -> (r: bool)
    ensures
        r == (a@ == b@),
{
    let x = chars_of(a);
    let y = chars_of(b);
    if x.len() != y.len() {
        return false;
    }
    let mut k: usize = 0;
    while k < x.len()
        invariant
            x@ == a@,
            y@ == b@,
            x.len() == y.len(),
            k <= x.len(),
            forall|j: int| 0 <= j < k ==> x@[j] == y@[j],
        decreases x.len() - k,
    {
        if x[k] != y[k] {
            assert(a@[k as int] != b@[k as int]);
            return false;
        }
        k = k + 1;
    }
    assert(x@ =~= y@);
    true
}

/// A fresh copy of `s`.
pub fn copy_text(s: &str) -> (r: String)
    ensures
        r@ == s@,
{
    String::from_str(s)
}

/// Whether the window `[lo, hi)` of `v` begins with `p`.
pub fn window_starts_with(v: &Vec<char>, lo: usize, hi: usize, p: &Vec<char>) -> (r: bool)
    requires
        lo <= hi <= v.len(),
    ensures
        r == starts_with(v@.subrange(lo as int, hi as int), p@),
{
    if p.len() > hi - lo {
        return false;
    }
    let mut k: usize = 0;
    while k < p.len()
        invariant
            p.len() <= hi - lo,
            lo <= hi <= v.len(),
            k <= p.len(),
            forall|j: int| 0 <= j < k ==> v@[lo + j] == p@[j],
        decreases p.len() - k,
    {
        if v[lo + k] != p[k] {
            assert(v@.subrange(lo as int, hi as int).take(p.len() as int)[k as int] != p@[k as int]);
            return false;
        }
        k = k + 1;
    }
    assert(v@.subrange(lo as int, hi as int).take(p.len() as int) =~= p@);
    true
}

/// Whether the window `[lo, hi)` of `v` ends with `p`.
pub fn window_ends_with(v: &Vec<char>, lo: usize, hi: usize, p: &Vec<char>) -> (r: bool)
    requires
        lo <= hi <= v.len(),
    ensures
        r == ends_with(v@.subrange(lo as int, hi as int), p@),
{
    if p.len() > hi - lo {
        return false;
    }
    let start = hi - p.len();
    let mut k: usize = 0;
    while k < p.len()
        invariant
            p.len() <= hi - lo,
            start == hi - p.len(),
            lo <= hi <= v.len(),
            k <= p.len(),
            forall|j: int| 0 <= j < k ==> v@[start + j] == p@[j],
        decreases p.len() - k,
    {
        if v[start + k] != p[k] {
            let ghost w = v@.subrange(lo as int, hi as int);
            assert(w.skip(w.len() - p.len())[k as int] != p@[k as int]);
            return false;
        }
        k = k + 1;
    }
    let ghost w = v@.subrange(lo as int, hi as int);
    assert(w.skip(w.len() - p.len()) =~= p@);
    true
}

/// The code of `c` with an ASCII upper-case letter made lower case.
pub fn ascii_lower_code(c: char) -> (r: u32)
    ensures
        r == ascii_lower(c),
{
    if 'A' <= c && c <= 'Z' {
        (c as u32) + 32
    } else {
        c as u32
    }
}

/// Whether the window `[lo, hi)` of `v` equals `b` once ASCII letters are folded to lower case.
pub fn window_eq_ignore_ascii_case(v: &Vec<char>, lo: usize, hi: usize, b: &Vec<char>) -> (r: bool)
    requires
        lo <= hi <= v.len(),
    ensures
        r == eq_ignore_ascii_case(v@.subrange(lo as int, hi as int), b@),
{
    if hi - lo != b.len() {
        return false;
    }
    let mut k: usize = 0;
    while k < b.len()
        invariant
            hi - lo == b.len(),
            lo <= hi <= v.len(),
            k <= b.len(),
            forall|j: int| 0 <= j < k ==> ascii_lower(v@[lo + j]) == ascii_lower(b@[j]),
        decreases b.len() - k,
    {
        if ascii_lower_code(v[lo + k]) != ascii_lower_code(b[k]) {
            assert(v@.subrange(lo as int, hi as int)[k as int] == v@[lo + k]);
            return false;
        }
        k = k + 1;
    }
    assert forall|j: int| 0 <= j < b.len() implies ascii_lower(v@.subrange(lo as int, hi as int)[j]) == ascii_lower(b@[j]) by {
        assert(v@.subrange(lo as int, hi as int)[j] == v@[lo + j]);
    }
    true
}

/// Whether the window `[lo, hi)` of `v` is exactly `p`.
pub fn window_equals(v: &Vec<char>, lo: usize, hi: usize, p: &Vec<char>) -> (r: bool)
    requires
        lo <= hi <= v.len(),
    ensures
        r == (v@.subrange(lo as int, hi as int) == p@),
{
    if hi - lo != p.len() {
        return false;
    }
    let r = window_starts_with(v, lo, hi, p);
    assert(v@.subrange(lo as int, hi as int).take(p.len() as int) =~= v@.subrange(lo as int, hi as int));
    r
}

/// The decimal digit for `d < 10`, as a one-char string.
fn digit_text(d: u128) -> (r: &'static str)
    requires
        d < 10,
    ensures
        r@ == seq![digit_char(d as nat)],
{
    proof {
        reveal_strlit("0");
        reveal_strlit("1");
        reveal_strlit("2");
        reveal_strlit("3");
        reveal_strlit("4");
        reveal_strlit("5");
        reveal_strlit("6");
        reveal_strlit("7");
        reveal_strlit("8");
        reveal_strlit("9");
    }
    if d == 0 { "0" } else if d == 1 { "1" } else if d == 2 { "2" } else if d == 3 { "3" }
    else if d == 4 { "4" } else if d == 5 { "5" } else if d == 6 { "6" } else if d == 7 { "7" }
    else if d == 8 { "8" } else { "9" }
}

/// Appends the decimal numeral of `n` to `out`.
pub fn push_decimal(out: &mut String, n: u128)
    ensures
        final(out)@ == old(out)@ + decimal(n as nat),
    decreases n,
{
    if n >= 10 {
        push_decimal(out, n / 10);
    }
    out.append(digit_text(n % 10));
}

} // verus!
