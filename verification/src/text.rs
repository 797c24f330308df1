//! Character-level text utilities shared by the payload parsers.

use vstd::prelude::*;
use vstd::string::StrSliceExecFns;

verus! {

/// Relies on the standard library's `String::push`: appends exactly the
/// given character.
pub assume_specification[ String::push ](s: &mut String, c: char)
    ensures
        final(s)@ == old(s)@.push(c),
;

/// The characters of a string slice as a vector.
pub fn chars_vec(s: &str) -> (r: Vec<char>)
    ensures
        r@ == s@,
{
    let n = s.unicode_len();
    let mut r: Vec<char> = Vec::new();
    let mut i: usize = 0;
    while i < n
        invariant
            i <= n,
            n == s@.len(),
            r@ =~= s@.take(i as int),
        decreases n - i,
    {
        r.push(s.get_char(i));
        i = i + 1;
    }
    proof {
        assert(s@.take(n as int) =~= s@);
    }
    r
}

/// A string built from a range of a character vector.
pub fn string_of_range(v: &Vec<char>, from: usize, to: usize) -> (r: String)
    requires
        from <= to <= v@.len(),
    ensures
        r@ == v@.subrange(from as int, to as int),
{
    let mut r = String::new();
    let mut i: usize = from;
    while i < to
        invariant
            from <= i <= to <= v@.len(),
            r@ =~= v@.subrange(from as int, i as int),
        decreases to - i,
    {
        r.push(v[i]);
        proof {
            assert(v@.subrange(from as int, i + 1) =~= v@.subrange(from as int, i as int).push(
                v@[i as int],
            ));
        }
        i = i + 1;
    }
    r
}

/// A copy of a range of a character vector.
pub fn copy_range(v: &Vec<char>, from: usize, to: usize) -> (r: Vec<char>)
    requires
        from <= to <= v@.len(),
    ensures
        r@ == v@.subrange(from as int, to as int),
{
    let mut r: Vec<char> = Vec::new();
    let mut i: usize = from;
    while i < to
        invariant
            from <= i <= to <= v@.len(),
            r@ =~= v@.subrange(from as int, i as int),
        decreases to - i,
    {
        r.push(v[i]);
        proof {
            assert(v@.subrange(from as int, i + 1) =~= v@.subrange(from as int, i as int).push(
                v@[i as int],
            ));
        }
        i = i + 1;
    }
    r
}

/// Whether two character vectors hold the same characters.
pub fn eq_chars(a: &Vec<char>, b: &Vec<char>) -> (r: bool)
    ensures
        r == (a@ == b@),
{
    let n = a.len();
    if n != b.len() {
        return false;
    }
    let mut i: usize = 0;
    while i < n
        invariant
            i <= n,
            n == a@.len() == b@.len(),
            forall|j: int| 0 <= j < i ==> a@[j] == b@[j],
        decreases n - i,
    {
        if a[i] != b[i] {
            return false;
        }
        i = i + 1;
    }
    proof {
        assert(a@ =~= b@);
    }
    true
}

/// ASCII-lowercase of one character.
pub fn lower_char_exec(c: char) -> (r: char)
    ensures
        r == lower_char(c),
{
    if c >= 'A' && c <= 'Z' {
        (c as u8 + 32) as char
    } else {
        c
    }
}

/// ASCII-lowercased copy of a range of a character vector.
pub fn lower_range(v: &Vec<char>, from: usize, to: usize) -> (r: Vec<char>)
    requires
        from <= to <= v@.len(),
    ensures
        r@ == ascii_lower(v@.subrange(from as int, to as int)),
{
    let mut r: Vec<char> = Vec::new();
    let mut i: usize = from;
    while i < to
        invariant
            from <= i <= to <= v@.len(),
            r@.len() == i - from,
            forall|j: int| 0 <= j < i - from ==> r@[j] == lower_char(v@[from + j]),
        decreases to - i,
    {
        r.push(lower_char_exec(v[i]));
        i = i + 1;
    }
    proof {
        assert(r@ =~= ascii_lower(v@.subrange(from as int, to as int)));
    }
    r
}

/// Whether `c` is a decimal digit.
pub open spec fn is_digit(c: char) -> bool {
    '0' <= c && c <= '9'
}

/// Value of a decimal digit.
pub open spec fn digit_val(c: char) -> int {
    c as int - 48
}

/// Whether every character of `s` is a decimal digit.
pub open spec fn all_digits(s: Seq<char>) -> bool {
    forall|i: int| 0 <= i < s.len() ==> is_digit(s[i])
}

/// The number denoted by a string of decimal digits, most significant
/// first.
pub open spec fn digits_val(s: Seq<char>) -> int
    decreases s.len(),
{
    if s.len() == 0 {
        0
    } else {
        digits_val(s.drop_last()) * 10 + digit_val(s.last())
    }
}

/// Whether `p` occurs in `s` starting at position `k`.
pub open spec fn matches_at(s: Seq<char>, p: Seq<char>, k: int) -> bool {
    &&& 0 <= k
    &&& k + p.len() <= s.len()
    &&& forall|i: int| 0 <= i < p.len() ==> s[k + i] == p[i]
}

/// Whether `s` begins with `p`.
pub open spec fn starts_with(s: Seq<char>, p: Seq<char>) -> bool {
    matches_at(s, p, 0)
}

/// Whether `p` occurs anywhere in `s`.
pub open spec fn contains_seq(s: Seq<char>, p: Seq<char>) -> bool {
    exists|k: int| matches_at(s, p, k)
}

/// Whether the characters from `k` on begin with the pattern slice.
pub fn matches_at_exec(s: &Vec<char>, p: &[char], k: usize) -> (r: bool)
    requires
        k <= s@.len(),
    ensures
        r == matches_at(s@, p@, k as int),
{
    let n = s.len();
    let m = p.len();
    if m > n - k {
        return false;
    }
    let mut i: usize = 0;
    while i < m
        invariant
            i <= m,
            k + m <= n,
            n == s@.len(),
            m == p@.len(),
            forall|j: int| 0 <= j < i ==> s@[k + j] == p@[j],
        decreases m - i,
    {
        if s[k + i] != p[i] {
            return false;
        }
        i = i + 1;
    }
    true
}

/// Whether the character vector begins with the pattern slice.
pub fn starts_with_exec(s: &Vec<char>, p: &[char]) -> (r: bool)
    ensures
        r == starts_with(s@, p@),
{
    matches_at_exec(s, p, 0)
}

/// Whether the pattern slice occurs anywhere in the character vector.
pub fn contains_exec(s: &Vec<char>, p: &[char]) -> (r: bool)
    ensures
        r == contains_seq(s@, p@),
{
    let n = s.len();
    if p.len() == 0 {
        proof {
            assert(matches_at(s@, p@, 0));
        }
        return true;
    }
    let mut k: usize = 0;
    while k < n
        invariant
            k <= n,
            n == s@.len(),
            p@.len() >= 1,
            forall|j: int| 0 <= j < k ==> !matches_at(s@, p@, j),
        decreases n - k,
    {
        if matches_at_exec(s, p, k) {
            return true;
        }
        k = k + 1;
    }
    proof {
        assert forall|j: int| matches_at(s@, p@, j) implies false by {
            assert(0 <= j && j + p@.len() <= s@.len());
            assert(j < n);
        }
    }
    false
}

/// The numeric value of a digit range, read as a base-10 number; `None`
/// when a non-digit occurs or the value exceeds `u64`'s range.
pub fn parse_digits_range(v: &Vec<char>, from: usize, to: usize) -> (r: Option<u64>)
    requires
        from <= to <= v@.len(),
    ensures
        ({
            let s = v@.subrange(from as int, to as int);
            match r {
                Some(x) => all_digits(s) && s.len() > 0 && x == digits_val(s) && digits_val(s)
                    <= u64::MAX,
                None => s.len() == 0 || !all_digits(s) || digits_val(s) > u64::MAX,
            }
        }),
{
    let ghost s = v@.subrange(from as int, to as int);
    if from == to {
        return None;
    }
    let mut acc: u64 = 0;
    let mut i: usize = from;
    while i < to
        invariant
            from <= i <= to <= v@.len(),
            s == v@.subrange(from as int, to as int),
            all_digits(s.take(i - from)),
            acc == digits_val(s.take(i - from)),
        decreases to - i,
    {
        let c = v[i];
        proof {
            assert(s.take(i - from + 1).drop_last() =~= s.take(i - from));
            assert(s.take(i - from + 1).last() == v@[i as int]);
        }
        if !(c >= '0' && c <= '9') {
            proof {
                assert(!is_digit(s[i - from]));
            }
            return None;
        }
        let d: u64 = (c as u32 - 48) as u64;
        if acc > (u64::MAX - d) / 10 {
            proof {
                vstd::arithmetic::div_mod::lemma_fundamental_div_mod(
                    u64::MAX - d as int,
                    10,
                );
                vstd::arithmetic::div_mod::lemma_mod_bound(u64::MAX - d as int, 10);
                assert(digits_val(s.take(i - from + 1)) > u64::MAX);
                if all_digits(s) {
                    lemma_digits_val_mono(s, i - from + 1);
                }
            }
            return None;
        }
        acc = acc * 10 + d;
        i = i + 1;
    }
    proof {
        assert(s.take(to - from) =~= s);
    }
    Some(acc)
}

/// First position at or after `k` where `p` occurs in `s`.
pub open spec fn find_from(s: Seq<char>, p: Seq<char>, k: int) -> Option<int>
    decreases s.len() - k + 1,
    when 0 <= k <= s.len()
{
    if k + p.len() > s.len() {
        None
    } else if matches_at(s, p, k) {
        Some(k)
    } else {
        find_from(s, p, k + 1)
    }
}

/// Find the first occurrence of `p` at or after `k`.
pub fn find_from_exec(s: &Vec<char>, p: &[char], k: usize) -> (r: Option<usize>)
    requires
        k <= s@.len(),
    ensures
        match r {
            Some(i) => k <= i && i <= s@.len() && find_from(s@, p@, k as int) == Some(i as int),
            None => find_from(s@, p@, k as int) is None,
        },
{
    let n = s.len();
    let m = p.len();
    let mut j: usize = k;
    loop
        invariant
            k <= j <= n,
            n == s@.len(),
            m == p@.len(),
            k <= s@.len(),
            find_from(s@, p@, k as int) == find_from(s@, p@, j as int),
        decreases n - j,
    {
        if m > n - j {
            return None;
        }
        if matches_at_exec(s, p, j) {
            return Some(j);
        }
        j = j + 1;
    }
}

/// Lowercase of one character, ASCII only.
pub open spec fn lower_char(c: char) -> char {
    if 'A' <= c && c <= 'Z' {
        (((c as u8) + 32) as char)
    } else {
        c
    }
}

/// ASCII-lowercased copy of a character sequence.
pub open spec fn ascii_lower(s: Seq<char>) -> Seq<char> {
    Seq::new(s.len(), |i: int| lower_char(s[i]))
}

/// A found occurrence lies within bounds and matches.
pub proof fn lemma_find_from_bounds(s: Seq<char>, p: Seq<char>, k: int)
    requires
        0 <= k <= s.len(),
    ensures
        match find_from(s, p, k) {
            Some(i) => k <= i && i + p.len() <= s.len() && matches_at(s, p, i),
            None => forall|j: int| k <= j ==> !matches_at(s, p, j),
        },
    decreases s.len() - k,
{
    if k + p.len() > s.len() {
        assert forall|j: int| k <= j implies !matches_at(s, p, j) by {
            if matches_at(s, p, j) {
                assert(j + p.len() <= s.len());
            }
        }
    } else if matches_at(s, p, k) {
    } else {
        lemma_find_from_bounds(s, p, k + 1);
    }
}

/// The pieces of `s` between occurrences of the separator.
pub open spec fn split_at_sep(s: Seq<char>, sep: char) -> Seq<Seq<char>>
    decreases s.len(),
    via split_at_sep_dec
{
    match find_from(s, seq![sep], 0) {
        None => seq![s],
        Some(i) => seq![s.take(i)] + split_at_sep(s.skip(i + 1), sep),
    }
}

#[via_fn]
proof fn split_at_sep_dec(s: Seq<char>, sep: char) {
    lemma_find_from_bounds(s, seq![sep], 0);
}

/// A `Key=Value` segment split at its first '='.
pub open spec fn seg_kv(seg: Seq<char>) -> Option<(Seq<char>, Seq<char>)> {
    match find_from(seg, seq!['='], 0) {
        None => None,
        Some(e) => Some((seg.take(e), seg.skip(e + 1))),
    }
}

/// Searching a suffix finds the same occurrences, shifted.
pub proof fn lemma_find_shift(s: Seq<char>, p: Seq<char>, a: int, k: int)
    requires
        0 <= a <= s.len(),
        0 <= k,
        a + k <= s.len(),
    ensures
        find_from(s.skip(a), p, k) == match find_from(s, p, a + k) {
            Some(i) => Some(i - a),
            None => None::<int>,
        },
    decreases s.len() - a - k,
{
    assert(s.skip(a).len() == s.len() - a);
    assert(forall|j: int| 0 <= j < s.len() - a ==> s.skip(a)[j] == s[a + j]);
    if k + p.len() > s.len() - a {
    } else {
        assert(matches_at(s.skip(a), p, k) <==> matches_at(s, p, a + k)) by {
            if matches_at(s.skip(a), p, k) {
                assert(forall|i: int| 0 <= i < p.len() ==> s[a + k + i] == #[trigger] s.skip(a)[k
                    + i]);
            }
            if matches_at(s, p, a + k) {
                assert(forall|i: int| 0 <= i < p.len() ==> #[trigger] s.skip(a)[k + i] == s[a + k
                    + i]);
            }
        }
        if !matches_at(s.skip(a), p, k) {
            lemma_find_shift(s, p, a, k + 1);
        }
    }
}

/// Views of index ranges into `s`.
pub open spec fn ranges_views(s: Seq<char>, ranges: Seq<(usize, usize)>) -> Seq<Seq<char>> {
    Seq::new(ranges.len(), |i: int| s.subrange(ranges[i].0 as int, ranges[i].1 as int))
}

/// The index ranges of the pieces of `v` from `from` on, split at the
/// separator.
pub fn split_ranges(v: &Vec<char>, from: usize, sep: char) -> (r: Vec<(usize, usize)>)
    requires
        from <= v@.len(),
    ensures
        ranges_views(v@, r@) == split_at_sep(v@.skip(from as int), sep),
        forall|i: int| 0 <= i < r@.len() ==> from <= (#[trigger] r@[i]).0 <= r@[i].1 <= v@.len(),
{
    let n = v.len();
    let mut sepv: Vec<char> = Vec::new();
    sepv.push(sep);
    proof {
        assert(sepv@ =~= seq![sep]);
    }
    let mut out: Vec<(usize, usize)> = Vec::new();
    let mut a: usize = from;
    loop
        invariant_except_break
            from <= a <= n,
            n == v@.len(),
            sepv@ == seq![sep],
            forall|i: int| 0 <= i < out@.len() ==> from <= (#[trigger] out@[i]).0 <= out@[i].1
                <= v@.len(),
            split_at_sep(v@.skip(from as int), sep) == ranges_views(v@, out@) + split_at_sep(
                v@.skip(a as int),
                sep,
            ),
        ensures
            ranges_views(v@, out@) == split_at_sep(v@.skip(from as int), sep),
            forall|i: int| 0 <= i < out@.len() ==> from <= (#[trigger] out@[i]).0 <= out@[i].1
                <= v@.len(),
        decreases n - a,
    {
        let found = find_from_exec(v, sepv.as_slice(), a);
        proof {
            lemma_find_shift(v@, seq![sep], a as int, 0);
            lemma_find_from_bounds(v@.skip(a as int), seq![sep], 0);
        }
        match found {
            Some(i) => {
                let ghost old_out = out@;
                out.push((a, i));
                proof {
                    let rem = v@.skip(a as int);
                    let ri = i - a;
                    assert(find_from(rem, seq![sep], 0) == Some(ri));
                    assert(split_at_sep(rem, sep) == seq![rem.take(ri)] + split_at_sep(
                        rem.skip(ri + 1),
                        sep,
                    ));
                    assert(rem.take(ri) =~= v@.subrange(a as int, i as int));
                    assert(rem.skip(ri + 1) =~= v@.skip(i + 1));
                    assert(ranges_views(v@, out@) =~= ranges_views(v@, old_out) + seq![
                        v@.subrange(a as int, i as int),
                    ]);
                    assert((ranges_views(v@, old_out) + seq![v@.subrange(a as int, i as int)])
                        + split_at_sep(v@.skip(i + 1), sep) =~= ranges_views(v@, old_out) + (seq![
                        v@.subrange(a as int, i as int),
                    ] + split_at_sep(v@.skip(i + 1), sep)));
                }
                a = i + 1;
            },
            None => {
                let ghost old_out = out@;
                out.push((a, n));
                proof {
                    let rem = v@.skip(a as int);
                    assert(find_from(rem, seq![sep], 0) is None);
                    assert(split_at_sep(rem, sep) == seq![rem]);
                    assert(rem =~= v@.subrange(a as int, n as int));
                    assert(ranges_views(v@, out@) =~= ranges_views(v@, old_out) + seq![rem]);
                    assert(ranges_views(v@, old_out) + seq![rem] + Seq::<Seq<char>>::empty()
                        =~= ranges_views(v@, old_out) + seq![rem]);
                }
                break ;
            },
        }
    }
    out
}

/// Appending digits never decreases the denoted value.
proof fn lemma_digits_val_mono(s: Seq<char>, k: int)
    requires
        0 < k <= s.len(),
        all_digits(s),
    ensures
        digits_val(s) >= digits_val(s.take(k)),
        digits_val(s) >= 0,
    decreases s.len() - k,
{
    lemma_digits_val_nonneg(s);
    if k < s.len() {
        lemma_digits_val_mono(s, k + 1);
        assert(s.take(k + 1).drop_last() =~= s.take(k));
        assert(all_digits(s.take(k))) by {
            assert(forall|i: int| 0 <= i < k ==> s.take(k)[i] == s[i]);
        }
        lemma_digits_val_nonneg(s.take(k));
        let v = digits_val(s.take(k));
        assert(v * 10 >= v) by (nonlinear_arith)
            requires
                v >= 0,
        ;
        assert(digits_val(s.take(k + 1)) >= digits_val(s.take(k)));
    } else {
        assert(s.take(k) =~= s);
    }
}

/// A digit string denotes a nonnegative number.
proof fn lemma_digits_val_nonneg(s: Seq<char>)
    requires
        all_digits(s),
    ensures
        digits_val(s) >= 0,
    decreases s.len(),
{
    if s.len() > 0 {
        assert(all_digits(s.drop_last())) by {
            assert(forall|i: int| 0 <= i < s.len() - 1 ==> s.drop_last()[i] == s[i]);
        }
        lemma_digits_val_nonneg(s.drop_last());
        vstd::arithmetic::mul::lemma_mul_nonnegative(digits_val(s.drop_last()), 10);
    }
}

} // verus!
