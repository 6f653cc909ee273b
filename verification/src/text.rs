//! Character-sequence helpers shared by the data model.

use vstd::prelude::*;

use crate::maps::{find_first, lemma_find_first};

verus! {

/// Index of the last occurrence of `k` in `s`, or `-1` if `k` is absent.
pub open spec fn find_last<T>(s: Seq<T>, k: T) -> int
    decreases s.len(),
{
    if s.len() == 0 {
        -1
    } else if s.last() == k {
        s.len() - 1
    } else {
        find_last(s.drop_last(), k)
    }
}

/// `find_last` returns `-1` exactly when the key is absent, and otherwise
/// the last position holding the key.
pub proof fn lemma_find_last<T>(s: Seq<T>, k: T)
    ensures
        s.contains(k) <==> 0 <= find_last(s, k) < s.len(),
        s.contains(k) ==> s[find_last(s, k)] == k,
        forall|i: int| find_last(s, k) < i < s.len() ==> s[i] != k,
        !s.contains(k) ==> find_last(s, k) == -1,
    decreases s.len(),
{
    if s.len() > 0 && s.last() != k {
        lemma_find_last(s.drop_last(), k);
        assert forall|i: int| 0 <= i < s.len() && s[i] == k implies 0 <= find_last(s, k) by {
            if i < s.len() - 1 {
                assert(s.drop_last()[i] == k);
                assert(s.drop_last().contains(k));
            }
        }
        if s.contains(k) {
            let j = choose|j: int| 0 <= j < s.len() && s[j] == k;
            assert(s.drop_last()[j] == k);
            assert(s.drop_last().contains(k));
        }
        assert forall|i: int| find_last(s, k) < i < s.len() implies s[i] != k by {
            if i < s.len() - 1 {
                assert(s.drop_last()[i] != k);
            }
        }
    }
}

/// The part of `s` before the first occurrence of `sep` (all of `s` if `sep`
/// does not occur).
pub open spec fn before_first(s: Seq<char>, sep: char) -> Seq<char> {
    if find_first(s, sep) < 0 {
        s
    } else {
        s.take(find_first(s, sep))
    }
}

/// The part of `s` after the last occurrence of `sep` (all of `s` if `sep`
/// does not occur).
pub open spec fn after_last(s: Seq<char>, sep: char) -> Seq<char> {
    if find_last(s, sep) < 0 {
        s
    } else {
        s.skip(find_last(s, sep) + 1)
    }
}

/// Extracts the part of `s` before the first occurrence of `sep`.
pub fn str_before_first(s: &str, sep: char) -> (r: String)
    ensures
        r@ == before_first(s@, sep),
{
    proof {
        lemma_find_first(s@, sep);
    }
    let n = s.unicode_len();
    let mut i: usize = 0;
    while i < n && s.get_char(i) != sep
        invariant
            n == s@.len(),
            i <= n,
            forall|j: int| 0 <= j < i ==> s@[j] != sep,
        decreases n - i,
    {
        i = i + 1;
    }
    proof {
        if i < n {
            assert(s@[i as int] == sep);
            assert(s@.contains(sep));
            assert(find_first(s@, sep) == i);
        } else {
            assert(!s@.contains(sep)) by {
                if s@.contains(sep) {
                    let j = choose|j: int| 0 <= j < s@.len() && s@[j] == sep;
                    assert(s@[j] != sep);
                }
            }
        }
        assert(s@.subrange(0, i as int) =~= before_first(s@, sep));
    }
    s.substring_char(0, i).to_owned()
}

/// Extracts the part of `s` after the last occurrence of `sep`.
pub fn str_after_last(s: &str, sep: char) -> (r: String)
    ensures
        r@ == after_last(s@, sep),
{
    proof {
        lemma_find_last(s@, sep);
    }
    let n = s.unicode_len();
    let mut i: usize = n;
    while i > 0 && s.get_char(i - 1) != sep
        invariant
            n == s@.len(),
            i <= n,
            forall|j: int| i <= j < n ==> s@[j] != sep,
        decreases i,
    {
        i = i - 1;
    }
    proof {
        if i > 0 {
            assert(s@[i - 1] == sep);
            assert(s@.contains(sep));
            assert(find_last(s@, sep) == i - 1);
        } else {
            assert(!s@.contains(sep)) by {
                if s@.contains(sep) {
                    let j = choose|j: int| 0 <= j < s@.len() && s@[j] == sep;
                    assert(s@[j] != sep);
                }
            }
        }
        assert(s@.subrange(i as int, n as int) =~= after_last(s@, sep));
    }
    s.substring_char(i, n).to_owned()
}


/// Relies on std's `String::push`, whose documentation says that it appends
/// the given character to the end of the string.
pub assume_specification [ String::push ] (s: &mut String, ch: char)
    ensures
        final(s)@ == old(s)@.push(ch),
;

/// An ASCII capital letter mapped to its small form; any other character
/// unchanged.
pub open spec fn lower_char(c: char) -> char {
    if 'A' <= c && c <= 'Z' {
        (((c as u8) + 32) as u8) as char
    } else {
        c
    }
}

/// Lowercases the ASCII letters of `s`, leaving every other character as it
/// is.
pub fn ascii_lowercase(s: &str) -> (r: String)
    ensures
        r@ == s@.map_values(|c: char| lower_char(c)),
{
    let n = s.unicode_len();
    let mut out = String::new();
    let mut i: usize = 0;
    while i < n
        invariant
            n == s@.len(),
            i <= n,
            out@ == s@.take(i as int).map_values(|c: char| lower_char(c)),
        decreases n - i,
    {
        let c = s.get_char(i);
        let lowered: char = if 'A' <= c && c <= 'Z' {
            (((c as u8) + 32) as u8) as char
        } else {
            c
        };
        out.push(lowered);
        proof {
            assert(out@ =~= s@.take(i + 1).map_values(|c: char| lower_char(c)));
        }
        i = i + 1;
    }
    proof {
        assert(s@.take(n as int) =~= s@);
    }
    out
}

/// The pieces of `s` between occurrences of `sep`: one piece when `sep` is
/// absent, and the piece before the first `sep` followed by the pieces of
/// the remainder otherwise.
pub open spec fn split_by(s: Seq<char>, sep: char) -> Seq<Seq<char>>
    decreases s.len(),
    via split_by_decreases
{
    if !s.contains(sep) {
        seq![s]
    } else {
        let f = crate::maps::find_first(s, sep);
        seq![s.take(f)] + split_by(s.skip(f + 1), sep)
    }
}

#[via_fn]
proof fn split_by_decreases(s: Seq<char>, sep: char) {
    if s.contains(sep) {
        lemma_find_first(s, sep);
    }
}

/// Splits `s` at every occurrence of `sep`.
pub fn str_split(s: &str, sep: char) -> (r: Vec<String>)
    ensures
        r@.map_values(|p: String| p@) == split_by(s@, sep),
    decreases s@.len(),
{
    proof {
        lemma_find_first(s@, sep);
    }
    let n = s.unicode_len();
    let mut i: usize = 0;
    while i < n && s.get_char(i) != sep
        invariant
            n == s@.len(),
            i <= n,
            forall|j: int| 0 <= j < i ==> s@[j] != sep,
        decreases n - i,
    {
        i = i + 1;
    }
    if i == n {
        proof {
            assert(!s@.contains(sep)) by {
                if s@.contains(sep) {
                    let j = choose|j: int| 0 <= j < s@.len() && s@[j] == sep;
                    assert(s@[j] != sep);
                }
            }
        }
        let mut out: Vec<String> = Vec::new();
        out.push(s.to_owned());
        proof {
            assert(out@.map_values(|p: String| p@) =~= split_by(s@, sep));
        }
        out
    } else {
        proof {
            assert(s@[i as int] == sep);
            assert(s@.contains(sep));
            assert(crate::maps::find_first(s@, sep) == i);
        }
        let piece = s.substring_char(0, i).to_owned();
        let rest = s.substring_char(i + 1, n);
        let mut out: Vec<String> = Vec::new();
        out.push(piece);
        let mut tail = str_split(rest, sep);
        let ghost tail_view = tail@.map_values(|p: String| p@);
        out.append(&mut tail);
        proof {
            assert(s@.subrange(0, i as int) =~= s@.take(i as int));
            assert(rest@ =~= s@.skip(i + 1));
            assert(out@.map_values(|p: String| p@) =~= seq![s@.take(i as int)] + tail_view);
            assert(out@.map_values(|p: String| p@) =~= split_by(s@, sep));
        }
        out
    }
}


/// The decimal digit character of `n` (meaningful for `0 <= n <= 9`).
pub open spec fn dec_digit(n: int) -> char {
    if n == 0 {
        '0'
    } else if n == 1 {
        '1'
    } else if n == 2 {
        '2'
    } else if n == 3 {
        '3'
    } else if n == 4 {
        '4'
    } else if n == 5 {
        '5'
    } else if n == 6 {
        '6'
    } else if n == 7 {
        '7'
    } else if n == 8 {
        '8'
    } else {
        '9'
    }
}

/// The decimal rendering of a nonnegative number, most significant digit
/// first.
pub open spec fn dec_str(n: int) -> Seq<char>
    decreases n,
{
    if n < 10 {
        seq![dec_digit(n)]
    } else {
        dec_str(n / 10).push(dec_digit(n % 10))
    }
}

/// Renders `n` in decimal.
pub fn usize_to_string(n: usize) -> (r: String)
    ensures
        r@ == dec_str(n as int),
    decreases n,
{
    let digit: char = match n % 10 {
        0 => '0',
        1 => '1',
        2 => '2',
        3 => '3',
        4 => '4',
        5 => '5',
        6 => '6',
        7 => '7',
        8 => '8',
        _ => '9',
    };
    if n < 10 {
        let mut r = String::new();
        r.push(digit);
        proof {
            assert(r@ =~= dec_str(n as int));
        }
        r
    } else {
        let mut r = usize_to_string(n / 10);
        r.push(digit);
        r
    }
}

/// `s` left-padded with zeros to at least three characters.
pub open spec fn pad3(s: Seq<char>) -> Seq<char> {
    if s.len() >= 3 {
        s
    } else if s.len() == 2 {
        seq!['0'] + s
    } else if s.len() == 1 {
        seq!['0', '0'] + s
    } else {
        seq!['0', '0', '0']
    }
}

/// Renders `n` in decimal, zero-padded to at least three digits.
pub fn usize_to_string_pad3(n: usize) -> (r: String)
    ensures
        r@ == pad3(dec_str(n as int)),
{
    let plain = usize_to_string(n);
    let mut r = String::new();
    if plain.as_str().unicode_len() >= 3 {
        return plain;
    }
    if plain.as_str().unicode_len() == 2 {
        r.push('0');
    } else if plain.as_str().unicode_len() == 1 {
        r.push('0');
        r.push('0');
    } else {
        r.push('0');
        r.push('0');
        r.push('0');
    }
    r.append(plain.as_str());
    proof {
        assert(r@ =~= pad3(dec_str(n as int)));
    }
    r
}

/// Whether `pat` occurs in `s` as a contiguous run.
pub open spec fn has_substring(s: Seq<char>, pat: Seq<char>) -> bool {
    exists|k: int| 0 <= k <= s.len() - pat.len() && #[trigger] s.subrange(k, k + pat.len()) == pat
}

/// Searches `s` for the run `pat`.
pub fn str_has_substring(s: &str, pat: &str) -> (r: bool)
    ensures
        r == has_substring(s@, pat@),
{
    let n = s.unicode_len();
    let m = pat.unicode_len();
    if m > n {
        proof {
            if has_substring(s@, pat@) {
                let k = choose|k: int|
                    0 <= k <= s@.len() - pat@.len() && #[trigger] s@.subrange(k, k + pat@.len())
                        == pat@;
            }
        }
        return false;
    }
    let mut k: usize = 0;
    while k <= n - m
        invariant
            n == s@.len(),
            m == pat@.len(),
            m <= n,
            k <= n - m + 1,
            forall|j: int| 0 <= j < k ==> #[trigger] s@.subrange(j, j + pat@.len()) != pat@,
        decreases n - m - k + 1,
    {
        let mut i: usize = 0;
        let mut matches_here = true;
        while i < m
            invariant
                n == s@.len(),
                m == pat@.len(),
                k + m <= n,
                i <= m,
                matches_here == (forall|j: int| 0 <= j < i ==> s@[k + j] == pat@[j]),
            decreases m - i,
        {
            let ghost prev = matches_here;
            if !(s.get_char(k + i) == pat.get_char(i)) {
                matches_here = false;
            }
            proof {
                if matches_here {
                    assert forall|j: int| 0 <= j < i + 1 implies s@[k + j] == pat@[j] by {}
                } else {
                    if prev {
                        assert(s@[k + i] != pat@[i as int]);
                    } else {
                        let j = choose|j: int| 0 <= j < i && s@[k + j] != pat@[j];
                        assert(0 <= j < i + 1 && s@[k + j] != pat@[j]);
                    }
                }
            }
            i = i + 1;
        }
        if matches_here {
            proof {
                assert(s@.subrange(k as int, k + pat@.len()) =~= pat@);
            }
            return true;
        }
        proof {
            if s@.subrange(k as int, k + pat@.len()) == pat@ {
                let j = choose|j: int| 0 <= j < m && s@[k + j] != pat@[j];
                assert(s@.subrange(k as int, k + pat@.len())[j] == pat@[j]);
            }
        }
        k = k + 1;
    }
    proof {
        if has_substring(s@, pat@) {
            let kk = choose|kk: int|
                0 <= kk <= s@.len() - pat@.len() && #[trigger] s@.subrange(kk, kk + pat@.len())
                    == pat@;
            assert(s@.subrange(kk, kk + pat@.len()) != pat@);
        }
    }
    false
}

} // verus!
