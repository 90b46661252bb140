//! Near-duplicate detection: numeric literals are collapsed to a placeholder
//! and exact repeats of the resulting key are counted across the document.

use vstd::prelude::*;
use crate::dom::Paragraph;
use crate::text::chars_to_string;

verus! {

pub open spec fn is_digit(c: char) -> bool {
    '0' <= c && c <= '9'
}

/// End of the run of digits and commas that starts at `p`.
pub open spec fn run_end(s: Seq<char>, p: int) -> int
    decreases s.len() - p,
{
    if 0 <= p < s.len() && (is_digit(s[p]) || s[p] == ',') {
        run_end(s, p + 1)
    } else {
        p
    }
}

/// End of the run of digits that starts at `p`.
pub open spec fn digit_end(s: Seq<char>, p: int) -> int
    decreases s.len() - p,
{
    if 0 <= p < s.len() && is_digit(s[p]) {
        digit_end(s, p + 1)
    } else {
        p
    }
}

/// Whether a numeric literal begins at `i`: an optional sign followed by a
/// digit, or a digit itself.
pub open spec fn starts_number(s: Seq<char>, i: int) -> bool {
    0 <= i < s.len() && (is_digit(s[i]) || ((s[i] == '+' || s[i] == '-') && i + 1 < s.len()
        && is_digit(s[i + 1])))
}

/// End of the numeric literal that begins at `i`: the sign, the first digit,
/// a run of digits and commas, and an optional fraction (a dot followed by
/// at least one digit).
pub open spec fn number_end(s: Seq<char>, i: int) -> int {
    let d = if is_digit(s[i]) {
        i
    } else {
        i + 1
    };
    let j = run_end(s, d + 1);
    if j < s.len() && s[j] == '.' && j + 1 < s.len() && is_digit(s[j + 1]) {
        digit_end(s, j + 2)
    } else {
        j
    }
}

pub proof fn lemma_run_end_bounds(s: Seq<char>, p: int)
    requires
        0 <= p <= s.len(),
    ensures
        p <= run_end(s, p) <= s.len(),
    decreases s.len() - p,
{
    if 0 <= p < s.len() && (is_digit(s[p]) || s[p] == ',') {
        lemma_run_end_bounds(s, p + 1);
    }
}

pub proof fn lemma_digit_end_bounds(s: Seq<char>, p: int)
    requires
        0 <= p <= s.len(),
    ensures
        p <= digit_end(s, p) <= s.len(),
    decreases s.len() - p,
{
    if 0 <= p < s.len() && is_digit(s[p]) {
        lemma_digit_end_bounds(s, p + 1);
    }
}

/// A numeric literal is at least one character long and ends within the text.
pub proof fn lemma_number_end_bounds(s: Seq<char>, i: int)
    requires
        starts_number(s, i),
    ensures
        i < number_end(s, i) <= s.len(),
{
    let d = if is_digit(s[i]) {
        i
    } else {
        i + 1
    };
    lemma_run_end_bounds(s, d + 1);
    let j = run_end(s, d + 1);
    if j < s.len() && s[j] == '.' && j + 1 < s.len() && is_digit(s[j + 1]) {
        lemma_digit_end_bounds(s, j + 2);
    }
}

/// The text from `i` on, with every maximal numeric literal replaced by the
/// single placeholder character `0`.
pub open spec fn strip_from(s: Seq<char>, i: int) -> Seq<char>
    decreases s.len() - i,
    via strip_from_dec
{
    if i < 0 || i >= s.len() {
        Seq::empty()
    } else if starts_number(s, i) {
        seq!['0'] + strip_from(s, number_end(s, i))
    } else {
        seq![s[i]] + strip_from(s, i + 1)
    }
}

#[via_fn]
proof fn strip_from_dec(s: Seq<char>, i: int) {
    if 0 <= i < s.len() && starts_number(s, i) {
        lemma_number_end_bounds(s, i);
    }
}

/// The duplicate-detection key of a text: every numeric literal collapsed to
/// the placeholder `0`.
pub open spec fn strip_numbers(s: Seq<char>) -> Seq<char> {
    strip_from(s, 0)
}

fn is_digit_exec(c: char) -> (r: bool)
    ensures
        r == is_digit(c),
{
    '0' <= c && c <= '9'
}

/// Replace every maximal numeric literal (optional sign, digits with comma
/// grouping, optional decimal fraction) with the placeholder `0`.
pub fn remove_numbers(text: &str) -> (r: String)
    ensures
        r@ == strip_numbers(text@),
{
    let n = text.unicode_len();
    let mut v: Vec<char> = Vec::new();
    let mut k: usize = 0;
    while k < n
        invariant
            n == text@.len(),
            0 <= k <= n,
            v@ == text@.take(k as int),
        decreases n - k,
    {
        v.push(text.get_char(k));
        proof {
            assert(v@ =~= text@.take(k + 1));
        }
        k = k + 1;
    }
    proof {
        assert(v@ =~= text@);
    }
    let mut out: Vec<char> = Vec::new();
    let mut i: usize = 0;
    while i < n
        invariant
            n == v@.len(),
            v@ == text@,
            0 <= i <= n,
            out@ + strip_from(v@, i as int) == strip_numbers(v@),
        decreases n - i,
    {
        let c = v[i];
        let signed_start: bool = (c == '+' || c == '-') && i + 1 < n && is_digit_exec(v[i + 1]);
        if is_digit_exec(c) || signed_start {
            proof {
                assert(starts_number(v@, i as int));
            }
            out.push('0');
            let d: usize = if is_digit_exec(c) {
                i
            } else {
                i + 1
            };
            let mut j: usize = d + 1;
            while j < n && (is_digit_exec(v[j]) || v[j] == ',')
                invariant
                    n == v@.len(),
                    d + 1 <= j <= n,
                    run_end(v@, d + 1) == run_end(v@, j as int),
                decreases n - j,
            {
                j = j + 1;
            }
            proof {
                assert(run_end(v@, j as int) == j);
            }
            let stop: usize = if j < n && v[j] == '.' && j + 1 < n && is_digit_exec(v[j + 1]) {
                let mut m: usize = j + 2;
                while m < n && is_digit_exec(v[m])
                    invariant
                        n == v@.len(),
                        j + 2 <= m <= n,
                        digit_end(v@, j + 2) == digit_end(v@, m as int),
                    decreases n - m,
                {
                    m = m + 1;
                }
                proof {
                    assert(digit_end(v@, m as int) == m);
                }
                m
            } else {
                j
            };
            proof {
                assert(number_end(v@, i as int) == stop);
                lemma_number_end_bounds(v@, i as int);
                assert(out@ + strip_from(v@, stop as int) =~= strip_numbers(v@));
            }
            i = stop;
        } else {
            out.push(c);
            proof {
                assert(out@ + strip_from(v@, i + 1) =~= strip_numbers(v@));
            }
            i = i + 1;
        }
    }
    proof {
        assert(out@ =~= strip_numbers(text@));
    }
    chars_to_string(&out)
}

/// How many of the keys equal `k`.
pub open spec fn count_eq(keys: Seq<Seq<char>>, k: Seq<char>) -> int
    decreases keys.len(),
{
    if keys.len() == 0 {
        0
    } else {
        count_eq(keys.drop_last(), k) + if keys.last() == k {
            1int
        } else {
            0int
        }
    }
}

/// The duplicate-detection keys of a sequence of segments.
pub open spec fn key_seq(src: Seq<Paragraph>) -> Seq<Seq<char>> {
    Seq::new(src.len(), |i: int| strip_numbers(src[i]@.text))
}

/// For each segment, how many segments of the document (itself included)
/// share its numeral-collapsed text. A unique segment has count 1.
pub fn count_duplicates(src: &Vec<Paragraph>) -> (r: Vec<usize>)
    ensures
        r@.len() == src@.len(),
        forall|i: int|
            0 <= i < src@.len() ==> r@[i] == count_eq(key_seq(src@), key_seq(src@)[i]),
{
    let n = src.len();
    let mut keys: Vec<String> = Vec::new();
    let mut i: usize = 0;
    while i < n
        invariant
            n == src@.len(),
            0 <= i <= n,
            keys@.len() == i,
            forall|j: int| 0 <= j < i ==> keys@[j]@ == key_seq(src@)[j],
        decreases n - i,
    {
        let key = remove_numbers(src[i].text.as_str());
        keys.push(key);
        i = i + 1;
    }
    let mut r: Vec<usize> = Vec::new();
    let mut i: usize = 0;
    while i < n
        invariant
            n == src@.len(),
            keys@.len() == n,
            forall|j: int| 0 <= j < n ==> keys@[j]@ == key_seq(src@)[j],
            0 <= i <= n,
            r@.len() == i,
            forall|j: int| 0 <= j < i ==> r@[j] == count_eq(key_seq(src@), key_seq(src@)[j]),
        decreases n - i,
    {
        let mut cnt: usize = 0;
        let mut j: usize = 0;
        while j < n
            invariant
                n == src@.len(),
                keys@.len() == n,
                forall|m: int| 0 <= m < n ==> keys@[m]@ == key_seq(src@)[m],
                0 <= i < n,
                0 <= j <= n,
                cnt <= j,
                cnt == count_eq(key_seq(src@).take(j as int), key_seq(src@)[i as int]),
            decreases n - j,
        {
            proof {
                assert(key_seq(src@).take(j + 1).drop_last() =~= key_seq(src@).take(j as int));
                assert(key_seq(src@).take(j + 1).last() == key_seq(src@)[j as int]);
            }
            if keys[j].eq(&keys[i]) {
                cnt = cnt + 1;
            }
            j = j + 1;
        }
        proof {
            assert(key_seq(src@).take(n as int) =~= key_seq(src@));
        }
        r.push(cnt);
        i = i + 1;
    }
    r
}

} // verus!
