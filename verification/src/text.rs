//! Text handling: collapsing runs of blank characters to a single space,
//! trimming surrounding whitespace, and ASCII lower-casing of tag names.

use vstd::prelude::*;

verus! {

/// The characters that a run of is collapsed to a single space.
pub open spec fn is_blank(c: char) -> bool {
    c == ' ' || c == '\t' || c == '\r' || c == '\n'
}

/// Whitespace collapsing of the suffix of `s` that starts at `i`, where
/// `prev_blank` says whether the previous character already produced a space.
pub open spec fn norm_from(s: Seq<char>, i: int, prev_blank: bool) -> Seq<char>
    decreases s.len() - i,
{
    if i < 0 || i >= s.len() {
        Seq::empty()
    } else if is_blank(s[i]) {
        if prev_blank {
            norm_from(s, i + 1, true)
        } else {
            seq![' '] + norm_from(s, i + 1, true)
        }
    } else {
        seq![s[i]] + norm_from(s, i + 1, false)
    }
}

/// Every run of space, tab, carriage return and newline collapsed to one space.
pub open spec fn norm_ws(s: Seq<char>) -> Seq<char> {
    norm_from(s, 0, false)
}

/// Collapsing never lengthens the text.
pub proof fn lemma_norm_len(s: Seq<char>, i: int, prev_blank: bool)
    ensures
        norm_from(s, i, prev_blank).len() <= s.len() - i || norm_from(s, i, prev_blank).len() == 0,
    decreases s.len() - i,
{
    if i < 0 || i >= s.len() {
    } else {
        lemma_norm_len(s, i + 1, true);
        lemma_norm_len(s, i + 1, false);
    }
}

fn is_blank_exec(c: char) -> (r: bool)
    ensures
        r == is_blank(c),
{
    c == ' ' || c == '\t' || c == '\r' || c == '\n'
}

/// Collapse every run of space, tab, carriage return and newline in `s`
/// to a single space.
pub fn normalize_ws(s: &str) -> (r: Vec<char>)
    ensures
        r@ == norm_ws(s@),
        r@.len() <= s@.len(),
{
    let n = s.unicode_len();
    let mut r: Vec<char> = Vec::new();
    let mut i: usize = 0;
    let mut prev_blank: bool = false;
    while i < n
        invariant
            n == s@.len(),
            0 <= i <= n,
            r@ + norm_from(s@, i as int, prev_blank) == norm_ws(s@),
        decreases n - i,
    {
        let c = s.get_char(i);
        if is_blank_exec(c) {
            if !prev_blank {
                r.push(' ');
            }
            prev_blank = true;
        } else {
            r.push(c);
            prev_blank = false;
        }
        proof {
            assert(r@ + norm_from(s@, i + 1, prev_blank) =~= norm_ws(s@));
        }
        i = i + 1;
    }
    proof {
        assert(r@ =~= norm_ws(s@));
        lemma_norm_len(s@, 0, false);
    }
    r
}

/// The Unicode `White_Space` characters, the set that trimming removes.
pub open spec fn is_white(c: char) -> bool {
    ||| c == '\u{0009}'
    ||| c == '\u{000a}'
    ||| c == '\u{000b}'
    ||| c == '\u{000c}'
    ||| c == '\u{000d}'
    ||| c == ' '
    ||| c == '\u{0085}'
    ||| c == '\u{00a0}'
    ||| c == '\u{1680}'
    ||| c == '\u{2000}'
    ||| c == '\u{2001}'
    ||| c == '\u{2002}'
    ||| c == '\u{2003}'
    ||| c == '\u{2004}'
    ||| c == '\u{2005}'
    ||| c == '\u{2006}'
    ||| c == '\u{2007}'
    ||| c == '\u{2008}'
    ||| c == '\u{2009}'
    ||| c == '\u{200a}'
    ||| c == '\u{2028}'
    ||| c == '\u{2029}'
    ||| c == '\u{202f}'
    ||| c == '\u{205f}'
    ||| c == '\u{3000}'
}

fn is_white_exec(c: char) -> (r: bool)
    ensures
        r == is_white(c),
{
    c == '\u{0009}' || c == '\u{000a}' || c == '\u{000b}' || c == '\u{000c}' || c == '\u{000d}'
        || c == ' ' || c == '\u{0085}' || c == '\u{00a0}' || c == '\u{1680}' || c == '\u{2000}'
        || c == '\u{2001}' || c == '\u{2002}' || c == '\u{2003}' || c == '\u{2004}' || c
        == '\u{2005}' || c == '\u{2006}' || c == '\u{2007}' || c == '\u{2008}' || c == '\u{2009}'
        || c == '\u{200a}' || c == '\u{2028}' || c == '\u{2029}' || c == '\u{202f}' || c
        == '\u{205f}' || c == '\u{3000}'
}

pub open spec fn trim_front(s: Seq<char>) -> Seq<char>
    decreases s.len(),
{
    if s.len() > 0 && is_white(s.first()) {
        trim_front(s.drop_first())
    } else {
        s
    }
}

pub open spec fn trim_back(s: Seq<char>) -> Seq<char>
    decreases s.len(),
{
    if s.len() > 0 && is_white(s.last()) {
        trim_back(s.drop_last())
    } else {
        s
    }
}

/// The text with its leading and trailing whitespace removed.
pub open spec fn trim_spec(s: Seq<char>) -> Seq<char> {
    trim_back(trim_front(s))
}

/// Remove leading and trailing whitespace characters.
pub fn trim_chars(v: &Vec<char>) -> (r: Vec<char>)
    ensures
        r@ == trim_spec(v@),
{
    let n = v.len();
    let mut lo: usize = 0;
    proof {
        assert(v@.skip(0) =~= v@);
    }
    while lo < n && is_white_exec(v[lo])
        invariant
            n == v@.len(),
            0 <= lo <= n,
            trim_front(v@) == trim_front(v@.skip(lo as int)),
        decreases n - lo,
    {
        proof {
            assert(v@.skip(lo as int).drop_first() =~= v@.skip(lo + 1));
        }
        lo = lo + 1;
    }
    proof {
        if lo < n {
            assert(v@.skip(lo as int).first() == v@[lo as int]);
        }
        assert(trim_front(v@) == v@.skip(lo as int));
        assert(v@.skip(lo as int) =~= v@.subrange(lo as int, n as int));
    }
    let mut hi: usize = n;
    while hi > lo && is_white_exec(v[hi - 1])
        invariant
            n == v@.len(),
            0 <= lo <= hi <= n,
            trim_spec(v@) == trim_back(v@.subrange(lo as int, hi as int)),
        decreases hi,
    {
        proof {
            assert(v@.subrange(lo as int, hi as int).last() == v@[hi - 1]);
            assert(v@.subrange(lo as int, hi as int).drop_last() =~= v@.subrange(
                lo as int,
                hi - 1,
            ));
        }
        hi = hi - 1;
    }
    proof {
        if hi > lo {
            assert(v@.subrange(lo as int, hi as int).last() == v@[hi - 1]);
        }
        assert(trim_spec(v@) == v@.subrange(lo as int, hi as int));
    }
    let mut r: Vec<char> = Vec::new();
    let mut k: usize = lo;
    while k < hi
        invariant
            lo <= k <= hi <= v@.len(),
            r@ == v@.subrange(lo as int, k as int),
        decreases hi - k,
    {
        r.push(v[k]);
        proof {
            assert(r@ =~= v@.subrange(lo as int, k + 1));
        }
        k = k + 1;
    }
    proof {
        assert(r@ == trim_spec(v@));
    }
    r
}

/// The ASCII lower-case counterpart of a character.
pub open spec fn lower_char(c: char) -> char {
    if 'A' <= c && c <= 'Z' {
        ((c as u8) + 32) as char
    } else {
        c
    }
}

/// Every ASCII upper-case letter replaced by its lower-case counterpart.
pub open spec fn lower_ascii(s: Seq<char>) -> Seq<char> {
    s.map_values(|c: char| lower_char(c))
}

/// ASCII lower-casing of a tag name.
pub fn to_lower(s: &String) -> (r: Vec<char>)
    ensures
        r@ == lower_ascii(s@),
{
    let n = s.as_str().unicode_len();
    let mut r: Vec<char> = Vec::new();
    let mut i: usize = 0;
    while i < n
        invariant
            n == s@.len(),
            0 <= i <= n,
            r@ == lower_ascii(s@.take(i as int)),
        decreases n - i,
    {
        let c = s.as_str().get_char(i);
        let lc: char = if 'A' <= c && c <= 'Z' {
            ((c as u8) + 32) as char
        } else {
            c
        };
        proof {
            assert(lc == lower_char(c));
        }
        r.push(lc);
        proof {
            assert(r@ =~= lower_ascii(s@.take(i + 1)));
        }
        i = i + 1;
    }
    proof {
        assert(s@.take(n as int) =~= s@);
    }
    r
}

/// Relies on `String: FromIterator<char>` of std: the string that holds
/// exactly the given characters in order.
#[verifier::external_body]
pub fn chars_to_string(v: &Vec<char>) -> (r: String)
    ensures
        r@ == v@,
{
    v.iter().collect()
}

/// A text in which every blank is a single space: what normalization emits.
pub open spec fn collapsed_text(t: Seq<char>) -> bool {
    &&& forall|j: int| 0 <= j < t.len() && is_blank(#[trigger] t[j]) ==> t[j] == ' '
    &&& forall|j: int| 1 <= j < t.len() && is_blank(#[trigger] t[j]) ==> !is_blank(t[j - 1])
}

/// Normalization emits collapsed text, and after a space it never emits
/// another blank first.
pub proof fn lemma_norm_collapsed(s: Seq<char>, i: int, prev_blank: bool)
    ensures
        collapsed_text(norm_from(s, i, prev_blank)),
        prev_blank && norm_from(s, i, prev_blank).len() > 0 ==> !is_blank(
            norm_from(s, i, prev_blank).first(),
        ),
    decreases s.len() - i,
{
    if i < 0 || i >= s.len() {
    } else if is_blank(s[i]) {
        lemma_norm_collapsed(s, i + 1, true);
        if !prev_blank {
            let rest = norm_from(s, i + 1, true);
            let t = seq![' '] + rest;
            assert forall|j: int| 0 <= j < t.len() && is_blank(#[trigger] t[j]) implies t[j]
                == ' ' by {
                if j >= 1 {
                    assert(t[j] == rest[j - 1]);
                }
            }
            assert forall|j: int| 1 <= j < t.len() && is_blank(#[trigger] t[j]) implies !is_blank(
                t[j - 1],
            ) by {
                assert(t[j] == rest[j - 1]);
                if j >= 2 {
                    assert(t[j - 1] == rest[j - 2]);
                }
            }
        }
    } else {
        lemma_norm_collapsed(s, i + 1, false);
        let rest = norm_from(s, i + 1, false);
        let t = seq![s[i]] + rest;
        assert forall|j: int| 0 <= j < t.len() && is_blank(#[trigger] t[j]) implies t[j] == ' ' by {
            if j >= 1 {
                assert(t[j] == rest[j - 1]);
            }
        }
        assert forall|j: int| 1 <= j < t.len() && is_blank(#[trigger] t[j]) implies !is_blank(
            t[j - 1],
        ) by {
            assert(t[j] == rest[j - 1]);
            if j >= 2 {
                assert(t[j - 1] == rest[j - 2]);
            }
        }
    }
}

/// On collapsed text, normalization is the identity.
proof fn lemma_norm_id(t: Seq<char>, i: int, p: bool)
    requires
        0 <= i <= t.len(),
        collapsed_text(t),
        p ==> (i < t.len() ==> !is_blank(t[i])),
    ensures
        norm_from(t, i, p) == t.skip(i),
    decreases t.len() - i,
{
    if i >= t.len() {
        assert(t.skip(i) =~= Seq::<char>::empty());
    } else if is_blank(t[i]) {
        assert(t[i] == ' ');
        lemma_norm_id(t, i + 1, true);
        assert(seq![' '] + t.skip(i + 1) =~= t.skip(i));
    } else {
        lemma_norm_id(t, i + 1, false);
        assert(seq![t[i]] + t.skip(i + 1) =~= t.skip(i));
    }
}

/// Whitespace normalization is idempotent: normalizing an already-normalized
/// text returns it unchanged.
pub proof fn lemma_norm_ws_idempotent(s: Seq<char>)
    ensures
        norm_ws(norm_ws(s)) == norm_ws(s),
{
    lemma_norm_collapsed(s, 0, false);
    lemma_norm_id(norm_ws(s), 0, false);
    assert(norm_ws(s).skip(0) =~= norm_ws(s));
}

/// A front-trimmed text has no leading whitespace.
proof fn lemma_trim_front_no_lead(s: Seq<char>)
    ensures
        trim_front(s).len() > 0 ==> !is_white(trim_front(s).first()),
    decreases s.len(),
{
    if s.len() > 0 && is_white(s.first()) {
        lemma_trim_front_no_lead(s.drop_first());
    }
}

/// A back-trimmed text is a prefix of the text and has no trailing whitespace.
proof fn lemma_trim_back_prefix(s: Seq<char>)
    ensures
        trim_back(s).len() <= s.len(),
        trim_back(s) == s.take(trim_back(s).len() as int),
        trim_back(s).len() > 0 ==> !is_white(trim_back(s).last()),
    decreases s.len(),
{
    if s.len() > 0 && is_white(s.last()) {
        lemma_trim_back_prefix(s.drop_last());
        assert(s.drop_last() =~= s.take(s.len() - 1));
        assert(trim_back(s) =~= s.take(trim_back(s).len() as int));
    } else {
        assert(s =~= s.take(s.len() as int));
    }
}

/// A non-empty trimmed text is left exactly as it is by another trim.
pub proof fn lemma_trim_of_trimmed(s: Seq<char>)
    requires
        trim_spec(s).len() > 0,
    ensures
        trim_spec(trim_spec(s)) == trim_spec(s),
{
    let u = trim_front(s);
    let t = trim_spec(s);
    lemma_trim_front_no_lead(s);
    lemma_trim_back_prefix(u);
    assert(t.first() == u.first());
    assert(!is_white(t.first()));
    assert(!is_white(t.last()));
    assert(trim_front(t) == t);
    assert(trim_back(t) == t);
}

} // verus!
