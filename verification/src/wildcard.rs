//! Matching names against patterns with `*` and `?`.

use vstd::prelude::*;
use vstd::utf8::*;

use crate::text::{bytes_of, lower, lower_text, to_lower};

verus! {

/// The byte `*`.
pub const STAR: u8 = 42;

/// The byte `?`.
pub const QUESTION: u8 = 63;

/// The text from index `t` on matches the pattern from index `p` on: `*` stands for any
/// bytes, `?` for any one byte, and every other byte for itself.
pub open spec fn glob(pat: Seq<u8>, text: Seq<u8>, p: int, t: int) -> bool
    decreases pat.len() - p, text.len() - t,
{
    if p < 0 || t < 0 || p > pat.len() || t > text.len() {
        false
    } else if p == pat.len() {
        t == text.len()
    } else if pat[p] == STAR {
        glob(pat, text, p + 1, t) || (t < text.len() && glob(pat, text, p, t + 1))
    } else {
        t < text.len() && (pat[p] == QUESTION || pat[p] == text[t]) && glob(
            pat,
            text,
            p + 1,
            t + 1,
        )
    }
}

/// Only stars stand in the pattern from index `p` on.
pub open spec fn only_stars(pat: Seq<u8>, p: int) -> bool {
    forall|k: int| p <= k < pat.len() ==> pat[k] == STAR
}

/// How matching proceeds from index `p` of the pattern and index `t` of the text, where
/// `star` is the index of the last star that was passed, or `-1`, and `from` the index up
/// to which that star stands for the text. Where the pattern cannot go on, the last star
/// is made to stand for one more byte. A `*` in the text matches a `*` in the pattern as
/// any byte matches itself.
pub open spec fn wild_from(
    pat: Seq<u8>,
    text: Seq<u8>,
    p: int,
    t: int,
    star: int,
    from: int,
) -> bool
    decreases text.len() - from, text.len() - t + pat.len() - p,
    when 0 <= from <= t && p <= pat.len() && star < p
{
    if t >= text.len() {
        only_stars(pat, p)
    } else if 0 <= p < pat.len() && (pat[p] == QUESTION || pat[p] == text[t]) {
        wild_from(pat, text, p + 1, t + 1, star, from)
    } else if 0 <= p < pat.len() && pat[p] == STAR {
        wild_from(pat, text, p + 1, t, p, t)
    } else if star >= 0 {
        wild_from(pat, text, star + 1, from + 1, star, from + 1)
    } else {
        false
    }
}

/// The pattern matches the text, letters being taken in either case.
pub open spec fn wild_match(pattern: Seq<char>, text: Seq<char>) -> bool {
    wild_from(
        encode_utf8(lower_text(pattern)),
        encode_utf8(lower_text(text)),
        0,
        0,
        -1,
        0,
    )
}

/// Whether the pattern matches the text, letters being taken in either case.
pub fn wildcard_match(pattern: &str, text: &str) -> (r: bool)
    ensures
        r == wild_match(pattern@, text@),
{
    let pat = bytes_of(&to_lower(pattern));
    let txt = bytes_of(&to_lower(text));
    let mut p: usize = 0;
    let mut t: usize = 0;
    let mut star: Option<usize> = None;
    let mut from: usize = 0;
    while t < txt.len()
        invariant
            p <= pat.len(),
            t <= txt.len(),
            from <= t,
            star matches Some(s) ==> s < p,
            wild_match(pattern@, text@) == wild_from(
                pat@,
                txt@,
                p as int,
                t as int,
                match star {
                    Some(s) => s as int,
                    None => -1,
                },
                from as int,
            ),
        decreases txt.len() - from, txt.len() - t + pat.len() - p,
    {
        if p < pat.len() && (pat[p] == QUESTION || pat[p] == txt[t]) {
            p = p + 1;
            t = t + 1;
        } else if p < pat.len() && pat[p] == STAR {
            star = Some(p);
            p = p + 1;
            from = t;
        } else {
            match star {
                Some(s) => {
                    p = s + 1;
                    from = from + 1;
                    t = from;
                },
                None => {
                    return false;
                },
            }
        }
    }
    let ghost p0 = p as int;
    while p < pat.len() && pat[p] == STAR
        invariant
            p0 <= p <= pat.len(),
            forall|k: int| p0 <= k < p ==> pat@[k] == STAR,
        decreases pat.len() - p,
    {
        p = p + 1;
    }
    p == pat.len()
}

/// A star stands for the bytes up to any later index at which the pattern goes on.
proof fn lemma_star_any(pat: Seq<u8>, text: Seq<u8>, p: int, t: int, j: int)
    requires
        0 <= p < pat.len(),
        0 <= t <= j <= text.len(),
        pat[p] == STAR,
        glob(pat, text, p + 1, j),
    ensures
        glob(pat, text, p, t),
    decreases j - t,
{
    if t < j {
        lemma_star_any(pat, text, p, t + 1, j);
    }
}

/// A star that matches ends somewhere.
proof fn lemma_star_some(pat: Seq<u8>, text: Seq<u8>, p: int, t: int) -> (j: int)
    requires
        0 <= p < pat.len(),
        0 <= t <= text.len(),
        pat[p] == STAR,
        glob(pat, text, p, t),
    ensures
        t <= j <= text.len(),
        glob(pat, text, p + 1, j),
    decreases text.len() - t,
{
    if glob(pat, text, p + 1, t) {
        t
    } else {
        lemma_star_some(pat, text, p, t + 1)
    }
}

/// A part of the pattern without stars takes as many bytes of the text as it has.
proof fn lemma_plain_part(pat: Seq<u8>, text: Seq<u8>, p: int, q: int, t: int)
    requires
        0 <= p <= q <= pat.len(),
        0 <= t,
        forall|k: int| p <= k < q ==> pat[k] != STAR,
        glob(pat, text, p, t),
    ensures
        glob(pat, text, q, t + (q - p)),
    decreases q - p,
{
    if p < q {
        lemma_plain_part(pat, text, p + 1, q, t + 1);
    }
}

/// Where the text has ended, only stars may be left.
proof fn lemma_glob_end(pat: Seq<u8>, text: Seq<u8>, p: int)
    requires
        0 <= p <= pat.len(),
    ensures
        glob(pat, text, p, text.len() as int) == only_stars(pat, p),
    decreases pat.len() - p,
{
    if p < pat.len() {
        lemma_glob_end(pat, text, p + 1);
        if pat[p] == STAR {
            assert(only_stars(pat, p) == only_stars(pat, p + 1)) by {
                if only_stars(pat, p + 1) {
                    assert forall|k: int| p <= k < pat.len() implies pat[k] == STAR by {}
                }
            }
        } else {
            assert(!only_stars(pat, p));
        }
    }
}

/// The last star may stand for more than up to `from`.
spec fn later_star(pat: Seq<u8>, text: Seq<u8>, star: int, from: int) -> bool {
    star >= 0 && exists|j: int| from < j <= text.len() && #[trigger] glob(pat, text, star + 1, j)
}

/// Going back to the last star only is enough.
proof fn lemma_wild_from(pat: Seq<u8>, text: Seq<u8>, p: int, t: int, star: int, from: int)
    requires
        0 <= from <= t <= text.len(),
        0 <= p <= pat.len(),
        -1 <= star < p,
        star >= 0 ==> pat[star] == STAR && p - (star + 1) == t - from,
        star >= 0 ==> forall|k: int| star < k < p ==> pat[k] != STAR,
        forall|k: int| 0 <= k < text.len() ==> text[k] != STAR,
    ensures
        wild_from(pat, text, p, t, star, from) == (glob(pat, text, p, t) || later_star(
            pat,
            text,
            star,
            from,
        )),
    decreases text.len() - from, text.len() - t + pat.len() - p,
{
    if t >= text.len() {
        lemma_glob_end(pat, text, p);
        if later_star(pat, text, star, from) {
            let j = choose|j: int|
                from < j <= text.len() && #[trigger] glob(pat, text, star + 1, j);
            lemma_plain_part(pat, text, star + 1, p, j);
            assert(glob(pat, text, p, j + (p - (star + 1))));
            assert(false);
        }
    } else if p < pat.len() && (pat[p] == QUESTION || pat[p] == text[t]) {
        lemma_wild_from(pat, text, p + 1, t + 1, star, from);
    } else if p < pat.len() && pat[p] == STAR {
        lemma_wild_from(pat, text, p + 1, t, p, t);
        if glob(pat, text, p + 1, t) || later_star(pat, text, p, t) {
            if !glob(pat, text, p + 1, t) {
                let j = choose|j: int| t < j <= text.len() && #[trigger] glob(pat, text, p + 1, j);
                lemma_star_any(pat, text, p, t, j);
            }
        }
        if glob(pat, text, p, t) {
            let j = lemma_star_some(pat, text, p, t);
            assert(j == t || later_star(pat, text, p, t));
        }
        if later_star(pat, text, star, from) {
            let j = choose|j: int|
                from < j <= text.len() && #[trigger] glob(pat, text, star + 1, j);
            lemma_plain_part(pat, text, star + 1, p, j);
            let m = j + (p - (star + 1));
            let e = lemma_star_some(pat, text, p, m);
            assert(glob(pat, text, p + 1, e));
            assert(later_star(pat, text, p, t));
        }
    } else if star >= 0 {
        lemma_wild_from(pat, text, star + 1, from + 1, star, from + 1);
        assert(!glob(pat, text, p, t));
        if later_star(pat, text, star, from) {
            let j = choose|j: int|
                from < j <= text.len() && #[trigger] glob(pat, text, star + 1, j);
            assert(j == from + 1 || later_star(pat, text, star, from + 1));
        }
        if later_star(pat, text, star, from + 1) {
            let j = choose|j: int|
                from + 1 < j <= text.len() && #[trigger] glob(pat, text, star + 1, j);
            assert(later_star(pat, text, star, from));
        }
        if glob(pat, text, star + 1, from + 1) {
            assert(later_star(pat, text, star, from));
        }
    }
}

/// Only the character `*` is encoded with the byte `*`.
proof fn lemma_star_byte(c: char)
    requires
        c != '*',
    ensures
        !encode_scalar(c as u32).contains(STAR),
{
    let x = c as u32;
    let bytes = encode_scalar(x);
    if has_width_1_encoding(x) {
        assert(x <= 0x7F ==> x & 0x7F == x) by (bit_vector);
        assert(bytes[0] == x);
    } else {
        assert(forall|b: u8| #[trigger] (0x80 | b) >= 0x80) by (bit_vector);
        assert(forall|b: u8| #[trigger] (0xC0 | b) >= 0x80) by (bit_vector);
        assert(forall|b: u8| #[trigger] (0xE0 | b) >= 0x80) by (bit_vector);
        assert(forall|b: u8| #[trigger] (0xF0 | b) >= 0x80) by (bit_vector);
        assert forall|i: int| 0 <= i < bytes.len() implies #[trigger] bytes[i] >= 0x80 by {}
    }
}

proof fn lemma_no_star_byte(s: Seq<char>)
    requires
        !s.contains('*'),
    ensures
        !encode_utf8(s).contains(STAR),
    decreases s.len(),
{
    if s.len() > 0 {
        let rest = s.drop_first();
        assert(s.contains(s[0]));
        assert(!rest.contains('*')) by {
            if rest.contains('*') {
                let i = choose|i: int| 0 <= i < rest.len() && rest[i] == '*';
                assert(s[i + 1] == '*');
            }
        }
        lemma_star_byte(s[0]);
        lemma_no_star_byte(rest);
        let first = encode_scalar(s[0] as u32);
        let all = encode_utf8(s);
        assert(all == first + encode_utf8(rest));
        assert forall|i: int| 0 <= i < all.len() implies all[i] != STAR by {
            if i < first.len() {
                assert(first.contains(first[i]));
            } else {
                assert(encode_utf8(rest).contains(encode_utf8(rest)[i - first.len()]));
            }
        }
    }
}

/// Patterns mean what they are meant to: of a text without `*`, the match is the one in
/// which `*` stands for any bytes and `?` for any one byte.
pub proof fn wildcards_mean_globs(pattern: Seq<char>, text: Seq<char>)
    requires
        !text.contains('*'),
    ensures
        wild_match(pattern, text) == glob(
            encode_utf8(lower_text(pattern)),
            encode_utf8(lower_text(text)),
            0,
            0,
        ),
{
    let lowered = lower_text(text);
    assert(!lowered.contains('*')) by {
        if lowered.contains('*') {
            let i = choose|i: int| 0 <= i < lowered.len() && lowered[i] == '*';
            assert(lower(text[i]) == '*');
            assert(text.contains(text[i]));
        }
    }
    lemma_no_star_byte(lowered);
    lemma_wild_from(
        encode_utf8(lower_text(pattern)),
        encode_utf8(lower_text(text)),
        0,
        0,
        -1,
        0,
    );
}

} // verus!
