//! What patterns and words of settings stand for.

use vstd::prelude::*;

use crate::path_laws::{blank, lemma_trim};
use crate::ssh_config::bool_word;
use crate::text::lower_text;
use crate::wildcard::glob;

verus! {

/// Bytes that stand for themselves in a pattern: neither a star nor a question mark.
pub open spec fn stand_for_themselves(b: Seq<u8>) -> bool {
    forall|k: int| 0 <= k < b.len() ==> #[trigger] b[k] != 42 && b[k] != 63
}

proof fn lemma_literal(pat: Seq<u8>, text: Seq<u8>, p: int, t: int)
    requires
        0 <= p <= pat.len(),
        0 <= t <= text.len(),
        forall|k: int| p <= k < pat.len() ==> #[trigger] pat[k] != 42 && pat[k] != 63,
    ensures
        glob(pat, text, p, t) <==> pat.skip(p) == text.skip(t),
    decreases pat.len() - p,
{
    let a = pat.skip(p);
    let b = text.skip(t);
    if p < pat.len() {
        if t < text.len() {
            lemma_literal(pat, text, p + 1, t + 1);
            let c = pat.skip(p + 1);
            let d = text.skip(t + 1);
            assert(a =~= seq![pat[p]] + c);
            assert(b =~= seq![text[t]] + d);
            if a == b {
                assert(a[0] == b[0]);
                assert(c =~= a.skip(1));
                assert(d =~= b.skip(1));
            }
        } else {
            assert(a.len() != b.len());
        }
    } else {
        if t == text.len() {
            assert(a =~= b);
        } else {
            assert(a.len() != b.len());
        }
    }
}

/// A pattern without wildcards stands for itself alone.
pub proof fn a_plain_pattern_stands_for_itself(pat: Seq<u8>, text: Seq<u8>)
    requires
        stand_for_themselves(pat),
    ensures
        glob(pat, text, 0, 0) <==> pat == text,
{
    lemma_literal(pat, text, 0, 0);
    assert(pat.skip(0) =~= pat);
    assert(text.skip(0) =~= text);
}

proof fn lemma_star(pat: Seq<u8>, text: Seq<u8>, n: int, t: int)
    requires
        0 <= n < pat.len(),
        0 <= t <= text.len(),
        pat[n] == 42,
        forall|k: int| n < k < pat.len() ==> #[trigger] pat[k] != 42 && pat[k] != 63,
    ensures
        glob(pat, text, n, t) <==> text.len() - t >= pat.len() - n - 1 && text.skip(
            text.len() - (pat.len() - n - 1),
        ) == pat.skip(n + 1),
    decreases text.len() - t,
{
    let rest = pat.skip(n + 1);
    lemma_literal(pat, text, n + 1, t);
    if t < text.len() {
        lemma_star(pat, text, n, t + 1);
    }
    if text.len() - t == rest.len() {
        assert(text.len() - (pat.len() - n - 1) == t);
    } else {
        assert(text.skip(t).len() != rest.len());
    }
}

proof fn lemma_before(pat: Seq<u8>, text: Seq<u8>, n: int, p: int)
    requires
        0 <= p <= n < pat.len(),
        p <= text.len(),
        forall|k: int| p <= k < n ==> #[trigger] pat[k] != 42 && pat[k] != 63,
    ensures
        glob(pat, text, p, p) <==> n <= text.len() && text.subrange(
            p,
            if n <= text.len() {
                n
            } else {
                p
            },
        ) == pat.subrange(
            p,
            if n <= text.len() {
                n
            } else {
                p
            },
        ) && glob(pat, text, n, n),
    decreases n - p,
{
    if p < n {
        if p < text.len() {
            lemma_before(pat, text, n, p + 1);
            if n <= text.len() {
                let a = text.subrange(p, n);
                let b = pat.subrange(p, n);
                let c = text.subrange(p + 1, n);
                let d = pat.subrange(p + 1, n);
                assert(a =~= seq![text[p]] + c);
                assert(b =~= seq![pat[p]] + d);
                if a == b {
                    assert(a[0] == b[0]);
                    assert(c =~= a.skip(1));
                    assert(d =~= b.skip(1));
                }
            }
        }
    } else if n <= text.len() {
        assert(text.subrange(n, n) =~= pat.subrange(n, n));
    }
}

/// A star stands for any bytes, none among them; a question mark stands for any one byte.
pub proof fn wildcards_stand_for_any_bytes(a: Seq<u8>, b: Seq<u8>, text: Seq<u8>)
    requires
        stand_for_themselves(a),
        stand_for_themselves(b),
    ensures
        glob(a + seq![42u8] + b, text, 0, 0) <==> exists|m: Seq<u8>| text == #[trigger] (a + m) + b,
        glob(a + seq![63u8] + b, text, 0, 0) <==> exists|c: u8|
            text == #[trigger] (a + seq![c]) + b,
{
    let n = a.len() as int;
    // The star.
    let s = a + seq![42u8] + b;
    assert(s[n] == 42);
    assert forall|k: int| 0 <= k < n implies #[trigger] s[k] != 42 && s[k] != 63 by {
        assert(s[k] == a[k]);
    }
    assert forall|k: int| n < k < s.len() implies #[trigger] s[k] != 42 && s[k] != 63 by {
        assert(s[k] == b[k - n - 1]);
    }
    lemma_before(s, text, n, 0);
    assert(s.subrange(0, n) =~= a);
    assert(s.skip(n + 1) =~= b);
    if n <= text.len() {
        lemma_star(s, text, n, n);
    }
    if glob(s, text, 0, 0) {
        let m = text.subrange(n, text.len() - b.len());
        assert(text =~= (a + m) + b) by {
            assert(text.subrange(0, n) == a);
            assert(text.skip(text.len() - b.len()) == b);
            assert forall|k: int| 0 <= k < text.len() implies text[k] == ((a + m) + b)[k] by {
                if k < n {
                    assert(text.subrange(0, n)[k] == text[k]);
                } else if k >= text.len() - b.len() {
                    assert(text.skip(text.len() - b.len())[k - (text.len() - b.len())] == text[k]);
                }
            }
        }
    }
    if exists|m: Seq<u8>| text == #[trigger] (a + m) + b {
        let m = choose|m: Seq<u8>| text == #[trigger] (a + m) + b;
        assert(text.subrange(0, n) =~= a);
        assert(text.skip(text.len() - b.len()) =~= b);
    }
    // The question mark.
    let q = a + seq![63u8] + b;
    assert(q[n] == 63);
    assert forall|k: int| 0 <= k < n implies #[trigger] q[k] != 42 && q[k] != 63 by {
        assert(q[k] == a[k]);
    }
    assert forall|k: int| n < k < q.len() implies #[trigger] q[k] != 42 && q[k] != 63 by {
        assert(q[k] == b[k - n - 1]);
    }
    lemma_before(q, text, n, 0);
    assert(q.subrange(0, n) =~= a);
    assert(q.skip(n + 1) =~= b);
    if n < text.len() {
        lemma_literal(q, text, n + 1, n + 1);
    }
    if glob(q, text, 0, 0) {
        let c = text[n];
        assert(text =~= (a + seq![c]) + b) by {
            assert(text.subrange(0, n) == a);
            assert(text.skip(n + 1) == b);
            assert(text =~= text.subrange(0, n) + seq![c] + text.skip(n + 1));
        }
    }
    if exists|c: u8| text == #[trigger] (a + seq![c]) + b {
        let c = choose|c: u8| text == #[trigger] (a + seq![c]) + b;
        assert(text.subrange(0, n) =~= a);
        assert(text.skip(n + 1) =~= b);
    }
}

/// Yes and no are said in four ways each, in either case of letters; any other word says
/// neither.
pub proof fn yes_and_no_are_said_in_four_ways(a: Seq<char>, w: Seq<char>, b: Seq<char>)
    requires
        blank(a),
        blank(b),
        crate::path_laws::tight(w),
    ensures
        ({
            let low = lower_text(w);
            let yes = low == "yes"@ || low == "true"@ || low == "on"@ || low == "1"@;
            let no = low == "no"@ || low == "false"@ || low == "off"@ || low == "0"@;
            &&& bool_word(a + w + b) == Some(true) <==> yes
            &&& bool_word(a + w + b) == Some(false) <==> no
            &&& bool_word(a + w + b) is None <==> !yes && !no
        }),
{
    lemma_trim(a, w, b);
    reveal_strlit("yes");
    reveal_strlit("true");
    reveal_strlit("on");
    reveal_strlit("1");
    reveal_strlit("no");
    reveal_strlit("false");
    reveal_strlit("off");
    reveal_strlit("0");
    assert("yes"@.len() == 3 && "true"@.len() == 4 && "on"@.len() == 2 && "1"@.len() == 1);
    assert("no"@.len() == 2 && "false"@.len() == 5 && "off"@.len() == 3 && "0"@.len() == 1);
    assert("yes"@[0] == 'y' && "off"@[0] == 'o' && "on"@[0] == 'o' && "no"@[0] == 'n');
    assert("1"@[0] == '1' && "0"@[0] == '0');
}

} // verus!
