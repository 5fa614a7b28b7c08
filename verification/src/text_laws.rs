//! How texts are ordered, which white space counts, and how numbers are read.

use vstd::prelude::*;

use crate::keymap::text_lt;
use crate::text::{
    decimal, find, is_digit, is_space, lemma_decimal, lemma_find, lower_text, parse_unsigned, trim,
    without_plus,
};
use crate::url::{begins_with, count_from, host_and_port, parse_url};
use crate::url_laws::lemma_count_zero;

verus! {

/// Texts come as in a dictionary: a text before every longer one that begins with it, and
/// otherwise by the first character in which they differ.
pub proof fn texts_come_as_in_a_dictionary(
    p: Seq<char>,
    a: Seq<char>,
    b: Seq<char>,
    c: char,
    d: char,
)
    ensures
        text_lt(p, p + a) <==> a.len() > 0,
        !text_lt(p + a, p),
        c != d ==> (text_lt(p + seq![c] + a, p + seq![d] + b) <==> c < d),
    decreases p.len(),
{
    let x = p + seq![c] + a;
    let y = p + seq![d] + b;
    if p.len() == 0 {
        assert(p + a =~= a);
        assert(x[0] == c && y[0] == d);
    } else {
        let q = p.drop_first();
        texts_come_as_in_a_dictionary(q, a, b, c, d);
        assert((p + a).drop_first() =~= q + a);
        assert(x.drop_first() =~= q + seq![c] + a);
        assert(y.drop_first() =~= q + seq![d] + b);
        assert((p + a)[0] == p[0] && x[0] == p[0] && y[0] == p[0]);
    }
}

/// Among the characters of ASCII the space counts as white space, and what moves to another
/// place on a page: tabs, feeds and the carriage return.
pub proof fn white_space_is_what_moves_on(c: char)
    requires
        (c as u32) < 128,
    ensures
        is_space(c) <==> c == ' ' || 9 <= c as u32 <= 13,
{
}

/// A number is read as it is written, up to the largest that is allowed; a text that holds
/// anything but digits, but for a plus sign before them, is no number.
pub proof fn a_number_is_read_as_it_is_written(n: nat, max: nat, s: Seq<char>, k: int)
    ensures
        parse_unsigned(decimal(n), max) == (if n <= max {
            Some(n)
        } else {
            None
        }),
        parse_unsigned(seq!['+'] + decimal(n), max) == parse_unsigned(decimal(n), max),
        0 < k < s.len() && !('0' <= s[k] <= '9') ==> parse_unsigned(s, max) is None,
        s.len() > 0 && s[0] != '+' && !('0' <= s[0] <= '9') ==> parse_unsigned(s, max) is None,
        s.len() == 0 ==> parse_unsigned(s, max) is None,
        s == seq!['+'] ==> parse_unsigned(s, max) is None,
{
    lemma_decimal(n);
    let d = decimal(n);
    assert(is_digit(d[0]));
    assert((seq!['+'] + d).skip(1) =~= d);
    if 0 < k < s.len() && !('0' <= s[k] <= '9') {
        let b = without_plus(s);
        if s[0] == '+' {
            assert(b[k - 1] == s[k]);
        } else {
            assert(b[k] == s[k]);
        }
    }
    if s.len() > 0 && s[0] != '+' && !('0' <= s[0] <= '9') {
        assert(!is_digit(without_plus(s)[0]));
    }
}

/// A server is named by a host, and a port behind a colon; a host that holds colons stands
/// between brackets.
pub open spec fn names_server(a: Seq<char>, default_port: u16, host: Seq<char>, port: u16) -> bool {
    ||| a == host && port == default_port && no_colon(host)
    ||| exists|d: Seq<char>|
        #[trigger] parse_unsigned(d, 65535) == Some(port as nat) && a == host + seq![':'] + d
            && no_colon(host) && no_colon(d)
    ||| a == seq!['['] + host + seq![']'] && port == default_port
    ||| exists|d: Seq<char>|
        #[trigger] parse_unsigned(d, 65535) == Some(port as nat) && a == seq!['['] + host + seq![
            ']',
            ':',
        ] + d
}

/// No colon stands in the text.
pub open spec fn no_colon(s: Seq<char>) -> bool {
    forall|k: int| 0 <= k < s.len() ==> #[trigger] s[k] != ':'
}

proof fn lemma_one_colon(s: Seq<char>, i: int)
    requires
        0 <= i <= s.len(),
        count_from(s, ':', i) == 1,
    ensures
        ({
            let k = find(s, ':', i);
            &&& i <= k < s.len()
            &&& s[k] == ':'
            &&& forall|j: int| i <= j < s.len() && j != k ==> #[trigger] s[j] != ':'
        }),
    decreases s.len() - i,
{
    lemma_find(s, ':', i);
    if i < s.len() {
        if s[i] == ':' {
            lemma_count_zero(s, ':', i + 1);
        } else {
            lemma_one_colon(s, i + 1);
        }
    }
}

/// A server is taken from a URL only where it is named, and what names none is refused.
pub proof fn a_server_must_be_named(a: Seq<char>, default_port: u16, input: Seq<char>)
    ensures
        match host_and_port(a, default_port, input) {
            Ok((host, port)) => names_server(a, default_port, host, port),
            Err(e) => e is InvalidUrl,
        },
{
    if let Ok((host, port)) = host_and_port(a, default_port, input) {
        if a.len() > 0 && a[0] == '[' {
            let inner = a.skip(1);
            lemma_find(inner, ']', 0);
            let end = find(inner, ']', 0);
            let after = inner.skip(end + 1);
            assert(a =~= seq!['['] + inner);
            assert(inner =~= inner.take(end) + seq![']'] + after);
            if after.len() == 0 {
                assert(a =~= seq!['['] + host + seq![']']);
            } else {
                let d = after.skip(1);
                assert(after =~= seq![':'] + d);
                assert(a =~= seq!['['] + host + seq![']', ':'] + d);
            }
        } else if count_from(a, ':', 0) == 0 {
            lemma_count_zero(a, ':', 0);
        } else {
            lemma_one_colon(a, 0);
            let k = find(a, ':', 0);
            let d = a.skip(k + 1);
            assert(a =~= host + seq![':'] + d);
            assert forall|j: int| 0 <= j < d.len() implies #[trigger] d[j] != ':' by {
                assert(d[j] == a[k + 1 + j]);
            }
        }
    }
}

/// A text is a URL only if it begins with one of the two schemes and names a host; anything
/// else is refused.
pub proof fn what_is_no_url_is_refused(s: Seq<char>)
    ensures
        match parse_url(s) {
            Ok(u) => trim(u.host).len() > 0 && ({
                ||| begins_with(trim(s), "svn://"@)
                ||| begins_with(trim(s), "svn+ssh://"@)
            }),
            Err(e) => e is InvalidUrl,
        },
        begins_with(s, "svn://"@) <==> s.len() >= 6 && lower_text(s.take(6)) == "svn://"@,
{
    reveal_strlit("svn://");
    let n = "svn://"@.len() as int;
    assert(n == 6);
    if s.len() >= 6 {
        assert(lower_text(s).take(6) =~= lower_text(s.take(6)));
    }
}

} // verus!
