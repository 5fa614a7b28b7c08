//! What holds of all URLs.

use vstd::prelude::*;

use crate::error::ErrorView;
use crate::text::{
    decimal, find, has_prefix, is_digit, is_space, lemma_decimal, lemma_find, lower_text,
    parse_unsigned, rfind, trim, trim_end, trim_start,
};
use crate::url::{
    authority_of, behind_user, begins_with, bracketed, count_from, host_and_port, parse_rest,
    parse_url, path_of, user_of, UrlView,
};

verus! {

proof fn lemma_find_is(s: Seq<char>, x: char, i: int, k: int)
    requires
        0 <= i <= k <= s.len(),
        k < s.len() ==> s[k] == x,
        forall|j: int| i <= j < k ==> s[j] != x,
    ensures
        find(s, x, i) == k,
    decreases k - i,
{
    if i < k {
        lemma_find_is(s, x, i + 1, k);
    }
}

proof fn lemma_rfind_is(s: Seq<char>, x: char, i: int, k: int)
    requires
        -1 <= k < i <= s.len() || (k == -1 && i == 0),
        k >= 0 ==> s[k] == x,
        forall|j: int| k < j < i ==> s[j] != x,
    ensures
        rfind(s, x, i) == k,
    decreases i - k,
{
    if k < i - 1 {
        lemma_rfind_is(s, x, i - 1, k);
    }
}

proof fn lemma_rfind(s: Seq<char>, x: char, i: int)
    requires
        0 <= i <= s.len(),
    ensures
        -1 <= rfind(s, x, i) < i || (i == 0 && rfind(s, x, i) == -1),
        rfind(s, x, i) >= 0 ==> s[rfind(s, x, i)] == x,
        forall|j: int| rfind(s, x, i) < j < i ==> s[j] != x,
    decreases i,
{
    if i > 0 && s[i - 1] != x {
        lemma_rfind(s, x, i - 1);
    }
}

proof fn lemma_count_none(s: Seq<char>, c: char, i: int)
    requires
        0 <= i,
        forall|j: int| i <= j < s.len() ==> s[j] != c,
    ensures
        count_from(s, c, i) == 0,
    decreases s.len() - i,
{
    if i < s.len() {
        lemma_count_none(s, c, i + 1);
    }
}

proof fn lemma_count_one(s: Seq<char>, c: char, i: int, k: int)
    requires
        0 <= i <= k < s.len(),
        s[k] == c,
        forall|j: int| i <= j < s.len() && j != k ==> s[j] != c,
    ensures
        count_from(s, c, i) == 1,
    decreases k - i,
{
    if i < k {
        lemma_count_one(s, c, i + 1, k);
    } else {
        lemma_count_none(s, c, i + 1);
    }
}

/// Where a character is counted no time, it stands nowhere.
pub(crate) proof fn lemma_count_zero(s: Seq<char>, c: char, i: int)
    requires
        0 <= i,
        count_from(s, c, i) == 0,
    ensures
        forall|j: int| i <= j < s.len() ==> s[j] != c,
    decreases s.len() - i,
{
    if i < s.len() {
        lemma_count_zero(s, c, i + 1);
    }
}

proof fn lemma_port_read_back(port: u16)
    ensures
        parse_unsigned(decimal(port as nat), 65535) == Some(port as nat),
        forall|i: int| 0 <= i < decimal(port as nat).len() ==> is_digit(
            #[trigger] decimal(port as nat)[i],
        ),
{
    lemma_decimal(port as nat);
    assert(is_digit(decimal(port as nat)[0]));
}

proof fn lemma_trim_start(s: Seq<char>)
    ensures
        trim_start(s).len() <= s.len(),
        trim_start(s).len() > 0 ==> !is_space(trim_start(s)[0]) && trim_start(s).last()
            == s.last() && s.len() > 0,
    decreases s.len(),
{
    if s.len() > 0 && is_space(s[0]) {
        lemma_trim_start(s.drop_first());
    }
}

proof fn lemma_trim_end(s: Seq<char>)
    ensures
        trim_end(s).len() <= s.len(),
        trim_end(s).len() > 0 ==> !is_space(trim_end(s).last()) && trim_end(s)[0] == s[0],
    decreases s.len(),
{
    if s.len() > 0 && is_space(s.last()) {
        lemma_trim_end(s.drop_last());
    }
}

/// The first and last character of a trimmed text are not white space.
proof fn lemma_trimmed(s: Seq<char>)
    ensures
        trim(s).len() > 0 ==> !is_space(trim(s)[0]) && !is_space(trim(s).last()),
{
    lemma_trim_start(s);
    lemma_trim_end(trim_start(s));
}

/// A text between characters that are not white space is trimmed already.
proof fn lemma_trim_keeps(s: Seq<char>)
    requires
        s.len() > 0,
        !is_space(s[0]),
        !is_space(s.last()),
    ensures
        trim(s) == s,
{
}

/// What a host and a port come to.
proof fn lemma_host(a: Seq<char>, default_port: u16, input: Seq<char>)
    ensures
        host_and_port(a, default_port, input) matches Ok((host, port)) ==> (!a.contains(':') || a[0]
            == '[' || !host.contains(':')) && (forall|c: char|
            c != '[' && c != ':' && c != ']' && !a.contains(c) ==> !#[trigger] host.contains(c))
            && (host.contains(':') ==> !host.contains(']')),
{
    if let Ok((host, port)) = host_and_port(a, default_port, input) {
        if a.len() > 0 && a[0] == '[' {
            let inner = a.skip(1);
            lemma_find(inner, ']', 0);
            let end = find(inner, ']', 0);
            assert forall|i: int| 0 <= i < host.len() implies a.contains(#[trigger] host[i]) by {
                assert(host[i] == a[i + 1]);
            }
            assert forall|i: int| 0 <= i < host.len() implies #[trigger] host[i] != ']' by {
                assert(host[i] == inner[i]);
            }
        } else if count_from(a, ':', 0) == 0 {
            lemma_count_zero(a, ':', 0);
        } else {
            lemma_find(a, ':', 0);
            let k = find(a, ':', 0);
            assert forall|i: int| 0 <= i < host.len() implies a.contains(#[trigger] host[i])
                && host[i] != ':' by {
                assert(host[i] == a[i]);
            }
        }
    }
}

/// A host and a port, written out, are read back.
proof fn lemma_authority_read_back(host: Seq<char>, port: u16, default_port: u16, input: Seq<char>)
    requires
        trim(host).len() > 0,
        host.len() > 0,
        host[0] != '[',
        host.contains(':') ==> !host.contains(']'),
    ensures
        host_and_port(bracketed(host) + ":"@ + decimal(port as nat), default_port, input) == Ok::<
            (Seq<char>, u16),
            ErrorView,
        >((host, port)),
{
    reveal_strlit(":");
    reveal_strlit("[");
    reveal_strlit("]");
    let d = decimal(port as nat);
    lemma_port_read_back(port);
    let a = bracketed(host) + ":"@ + d;
    if host.contains(':') {
        let inner = a.skip(1);
        let n = host.len() as int;
        assert(a[0] == '[');
        assert(inner =~= host + "]"@ + ":"@ + d);
        assert forall|j: int| 0 <= j < n implies inner[j] != ']' by {
            assert(inner[j] == host[j]);
            assert(host.contains(host[j]));
        }
        lemma_find_is(inner, ']', 0, n);
        assert(inner.take(n) =~= host);
        let after = inner.skip(n + 1);
        assert(after =~= ":"@ + d);
        assert(after.skip(1) =~= d);
    } else {
        let n = host.len() as int;
        assert(a[0] == host[0]);
        assert(a[n] == ':');
        assert forall|j: int| 0 <= j < a.len() && j != n implies a[j] != ':' by {
            if j < n {
                assert(a[j] == host[j]);
                assert(host.contains(host[j]));
            } else {
                assert(a[j] == d[j - n - 1]);
                assert(is_digit(d[j - n - 1]));
            }
        }
        lemma_count_one(a, ':', 0, n);
        lemma_find_is(a, ':', 0, n);
        assert(a.skip(n + 1) =~= d);
        assert(a.take(n) =~= host);
    }
}

/// A host and a port, written out, hold no character that the host does not hold, apart
/// from brackets, colons and digits.
proof fn lemma_written_without(host: Seq<char>, port: u16, c: char)
    requires
        !host.contains(c),
        c == '/' || c == '@',
    ensures
        forall|j: int|
            0 <= j < (bracketed(host) + ":"@ + decimal(port as nat)).len() ==> #[trigger] (
            bracketed(host) + ":"@ + decimal(port as nat))[j] != c,
{
    reveal_strlit(":");
    reveal_strlit("[");
    reveal_strlit("]");
    let d = decimal(port as nat);
    let h = bracketed(host);
    let b = h + ":"@ + d;
    lemma_port_read_back(port);
    assert forall|j: int| 0 <= j < b.len() implies #[trigger] b[j] != c by {
        if j < h.len() {
            assert(b[j] == h[j]);
            if h.len() > host.len() {
                assert(h[h.len() - 1] == ']');
                if 0 < j < h.len() - 1 {
                    assert(h[j] == host[j - 1]);
                    assert(host.contains(host[j - 1]));
                }
            } else {
                assert(h[j] == host[j]);
                assert(host.contains(host[j]));
            }
        } else if j > h.len() {
            assert(b[j] == d[j - h.len() - 1]);
            assert(is_digit(d[j - h.len() - 1]));
        }
    }
}

/// The user in front of a host and a port is found again.
proof fn lemma_user_read_back(authority: Seq<char>, b: Seq<char>)
    requires
        forall|j: int| 0 <= j < b.len() ==> #[trigger] b[j] != '@',
    ensures
        user_of(user_of(authority) + b) == user_of(authority),
        behind_user(user_of(authority) + b) == b,
{
    let n = authority.len() as int;
    lemma_rfind(authority, '@', n);
    let r = rfind(authority, '@', n);
    let user = user_of(authority);
    let whole = user + b;
    assert forall|j: int| user.len() <= j < whole.len() implies whole[j] != '@' by {
        assert(whole[j] == b[j - user.len()]);
    }
    if user.len() > 0 {
        assert(user[user.len() - 1] == authority[r]);
    }
    lemma_rfind_is(whole, '@', whole.len() as int, user.len() - 1);
    assert(user_of(whole) =~= user);
    assert(behind_user(whole) =~= b);
}

/// A text without a slash, with a path behind it, is taken apart again.
proof fn lemma_path_read_back(authority: Seq<char>, path: Seq<char>)
    requires
        forall|j: int| 0 <= j < authority.len() ==> #[trigger] authority[j] != '/',
        path.len() > 0,
        path[0] == '/',
    ensures
        authority_of(authority + path) == authority,
        path_of(authority + path) == path,
{
    let s = authority + path;
    let m = authority.len() as int;
    assert forall|j: int| 0 <= j < m implies s[j] != '/' by {
        assert(s[j] == authority[j]);
    }
    assert(s[m] == path[0]);
    lemma_find_is(s, '/', 0, m);
    assert(authority_of(s) =~= authority);
    assert(path_of(s) =~= path);
}

/// What stands behind a user, and the user, hold only what the text in front of the path
/// holds.
proof fn lemma_parts_of_authority(rest: Seq<char>)
    ensures
        forall|j: int|
            0 <= j < authority_of(rest).len() ==> #[trigger] authority_of(rest)[j] != '/',
        !authority_of(rest).contains('/'),
        !behind_user(authority_of(rest)).contains('/'),
        !behind_user(authority_of(rest)).contains('@'),
        forall|j: int|
            0 <= j < user_of(authority_of(rest)).len() ==> #[trigger] user_of(
                authority_of(rest),
            )[j] != '/',
        path_of(rest).len() > 0,
        path_of(rest)[0] == '/',
        rest.len() > 0 && !is_space(rest.last()) ==> !is_space(path_of(rest).last()),
{
    reveal_strlit("/");
    let authority = authority_of(rest);
    let a = behind_user(authority);
    let user = user_of(authority);
    lemma_find(rest, '/', 0);
    lemma_rfind(authority, '@', authority.len() as int);
    assert forall|j: int| 0 <= j < authority.len() implies #[trigger] authority[j] != '/' by {
        assert(authority[j] == rest[j]);
    }
    let off = authority.len() - a.len();
    assert forall|j: int| 0 <= j < a.len() implies #[trigger] a[j] != '/' && a[j] != '@' by {
        assert(a[j] == authority[j + off]);
    }
    assert forall|j: int| 0 <= j < user.len() implies #[trigger] user[j] != '/' by {
        assert(user[j] == authority[j]);
    }
    if find(rest, '/', 0) < rest.len() {
        assert(path_of(rest).last() == rest.last());
    }
}

/// What stands behind the scheme of a normalised URL says what the URL it came from said.
proof fn lemma_rest_read_back(
    scheme: Seq<char>,
    default_port: u16,
    with_user: bool,
    rest: Seq<char>,
    input: Seq<char>,
    again: Seq<char>,
)
    requires
        parse_rest(scheme, default_port, with_user, rest, input) matches Ok(u) && u.host[0] != '[',
    ensures
        ({
            let u = parse_rest(scheme, default_port, with_user, rest, input)->Ok_0;
            let next = u.url.skip(scheme.len() as int);
            parse_rest(scheme, default_port, with_user, next, again) == Ok::<UrlView, ErrorView>(u)
                && has_prefix(u.url, scheme) && u.url.len() > scheme.len() && (rest.len() > 0
                && !is_space(rest.last()) ==> !is_space(u.url.last()))
        }),
{
    let u = parse_rest(scheme, default_port, with_user, rest, input)->Ok_0;
    let authority = authority_of(rest);
    let user = if with_user {
        user_of(authority)
    } else {
        Seq::empty()
    };
    let a = if with_user {
        behind_user(authority)
    } else {
        authority
    };
    let host = u.host;
    let port = u.port;
    let path = path_of(rest);
    let b = bracketed(host) + ":"@ + decimal(port as nat);
    let front = user + b;
    let next = u.url.skip(scheme.len() as int);
    lemma_parts_of_authority(rest);
    lemma_host(a, default_port, input);
    lemma_trim_start(host);
    lemma_trim_end(trim_start(host));
    lemma_authority_read_back(host, port, default_port, again);
    lemma_written_without(host, port, '/');
    assert(u.url =~= scheme + (front + path));
    assert(next =~= front + path);
    assert(u.url.take(scheme.len() as int) =~= scheme);
    assert forall|j: int| 0 <= j < front.len() implies #[trigger] front[j] != '/' by {
        if j < user.len() {
            assert(front[j] == user[j]);
        } else {
            assert(front[j] == b[j - user.len()]);
        }
    }
    lemma_path_read_back(front, path);
    if with_user {
        lemma_written_without(host, port, '@');
        lemma_user_read_back(authority, b);
    } else {
        assert(front =~= b);
    }
    assert(u.url.last() == path.last());
}

/// A normalised URL says what the URL it came from said, and is normalised already. The
/// one exception is a host in brackets that itself begins with a bracket.
pub proof fn normalised_urls_stay(s: Seq<char>)
    requires
        parse_url(s) matches Ok(u) && u.host[0] != '[',
    ensures
        parse_url(parse_url(s)->Ok_0.url) == parse_url(s),
{
    reveal_strlit("svn+ssh://");
    reveal_strlit("svn://");
    let input = trim(s);
    let u = parse_url(s)->Ok_0;
    lemma_trimmed(s);
    let (scheme, default_port, with_user) = if begins_with(input, "svn+ssh://"@) {
        ("svn+ssh://"@, 22u16, true)
    } else {
        ("svn://"@, 3690u16, false)
    };
    let n = scheme.len() as int;
    let rest = input.skip(n);
    assert(lower_text(input).len() == input.len());
    if rest.len() > 0 {
        assert(rest.last() == input.last());
    } else {
        lemma_no_host(scheme, default_port, with_user, rest, input);
    }
    lemma_rest_read_back(scheme, default_port, with_user, rest, input, u.url);
    assert(u.url[0] == scheme[0]) by {
        assert(u.url.take(n)[0] == scheme[0]);
    }
    lemma_trim_keeps(u.url);
    assert forall|j: int| 0 <= j < n implies #[trigger] lower_text(u.url)[j] == scheme[j] by {
        assert(u.url.take(n)[j] == scheme[j]);
    }
    assert(lower_text(u.url).take(n) =~= scheme);
    if !with_user {
        assert(lower_text(u.url)[3] == ':');
        if begins_with(u.url, "svn+ssh://"@) {
            assert(lower_text(u.url).take(10)[3] == "svn+ssh://"@[3]);
        }
    }
}

/// A URL without anything behind the scheme names no host.
proof fn lemma_no_host(
    scheme: Seq<char>,
    default_port: u16,
    with_user: bool,
    rest: Seq<char>,
    input: Seq<char>,
)
    requires
        rest.len() == 0,
    ensures
        parse_rest(scheme, default_port, with_user, rest, input) is Err,
{
    let authority = authority_of(rest);
    lemma_find(rest, '/', 0);
    assert(authority =~= Seq::<char>::empty());
    assert(user_of(authority) =~= Seq::<char>::empty());
    assert(behind_user(authority) =~= Seq::<char>::empty());
    let e = Seq::<char>::empty();
    assert(count_from(e, ':', 0) == 0);
    assert(trim(e) == e);
}

/// A host as it stands in a URL: as it is, or between brackets where it holds a colon.
pub open spec fn host_written(host: Seq<char>) -> Seq<char> {
    if host.contains(':') {
        seq!['['] + host + seq![']']
    } else {
        host
    }
}

/// A name that can be a host: it is not blank, and holds nothing that ends a host.
pub open spec fn is_host(host: Seq<char>) -> bool {
    &&& host.len() > 0
    &&& !is_space(host[0])
    &&& !is_space(host.last())
    &&& forall|k: int|
        0 <= k < host.len() ==> #[trigger] host[k] != '/' && host[k] != '@' && host[k] != '['
            && host[k] != ']'
}

/// A port as it stands in a URL, if it does.
pub open spec fn port_written(port: Option<u16>) -> Seq<char> {
    match port {
        Some(n) => seq![':'] + decimal(n as nat),
        None => Seq::empty(),
    }
}

/// A user as it stands in a URL, if there is one.
pub open spec fn user_written(user: Option<Seq<char>>) -> Seq<char> {
    match user {
        Some(u) => u + seq!['@'],
        None => Seq::empty(),
    }
}

proof fn lemma_host_written(host: Seq<char>, port: Option<u16>, default_port: u16, input: Seq<char>)
    requires
        is_host(host),
    ensures
        host_and_port(host_written(host) + port_written(port), default_port, input) == Ok::<
            (Seq<char>, u16),
            ErrorView,
        >(
            (
                host,
                match port {
                    Some(n) => n,
                    None => default_port,
                },
            ),
        ),
{
    let a = host_written(host) + port_written(port);
    if let Some(n) = port {
        lemma_port_read_back(n);
    }
    lemma_trim_keeps(host);
    if host.contains(':') {
        let inner = a.skip(1);
        let n = host.len() as int;
        assert(a[0] == '[');
        assert forall|k: int| 0 <= k < n implies inner[k] != ']' by {
            assert(inner[k] == host[k]);
        }
        assert(inner[n] == ']');
        lemma_find_is(inner, ']', 0, n);
        assert(inner.take(n) =~= host);
        assert(inner.skip(n + 1) =~= port_written(port));
        if let Some(p) = port {
            assert(inner.skip(n + 1).skip(1) =~= decimal(p as nat));
        }
    } else {
        let n = host.len() as int;
        assert forall|k: int| 0 <= k < n implies a[k] != ':' by {
            assert(a[k] == host[k]);
            if host[k] == ':' {
                assert(host.contains(host[k]));
            }
        }
        assert(a[0] == host[0]);
        match port {
            None => {
                assert(a =~= host);
                lemma_count_none(a, ':', 0);
            },
            Some(p) => {
                assert(a[n] == ':');
                assert forall|j: int| 0 <= j < a.len() && j != n implies a[j] != ':' by {
                    if j > n {
                        assert(a[j] == decimal(p as nat)[j - n - 1]);
                        assert(is_digit(decimal(p as nat)[j - n - 1]));
                    }
                }
                lemma_count_one(a, ':', 0, n);
                lemma_find_is(a, ':', 0, n);
                assert(a.take(n) =~= host);
                assert(a.skip(n + 1) =~= decimal(p as nat));
            },
        }
    }
}

proof fn lemma_hp_clean(host: Seq<char>, port: Option<u16>)
    requires
        is_host(host),
    ensures
        forall|k: int|
            0 <= k < (host_written(host) + port_written(port)).len() ==> #[trigger] (host_written(
                host,
            ) + port_written(port))[k] != '/' && (host_written(host) + port_written(port))[k]
                != '@',
{
    let h = host_written(host);
    let a = h + port_written(port);
    if let Some(n) = port {
        lemma_port_read_back(n);
    }
    assert forall|k: int| 0 <= k < h.len() implies #[trigger] h[k] != '/' && h[k] != '@' by {
        if host.contains(':') && 0 < k < h.len() - 1 {
            assert(h[k] == host[k - 1]);
        }
    }
    assert forall|k: int| 0 <= k < a.len() implies #[trigger] a[k] != '/' && a[k] != '@' by {
        if k < h.len() {
            assert(a[k] == h[k]);
        } else if k > h.len() {
            assert(a[k] == decimal(port->0 as nat)[k - h.len() - 1]);
            assert(is_digit(decimal(port->0 as nat)[k - h.len() - 1]));
        }
    }
}

/// A URL is read as it is written: its host, its port, or the one that is usual, and its
/// path, which is the root where none is written. The whole URL then names all of them, and
/// the user that a tunnel logs in as.
#[verifier::rlimit(60)]
pub proof fn a_url_is_read_as_written(
    tunnel: bool,
    user: Option<Seq<char>>,
    host: Seq<char>,
    port: Option<u16>,
    path: Seq<char>,
)
    requires
        is_host(host),
        user is Some ==> tunnel,
        user matches Some(u) ==> forall|k: int| 0 <= k < u.len() ==> #[trigger] u[k] != '/',
        path.len() > 0 ==> path[0] == '/' && !is_space(path.last()),
    ensures
        ({
            let scheme = if tunnel {
                "svn+ssh://"@
            } else {
                "svn://"@
            };
            let n: u16 = match port {
                Some(p) => p,
                None => if tunnel {
                    22
                } else {
                    3690
                },
            };
            parse_url(
                scheme + user_written(user) + host_written(host) + port_written(port) + path,
            ) == Ok::<UrlView, ErrorView>(
                UrlView {
                    host,
                    port: n,
                    url: scheme + user_written(user) + host_written(host) + port_written(Some(n))
                        + (if path.len() == 0 {
                        seq!['/']
                    } else {
                        path
                    }),
                },
            )
        }),
{
    let scheme = if tunnel {
        "svn+ssh://"@
    } else {
        "svn://"@
    };
    let rest = user_written(user) + (host_written(host) + port_written(port)) + path;
    let input = scheme + rest;
    assert(input =~= scheme + user_written(user) + host_written(host) + port_written(port) + path);
    lemma_ends(tunnel, user, host, port, path);
    lemma_trim_keeps(input);
    lemma_schemes(tunnel, rest);
    lemma_rest_written(tunnel, user, host, port, path, input);
}

/// A URL neither begins nor ends with white space.
proof fn lemma_ends(
    tunnel: bool,
    user: Option<Seq<char>>,
    host: Seq<char>,
    port: Option<u16>,
    path: Seq<char>,
)
    requires
        is_host(host),
        path.len() > 0 ==> !is_space(path.last()),
    ensures
        ({
            let scheme = if tunnel {
                "svn+ssh://"@
            } else {
                "svn://"@
            };
            let input = scheme + (user_written(user) + (host_written(host) + port_written(port))
                + path);
            input.len() > 0 && !is_space(input[0]) && !is_space(input.last())
        }),
{
    let scheme = if tunnel {
        "svn+ssh://"@
    } else {
        "svn://"@
    };
    reveal_strlit("svn+ssh://");
    reveal_strlit("svn://");
    let hp = host_written(host) + port_written(port);
    let input = scheme + (user_written(user) + hp + path);
    assert(input[0] == 's');
    if path.len() > 0 {
        assert(input.last() == path.last());
    } else {
        assert(input.last() == hp.last());
        if let Some(p) = port {
            let d = decimal(p as nat);
            lemma_port_read_back(p);
            lemma_decimal(p as nat);
            assert(hp.last() == d.last());
            assert(is_digit(d[d.len() - 1]));
        } else if host.contains(':') {
            assert(hp.last() == ']');
        } else {
            assert(hp =~= host);
        }
    }
}

/// The parts of a URL behind its scheme.
proof fn lemma_parts(user: Option<Seq<char>>, hp: Seq<char>, path: Seq<char>)
    requires
        user matches Some(u) ==> forall|k: int| 0 <= k < u.len() ==> #[trigger] u[k] != '/',
        forall|k: int| 0 <= k < hp.len() ==> #[trigger] hp[k] != '/' && hp[k] != '@',
        path.len() > 0 ==> path[0] == '/',
    ensures
        ({
            let rest = user_written(user) + hp + path;
            let authority = user_written(user) + hp;
            &&& authority_of(rest) == authority
            &&& path_of(rest) == (if path.len() == 0 {
                seq!['/']
            } else {
                path
            })
            &&& user_of(authority) == user_written(user)
            &&& behind_user(authority) == hp
        }),
{
    reveal_strlit("/");
    let w = user_written(user);
    let authority = w + hp;
    let rest = authority + path;
    let m = authority.len() as int;
    assert forall|k: int| 0 <= k < m implies rest[k] != '/' by {
        if k < w.len() {
            assert(rest[k] == w[k]);
            if let Some(u) = user {
                if k < u.len() {
                    assert(w[k] == u[k]);
                }
            }
        } else {
            assert(rest[k] == hp[k - w.len()]);
        }
    }
    if path.len() > 0 {
        assert(rest[m] == '/');
    } else {
        assert(rest =~= authority);
    }
    lemma_find_is(rest, '/', 0, m);
    assert(rest.take(m) =~= authority);
    assert(rest.skip(m) =~= path);
    assert("/"@ =~= seq!['/']);
    let n = w.len() as int;
    assert forall|k: int| n - 1 < k < m implies authority[k] != '@' by {
        assert(authority[k] == hp[k - n]);
    }
    if let Some(u) = user {
        assert(authority[n - 1] == '@');
    }
    lemma_rfind_is(authority, '@', m, n - 1);
    assert(authority.take(n) =~= w);
    assert(authority.skip(n) =~= hp);
}

proof fn lemma_rest_written(
    tunnel: bool,
    user: Option<Seq<char>>,
    host: Seq<char>,
    port: Option<u16>,
    path: Seq<char>,
    input: Seq<char>,
)
    requires
        is_host(host),
        user is Some ==> tunnel,
        user matches Some(u) ==> forall|k: int| 0 <= k < u.len() ==> #[trigger] u[k] != '/',
        path.len() > 0 ==> path[0] == '/',
    ensures
        ({
            let scheme = if tunnel {
                "svn+ssh://"@
            } else {
                "svn://"@
            };
            let usual: u16 = if tunnel {
                22
            } else {
                3690
            };
            let n: u16 = match port {
                Some(p) => p,
                None => usual,
            };
            let rest = user_written(user) + (host_written(host) + port_written(port)) + path;
            parse_rest(scheme, usual, tunnel, rest, input) == Ok::<UrlView, ErrorView>(
                UrlView {
                    host,
                    port: n,
                    url: scheme + user_written(user) + host_written(host) + port_written(Some(n))
                        + (if path.len() == 0 {
                        seq!['/']
                    } else {
                        path
                    }),
                },
            )
        }),
{
    let scheme = if tunnel {
        "svn+ssh://"@
    } else {
        "svn://"@
    };
    let usual: u16 = if tunnel {
        22
    } else {
        3690
    };
    let n: u16 = match port {
        Some(p) => p,
        None => usual,
    };
    let hp = host_written(host) + port_written(port);
    let tail = if path.len() == 0 {
        seq!['/']
    } else {
        path
    };
    lemma_hp_clean(host, port);
    lemma_host_written(host, port, usual, input);
    lemma_parts(user, hp, path);
    lemma_trim_keeps(host);
    if user is None {
        assert(user_written(user) + hp =~= hp);
    }
    lemma_assembled(scheme, user_written(user), host, n, tail);
}

proof fn lemma_assembled(
    scheme: Seq<char>,
    user: Seq<char>,
    host: Seq<char>,
    n: u16,
    tail: Seq<char>,
)
    requires
        is_host(host),
    ensures
        crate::url::assemble(scheme, user, host, n, tail) == scheme + user + host_written(host)
            + port_written(Some(n)) + tail,
{
    reveal_strlit(":");
    reveal_strlit("[");
    reveal_strlit("]");
    if host.contains(':') {
        assert(host[0] != '[');
        assert("["@ + host + "]"@ =~= host_written(host));
    }
    assert(bracketed(host) =~= host_written(host));
    assert(":"@ + decimal(n as nat) =~= port_written(Some(n)));
    assert(crate::url::assemble(scheme, user, host, n, tail) =~= scheme + user + host_written(host)
        + port_written(Some(n)) + tail);
}

/// A URL is told by its scheme, letters being taken in either case.
proof fn lemma_schemes(tunnel: bool, rest: Seq<char>)
    ensures
        tunnel ==> begins_with("svn+ssh://"@ + rest, "svn+ssh://"@),
        tunnel ==> ("svn+ssh://"@ + rest).skip(10) == rest,
        !tunnel ==> begins_with("svn://"@ + rest, "svn://"@),
        !tunnel ==> !begins_with("svn://"@ + rest, "svn+ssh://"@),
        !tunnel ==> ("svn://"@ + rest).skip(6) == rest,
{
    reveal_strlit("svn+ssh://");
    reveal_strlit("svn://");
    let a = "svn+ssh://"@ + rest;
    let b = "svn://"@ + rest;
    assert(lower_text(a).take(10) =~= "svn+ssh://"@);
    assert(lower_text(b).take(6) =~= "svn://"@);
    assert(a.skip(10) =~= rest);
    assert(b.skip(6) =~= rest);
    assert(lower_text(b)[3] == ':');
    assert("svn+ssh://"@[3] == '+');
    if begins_with(b, "svn+ssh://"@) {
        assert(lower_text(b).take(10)[3] == '+');
    }
}

} // verus!
