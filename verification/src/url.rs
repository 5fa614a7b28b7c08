//! Repository URLs.

use vstd::prelude::*;

use crate::error::{invalid_url, ErrorView, SvnError};
use crate::text::{
    cat, cat3, char_lower, chars_of, decimal, decimal_string, find, find_char, has_prefix,
    lower_text, parse_number, parse_unsigned, rfind, slice_text, starts_with, trim, trimmed,
};

verus! {

/// A normalised repository URL: it names a port and a path.
///
/// A `svn://` URL is reached directly, on port 3690 unless it names another; a
/// `svn+ssh://` URL is reached through SSH, on port 22 unless it names another, and
/// may name a user.
#[derive(Debug, PartialEq, Eq)]
pub struct SvnUrl {
    /// The host, without the brackets around an IPv6 address.
    pub host: String,
    /// The port.
    pub port: u16,
    /// The whole URL, normalised.
    pub url: String,
}

/// What a `SvnUrl` says.
pub struct UrlView {
    pub host: Seq<char>,
    pub port: u16,
    pub url: Seq<char>,
}

impl DeepView for SvnUrl {
    type V = UrlView;

    open spec fn deep_view(&self) -> UrlView {
        UrlView { host: self.host@, port: self.port, url: self.url@ }
    }
}

impl Clone for SvnUrl {
    fn clone(&self) -> (r: SvnUrl)
        ensures
            r.deep_view() == self.deep_view(),
    {
        SvnUrl { host: self.host.clone(), port: self.port, url: self.url.clone() }
    }
}

/// The text begins with `prefix`, letters being taken in either case.
pub open spec fn begins_with(s: Seq<char>, prefix: Seq<char>) -> bool {
    has_prefix(lower_text(s), prefix)
}

/// The part of a URL before its path.
pub open spec fn authority_of(rest: Seq<char>) -> Seq<char> {
    rest.take(find(rest, '/', 0))
}

/// The path of a URL, which is `/` where it has none.
pub open spec fn path_of(rest: Seq<char>) -> Seq<char> {
    if find(rest, '/', 0) < rest.len() {
        rest.skip(find(rest, '/', 0))
    } else {
        "/"@
    }
}

/// The user that an authority names, with its `@`.
pub open spec fn user_of(authority: Seq<char>) -> Seq<char> {
    authority.take(rfind(authority, '@', authority.len() as int) + 1)
}

/// The part of an authority behind the user.
pub open spec fn behind_user(authority: Seq<char>) -> Seq<char> {
    authority.skip(rfind(authority, '@', authority.len() as int) + 1)
}

/// How often `c` occurs from index `i` on.
pub open spec fn count_from(s: Seq<char>, c: char, i: int) -> nat
    decreases s.len() - i,
{
    if i < 0 || i >= s.len() {
        0
    } else if s[i] == c {
        1 + count_from(s, c, i + 1)
    } else {
        count_from(s, c, i + 1)
    }
}

/// The host and the port that an authority without user names. `input` is the whole
/// URL, for the messages.
pub open spec fn host_and_port(a: Seq<char>, default_port: u16, input: Seq<char>) -> Result<
    (Seq<char>, u16),
    ErrorView,
> {
    if a.len() > 0 && a[0] == '[' {
        let inner = a.skip(1);
        let end = find(inner, ']', 0);
        let host = inner.take(end);
        let after = inner.skip(end + 1);
        if end >= inner.len() {
            Err(ErrorView::InvalidUrl("invalid url: "@ + input))
        } else if trim(host).len() == 0 {
            Err(ErrorView::InvalidUrl("missing host in url: "@ + input))
        } else if after.len() == 0 {
            Ok((host, default_port))
        } else if after[0] == ':' {
            match parse_unsigned(after.skip(1), 65535) {
                Some(port) => Ok((host, port as u16)),
                None => Err(ErrorView::InvalidUrl("invalid port in url: "@ + input)),
            }
        } else {
            Err(ErrorView::InvalidUrl("invalid url: "@ + input))
        }
    } else if count_from(a, ':', 0) == 0 {
        Ok((a, default_port))
    } else if count_from(a, ':', 0) == 1 {
        let k = find(a, ':', 0);
        match parse_unsigned(a.skip(k + 1), 65535) {
            Some(port) => Ok((a.take(k), port as u16)),
            None => Err(ErrorView::InvalidUrl("invalid port in url: "@ + input)),
        }
    } else {
        Err(
            ErrorView::InvalidUrl(
                "IPv6 addresses must be enclosed in brackets (e.g. svn://[::1]/repo)"@,
            ),
        )
    }
}

/// A host as it stands in a URL: with brackets if it holds a colon and has none.
pub open spec fn bracketed(host: Seq<char>) -> Seq<char> {
    if host.contains(':') && !(host[0] == '[' && host.last() == ']') {
        "["@ + host + "]"@
    } else {
        host
    }
}

/// The URL that a scheme and what stands behind it give.
pub open spec fn assemble(
    scheme: Seq<char>,
    user: Seq<char>,
    host: Seq<char>,
    port: u16,
    path: Seq<char>,
) -> Seq<char> {
    scheme + user + bracketed(host) + ":"@ + decimal(port as nat) + path
}

/// What a trimmed URL of the given scheme says, `rest` being what stands behind the
/// scheme.
pub open spec fn parse_rest(
    scheme: Seq<char>,
    default_port: u16,
    with_user: bool,
    rest: Seq<char>,
    input: Seq<char>,
) -> Result<UrlView, ErrorView> {
    let authority = authority_of(rest);
    let user = if with_user {
        user_of(authority)
    } else {
        Seq::empty()
    };
    let a = if with_user {
        behind_user(authority)
    } else {
        authority
    };
    match host_and_port(a, default_port, input) {
        Err(e) => Err(e),
        Ok((host, port)) => if trim(host).len() == 0 {
            Err(ErrorView::InvalidUrl("missing host in url: "@ + input))
        } else {
            Ok(UrlView { host, port, url: assemble(scheme, user, host, port, path_of(rest)) })
        },
    }
}

/// What a URL says.
pub open spec fn parse_url(s: Seq<char>) -> Result<UrlView, ErrorView> {
    let input = trim(s);
    if begins_with(input, "svn+ssh://"@) {
        parse_rest("svn+ssh://"@, 22, true, input.skip(10), input)
    } else if begins_with(input, "svn://"@) {
        parse_rest("svn://"@, 3690, false, input.skip(6), input)
    } else {
        Err(ErrorView::InvalidUrl("only svn:// URLs are supported"@))
    }
}

/// Whether `cs` begins with `prefix`, letters being taken in either case.
fn scheme_is(cs: &[char], prefix: &str) -> (r: bool)
    ensures
        r == begins_with(cs@, prefix@),
        r ==> prefix@.len() <= cs@.len(),
{
    let p = chars_of(prefix);
    if p.len() > cs.len() {
        return false;
    }
    let mut i: usize = 0;
    while i < p.len()
        invariant
            i <= p.len() <= cs.len(),
            p@ == prefix@,
            forall|k: int| 0 <= k < i ==> lower_text(cs@)[k] == prefix@[k],
        decreases p.len() - i,
    {
        if char_lower(cs[i]) != p[i] {
            assert(lower_text(cs@).take(prefix@.len() as int)[i as int] != prefix@[i as int]);
            return false;
        }
        i = i + 1;
    }
    assert(lower_text(cs@).take(prefix@.len() as int) =~= prefix@);
    true
}

/// The index behind the last `@` of `cs` before `end`, or zero.
fn behind_last_at(cs: &[char], end: usize) -> (r: usize)
    requires
        end <= cs@.len(),
    ensures
        r == rfind(cs@.take(end as int), '@', end as int) + 1,
        r <= end,
{
    let mut i: usize = end;
    let ghost t = cs@.take(end as int);
    while i > 0 && cs[i - 1] != '@'
        invariant
            i <= end <= cs@.len(),
            t == cs@.take(end as int),
            rfind(t, '@', i as int) == rfind(t, '@', end as int),
        decreases i,
    {
        i = i - 1;
    }
    i
}

/// How often a colon occurs in `cs`.
fn count_colons(cs: &[char]) -> (r: usize)
    ensures
        r == count_from(cs@, ':', 0),
{
    let mut i: usize = cs.len();
    let mut n: usize = 0;
    while i > 0
        invariant
            i <= cs.len(),
            n == count_from(cs@, ':', i as int),
            n <= cs.len() - i,
        decreases i,
    {
        i = i - 1;
        if cs[i] == ':' {
            n = n + 1;
        }
    }
    n
}

/// The parts of `cs` from `from` on, as a vector.
fn tail(cs: &[char], from: usize) -> (r: Vec<char>)
    requires
        from <= cs@.len(),
    ensures
        r@ == cs@.skip(from as int),
{
    let mut out: Vec<char> = Vec::new();
    let mut i: usize = from;
    while i < cs.len()
        invariant
            from <= i <= cs.len(),
            out@ == cs@.subrange(from as int, i as int),
        decreases cs.len() - i,
    {
        out.push(cs[i]);
        i = i + 1;
        assert(out@ =~= cs@.subrange(from as int, i as int));
    }
    assert(out@ =~= cs@.skip(from as int));
    out
}

fn bad_url(message: &str, input: &str) -> (r: SvnError)
    ensures
        r.deep_view() == ErrorView::InvalidUrl(message@ + input@),
{
    SvnError::InvalidUrl(cat(message, input))
}

/// The host and the port that an authority without user names.
fn split_host(a: &[char], default_port: u16, input: &str) -> (r: Result<(String, u16), SvnError>)
    ensures
        match r {
            Ok((host, port)) => host_and_port(a@, default_port, input@) == Ok::<
                (Seq<char>, u16),
                ErrorView,
            >((host@, port)),
            Err(e) => host_and_port(a@, default_port, input@) == Err::<
                (Seq<char>, u16),
                ErrorView,
            >(e.deep_view()),
        },
{
    if a.len() > 0 && a[0] == '[' {
        let inner = tail(a, 1);
        let end = find_char(&inner, ']', 0);
        if end >= inner.len() {
            return Err(bad_url("invalid url: ", input));
        }
        let host = slice_text(&inner, 0, end);
        assert(inner@.subrange(0, end as int) =~= inner@.take(end as int));
        if trimmed(&host).as_str().is_empty() {
            return Err(bad_url("missing host in url: ", input));
        }
        let after = tail(&inner, end + 1);
        if after.len() == 0 {
            return Ok((host, default_port));
        }
        if after[0] != ':' {
            return Err(bad_url("invalid url: ", input));
        }
        let n = after.len();
        let text = slice_text(&after, 1, n);
        assert(after@.subrange(1, n as int) =~= after@.skip(1));
        match parse_number(&text, 65535) {
            Some(port) => Ok((host, port as u16)),
            None => Err(bad_url("invalid port in url: ", input)),
        }
    } else {
        let colons = count_colons(a);
        if colons == 0 {
            let n = a.len();
            assert(a@.subrange(0, n as int) =~= a@);
            Ok((slice_text(a, 0, n), default_port))
        } else if colons == 1 {
            let k = find_char(a, ':', 0);
            let n = a.len();
            proof {
                lemma_count_absent(a@, ':', 0, k as int);
            }
            let host = slice_text(a, 0, k);
            assert(a@.subrange(0, k as int) =~= a@.take(k as int));
            let text = slice_text(a, k + 1, n);
            assert(a@.subrange(k + 1, n as int) =~= a@.skip(k + 1));
            match parse_number(&text, 65535) {
                Some(port) => Ok((host, port as u16)),
                None => Err(bad_url("invalid port in url: ", input)),
            }
        } else {
            Err(
                invalid_url("IPv6 addresses must be enclosed in brackets (e.g. svn://[::1]/repo)"),
            )
        }
    }
}

/// What does not occur is counted zero times.
proof fn lemma_count_absent(s: Seq<char>, c: char, i: int, k: int)
    requires
        0 <= i <= k <= s.len(),
        forall|j: int| i <= j < k ==> s[j] != c,
    ensures
        count_from(s, c, i) == count_from(s, c, k),
    decreases k - i,
{
    if i < k {
        lemma_count_absent(s, c, i + 1, k);
    }
}

/// A host as it stands in a URL.
fn host_for_url(host: &str) -> (r: String)
    ensures
        r@ == bracketed(host@),
{
    let cs = chars_of(host);
    let n = cs.len();
    let k = find_char(&cs, ':', 0);
    assert(host@.contains(':') <==> k < n) by {
        if k < n {
            assert(host@[k as int] == ':');
        }
    }
    if k < n && !(cs[0] == '[' && cs[n - 1] == ']') {
        cat3("[", host, "]")
    } else {
        host.to_owned()
    }
}

impl SvnUrl {
    /// Parses and normalises a URL.
    pub fn parse(input: &str) -> (r: Result<SvnUrl, SvnError>)
        ensures
            match r {
                Ok(u) => parse_url(input@) == Ok::<UrlView, ErrorView>(u.deep_view()),
                Err(e) => parse_url(input@) == Err::<UrlView, ErrorView>(e.deep_view()),
            },
    {
        let input = trimmed(input);
        let cs = chars_of(&input);
        proof {
            reveal_strlit("svn+ssh://");
            reveal_strlit("svn://");
        }
        if scheme_is(&cs, "svn+ssh://") {
            let rest = tail(&cs, 10);
            parse_behind("svn+ssh://", 22, true, &rest, &input)
        } else if scheme_is(&cs, "svn://") {
            let rest = tail(&cs, 6);
            parse_behind("svn://", 3690, false, &rest, &input)
        } else {
            Err(invalid_url("only svn:// URLs are supported"))
        }
    }

    /// Whether the server is reached through a tunnel.
    pub fn is_tunneled(&self) -> (r: bool)
        ensures
            r == has_prefix(self.url@, "svn+ssh://"@),
    {
        starts_with(&self.url, "svn+ssh://")
    }

    /// The address to connect to, `host:port`, with brackets around an IPv6 address.
    pub fn socket_addr(&self) -> (r: String)
        ensures
            r@ == bracketed(self.host@) + ":"@ + decimal(self.port as nat),
    {
        cat3(&host_for_url(&self.host), ":", &decimal_string(self.port as u64))
    }

    /// The normalised URL.
    pub fn to_text(&self) -> (r: String)
        ensures
            r@ == self.url@,
    {
        self.url.clone()
    }
}

impl std::str::FromStr for SvnUrl {
    type Err = SvnError;

    fn from_str(s: &str) -> (r: Result<SvnUrl, SvnError>)
        ensures
            match r {
                Ok(u) => parse_url(s@) == Ok::<UrlView, ErrorView>(u.deep_view()),
                Err(e) => parse_url(s@) == Err::<UrlView, ErrorView>(e.deep_view()),
            },
    {
        SvnUrl::parse(s)
    }
}

/// What a URL of the given scheme says.
fn parse_behind(scheme: &str, default_port: u16, with_user: bool, rest: &[char], input: &str) -> (r:
    Result<SvnUrl, SvnError>)
    ensures
        match r {
            Ok(u) => parse_rest(scheme@, default_port, with_user, rest@, input@) == Ok::<
                UrlView,
                ErrorView,
            >(u.deep_view()),
            Err(e) => parse_rest(scheme@, default_port, with_user, rest@, input@) == Err::<
                UrlView,
                ErrorView,
            >(e.deep_view()),
        },
{
    let n = rest.len();
    let k = find_char(rest, '/', 0);
    let ghost authority = authority_of(rest@);
    let path = if k < n {
        let p = slice_text(rest, k, n);
        assert(rest@.subrange(k as int, n as int) =~= rest@.skip(k as int));
        p
    } else {
        "/".to_owned()
    };
    let at: usize = if with_user {
        behind_last_at(rest, k)
    } else {
        0
    };
    let user = slice_text(rest, 0, at);
    let a = subvec(rest, at, k);
    proof {
        if with_user {
            assert(user@ =~= user_of(authority));
            assert(a@ =~= behind_user(authority));
        } else {
            assert(user@ =~= Seq::<char>::empty());
            assert(a@ =~= authority);
        }
    }
    let (host, port) = match split_host(&a, default_port, input) {
        Ok(p) => p,
        Err(e) => {
            return Err(e);
        },
    };
    let bare = trimmed(&host);
    if bare.as_str().is_empty() {
        return Err(bad_url("missing host in url: ", input));
    }
    let front = cat3(scheme, &user, &host_for_url(&host));
    let back = cat3(":", &decimal_string(port as u64), &path);
    let url = cat(&front, &back);
    assert(url@ =~= assemble(scheme@, user@, host@, port, path@));
    Ok(SvnUrl { host, port, url })
}

fn subvec(cs: &[char], from: usize, to: usize) -> (r: Vec<char>)
    requires
        from <= to <= cs@.len(),
    ensures
        r@ == cs@.subrange(from as int, to as int),
{
    let mut out: Vec<char> = Vec::new();
    let mut i: usize = from;
    while i < to
        invariant
            from <= i <= to <= cs.len(),
            out@ == cs@.subrange(from as int, i as int),
        decreases to - i,
    {
        out.push(cs[i]);
        i = i + 1;
        assert(out@ =~= cs@.subrange(from as int, i as int));
    }
    out
}

} // verus!
