//! OpenSSH client configuration: reading it, and looking a host up in it.

use vstd::prelude::*;

use crate::text::{
    char_is_space, chars_of, clone_text, find, find_char, is_space, lower_text, parse_number,
    parse_unsigned, slice_text, str_eq, to_lower, trim, trim_end, trimmed, trimmed_end,
};
use crate::time::Duration;
use crate::wildcard::{wild_match, wildcard_match};

verus! {

/// What the configuration says about a host.
#[derive(Clone, Debug)]
pub struct HostParams {
    pub host_name: Option<String>,
    pub port: Option<u16>,
    pub user: Option<String>,
    pub identity_file: Option<Vec<String>>,
    pub connect_timeout: Option<Duration>,
    pub host_key_alias: Option<String>,
    pub user_known_hosts_file: Option<String>,
    pub strict_host_key_checking: Option<String>,
    pub identity_agent: Option<String>,
    pub identities_only: Option<bool>,
}

/// What `HostParams` say.
pub struct HostParamsView {
    pub host_name: Option<Seq<char>>,
    pub port: Option<u16>,
    pub user: Option<Seq<char>>,
    pub identity_file: Option<Seq<Seq<char>>>,
    pub connect_timeout: Option<Duration>,
    pub host_key_alias: Option<Seq<char>>,
    pub user_known_hosts_file: Option<Seq<char>>,
    pub strict_host_key_checking: Option<Seq<char>>,
    pub identity_agent: Option<Seq<char>>,
    pub identities_only: Option<bool>,
}

impl DeepView for HostParams {
    type V = HostParamsView;

    open spec fn deep_view(&self) -> HostParamsView {
        HostParamsView {
            host_name: self.host_name.deep_view(),
            port: self.port,
            user: self.user.deep_view(),
            identity_file: self.identity_file.deep_view(),
            connect_timeout: self.connect_timeout,
            host_key_alias: self.host_key_alias.deep_view(),
            user_known_hosts_file: self.user_known_hosts_file.deep_view(),
            strict_host_key_checking: self.strict_host_key_checking.deep_view(),
            identity_agent: self.identity_agent.deep_view(),
            identities_only: self.identities_only,
        }
    }
}

/// Nothing is said.
pub open spec fn no_params() -> HostParamsView {
    HostParamsView {
        host_name: None,
        port: None,
        user: None,
        identity_file: None,
        connect_timeout: None,
        host_key_alias: None,
        user_known_hosts_file: None,
        strict_host_key_checking: None,
        identity_agent: None,
        identities_only: None,
    }
}

impl HostParams {
    /// Nothing is said.
    pub fn new() -> (r: HostParams)
        ensures
            r.deep_view() == no_params(),
    {
        HostParams {
            host_name: None,
            port: None,
            user: None,
            identity_file: None,
            connect_timeout: None,
            host_key_alias: None,
            user_known_hosts_file: None,
            strict_host_key_checking: None,
            identity_agent: None,
            identities_only: None,
        }
    }
}

/// A pattern for host names, which may exclude what it matches.
#[derive(Clone, Debug)]
pub struct HostPattern {
    pub negated: bool,
    pub pattern: String,
}

/// What a pattern says.
pub struct PatternView {
    pub negated: bool,
    pub pattern: Seq<char>,
}

impl DeepView for HostPattern {
    type V = PatternView;

    open spec fn deep_view(&self) -> PatternView {
        PatternView { negated: self.negated, pattern: self.pattern@ }
    }
}

/// A part of the configuration, and the hosts that it is for.
#[derive(Clone, Debug)]
pub struct HostBlock {
    pub patterns: Vec<HostPattern>,
    pub params: HostParams,
}

/// What a block says.
pub struct BlockView {
    pub patterns: Seq<PatternView>,
    pub params: HostParamsView,
}

impl DeepView for HostBlock {
    type V = BlockView;

    open spec fn deep_view(&self) -> BlockView {
        BlockView { patterns: self.patterns.deep_view(), params: self.params.deep_view() }
    }
}

/// One of the patterns, negated or not as `negated` says, matches the host.
pub open spec fn some_match(patterns: Seq<PatternView>, host: Seq<char>, negated: bool) -> bool {
    exists|i: int|
        0 <= i < patterns.len() && (#[trigger] patterns[i]).negated == negated && wild_match(
            patterns[i].pattern,
            host,
        )
}

/// A block is for a host if it has no patterns, or if one of them matches the host and
/// none of the negated ones does.
pub open spec fn block_matches(patterns: Seq<PatternView>, host: Seq<char>) -> bool {
    ||| patterns.len() == 0
    ||| !some_match(patterns, lower_text(host), true) && some_match(
        patterns,
        lower_text(host),
        false,
    )
}

impl HostBlock {
    /// Whether the block is for a host.
    pub fn matches_host(&self, host: &str) -> (r: bool)
        ensures
            r == block_matches(self.deep_view().patterns, host@),
    {
        if self.patterns.len() == 0 {
            return true;
        }
        let low = to_lower(host);
        let mut matched = false;
        let mut i: usize = 0;
        let ghost all = self.patterns.deep_view();
        while i < self.patterns.len()
            invariant
                i <= self.patterns.len(),
                self.patterns.len() > 0,
                low@ == lower_text(host@),
                all == self.patterns.deep_view(),
                forall|k: int|
                    0 <= k < i ==> !((#[trigger] all[k]).negated && wild_match(
                        all[k].pattern,
                        low@,
                    )),
                matched == exists|k: int|
                    0 <= k < i && !(#[trigger] all[k]).negated && wild_match(
                        all[k].pattern,
                        low@,
                    ),
            decreases self.patterns.len() - i,
        {
            let pat = &self.patterns[i];
            assert(all[i as int] == pat.deep_view());
            if wildcard_match(&pat.pattern, &low) {
                if pat.negated {
                    assert(some_match(all, low@, true));
                    return false;
                }
                matched = true;
            }
            i = i + 1;
        }
        matched
    }
}

/// A configuration: its blocks, in order.
#[derive(Clone, Debug)]
pub struct OpenSshConfig {
    pub blocks: Vec<HostBlock>,
}

/// A value that is set first counts.
pub open spec fn first_set(a: Option<Seq<char>>, b: Option<Seq<char>>) -> Option<Seq<char>> {
    if a is None {
        b
    } else {
        a
    }
}

/// What is said about a host, with what another block adds: a value that is set first
/// counts, and identity files are collected.
pub open spec fn with_block(out: HostParamsView, block: HostParamsView) -> HostParamsView {
    HostParamsView {
        host_name: first_set(out.host_name, block.host_name),
        port: if out.port is None {
            block.port
        } else {
            out.port
        },
        user: first_set(out.user, block.user),
        connect_timeout: if out.connect_timeout is None {
            block.connect_timeout
        } else {
            out.connect_timeout
        },
        host_key_alias: first_set(out.host_key_alias, block.host_key_alias),
        user_known_hosts_file: first_set(out.user_known_hosts_file, block.user_known_hosts_file),
        strict_host_key_checking: first_set(
            out.strict_host_key_checking,
            block.strict_host_key_checking,
        ),
        identity_agent: first_set(out.identity_agent, block.identity_agent),
        identities_only: if out.identities_only is None {
            block.identities_only
        } else {
            out.identities_only
        },
        identity_file: match block.identity_file {
            Some(files) => Some(
                match out.identity_file {
                    Some(had) => had + files,
                    None => files,
                },
            ),
            None => out.identity_file,
        },
    }
}

/// What the blocks before index `n` say about a host.
pub open spec fn query_before(blocks: Seq<BlockView>, host: Seq<char>, n: int) -> HostParamsView
    decreases n,
{
    if n <= 0 || n > blocks.len() {
        no_params()
    } else {
        let out = query_before(blocks, host, n - 1);
        if block_matches(blocks[n - 1].patterns, host) {
            with_block(out, blocks[n - 1].params)
        } else {
            out
        }
    }
}

fn add_block(out: &mut HostParams, block: &HostParams)
    ensures
        final(out).deep_view() == with_block(old(out).deep_view(), block.deep_view()),
{
    if out.host_name.is_none() {
        out.host_name = clone_text(&block.host_name);
    }
    if out.port.is_none() {
        out.port = block.port;
    }
    if out.user.is_none() {
        out.user = clone_text(&block.user);
    }
    if out.connect_timeout.is_none() {
        out.connect_timeout = block.connect_timeout;
    }
    if out.host_key_alias.is_none() {
        out.host_key_alias = clone_text(&block.host_key_alias);
    }
    if out.user_known_hosts_file.is_none() {
        out.user_known_hosts_file = clone_text(&block.user_known_hosts_file);
    }
    if out.strict_host_key_checking.is_none() {
        out.strict_host_key_checking = clone_text(&block.strict_host_key_checking);
    }
    if out.identity_agent.is_none() {
        out.identity_agent = clone_text(&block.identity_agent);
    }
    if out.identities_only.is_none() {
        out.identities_only = block.identities_only;
    }
    match &block.identity_file {
        Some(files) => {
            let ghost before = out.identity_file.deep_view();
            let mut all = match out.identity_file.take() {
                Some(v) => v,
                None => Vec::new(),
            };
            let ghost had = all.deep_view();
            let mut i: usize = 0;
            while i < files.len()
                invariant
                    i <= files.len(),
                    all.deep_view() == had + files.deep_view().take(i as int),
                decreases files.len() - i,
            {
                let ghost now = all.deep_view();
                all.push(files[i].clone());
                assert(all.deep_view() =~= now.push(files@[i as int]@));
                i = i + 1;
                assert(all.deep_view() =~= had + files.deep_view().take(i as int));
            }
            assert(files.deep_view().take(i as int) =~= files.deep_view());
            assert(before is None ==> had + files.deep_view() =~= files.deep_view());
            out.identity_file = Some(all);
        },
        None => {},
    }
}

impl OpenSshConfig {
    /// What the configuration says about a host.
    pub fn query(&self, host: &str) -> (r: HostParams)
        ensures
            r.deep_view() == query_before(
                self.blocks.deep_view(),
                host@,
                self.blocks.deep_view().len() as int,
            ),
    {
        let mut out = HostParams::new();
        let mut i: usize = 0;
        let ghost all = self.blocks.deep_view();
        while i < self.blocks.len()
            invariant
                i <= self.blocks.len(),
                all == self.blocks.deep_view(),
                out.deep_view() == query_before(all, host@, i as int),
            decreases self.blocks.len() - i,
        {
            assert(all[i as int] == self.blocks@[i as int].deep_view());
            if self.blocks[i].matches_host(host) {
                add_block(&mut out, &self.blocks[i].params);
            }
            i = i + 1;
        }
        out
    }
}

/// The truth value that a word stands for.
pub open spec fn bool_word(s: Seq<char>) -> Option<bool> {
    let w = lower_text(trim(s));
    if w == "yes"@ || w == "true"@ || w == "1"@ || w == "on"@ {
        Some(true)
    } else if w == "no"@ || w == "false"@ || w == "0"@ || w == "off"@ {
        Some(false)
    } else {
        None
    }
}

/// The truth value that a word stands for.
pub fn parse_bool(s: &str) -> (r: Option<bool>)
    ensures
        r == bool_word(s@),
{
    let w = to_lower(&trimmed(s));
    if str_eq(&w, "yes") || str_eq(&w, "true") || str_eq(&w, "1") || str_eq(&w, "on") {
        Some(true)
    } else if str_eq(&w, "no") || str_eq(&w, "false") || str_eq(&w, "0") || str_eq(&w, "off") {
        Some(false)
    } else {
        None
    }
}

/// The first value, if there is one.
pub open spec fn first_text(values: Seq<Seq<char>>) -> Option<Seq<char>> {
    if values.len() > 0 {
        Some(values[0])
    } else {
        None
    }
}

fn first_value(values: &[String]) -> (r: Option<String>)
    ensures
        r.deep_view() == first_text(values.deep_view()),
{
    if values.len() > 0 {
        Some(values[0].clone())
    } else {
        None
    }
}

/// What an option adds to what is said: a value that is set first counts, and identity
/// files are collected. `key` is in lower case; options that are not known add nothing.
pub open spec fn with_option(p: HostParamsView, key: Seq<char>, values: Seq<Seq<char>>) ->
    HostParamsView {
    if key == "hostname"@ {
        HostParamsView { host_name: first_set(p.host_name, first_text(values)), ..p }
    } else if key == "user"@ {
        HostParamsView { user: first_set(p.user, first_text(values)), ..p }
    } else if key == "port"@ {
        HostParamsView {
            port: if p.port is None {
                match first_text(values) {
                    Some(v) => match parse_unsigned(v, 65535) {
                        Some(n) => Some(n as u16),
                        None => None,
                    },
                    None => None,
                }
            } else {
                p.port
            },
            ..p
        }
    } else if key == "identityfile"@ {
        HostParamsView {
            identity_file: match first_text(values) {
                Some(v) => Some(
                    match p.identity_file {
                        Some(files) => files.push(v),
                        None => seq![v],
                    },
                ),
                None => p.identity_file,
            },
            ..p
        }
    } else if key == "identityagent"@ {
        HostParamsView { identity_agent: first_set(p.identity_agent, first_text(values)), ..p }
    } else if key == "identitiesonly"@ {
        HostParamsView {
            identities_only: if p.identities_only is None {
                match first_text(values) {
                    Some(v) => bool_word(v),
                    None => None,
                }
            } else {
                p.identities_only
            },
            ..p
        }
    } else if key == "hostkeyalias"@ {
        HostParamsView { host_key_alias: first_set(p.host_key_alias, first_text(values)), ..p }
    } else if key == "userknownhostsfile"@ {
        HostParamsView {
            user_known_hosts_file: first_set(p.user_known_hosts_file, first_text(values)),
            ..p
        }
    } else if key == "stricthostkeychecking"@ {
        HostParamsView {
            strict_host_key_checking: first_set(p.strict_host_key_checking, first_text(values)),
            ..p
        }
    } else if key == "connecttimeout"@ {
        HostParamsView {
            connect_timeout: if p.connect_timeout is None {
                match first_text(values) {
                    Some(v) => match parse_unsigned(v, u64::MAX as nat) {
                        Some(n) => Some(Duration { secs: n as u64, nanos: 0 }),
                        None => None,
                    },
                    None => None,
                }
            } else {
                p.connect_timeout
            },
            ..p
        }
    } else {
        p
    }
}

/// Adds an option to what is said.
pub fn set_option(params: &mut HostParams, key: &str, values: &[String])
    ensures
        final(params).deep_view() == with_option(
            old(params).deep_view(),
            key@,
            values.deep_view(),
        ),
{
    if str_eq(key, "hostname") {
        if params.host_name.is_none() {
            params.host_name = first_value(values);
        }
    } else if str_eq(key, "user") {
        if params.user.is_none() {
            params.user = first_value(values);
        }
    } else if str_eq(key, "port") {
        if params.port.is_none() {
            params.port = match first_value(values) {
                Some(v) => match parse_number(&v, 65535) {
                    Some(n) => Some(n as u16),
                    None => None,
                },
                None => None,
            };
        }
    } else if str_eq(key, "identityfile") {
        match first_value(values) {
            Some(v) => {
                let ghost before = params.identity_file.deep_view();
                let ghost said = v@;
                let mut files = match params.identity_file.take() {
                    Some(f) => f,
                    None => Vec::new(),
                };
                let ghost had = files.deep_view();
                files.push(v);
                assert(files.deep_view() =~= had.push(said));
                assert(before is None ==> had.push(said) =~= seq![said]);
                params.identity_file = Some(files);
            },
            None => {},
        }
    } else if str_eq(key, "identityagent") {
        if params.identity_agent.is_none() {
            params.identity_agent = first_value(values);
        }
    } else if str_eq(key, "identitiesonly") {
        if params.identities_only.is_none() {
            params.identities_only = match first_value(values) {
                Some(v) => parse_bool(&v),
                None => None,
            };
        }
    } else if str_eq(key, "hostkeyalias") {
        if params.host_key_alias.is_none() {
            params.host_key_alias = first_value(values);
        }
    } else if str_eq(key, "userknownhostsfile") {
        if params.user_known_hosts_file.is_none() {
            params.user_known_hosts_file = first_value(values);
        }
    } else if str_eq(key, "stricthostkeychecking") {
        if params.strict_host_key_checking.is_none() {
            params.strict_host_key_checking = first_value(values);
        }
    } else if str_eq(key, "connecttimeout") {
        if params.connect_timeout.is_none() {
            params.connect_timeout = match first_value(values) {
                Some(v) => match parse_number(&v, u64::MAX) {
                    Some(n) => Some(Duration::from_secs(n)),
                    None => None,
                },
                None => None,
            };
        }
    }
}

/// A line goes on in the next one: it ends with a backslash, and not with two.
pub open spec fn line_goes_on(line: Seq<char>) -> bool {
    let t = trim_end(line);
    &&& t.len() > 0
    &&& t.last() == '\\'
    &&& !(t.len() > 1 && t[t.len() - 2] == '\\')
}

/// Whether a line goes on in the next one.
pub fn is_line_continued(line: &str) -> (r: bool)
    ensures
        r == line_goes_on(line@),
{
    let t = trimmed_end(line);
    let cs = chars_of(&t);
    let n = cs.len();
    n > 0 && cs[n - 1] == '\\' && !(n > 1 && cs[n - 2] == '\\')
}

/// Where the cutting of a line into tokens stands: the tokens so far, the token that is
/// being read, and whether that is inside quotation marks.
pub struct TokenState {
    pub tokens: Seq<Seq<char>>,
    pub current: Seq<char>,
    pub in_single: bool,
    pub in_double: bool,
}

impl TokenState {
    /// The token that is being read is complete, unless it is empty.
    pub open spec fn flushed(self) -> TokenState {
        if self.current.len() == 0 {
            self
        } else {
            TokenState {
                tokens: self.tokens.push(self.current),
                current: Seq::empty(),
                ..self
            }
        }
    }

    /// One more character of the token that is being read.
    pub open spec fn with_char(self, c: char) -> TokenState {
        TokenState { current: self.current.push(c), ..self }
    }
}

/// The tokens of a line from index `i` on: white space separates them outside quotation
/// marks, a backslash takes the next character as it is except between single quotation
/// marks, and a `#` outside quotation marks ends the line.
pub open spec fn tokens_from(line: Seq<char>, i: int, s: TokenState) -> Seq<Seq<char>>
    decreases line.len() - i,
{
    if i < 0 || i >= line.len() {
        s.flushed().tokens
    } else {
        let c = line[i];
        if c == '#' && !s.in_single && !s.in_double {
            s.flushed().tokens
        } else if c == '\\' && !s.in_single {
            if i + 1 < line.len() {
                tokens_from(line, i + 2, s.with_char(line[i + 1]))
            } else {
                tokens_from(line, i + 1, s)
            }
        } else if c == '\'' && !s.in_double {
            tokens_from(line, i + 1, TokenState { in_single: !s.in_single, ..s })
        } else if c == '"' && !s.in_single {
            tokens_from(line, i + 1, TokenState { in_double: !s.in_double, ..s })
        } else if is_space(c) && !s.in_single && !s.in_double {
            tokens_from(line, i + 1, s.flushed())
        } else {
            tokens_from(line, i + 1, s.with_char(c))
        }
    }
}

/// The tokens of a line.
pub open spec fn line_tokens(line: Seq<char>) -> Seq<Seq<char>> {
    tokens_from(
        line,
        0,
        TokenState {
            tokens: Seq::empty(),
            current: Seq::empty(),
            in_single: false,
            in_double: false,
        },
    )
}

fn flush_token(tokens: &mut Vec<String>, current: &str)
    ensures
        final(tokens).deep_view() == (if current@.len() == 0 {
            old(tokens).deep_view()
        } else {
            old(tokens).deep_view().push(current@)
        }),
{
    let ghost before = tokens.deep_view();
    if !current.is_empty() {
        tokens.push(current.to_owned());
        assert(tokens.deep_view() =~= before.push(current@));
    }
}

/// The tokens of a line.
pub fn tokenize_ssh_config_line(line: &str) -> (r: Vec<String>)
    ensures
        r.deep_view() == line_tokens(line@),
{
    let cs = chars_of(line);
    let mut tokens: Vec<String> = Vec::new();
    let mut current = String::new();
    let mut in_single = false;
    let mut in_double = false;
    let mut i: usize = 0;
    assert(tokens.deep_view() =~= Seq::<Seq<char>>::empty());
    while i < cs.len()
        invariant
            i <= cs.len(),
            cs@ == line@,
            line_tokens(line@) == tokens_from(
                line@,
                i as int,
                TokenState { tokens: tokens.deep_view(), current: current@, in_single, in_double },
            ),
        decreases cs.len() - i,
    {
        let c = cs[i];
        if c == '#' && !in_single && !in_double {
            flush_token(&mut tokens, &current);
            return tokens;
        }
        if c == '\\' && !in_single {
            if cs.len() - i > 1 {
                current.push(cs[i + 1]);
                i = i + 2;
            } else {
                i = i + 1;
            }
        } else if c == '\'' && !in_double {
            in_single = !in_single;
            i = i + 1;
        } else if c == '"' && !in_single {
            in_double = !in_double;
            i = i + 1;
        } else if char_is_space(c) && !in_single && !in_double {
            flush_token(&mut tokens, &current);
            if !current.as_str().is_empty() {
                current = String::new();
            }
            i = i + 1;
        } else {
            current.push(c);
            i = i + 1;
        }
    }
    flush_token(&mut tokens, &current);
    tokens
}

/// The keyword and the values of a line: `key values`, `key = values` or `key=value`.
pub open spec fn key_and_values(line: Seq<char>) -> Option<(Seq<char>, Seq<Seq<char>>)> {
    let t = line_tokens(line);
    if t.len() == 0 {
        None
    } else if t.len() >= 3 && t[1] == "="@ {
        Some((t[0], t.skip(2)))
    } else {
        let k = find(t[0], '=', 0);
        if 0 < k < t[0].len() {
            let v = t[0].skip(k + 1);
            Some(
                (
                    t[0].take(k),
                    (if v.len() == 0 {
                        Seq::empty()
                    } else {
                        seq![v]
                    }) + t.skip(1),
                ),
            )
        } else {
            Some((t[0], t.skip(1)))
        }
    }
}

fn texts_from(v: &[String], from: usize) -> (r: Vec<String>)
    requires
        from <= v@.len(),
    ensures
        r.deep_view() == v.deep_view().skip(from as int),
{
    let mut out: Vec<String> = Vec::new();
    let mut i: usize = from;
    while i < v.len()
        invariant
            from <= i <= v.len(),
            out@.len() == i - from,
            forall|k: int| 0 <= k < i - from ==> (#[trigger] out@[k])@ == v@[k + from]@,
        decreases v.len() - i,
    {
        out.push(v[i].clone());
        i = i + 1;
    }
    assert(out.deep_view() =~= v.deep_view().skip(from as int));
    out
}

/// The keyword and the values of a line.
pub fn parse_config_line_tokens(line: &str) -> (r: Option<(String, Vec<String>)>)
    ensures
        match r {
            Some((k, v)) => key_and_values(line@) == Some((k@, v.deep_view())),
            None => key_and_values(line@) is None,
        },
{
    let tokens = tokenize_ssh_config_line(line);
    let ghost t = tokens.deep_view();
    assert(t.len() == tokens@.len());
    if tokens.len() == 0 {
        return None;
    }
    assert(t[0] == tokens@[0]@);
    if tokens.len() >= 3 {
        assert(t[1] == tokens@[1]@);
        if str_eq(&tokens[1], "=") {
            return Some((tokens[0].clone(), texts_from(&tokens, 2)));
        }
    }
    let head = chars_of(&tokens[0]);
    let k = find_char(&head, '=', 0);
    let n = head.len();
    if 0 < k && k < n {
        let key = slice_text(&head, 0, k);
        assert(head@.subrange(0, k as int) =~= t[0].take(k as int));
        let v = slice_text(&head, k + 1, n);
        assert(head@.subrange(k + 1, n as int) =~= t[0].skip(k + 1));
        let mut values: Vec<String> = Vec::new();
        assert(values.deep_view() =~= Seq::<Seq<char>>::empty());
        flush_token(&mut values, &v);
        let ghost first = values.deep_view();
        let mut rest = texts_from(&tokens, 1);
        let ghost more = rest.deep_view();
        values.append(&mut rest);
        assert(values.deep_view() =~= first + more);
        proof {
            if v@.len() == 0 {
                assert(first =~= Seq::<Seq<char>>::empty());
            } else {
                assert(first =~= seq![v@]);
            }
        }
        return Some((key, values));
    }
    Some((tokens[0].clone(), texts_from(&tokens, 1)))
}

/// The pattern that a piece of a `Host` line is; blank pieces are none.
pub open spec fn pattern_of(piece: Seq<char>) -> Option<PatternView> {
    let t = trim(piece);
    if t.len() == 0 {
        None
    } else if t[0] == '!' {
        Some(PatternView { negated: true, pattern: lower_text(t.skip(1)) })
    } else {
        Some(PatternView { negated: false, pattern: lower_text(t) })
    }
}

/// The patterns, with one more if there is one.
pub open spec fn with_pattern(v: Seq<PatternView>, p: Option<PatternView>) -> Seq<PatternView> {
    match p {
        Some(x) => v.push(x),
        None => v,
    }
}

/// The patterns of a value from index `i` on, behind those that were read before. Commas
/// separate them.
pub open spec fn patterns_in(value: Seq<char>, i: int, before: Seq<PatternView>) -> Seq<
    PatternView,
>
    decreases value.len() - i,
{
    let k = find(value, ',', i);
    if i < 0 || k < i || k >= value.len() {
        with_pattern(before, pattern_of(value.skip(i)))
    } else {
        patterns_in(value, k + 1, with_pattern(before, pattern_of(value.subrange(i, k))))
    }
}

/// The patterns of the values before index `n`.
pub open spec fn host_patterns(values: Seq<Seq<char>>, n: int) -> Seq<PatternView>
    decreases n,
{
    if n <= 0 || n > values.len() {
        Seq::empty()
    } else {
        patterns_in(values[n - 1], 0, host_patterns(values, n - 1))
    }
}

fn add_pattern(out: &mut Vec<HostPattern>, piece: &str)
    ensures
        final(out).deep_view() == with_pattern(old(out).deep_view(), pattern_of(piece@)),
{
    let ghost before = out.deep_view();
    let t = trimmed(piece);
    let cs = chars_of(&t);
    if cs.len() == 0 {
        return;
    }
    let p = if cs[0] == '!' {
        let n = cs.len();
        let rest = slice_text(&cs, 1, n);
        assert(cs@.subrange(1, n as int) =~= t@.skip(1));
        HostPattern { negated: true, pattern: to_lower(&rest) }
    } else {
        HostPattern { negated: false, pattern: to_lower(&t) }
    };
    let ghost said = p.deep_view();
    out.push(p);
    assert(out.deep_view() =~= before.push(said));
}

/// The patterns of a `Host` line.
pub fn parse_host_patterns(values: &[String]) -> (r: Vec<HostPattern>)
    ensures
        r.deep_view() == host_patterns(values.deep_view(), values.deep_view().len() as int),
{
    let mut out: Vec<HostPattern> = Vec::new();
    let mut n: usize = 0;
    let ghost all = values.deep_view();
    assert(out.deep_view() =~= Seq::<PatternView>::empty());
    while n < values.len()
        invariant
            n <= values.len(),
            all == values.deep_view(),
            out.deep_view() == host_patterns(all, n as int),
        decreases values.len() - n,
    {
        let cs = chars_of(&values[n]);
        let ghost v = all[n as int];
        let ghost before = out.deep_view();
        let mut i: usize = 0;
        let len = cs.len();
        let mut more = true;
        while more
            invariant
                i <= len,
                len == cs.len(),
                cs@ == v,
                more ==> patterns_in(v, i as int, out.deep_view()) == patterns_in(v, 0, before),
                !more ==> out.deep_view() == patterns_in(v, 0, before),
            decreases (if more {
                len - i + 1
            } else {
                0
            }),
        {
            let k = find_char(&cs, ',', i);
            if k >= len {
                let piece = slice_text(&cs, i, len);
                assert(cs@.subrange(i as int, len as int) =~= v.skip(i as int));
                add_pattern(&mut out, &piece);
                more = false;
            } else {
                let piece = slice_text(&cs, i, k);
                add_pattern(&mut out, &piece);
                i = k + 1;
            }
        }
        n = n + 1;
    }
    out
}

/// A word that begins a criterion of a `Match` line.
pub open spec fn criterion_word(token: Seq<char>) -> bool {
    let w = lower_text(token);
    ||| w == "all"@
    ||| w == "canonical"@
    ||| w == "exec"@
    ||| w == "final"@
    ||| w == "host"@
    ||| w == "originalhost"@
    ||| w == "user"@
    ||| w == "localuser"@
    ||| w == "localnetwork"@
    ||| w == "tagged"@
    ||| w == "address"@
    ||| w == "rdomain"@
}

/// Whether a word begins a criterion of a `Match` line.
pub fn is_match_criterion_keyword(token: &str) -> (r: bool)
    ensures
        r == criterion_word(token@),
{
    let w = to_lower(token);
    str_eq(&w, "all") || str_eq(&w, "canonical") || str_eq(&w, "exec") || str_eq(&w, "final")
        || str_eq(&w, "host") || str_eq(&w, "originalhost") || str_eq(&w, "user") || str_eq(
        &w,
        "localuser",
    ) || str_eq(&w, "localnetwork") || str_eq(&w, "tagged") || str_eq(&w, "address") || str_eq(
        &w,
        "rdomain",
    )
}

/// The patterns that a `Match` line stands for: `all`, or one criterion on the host.
/// Other lines are not understood.
pub open spec fn match_patterns(values: Seq<Seq<char>>) -> Option<Seq<PatternView>> {
    if values.len() == 0 {
        None
    } else {
        let first = lower_text(values[0]);
        if first == "all"@ && values.len() == 1 {
            Some(seq![PatternView { negated: false, pattern: "*"@ }])
        } else if first != "host"@ && first != "originalhost"@ {
            None
        } else if exists|i: int| 1 <= i < values.len() && criterion_word(#[trigger] values[i]) {
            None
        } else {
            let rest = values.skip(1);
            let p = host_patterns(rest, rest.len() as int);
            if p.len() == 0 {
                None
            } else {
                Some(p)
            }
        }
    }
}

/// The patterns that a `Match` line stands for.
pub fn parse_match_as_host_patterns(values: &[String]) -> (r: Option<Vec<HostPattern>>)
    ensures
        r.deep_view() == match_patterns(values.deep_view()),
{
    let ghost all = values.deep_view();
    if values.len() == 0 {
        return None;
    }
    assert(all[0] == values@[0]@);
    let first = to_lower(&values[0]);
    if str_eq(&first, "all") && values.len() == 1 {
        let v = vec![HostPattern { negated: false, pattern: "*".to_owned() }];
        assert(v.deep_view() =~= seq![PatternView { negated: false, pattern: "*"@ }]);
        return Some(v);
    }
    if !str_eq(&first, "host") && !str_eq(&first, "originalhost") {
        return None;
    }
    let mut i: usize = 1;
    while i < values.len()
        invariant
            1 <= i <= values.len(),
            all == values.deep_view(),
            forall|k: int| 1 <= k < i ==> !criterion_word(#[trigger] all[k]),
        decreases values.len() - i,
    {
        assert(all[i as int] == values@[i as int]@);
        if is_match_criterion_keyword(&values[i]) {
            return None;
        }
        i = i + 1;
    }
    let rest = texts_from(values, 1);
    let patterns = parse_host_patterns(&rest);
    if patterns.len() == 0 {
        None
    } else {
        Some(patterns)
    }
}

/// `now` keeps what `before` has set; key files are only added, behind those that were
/// there.
pub open spec fn keeps_settings(before: HostParamsView, now: HostParamsView) -> bool {
    &&& before.host_name is Some ==> now.host_name == before.host_name
    &&& before.port is Some ==> now.port == before.port
    &&& before.user is Some ==> now.user == before.user
    &&& before.connect_timeout is Some ==> now.connect_timeout == before.connect_timeout
    &&& before.host_key_alias is Some ==> now.host_key_alias == before.host_key_alias
    &&& before.user_known_hosts_file is Some ==> now.user_known_hosts_file
        == before.user_known_hosts_file
    &&& before.strict_host_key_checking is Some ==> now.strict_host_key_checking
        == before.strict_host_key_checking
    &&& before.identity_agent is Some ==> now.identity_agent == before.identity_agent
    &&& before.identities_only is Some ==> now.identities_only == before.identities_only
    &&& before.identity_file matches Some(files) ==> now.identity_file matches Some(all)
        && files.is_prefix_of(all)
}

/// The first block that sets an option for a host decides: blocks that come later change
/// nothing that is set, and only add key files.
pub proof fn first_setting_wins(blocks: Seq<BlockView>, host: Seq<char>, n: int, m: int)
    requires
        0 <= n <= m <= blocks.len(),
    ensures
        keeps_settings(query_before(blocks, host, n), query_before(blocks, host, m)),
    decreases m,
{
    if n < m {
        first_setting_wins(blocks, host, n, m - 1);
    }
}

} // verus!
