//! How a tunnel is set up: which settings count, and who logs in how.

use vstd::prelude::*;

use crate::fspath::joined_path;
use crate::path_laws::{lemma_trim, tight};
use crate::ssh::{
    agent_at, default_key_files, key_file_path, login_plan, resolved, user_in_url, with_home,
    AgentView, AttemptView, HostKeyView, ResolvedView, SshAuthView, SshConfigView, SshEnvView,
};
use crate::ssh_config::{
    block_matches, bool_word, host_patterns, key_and_values, line_tokens, no_params, patterns_in,
    query_before, tokens_from, with_block, with_option, BlockView, HostParamsView, PatternView,
    TokenState,
};
use crate::text::{find, is_space, lemma_find, lower_text, parse_unsigned, trim};
use crate::time::Duration;
use crate::url::UrlView;
use crate::wildcard::wild_match;

verus! {

/// A character that stands for itself in a line of settings.
pub open spec fn stands_for_itself(c: char) -> bool {
    !is_space(c) && c != '#' && c != '\\' && c != '\'' && c != '"'
}

/// A word of a line of settings.
pub open spec fn is_word(s: Seq<char>) -> bool {
    s.len() > 0 && forall|k: int| 0 <= k < s.len() ==> stands_for_itself(#[trigger] s[k])
}

/// The text stands in the line from an index on.
pub open spec fn stands_in(line: Seq<char>, i: int, s: Seq<char>) -> bool {
    0 <= i && i + s.len() <= line.len() && line.subrange(i, i + s.len()) == s
}

proof fn lemma_run(line: Seq<char>, i: int, s: Seq<char>, st: TokenState)
    requires
        stands_in(line, i, s),
        !st.in_single,
        st.in_double ==> forall|k: int|
            0 <= k < s.len() ==> #[trigger] s[k] != '"' && s[k] != '\\',
        !st.in_double ==> forall|k: int|
            0 <= k < s.len() ==> stands_for_itself(#[trigger] s[k]),
    ensures
        tokens_from(line, i, st) == tokens_from(
            line,
            i + s.len(),
            TokenState { current: st.current + s, ..st },
        ),
    decreases s.len(),
{
    if s.len() > 0 {
        let c = s[0];
        let rest = s.drop_first();
        assert(line.subrange(i, i + s.len())[0] == line[i]);
        assert(line[i] == c);
        assert(line.subrange(i + 1, i + 1 + rest.len()) =~= rest) by {
            assert forall|k: int| 0 <= k < rest.len() implies line[i + 1 + k] == rest[k] by {
                assert(line.subrange(i, i + s.len())[k + 1] == s[k + 1]);
            }
        }
        assert forall|k: int| 0 <= k < rest.len() implies (st.in_double ==> #[trigger] rest[k]
            != '"' && rest[k] != '\\') && (!st.in_double ==> stands_for_itself(rest[k])) by {
            assert(rest[k] == s[k + 1]);
        }
        lemma_run(line, i + 1, rest, st.with_char(c));
        assert(st.current.push(c) + rest =~= st.current + s);
    } else {
        assert(st.current + s =~= st.current);
    }
}

/// A state in which nothing is quoted.
spec fn plain_state(tokens: Seq<Seq<char>>, current: Seq<char>) -> TokenState {
    TokenState { tokens, current, in_single: false, in_double: false }
}

/// Words that stand behind white space are told apart; what stands between quotation marks
/// is one of them, with its spaces; and nothing behind a `#` counts.
pub proof fn words_are_told_apart(
    key: Seq<char>,
    gap: char,
    value: Seq<char>,
    quoted: Seq<char>,
    comment: Seq<char>,
)
    requires
        is_word(key),
        is_space(gap),
        is_word(value),
        quoted.len() > 0,
        forall|k: int| 0 <= k < quoted.len() ==> #[trigger] quoted[k] != '"' && quoted[k] != '\\',
    ensures
        line_tokens(key + seq![gap] + value) == seq![key, value],
        line_tokens(key + seq![gap] + value + seq![gap, '#'] + comment) == seq![key, value],
        line_tokens(key + seq![gap, '"'] + quoted + seq!['"']) == seq![key, quoted],
        line_tokens(seq!['#'] + comment) == Seq::<Seq<char>>::empty(),
{
    let none = plain_state(Seq::empty(), Seq::empty());
    let n = key.len() as int;
    let one = plain_state(seq![key], Seq::empty());
    // A word and another one.
    let a = key + seq![gap] + value;
    assert(a.subrange(0, n) =~= key);
    assert(a.subrange(n + 1, n + 1 + value.len()) =~= value);
    lemma_word_and_gap(a, key, gap);
    lemma_run(a, n + 1, value, one);
    assert(Seq::<char>::empty() + value =~= value);
    assert(seq![key].push(value) =~= seq![key, value]);
    // With a comment.
    let b = key + seq![gap] + value + seq![gap, '#'] + comment;
    let m = n + 1 + value.len();
    assert(b.subrange(0, n) =~= key);
    assert(b.subrange(n + 1, m) =~= value);
    lemma_word_and_gap(b, key, gap);
    lemma_run(b, n + 1, value, one);
    assert(b[m] == gap);
    assert(b[m + 1] == '#');
    let two = plain_state(seq![key, value], Seq::empty());
    assert(plain_state(seq![key], value).flushed() == two);
    assert(tokens_from(b, m + 1, two) == two.flushed().tokens);
    // Between quotation marks.
    let c = key + seq![gap, '"'] + quoted + seq!['"'];
    let e = n + 2 + quoted.len();
    assert(c.subrange(0, n) =~= key);
    lemma_word_and_gap(c, key, gap);
    assert(c[n + 1] == '"');
    assert(c.subrange(n + 2, e) =~= quoted);
    let inside = TokenState { in_double: true, ..one };
    assert(tokens_from(c, n + 1, one) == tokens_from(c, n + 2, inside));
    lemma_run(c, n + 2, quoted, inside);
    assert(Seq::<char>::empty() + quoted =~= quoted);
    assert(c[e] == '"');
    assert(c.len() == e + 1);
    let done = plain_state(seq![key], quoted);
    assert(tokens_from(c, e, TokenState { current: quoted, ..inside }) == tokens_from(
        c,
        e + 1,
        done,
    ));
    assert(seq![key].push(quoted) =~= seq![key, quoted]);
    // A comment alone.
    let d = seq!['#'] + comment;
    assert(d[0] == '#');
}

proof fn lemma_word_and_gap(line: Seq<char>, key: Seq<char>, gap: char)
    requires
        is_word(key),
        is_space(gap),
        stands_in(line, 0, key),
        line.len() > key.len(),
        line[key.len() as int] == gap,
    ensures
        line_tokens(line) == tokens_from(
            line,
            key.len() as int + 1,
            plain_state(seq![key], Seq::empty()),
        ),
{
    let none = plain_state(Seq::empty(), Seq::empty());
    lemma_run(line, 0, key, none);
    assert(Seq::<char>::empty() + key =~= key);
    let st = plain_state(Seq::empty(), key);
    assert(st.flushed() == plain_state(seq![key], Seq::empty())) by {
        assert(Seq::<Seq<char>>::empty().push(key) =~= seq![key]);
    }
    assert(gap != '#' && gap != '\\' && gap != '\'' && gap != '"');
}

/// A setting is told from its value by a space or by an equals sign.
pub proof fn a_setting_is_told_from_its_value(key: Seq<char>, gap: char, value: Seq<char>)
    requires
        is_word(key),
        is_space(gap),
        is_word(value),
        forall|k: int| 0 <= k < key.len() ==> #[trigger] key[k] != '=',
        value != seq!['='],
    ensures
        key_and_values(key + seq![gap] + value) == Some((key, seq![value])),
        key_and_values(key + seq!['='] + value) == Some((key, seq![value])),
{
    words_are_told_apart(key, gap, value, value, Seq::empty());
    lemma_find(key, '=', 0);
    let t = seq![key, value];
    assert(t.skip(1) =~= seq![value]);
    let all = key + seq!['='] + value;
    assert(all.subrange(0, all.len() as int) =~= all);
    assert forall|k: int| 0 <= k < all.len() implies stands_for_itself(#[trigger] all[k]) by {
        if k < key.len() {
            assert(all[k] == key[k]);
        } else if k > key.len() {
            assert(all[k] == value[k - key.len() - 1]);
        }
    }
    lemma_run(all, 0, all, plain_state(Seq::empty(), Seq::empty()));
    assert(Seq::<char>::empty() + all =~= all);
    assert(line_tokens(all) =~= seq![all]);
    lemma_find(all, '=', 0);
    let k = find(all, '=', 0);
    assert(k == key.len()) by {
        assert(all[key.len() as int] == '=');
        if k < key.len() {
            assert(all[k] == key[k]);
        }
    }
    assert(all.take(k) =~= key);
    assert(all.skip(k + 1) =~= value);
    assert(seq![value] + seq![all].skip(1) =~= seq![value]);
}

/// A setting goes by its name, and is taken where it was not set before: the name of the
/// host, the user, the port, the files with keys, the agent, the checks of the host's key,
/// and how long to wait. What was set stays; files with keys are added.
#[verifier::rlimit(60)]
pub proof fn a_setting_goes_by_its_name(p: HostParamsView, v: Seq<char>)
    ensures
        with_option(p, "hostname"@, seq![v]) == (HostParamsView {
            host_name: or_else(p.host_name, Some(v)),
            ..p
        }),
        with_option(p, "user"@, seq![v]) == (HostParamsView {
            user: or_else(p.user, Some(v)),
            ..p
        }),
        with_option(p, "identityagent"@, seq![v]) == (HostParamsView {
            identity_agent: or_else(p.identity_agent, Some(v)),
            ..p
        }),
        with_option(p, "hostkeyalias"@, seq![v]) == (HostParamsView {
            host_key_alias: or_else(p.host_key_alias, Some(v)),
            ..p
        }),
        with_option(p, "userknownhostsfile"@, seq![v]) == (HostParamsView {
            user_known_hosts_file: or_else(p.user_known_hosts_file, Some(v)),
            ..p
        }),
        with_option(p, "stricthostkeychecking"@, seq![v]) == (HostParamsView {
            strict_host_key_checking: or_else(p.strict_host_key_checking, Some(v)),
            ..p
        }),
        with_option(p, "identityfile"@, seq![v]) == (HostParamsView {
            identity_file: Some(
                match p.identity_file {
                    Some(files) => files.push(v),
                    None => seq![v],
                },
            ),
            ..p
        }),
        with_option(p, "identitiesonly"@, seq![v]) == (HostParamsView {
            identities_only: or_else(p.identities_only, bool_word(v)),
            ..p
        }),
        with_option(p, "port"@, seq![v]) == (HostParamsView {
            port: or_else(
                p.port,
                match parse_unsigned(v, 65535) {
                    Some(n) => Some(n as u16),
                    None => None,
                },
            ),
            ..p
        }),
        with_option(p, "connecttimeout"@, seq![v]) == (HostParamsView {
            connect_timeout: or_else(
                p.connect_timeout,
                match parse_unsigned(v, u64::MAX as nat) {
                    Some(n) => Some(Duration { secs: n as u64, nanos: 0 }),
                    None => None,
                },
            ),
            ..p
        }),
{
    lemma_names();
}

/// A setting without a value sets nothing, and so does one with a name that is not known.
pub proof fn other_settings_set_nothing(p: HostParamsView, key: Seq<char>, values: Seq<Seq<char>>)
    ensures
        values.len() == 0 ==> with_option(p, key, values) == p,
        key != "hostname"@ && key != "user"@ && key != "port"@ && key != "identityfile"@ && key
            != "identityagent"@ && key != "identitiesonly"@ && key != "hostkeyalias"@ && key
            != "userknownhostsfile"@ && key != "stricthostkeychecking"@ && key
            != "connecttimeout"@ ==> with_option(p, key, values) == p,
{
}

/// The first of two values that is there.
pub open spec fn or_else<T>(a: Option<T>, b: Option<T>) -> Option<T> {
    match a {
        Some(x) => Some(x),
        None => b,
    }
}

/// The names of settings are different names.
proof fn lemma_names()
    ensures
        "user"@ != "hostname"@,
        "port"@ != "hostname"@,
        "port"@ != "user"@,
        "identityfile"@ != "hostname"@,
        "identityfile"@ != "user"@,
        "identityfile"@ != "port"@,
        "identityagent"@ != "hostname"@,
        "identityagent"@ != "user"@,
        "identityagent"@ != "port"@,
        "identityagent"@ != "identityfile"@,
        "identitiesonly"@ != "hostname"@,
        "identitiesonly"@ != "user"@,
        "identitiesonly"@ != "port"@,
        "identitiesonly"@ != "identityfile"@,
        "identitiesonly"@ != "identityagent"@,
        "hostkeyalias"@ != "hostname"@,
        "hostkeyalias"@ != "user"@,
        "hostkeyalias"@ != "port"@,
        "hostkeyalias"@ != "identityfile"@,
        "hostkeyalias"@ != "identityagent"@,
        "hostkeyalias"@ != "identitiesonly"@,
        "userknownhostsfile"@ != "hostname"@,
        "userknownhostsfile"@ != "user"@,
        "userknownhostsfile"@ != "port"@,
        "userknownhostsfile"@ != "identityfile"@,
        "userknownhostsfile"@ != "identityagent"@,
        "userknownhostsfile"@ != "identitiesonly"@,
        "userknownhostsfile"@ != "hostkeyalias"@,
        "stricthostkeychecking"@ != "hostname"@,
        "stricthostkeychecking"@ != "user"@,
        "stricthostkeychecking"@ != "port"@,
        "stricthostkeychecking"@ != "identityfile"@,
        "stricthostkeychecking"@ != "identityagent"@,
        "stricthostkeychecking"@ != "identitiesonly"@,
        "stricthostkeychecking"@ != "hostkeyalias"@,
        "stricthostkeychecking"@ != "userknownhostsfile"@,
        "connecttimeout"@ != "hostname"@,
        "connecttimeout"@ != "user"@,
        "connecttimeout"@ != "port"@,
        "connecttimeout"@ != "identityfile"@,
        "connecttimeout"@ != "identityagent"@,
        "connecttimeout"@ != "identitiesonly"@,
        "connecttimeout"@ != "hostkeyalias"@,
        "connecttimeout"@ != "userknownhostsfile"@,
        "connecttimeout"@ != "stricthostkeychecking"@,
{
    reveal_strlit("hostname");
    reveal_strlit("user");
    reveal_strlit("port");
    reveal_strlit("identityfile");
    reveal_strlit("identityagent");
    reveal_strlit("identitiesonly");
    reveal_strlit("hostkeyalias");
    reveal_strlit("userknownhostsfile");
    reveal_strlit("stricthostkeychecking");
    reveal_strlit("connecttimeout");
    assert("hostname"@.len() == 8 && "user"@.len() == 4 && "port"@.len() == 4);
    assert("user"@[0] == 'u' && "port"@[0] == 'p');
    assert("identityfile"@.len() == 12 && "hostkeyalias"@.len() == 12);
    assert("identityfile"@[0] == 'i' && "hostkeyalias"@[0] == 'h');
    assert("identityagent"@.len() == 13 && "identitiesonly"@.len() == 14);
    assert("connecttimeout"@.len() == 14 && "connecttimeout"@[0] == 'c');
    assert("identitiesonly"@[0] == 'i');
    assert("userknownhostsfile"@.len() == 18 && "stricthostkeychecking"@.len() == 21);
}

/// Something is set by one of the first `n` blocks that is for the host, and this is the
/// first that sets it.
pub open spec fn first_that_sets<T>(
    blocks: Seq<BlockView>,
    host: Seq<char>,
    n: int,
    get: spec_fn(HostParamsView) -> Option<T>,
    value: Option<T>,
) -> bool {
    match value {
        Some(x) => exists|k: int|
            0 <= k < n && block_matches((#[trigger] blocks[k]).patterns, host) && get(
                blocks[k].params,
            ) == Some(x) && forall|j: int|
                0 <= j < k && block_matches((#[trigger] blocks[j]).patterns, host) ==> get(
                    blocks[j].params,
                ) is None,
        None => forall|j: int|
            0 <= j < n && block_matches((#[trigger] blocks[j]).patterns, host) ==> get(
                blocks[j].params,
            ) is None,
    }
}

proof fn lemma_first_that_sets<T>(
    blocks: Seq<BlockView>,
    host: Seq<char>,
    n: int,
    get: spec_fn(HostParamsView) -> Option<T>,
)
    requires
        0 <= n <= blocks.len(),
        get(no_params()) is None,
        forall|a: HostParamsView, b: HostParamsView| #[trigger]
            get(with_block(a, b)) == or_else(get(a), get(b)),
    ensures
        first_that_sets(blocks, host, n, get, get(query_before(blocks, host, n))),
    decreases n,
{
    if n > 0 {
        lemma_first_that_sets(blocks, host, n - 1, get);
        let before = get(query_before(blocks, host, n - 1));
        let now = get(query_before(blocks, host, n));
        match before {
            Some(x) => {
                let k = choose|k: int|
                    0 <= k < n - 1 && block_matches((#[trigger] blocks[k]).patterns, host) && get(
                        blocks[k].params,
                    ) == Some(x) && forall|j: int|
                        0 <= j < k && block_matches((#[trigger] blocks[j]).patterns, host) ==> get(
                            blocks[j].params,
                        ) is None;
                assert(block_matches(blocks[k].patterns, host));
                assert(now == Some(x));
            },
            None => {
                if let Some(x) = now {
                    assert(block_matches(blocks[n - 1].patterns, host));
                }
            },
        }
    }
}

/// What counts for a host is what the first block for the host that sets it says: this holds
/// of each setting by itself.
pub proof fn the_first_block_that_sets_something_counts(
    blocks: Seq<BlockView>,
    host: Seq<char>,
    n: int,
)
    requires
        0 <= n <= blocks.len(),
    ensures
        ({
            let q = query_before(blocks, host, n);
            &&& first_that_sets(blocks, host, n, |p: HostParamsView| p.host_name, q.host_name)
            &&& first_that_sets(blocks, host, n, |p: HostParamsView| p.port, q.port)
            &&& first_that_sets(blocks, host, n, |p: HostParamsView| p.user, q.user)
            &&& first_that_sets(
                blocks,
                host,
                n,
                |p: HostParamsView| p.connect_timeout,
                q.connect_timeout,
            )
            &&& first_that_sets(
                blocks,
                host,
                n,
                |p: HostParamsView| p.host_key_alias,
                q.host_key_alias,
            )
            &&& first_that_sets(
                blocks,
                host,
                n,
                |p: HostParamsView| p.user_known_hosts_file,
                q.user_known_hosts_file,
            )
            &&& first_that_sets(
                blocks,
                host,
                n,
                |p: HostParamsView| p.strict_host_key_checking,
                q.strict_host_key_checking,
            )
            &&& first_that_sets(
                blocks,
                host,
                n,
                |p: HostParamsView| p.identity_agent,
                q.identity_agent,
            )
            &&& first_that_sets(
                blocks,
                host,
                n,
                |p: HostParamsView| p.identities_only,
                q.identities_only,
            )
        }),
{
    lemma_first_that_sets(blocks, host, n, |p: HostParamsView| p.host_name);
    lemma_first_that_sets(blocks, host, n, |p: HostParamsView| p.port);
    lemma_first_that_sets(blocks, host, n, |p: HostParamsView| p.user);
    lemma_first_that_sets(blocks, host, n, |p: HostParamsView| p.connect_timeout);
    lemma_first_that_sets(blocks, host, n, |p: HostParamsView| p.host_key_alias);
    lemma_first_that_sets(blocks, host, n, |p: HostParamsView| p.user_known_hosts_file);
    lemma_first_that_sets(blocks, host, n, |p: HostParamsView| p.strict_host_key_checking);
    lemma_first_that_sets(blocks, host, n, |p: HostParamsView| p.identity_agent);
    lemma_first_that_sets(blocks, host, n, |p: HostParamsView| p.identities_only);
}

/// Files with keys are gathered from all blocks for the host, in the order of the blocks.
pub proof fn files_with_keys_are_gathered(blocks: Seq<BlockView>, host: Seq<char>, n: int)
    requires
        0 < n <= blocks.len(),
    ensures
        ({
            let before = query_before(blocks, host, n - 1).identity_file;
            let now = query_before(blocks, host, n).identity_file;
            let more = blocks[n - 1].params.identity_file;
            &&& !block_matches(blocks[n - 1].patterns, host) || more is None ==> now == before
            &&& block_matches(blocks[n - 1].patterns, host) && before is None ==> now == more
            &&& block_matches(blocks[n - 1].patterns, host) && before is Some && more is Some
                ==> now == Some(before->0 + more->0)
        }),
{
}

/// A block without patterns is for every host; any other is for the hosts that one of its
/// patterns names and none of its negated patterns does, letters being taken in either case.
pub proof fn a_block_is_for_the_hosts_that_it_names(
    patterns: Seq<PatternView>,
    host: Seq<char>,
    w: Seq<char>,
)
    requires
        is_word(w),
        forall|k: int| 0 <= k < w.len() ==> #[trigger] w[k] != ',' && w[k] != '!',
    ensures
        patterns.len() == 0 ==> block_matches(patterns, host),
        patterns.len() > 0 ==> (block_matches(patterns, host) <==> (exists|k: int|
            0 <= k < patterns.len() && !(#[trigger] patterns[k]).negated && wild_match(
                patterns[k].pattern,
                lower_text(host),
            )) && (forall|k: int|
            0 <= k < patterns.len() && (#[trigger] patterns[k]).negated ==> !wild_match(
                patterns[k].pattern,
                lower_text(host),
            ))),
        host_patterns(seq![w], 1) == seq![PatternView { negated: false, pattern: lower_text(w) }],
        host_patterns(seq![seq!['!'] + w], 1) == seq![
            PatternView { negated: true, pattern: lower_text(w) },
        ],
{
    reveal_with_fuel(host_patterns, 2);
    lemma_one_pattern(w);
    let x = seq!['!'] + w;
    lemma_find(x, ',', 0);
    assert(find(x, ',', 0) == x.len()) by {
        let k = find(x, ',', 0);
        if k < x.len() {
            assert(x[k] == ',');
            assert(k > 0);
            assert(w[k - 1] == ',');
        }
    }
    assert(x.skip(0) =~= x);
    assert(Seq::<char>::empty() + x + Seq::<char>::empty() =~= x);
    assert(stands_for_itself(w[w.len() - 1]));
    assert(x.last() == w.last());
    lemma_trim(Seq::empty(), x, Seq::empty());
    assert(x.skip(1) =~= w);
    assert(Seq::<PatternView>::empty().push(
        PatternView { negated: true, pattern: lower_text(w) },
    ) =~= seq![PatternView { negated: true, pattern: lower_text(w) }]);
}

proof fn lemma_one_pattern(w: Seq<char>)
    requires
        is_word(w),
        forall|k: int| 0 <= k < w.len() ==> #[trigger] w[k] != ',' && w[k] != '!',
    ensures
        patterns_in(w, 0, Seq::empty()) == seq![
            PatternView { negated: false, pattern: lower_text(w) },
        ],
{
    lemma_find(w, ',', 0);
    assert(w.skip(0) =~= w);
    assert(Seq::<char>::empty() + w + Seq::<char>::empty() =~= w);
    assert(stands_for_itself(w[0]));
    assert(stands_for_itself(w[w.len() - 1]));
    lemma_trim(Seq::empty(), w, Seq::empty());
    assert(Seq::<PatternView>::empty().push(
        PatternView { negated: false, pattern: lower_text(w) },
    ) =~= seq![PatternView { negated: false, pattern: lower_text(w) }]);
}

/// The user that a URL names is the part before the last `@` of its host.
pub proof fn the_user_of_a_url_is_the_one_it_names(
    user: Seq<char>,
    host: Seq<char>,
    path: Seq<char>,
)
    requires
        user.len() > 0,
        tight(user),
        forall|k: int| 0 <= k < user.len() ==> #[trigger] user[k] != '/',
        forall|k: int| 0 <= k < host.len() ==> #[trigger] host[k] != '/' && host[k] != '@',
        path.len() > 0 ==> path[0] == '/',
    ensures
        user_in_url("svn+ssh://"@ + user + seq!['@'] + host + path) == Some(user),
        user_in_url("svn+ssh://"@ + host + path) is None,
{
    reveal_strlit("svn+ssh://");
    let a = user + seq!['@'] + host;
    let rest = a + path;
    let url = "svn+ssh://"@ + user + seq!['@'] + host + path;
    assert(url.take(10) =~= "svn+ssh://"@);
    assert(url.skip(10) =~= rest);
    assert forall|k: int| 0 <= k < a.len() implies rest[k] != '/' by {
        if k < user.len() {
            assert(rest[k] == user[k]);
        } else if k > user.len() {
            assert(rest[k] == host[k - user.len() - 1]);
        }
    }
    lemma_cut(rest, a.len() as int);
    assert(rest.take(a.len() as int) =~= a);
    let n = user.len() as int;
    assert(a[n] == '@');
    assert forall|k: int| n < k < a.len() implies a[k] != '@' by {
        assert(a[k] == host[k - n - 1]);
    }
    crate::task_order::lemma_rfind_at_char(a, '@', a.len() as int, n);
    assert(a.take(n) =~= user);
    assert(Seq::<char>::empty() + user + Seq::<char>::empty() =~= user);
    lemma_trim(Seq::empty(), user, Seq::empty());
    // Without a user.
    let other = "svn+ssh://"@ + host + path;
    assert(other.skip(10) =~= host + path);
    assert forall|k: int| 0 <= k < host.len() implies (host + path)[k] != '/' by {
        assert((host + path)[k] == host[k]);
    }
    lemma_cut(host + path, host.len() as int);
    assert((host + path).take(host.len() as int) =~= host);
    crate::task_order::lemma_rfind_no_char(host, '@', host.len() as int);
}

proof fn lemma_cut(s: Seq<char>, n: int)
    requires
        0 <= n <= s.len(),
        forall|k: int| 0 <= k < n ==> s[k] != '/',
        n < s.len() ==> s[n] == '/',
    ensures
        find(s, '/', 0) == n,
{
    lemma_find(s, '/', 0);
    let k = find(s, '/', 0);
    if k < n {
        assert(s[k] == '/');
    } else if k > n {
        assert(s[n] != '/');
    }
}

/// A tunnel is set up by what the caller sets, then the URL, then the settings of the host,
/// then the environment. The host and the port are those of the settings where these name
/// some and the URL does not; the key of the server is looked up under the name of the URL
/// or under its alias; no check is made only where the settings say so.
pub proof fn a_tunnel_is_set_up_as_it_is_settled(
    url: UrlView,
    ssh: SshConfigView,
    timeout: Duration,
    p: HostParamsView,
    env: SshEnvView,
)
    ensures
        ({
            let user = or_else(
                ssh.username,
                or_else(user_in_url(url.url), or_else(p.user, env.user)),
            );
            let strict = match p.strict_host_key_checking {
                Some(v) => Some(lower_text(trim(v))),
                None => None,
            };
            match resolved(url, ssh, timeout, p, env) {
                Ok(r) => {
                    &&& user == Some(r.username)
                    &&& r.connect_host == (match p.host_name {
                        Some(h) => h,
                        None => url.host,
                    })
                    &&& r.connect_port == (match p.port {
                        Some(n) => if url.port == 22 {
                            n
                        } else {
                            url.port
                        },
                        None => url.port,
                    })
                    &&& r.known_hosts_host == (match p.host_key_alias {
                        Some(h) => h,
                        None => url.host,
                    })
                    &&& r.identity_agent == p.identity_agent
                    &&& r.identities_only <==> p.identities_only == Some(true)
                    &&& p.identity_file is None ==> r.identity_files.len() == 0
                    &&& p.identity_file matches Some(files) ==> r.identity_files.len()
                        == files.len() && forall|k: int|
                        0 <= k < files.len() ==> #[trigger] r.identity_files[k] == key_file_path(
                            files[k],
                            env.home,
                        )
                    &&& strict == Some("no"@) ==> r.host_key is AcceptAny
                        && !r.accept_new_host_keys
                    &&& strict != Some("no"@) ==> {
                        &&& !(ssh.host_key is KnownHosts) || p.user_known_hosts_file is None
                            ==> r.host_key == ssh.host_key
                        &&& ssh.host_key is KnownHosts && p.user_known_hosts_file is Some
                            ==> r.host_key == HostKeyView::KnownHostsFile(
                            with_home(p.user_known_hosts_file->0, env.home),
                        )
                        &&& r.accept_new_host_keys <==> strict == Some("accept-new"@)
                            || ssh.accept_new_host_keys
                    }
                    &&& p.connect_timeout is None ==> r.connect_timeout == timeout
                    &&& p.connect_timeout matches Some(t) ==> (r.connect_timeout == t
                        || r.connect_timeout == timeout) && r.connect_timeout.total()
                        <= t.total() && r.connect_timeout.total() <= timeout.total()
                },
                Err(e) => user is None && e is InvalidUrl,
            }
        }),
{
}

/// Logins are tried in this order: the agent, if it is wanted, there is one, and keys are not
/// limited to those named; then what the caller chose, a password or a key, and nothing
/// else; or, where the caller chose nothing, the keys that are named, the usual ones behind
/// them, and last no proof at all.
pub proof fn logins_are_tried_in_order(
    ssh: SshConfigView,
    r: ResolvedView,
    home: Option<Seq<char>>,
)
    ensures
        ({
            let plan = login_plan(ssh, r, home);
            let agent = ssh.try_ssh_agent && !r.identities_only && !(agent_at(r.identity_agent)
                is Off);
            let n: int = if agent {
                1
            } else {
                0
            };
            let usual = default_key_files(home);
            &&& agent ==> plan[0] == AttemptView::Agent(agent_at(r.identity_agent))
            &&& match ssh.auth {
                SshAuthView::Password(p) => plan.len() == n + 1 && plan[n]
                    == AttemptView::Password(p),
                SshAuthView::KeyFile { path, passphrase } => plan.len() == n + 1 && (
                plan[n] matches AttemptView::KeyFile { path: q, passphrase: x, strict } && x
                    == passphrase && strict && q == crate::ssh::path_with_home(path, home)),
                SshAuthView::NoAuth => {
                    let m: int = if ssh.try_default_identities {
                        (r.identity_files.len() + usual.len()) as int
                    } else {
                        0
                    };
                    &&& plan.len() == n + m + 1
                    &&& plan.last() is NoAuth
                    &&& forall|k: int|
                        0 <= k < m ==> (#[trigger] plan[n + k] matches AttemptView::KeyFile {
                            path,
                            passphrase,
                            strict,
                        } && passphrase is None && !strict && path == (if k
                            < r.identity_files.len() {
                            r.identity_files[k]
                        } else {
                            usual[k - r.identity_files.len()]
                        }))
                },
            }
        }),
{
    let plan = login_plan(ssh, r, home);
    assert(plan.len() > 0);
}

/// The usual keys are those of the directory `.ssh` of the user's home, the newest kinds
/// first.
pub proof fn the_usual_keys_are_those_of_the_home(home: Seq<char>)
    ensures
        default_key_files(Some(home)).len() == 6,
        default_key_files(Some(home))[0] == joined_path(joined_path(home, ".ssh"@), "id_ed25519"@),
        default_key_files(Some(home))[1] == joined_path(
            joined_path(home, ".ssh"@),
            "id_ed25519_sk"@,
        ),
        default_key_files(Some(home))[2] == joined_path(joined_path(home, ".ssh"@), "id_ecdsa"@),
        default_key_files(Some(home))[3] == joined_path(joined_path(home, ".ssh"@), "id_ecdsa_sk"@),
        default_key_files(Some(home))[4] == joined_path(joined_path(home, ".ssh"@), "id_rsa"@),
        default_key_files(Some(home))[5] == joined_path(joined_path(home, ".ssh"@), "id_dsa"@),
        default_key_files(None).len() == 0,
{
}

/// The agent is the one that the settings name, or that of the environment, or none where the
/// settings say so.
pub proof fn the_agent_is_the_one_that_is_named(v: Seq<char>)
    requires
        tight(v),
        v.len() > 0,
    ensures
        agent_at(None) is FromEnv,
        agent_at(Some(v)) is Off <==> v == "none"@,
        v != "none"@ && v != "SSH_AUTH_SOCK"@ ==> agent_at(Some(v)) == AgentView::Socket(v),
        v == "SSH_AUTH_SOCK"@ ==> agent_at(Some(v)) is FromEnv,
        agent_at(Some(Seq::empty())) is FromEnv,
{
    reveal_strlit("none");
    reveal_strlit("SSH_AUTH_SOCK");
    assert("none"@.len() == 4 && "SSH_AUTH_SOCK"@.len() == 13);
    assert(Seq::<char>::empty() + v + Seq::<char>::empty() =~= v);
    lemma_trim(Seq::empty(), v, Seq::empty());
    let none = Seq::<char>::empty();
    assert(none + none + none =~= none);
    lemma_trim(none, none, none);
}

} // verus!
