//! How a file of settings is read: its lines, its blocks, and the files that it names.

use vstd::prelude::*;

use crate::path_laws::{lemma_trim, lemma_trim_start};
use crate::ssh_config::{
    host_patterns, key_and_values, line_goes_on, match_patterns, no_params, with_option,
    BlockView, PatternView,
};
use crate::ssh_parser::{line_step, lines_from, run, ParserView};
use crate::text::{find, is_space, lemma_find, lower_text, strip_trailing, trim, trim_end};
use crate::tunnel_laws::{
    a_block_is_for_the_hosts_that_it_names, a_setting_is_told_from_its_value, is_word,
    stands_for_itself,
};

verus! {

/// Lines as they stand in a file: each is ended by a line feed, with or without a carriage
/// return before it.
pub open spec fn lines_stand_in(text: Seq<char>, lines: Seq<Seq<char>>) -> bool
    decreases lines.len(),
{
    if lines.len() == 0 {
        text.len() == 0
    } else {
        let l = lines[0];
        &&& forall|k: int| 0 <= k < l.len() ==> #[trigger] l[k] != '\n'
        &&& l.len() > 0 ==> l.last() != '\r'
        &&& {
            ||| text.len() > l.len() && text.take(l.len() as int + 1) == l.push('\n')
                && lines_stand_in(text.skip(l.len() as int + 1), lines.drop_first())
            ||| text.len() > l.len() + 1 && text.take(l.len() as int + 2) == l.push('\r').push('\n')
                && lines_stand_in(text.skip(l.len() as int + 2), lines.drop_first())
        }
    }
}

/// The lines of a file are read as they stand in it.
pub proof fn lines_are_read_as_they_stand(
    before: Seq<char>,
    text: Seq<char>,
    lines: Seq<Seq<char>>,
)
    requires
        lines_stand_in(text, lines),
    ensures
        lines_from(before + text, before.len() as int) == lines,
    decreases lines.len(),
{
    let all = before + text;
    let i = before.len() as int;
    if lines.len() > 0 {
        let l = lines[0];
        let n = l.len() as int;
        let rest = lines.drop_first();
        lemma_find(all, '\n', i);
        let k = find(all, '\n', i);
        let plain = text.len() > n && text.take(n + 1) == l.push('\n') && lines_stand_in(
            text.skip(n + 1),
            rest,
        );
        let e: int = if plain {
            n
        } else {
            n + 1
        };
        let end = text.take(e + 1);
        assert(end[e] == '\n');
        assert(all[i + e] == text[e]);
        assert(text[e] == end[e]);
        assert forall|j: int| i <= j < i + e implies all[j] != '\n' by {
            assert(all[j] == end[j - i]);
            if j - i < n {
                assert(end[j - i] == l[j - i]);
            } else {
                assert(end[j - i] == '\r');
            }
        }
        assert(k == i + e);
        let piece = all.subrange(i, k);
        if plain {
            assert(piece =~= l) by {
                assert forall|j: int| 0 <= j < n implies piece[j] == l[j] by {
                    assert(piece[j] == end[j]);
                }
            }
        } else {
            assert(piece =~= l.push('\r')) by {
                assert forall|j: int| 0 <= j < n + 1 implies piece[j] == l.push('\r')[j] by {
                    assert(piece[j] == end[j]);
                }
            }
            assert(l.push('\r').drop_last() =~= l);
        }
        assert(strip_trailing(piece, '\r') == l) by {
            reveal_with_fuel(strip_trailing, 3);
        }
        let after = before + end;
        let left = text.skip(e + 1);
        assert(after + left =~= all);
        lines_are_read_as_they_stand(after, left, rest);
        assert(seq![l] + rest =~= lines);
    } else {
        assert(all =~= before);
    }
}

/// A line that ends with a backslash goes on in the next: both are read as one, with a space
/// between them and without the space that the second begins with.
pub proof fn a_line_goes_on_behind_a_backslash(
    s: ParserView,
    lines: Seq<Seq<char>>,
    i: int,
    l: Seq<char>,
    blank: Seq<char>,
    m: Seq<char>,
    one: Seq<Seq<char>>,
)
    requires
        0 <= i,
        i + 2 == lines.len(),
        l.len() > 0,
        l.last() != '\\',
        lines[i] == l.push('\\'),
        lines[i + 1] == blank + m,
        crate::path_laws::blank(blank),
        m.len() > 0 ==> !is_space(m[0]),
        one == seq![l + " "@ + m],
    ensures
        run(s, lines, i, Seq::empty()).state == run(s, one, 0, Seq::empty()).state,
        run(s, lines, i, Seq::empty()).files == run(s, one, 0, Seq::empty()).files,
{
    reveal_with_fuel(run, 3);
    let x = l.push('\\');
    assert(!is_space('\\'));
    assert(trim_end(x) == x);
    assert(x[x.len() - 2] == l.last());
    assert(x.drop_last() =~= l);
    assert(line_goes_on(x));
    lemma_trim_start(blank, m);
    let whole = l + " "@ + m;
    if line_goes_on(whole) {
        assert(one.len() == 1);
    }
}

/// A line of a keyword and a value.
pub open spec fn is_line(line: Seq<char>, key: Seq<char>, value: Seq<char>) -> bool {
    &&& is_word(key)
    &&& is_word(value)
    &&& forall|k: int| 0 <= k < key.len() ==> #[trigger] key[k] != '='
    &&& value != seq!['=']
    &&& (line == key + seq![' '] + value || line == key + seq!['='] + value)
}

proof fn lemma_line(line: Seq<char>, key: Seq<char>, value: Seq<char>)
    requires
        is_line(line, key, value),
    ensures
        key_and_values(trim(line)) == Some((key, seq![value])),
{
    assert(Seq::<char>::empty() + line + Seq::<char>::empty() =~= line);
    assert(stands_for_itself(key[0]));
    assert(stands_for_itself(value[value.len() - 1]));
    assert(line[0] == key[0]);
    assert(line.last() == value.last());
    lemma_trim(Seq::empty(), line, Seq::empty());
    a_setting_is_told_from_its_value(key, ' ', value);
}

/// A `Host` line begins a block for the hosts that it names; what was read before stays, and
/// the block holds no settings yet.
pub proof fn a_host_line_begins_a_block(
    s: ParserView,
    line: Seq<char>,
    key: Seq<char>,
    w: Seq<char>,
)
    requires
        is_line(line, key, w),
        lower_text(key) == "host"@,
        forall|k: int| 0 <= k < w.len() ==> #[trigger] w[k] != ',' && w[k] != '!',
    ensures
        ({
            let (t, files) = line_step(s, line);
            &&& files is None
            &&& !t.skip
            &&& t.current == s.blocks.len()
            &&& t.blocks.len() == s.blocks.len() + 1
            &&& t.blocks.last().patterns == seq![
                PatternView { negated: false, pattern: lower_text(w) },
            ]
            &&& t.blocks.last().params == no_params()
            &&& forall|k: int| 0 <= k < s.blocks.len() ==> #[trigger] t.blocks[k] == s.blocks[k]
        }),
{
    lemma_line(line, key, w);
    a_block_is_for_the_hosts_that_it_names(Seq::empty(), Seq::empty(), w);
}

/// Any other line sets something in the block in which it stands, and nowhere else; and it
/// does nothing in a block that is passed over.
pub proof fn a_setting_goes_to_its_block(
    s: ParserView,
    line: Seq<char>,
    key: Seq<char>,
    value: Seq<char>,
)
    requires
        is_line(line, key, value),
        lower_text(key) != "host"@,
        lower_text(key) != "match"@,
        lower_text(key) != "include"@,
        0 <= s.current < s.blocks.len(),
    ensures
        ({
            let (t, files) = line_step(s, line);
            let old_block = s.blocks[s.current];
            &&& files is None
            &&& s.skip ==> t == s
            &&& !s.skip ==> {
                &&& !t.skip
                &&& t.current == s.current
                &&& t.blocks.len() == s.blocks.len()
                &&& t.blocks[s.current].patterns == old_block.patterns
                &&& t.blocks[s.current].params == with_option(
                    old_block.params,
                    lower_text(key),
                    seq![value],
                )
                &&& forall|k: int|
                    0 <= k < s.blocks.len() && k != s.current ==> #[trigger] t.blocks[k]
                        == s.blocks[k]
            }
        }),
{
    lemma_line(line, key, value);
}

/// An `Include` line names a file, and does nothing else; in a block that is passed over it
/// names none.
pub proof fn an_include_line_names_a_file(
    s: ParserView,
    line: Seq<char>,
    key: Seq<char>,
    value: Seq<char>,
)
    requires
        is_line(line, key, value),
        lower_text(key) == "include"@,
    ensures
        ({
            let (t, files) = line_step(s, line);
            &&& t == s
            &&& !s.skip ==> files == Some(seq![value])
            &&& s.skip ==> files is None
        }),
{
    lemma_line(line, key, value);
    reveal_strlit("host");
    reveal_strlit("match");
    reveal_strlit("include");
    assert("host"@.len() == 4 && "match"@.len() == 5 && "include"@.len() == 7);
}

/// `Match all` begins a block for every host; a `Match` line with one word of another kind is
/// not understood, and its block is passed over.
pub proof fn a_match_line_is_for_all_or_passed_over(
    s: ParserView,
    line: Seq<char>,
    key: Seq<char>,
    value: Seq<char>,
)
    requires
        is_line(line, key, value),
        lower_text(key) == "match"@,
    ensures
        ({
            let (t, files) = line_step(s, line);
            &&& files is None
            &&& lower_text(value) == "all"@ ==> !t.skip && t.current == s.blocks.len()
                && t.blocks == s.blocks.push(
                BlockView {
                    patterns: seq![PatternView { negated: false, pattern: "*"@ }],
                    params: no_params(),
                },
            )
            &&& lower_text(value) != "all"@ ==> t.skip && t.blocks == s.blocks && t.current
                == s.current
        }),
{
    lemma_line(line, key, value);
    reveal_strlit("host");
    reveal_strlit("match");
    reveal_strlit("all");
    assert("host"@.len() == 4 && "match"@.len() == 5 && "all"@.len() == 3);
    let rest = seq![value].skip(1);
    assert(rest.len() == 0);
    reveal_with_fuel(host_patterns, 2);
}

/// `Match host` begins a block for the hosts that the next word names.
pub proof fn a_match_line_may_name_hosts(values: Seq<Seq<char>>, w: Seq<char>)
    requires
        values.len() == 2,
        lower_text(values[0]) == "host"@ || lower_text(values[0]) == "originalhost"@,
        values[1] == w,
        is_word(w),
        forall|k: int| 0 <= k < w.len() ==> #[trigger] w[k] != ',' && w[k] != '!',
    ensures
        !crate::ssh_config::criterion_word(w) ==> match_patterns(values) == Some(
            seq![PatternView { negated: false, pattern: lower_text(w) }],
        ),
        crate::ssh_config::criterion_word(w) ==> match_patterns(values) is None,
{
    let rest = values.skip(1);
    assert(rest =~= seq![w]);
    a_block_is_for_the_hosts_that_it_names(Seq::empty(), Seq::empty(), w);
    reveal_strlit("host");
    reveal_strlit("originalhost");
    reveal_strlit("all");
    assert("host"@.len() == 4 && "originalhost"@.len() == 12 && "all"@.len() == 3);
}

} // verus!
