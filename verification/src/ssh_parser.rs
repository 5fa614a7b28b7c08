//! Reading OpenSSH client configuration files line by line.
//!
//! A file may name further files whose lines stand in its place. The parser stops at
//! such a line and says which files it names; the caller reads them and goes on.

use vstd::prelude::*;

use crate::keymap::{in_order, KeyMap};
use crate::ssh_config::{
    host_patterns, is_line_continued, key_and_values, line_goes_on, match_patterns, no_params,
    parse_config_line_tokens, parse_host_patterns, parse_match_as_host_patterns, set_option,
    with_option, BlockView, HostBlock, HostParams, HostPattern, OpenSshConfig, PatternView,
};
use crate::text::{
    cat3, chars_of, find, find_char, lower_text, slice_text, str_eq, strip_trailing, to_lower, trim,
    trim_start, trimmed, trimmed_start, without_trailing,
};
use crate::wildcard::{wild_match, wildcard_match};

verus! {

/// Files nest at most this deep.
pub const MAX_INCLUDE_DEPTH: usize = 16;

/// Reads a configuration.
pub struct OpenSshParser {
    blocks: Vec<HostBlock>,
    current: usize,
    skip_match_block: bool,
}

/// Where a parser stands: the blocks so far, the one that options go to, and whether it
/// is inside a `Match` section that is not understood.
pub struct ParserView {
    pub blocks: Seq<BlockView>,
    pub current: int,
    pub skip: bool,
}

impl ParserView {
    /// Options have a block to go to.
    pub open spec fn wf(self) -> bool {
        0 <= self.current < self.blocks.len()
    }

    /// A new block begins.
    pub open spec fn with_block(self, patterns: Seq<PatternView>) -> ParserView {
        ParserView {
            blocks: self.blocks.push(BlockView { patterns, params: no_params() }),
            current: self.blocks.len() as int,
            skip: false,
        }
    }

    /// An option goes to the current block.
    pub open spec fn with_setting(self, key: Seq<char>, values: Seq<Seq<char>>) -> ParserView {
        let b = self.blocks[self.current];
        ParserView {
            blocks: self.blocks.update(
                self.current,
                BlockView {
                    patterns: b.patterns,
                    params: with_option(b.params, key, values),
                },
            ),
            ..self
        }
    }
}

impl View for OpenSshParser {
    type V = ParserView;

    closed spec fn view(&self) -> ParserView {
        ParserView {
            blocks: self.blocks.deep_view(),
            current: self.current as int,
            skip: self.skip_match_block,
        }
    }
}

/// The parser before the first line: one block, for every host.
pub open spec fn fresh_parser() -> ParserView {
    ParserView {
        blocks: seq![BlockView { patterns: Seq::empty(), params: no_params() }],
        current: 0,
        skip: false,
    }
}

/// What a keyword (in lower case) with its values does, and the files that it names.
pub open spec fn entry_step(s: ParserView, key: Seq<char>, values: Seq<Seq<char>>) -> (
    ParserView,
    Option<Seq<Seq<char>>>,
) {
    let t = ParserView { skip: false, ..s };
    if s.skip && key != "host"@ && key != "match"@ {
        (s, None)
    } else if key == "host"@ {
        let p = host_patterns(values, values.len() as int);
        if p.len() == 0 {
            (t, None)
        } else {
            (t.with_block(p), None)
        }
    } else if key == "match"@ {
        match match_patterns(values) {
            Some(p) => (t.with_block(p), None),
            None => (ParserView { skip: true, ..s }, None),
        }
    } else if key == "include"@ {
        (t, Some(values))
    } else {
        (t.with_setting(key, values), None)
    }
}

/// What a whole line does, and the files that it names.
pub open spec fn line_step(s: ParserView, line: Seq<char>) -> (
    ParserView,
    Option<Seq<Seq<char>>>,
) {
    match key_and_values(trim(line)) {
        Some((key, values)) => entry_step(s, lower_text(key), values),
        None => (s, None),
    }
}

/// A line behind the lines that it continues.
pub open spec fn continued(before: Seq<char>, raw: Seq<char>) -> Seq<char> {
    if before.len() == 0 {
        raw
    } else {
        before + " "@ + trim_start(raw)
    }
}

/// What reading stops with: the state, the index of the line to go on with, and the
/// files that the line before it names, if it stopped there.
pub struct StopView {
    pub state: ParserView,
    pub next: int,
    pub files: Option<Seq<Seq<char>>>,
}

/// Reads the lines from index `i` on, behind a line that goes on.
pub open spec fn run(s: ParserView, lines: Seq<Seq<char>>, i: int, before: Seq<char>) -> StopView
    decreases lines.len() - i,
{
    if i < 0 || i >= lines.len() {
        StopView { state: s, next: lines.len() as int, files: None }
    } else {
        let line = continued(before, lines[i]);
        if line_goes_on(line) {
            run(s, lines, i + 1, line.drop_last())
        } else {
            let (t, files) = line_step(s, line);
            if files is Some {
                StopView { state: t, next: i + 1, files }
            } else {
                run(t, lines, i + 1, Seq::empty())
            }
        }
    }
}

/// Reads the lines from index `i` on, and no further files.
pub open spec fn run_all(s: ParserView, lines: Seq<Seq<char>>, i: int) -> ParserView
    decreases lines.len() - i,
{
    let stop = run(s, lines, i, Seq::empty());
    if i < 0 || i >= lines.len() || stop.next <= i || stop.next >= lines.len() {
        stop.state
    } else {
        run_all(stop.state, lines, stop.next)
    }
}

/// The lines of a text from index `i` on, without what ends them.
pub open spec fn lines_from(s: Seq<char>, i: int) -> Seq<Seq<char>>
    decreases s.len() - i,
{
    if i < 0 || i >= s.len() {
        Seq::empty()
    } else {
        let k = find(s, '\n', i);
        if k < i || k >= s.len() {
            seq![strip_trailing(s.skip(i), '\r')]
        } else {
            seq![strip_trailing(s.subrange(i, k), '\r')] + lines_from(s, k + 1)
        }
    }
}

/// The lines of a text, without what ends them.
pub fn split_lines(input: &str) -> (r: Vec<String>)
    ensures
        r.deep_view() == lines_from(input@, 0),
{
    let cs = chars_of(input);
    let n = cs.len();
    let mut out: Vec<String> = Vec::new();
    let mut i: usize = 0;
    assert(out.deep_view() + lines_from(input@, 0) =~= lines_from(input@, 0));
    while i < n
        invariant
            n == cs.len(),
            cs@ == input@,
            out.deep_view() + lines_from(input@, i as int) == lines_from(input@, 0),
        decreases n - i,
    {
        let ghost before = out.deep_view();
        let k = find_char(&cs, '\n', i);
        let line = without_trailing(&slice_text(&cs, i, k), '\r');
        let ghost said = line@;
        let ghost from = i as int;
        out.push(line);
        assert(out.deep_view() =~= before.push(said));
        if k < n {
            i = k + 1;
            assert(before.push(said) + lines_from(input@, k + 1) =~= before + (seq![said]
                + lines_from(input@, k + 1)));
        } else {
            i = n;
            assert(input@.subrange(from, k as int) =~= input@.skip(from));
            assert(before.push(said) + lines_from(input@, n as int) =~= before + seq![said]);
        }
    }
    assert(out.deep_view() + lines_from(input@, i as int) =~= out.deep_view());
    out
}

/// What reading stops with.
pub enum ParseStop {
    /// All lines have been read.
    Finished,
    /// A line names further files, and reading goes on with the line at `next`.
    Files { patterns: Vec<String>, next: usize },
}

impl ParseStop {
    /// Whether this is what `v` says, of so many lines.
    pub open spec fn says(self, v: StopView, count: int) -> bool {
        match self {
            ParseStop::Finished => v.files is None && v.next == count,
            ParseStop::Files { patterns, next } => v.files == Some(patterns.deep_view())
                && v.next == next,
        }
    }
}

impl OpenSshParser {
    /// Options have a block to go to.
    pub open spec fn wf(self) -> bool {
        self@.wf()
    }

    /// A parser before the first line.
    pub fn new() -> (r: OpenSshParser)
        ensures
            r@ == fresh_parser(),
            r.wf(),
    {
        let blocks = vec![HostBlock { patterns: Vec::new(), params: HostParams::new() }];
        assert(blocks@[0].deep_view().patterns =~= Seq::<PatternView>::empty());
        assert(blocks.deep_view() =~= fresh_parser().blocks);
        OpenSshParser { blocks, current: 0, skip_match_block: false }
    }

    fn start_block(&mut self, patterns: Vec<HostPattern>)
        ensures
            final(self)@ == old(self)@.with_block(patterns.deep_view()),
    {
        let ghost before = self.blocks.deep_view();
        let b = HostBlock { patterns, params: HostParams::new() };
        let ghost said = b.deep_view();
        self.current = self.blocks.len();
        self.blocks.push(b);
        self.skip_match_block = false;
        assert(self.blocks.deep_view() =~= before.push(said));
    }

    /// An option goes to the current block.
    pub fn apply_option(&mut self, key: &str, values: &[String])
        requires
            old(self).wf(),
        ensures
            final(self)@ == old(self)@.with_setting(key@, values.deep_view()),
    {
        let ghost before = self.blocks.deep_view();
        let i = self.current;
        let ghost had = self.blocks@[i as int].deep_view();
        set_option(&mut self.blocks[i].params, key, values);
        assert(self.blocks.deep_view() =~= before.update(
            i as int,
            BlockView {
                patterns: had.patterns,
                params: with_option(had.params, key@, values.deep_view()),
            },
        ));
    }

    fn take_entry(&mut self, key: &str, values: Vec<String>) -> (r: Option<Vec<String>>)
        requires
            old(self).wf(),
        ensures
            final(self).wf(),
            (final(self)@, r.deep_view()) == entry_step(old(self)@, key@, values.deep_view()),
    {
        let opens = str_eq(key, "host") || str_eq(key, "match");
        if self.skip_match_block && !opens {
            return None;
        }
        self.skip_match_block = false;
        if str_eq(key, "host") {
            let patterns = parse_host_patterns(&values);
            if patterns.len() > 0 {
                self.start_block(patterns);
            }
            None
        } else if str_eq(key, "match") {
            match parse_match_as_host_patterns(&values) {
                Some(patterns) => {
                    self.start_block(patterns);
                },
                None => {
                    self.skip_match_block = true;
                },
            }
            None
        } else if str_eq(key, "include") {
            Some(values)
        } else {
            self.apply_option(key, &values);
            None
        }
    }

    fn take_line(&mut self, line: &str) -> (r: Option<Vec<String>>)
        requires
            old(self).wf(),
        ensures
            final(self).wf(),
            (final(self)@, r.deep_view()) == line_step(old(self)@, line@),
    {
        match parse_config_line_tokens(&trimmed(line)) {
            Some((key, values)) => self.take_entry(&to_lower(&key), values),
            None => None,
        }
    }

    /// Reads lines from index `from` on, until all have been read or one names further
    /// files.
    pub fn parse_lines(&mut self, lines: &[String], from: usize) -> (r: ParseStop)
        requires
            old(self).wf(),
            from <= lines@.len(),
        ensures
            final(self).wf(),
            final(self)@ == run(
                old(self)@,
                lines.deep_view(),
                from as int,
                Seq::empty(),
            ).state,
            r.says(
                run(old(self)@, lines.deep_view(), from as int, Seq::empty()),
                lines@.len() as int,
            ),
            r matches ParseStop::Files { next, .. } ==> from < next <= lines@.len(),
    {
        let ghost all = lines.deep_view();
        let ghost whole = run(self@, all, from as int, Seq::empty());
        let mut before = String::new();
        let mut i: usize = from;
        assert(before@ =~= Seq::<char>::empty());
        while i < lines.len()
            invariant
                self.wf(),
                from <= i <= lines.len(),
                all == lines.deep_view(),
                whole == run(old(self)@, lines.deep_view(), from as int, Seq::empty()),
                whole == run(self@, all, i as int, before@),
            decreases lines.len() - i,
        {
            assert(all[i as int] == lines@[i as int]@);
            let line = if before.as_str().is_empty() {
                lines[i].clone()
            } else {
                cat3(&before, " ", &trimmed_start(&lines[i]))
            };
            assert(line@ == continued(before@, all[i as int]));
            if is_line_continued(&line) {
                let cs = chars_of(&line);
                let n = cs.len();
                proof {
                    lemma_going_on(line@);
                }
                before = slice_text(&cs, 0, n - 1);
                assert(before@ =~= line@.drop_last());
                i = i + 1;
            } else {
                i = i + 1;
                match self.take_line(&line) {
                    Some(patterns) => {
                        return ParseStop::Files { patterns, next: i };
                    },
                    None => {},
                }
                before = String::new();
                assert(before@ =~= Seq::<char>::empty());
            }
        }
        ParseStop::Finished
    }

    /// Reads a text, and no further files.
    pub fn parse_str(&mut self, input: &str)
        requires
            old(self).wf(),
        ensures
            final(self).wf(),
            final(self)@ == run_all(old(self)@, lines_from(input@, 0), 0),
    {
        let lines = split_lines(input);
        let ghost all = lines.deep_view();
        let ghost whole = run_all(self@, all, 0);
        let mut i: usize = 0;
        let mut more = true;
        while more
            invariant
                self.wf(),
                i <= lines.len(),
                all == lines.deep_view(),
                more ==> whole == run_all(self@, all, i as int),
                !more ==> whole == self@,
            decreases (if more {
                lines.len() - i + 1
            } else {
                0
            }),
        {
            match self.parse_lines(&lines, i) {
                ParseStop::Finished => {
                    more = false;
                },
                ParseStop::Files { next, .. } => {
                    if next < lines.len() {
                        i = next;
                    } else {
                        more = false;
                    }
                },
            }
        }
    }

    /// The configuration that has been read.
    pub fn finish(self) -> (r: OpenSshConfig)
        ensures
            r.blocks.deep_view() == self@.blocks,
    {
        OpenSshConfig { blocks: self.blocks }
    }
}

/// A line that goes on is not empty.
proof fn lemma_going_on(line: Seq<char>)
    requires
        line_goes_on(line),
    ensures
        line.len() > 0,
{
}

impl OpenSshConfig {
    /// Reads a configuration from a text, and no further files.
    pub fn parse_str(input: &str) -> (r: OpenSshConfig)
        ensures
            r.blocks.deep_view() == run_all(fresh_parser(), lines_from(input@, 0), 0).blocks,
    {
        let mut parser = OpenSshParser::new();
        parser.parse_str(input);
        parser.finish()
    }
}

/// A path names several files: it holds a wildcard.
pub open spec fn has_wildcard(path: Seq<char>) -> bool {
    path.contains('*') || path.contains('?') || path.contains('[')
}

/// Whether a path names several files.
pub fn is_wildcard_path(path: &str) -> (r: bool)
    ensures
        r == has_wildcard(path@),
{
    let cs = chars_of(path);
    let mut i: usize = 0;
    while i < cs.len()
        invariant
            i <= cs.len(),
            cs@ == path@,
            forall|k: int|
                0 <= k < i ==> (#[trigger] path@[k]) != '*' && path@[k] != '?' && path@[k] != '[',
        decreases cs.len() - i,
    {
        let c = cs[i];
        if c == '*' || c == '?' || c == '[' {
            assert(path@[i as int] == c);
            return true;
        }
        i = i + 1;
    }
    false
}

/// Whether a file that is named at this depth, with these files open around it, is read.
pub open spec fn enters(open_files: Seq<Seq<char>>, path: Seq<char>, depth: nat) -> bool {
    depth <= MAX_INCLUDE_DEPTH && !open_files.contains(path)
}

/// Whether a file that is named at this depth, with these files open around it, is read:
/// files nest only so deep, and none is read inside itself.
pub fn may_enter(open_files: &[String], path: &str, depth: usize) -> (r: bool)
    ensures
        r == enters(open_files.deep_view(), path@, depth as nat),
{
    if depth > MAX_INCLUDE_DEPTH {
        return false;
    }
    let ghost all = open_files.deep_view();
    let mut i: usize = 0;
    while i < open_files.len()
        invariant
            i <= open_files.len(),
            all == open_files.deep_view(),
            depth <= MAX_INCLUDE_DEPTH,
            forall|k: int| 0 <= k < i ==> (#[trigger] all[k]) != path@,
        decreases open_files.len() - i,
    {
        assert(all[i as int] == open_files@[i as int]@);
        if str_eq(&open_files[i], path) {
            return false;
        }
        i = i + 1;
    }
    true
}

/// The names that match a pattern, once each and in order.
pub fn matching_names(pattern: &str, names: &[String]) -> (r: Vec<String>)
    ensures
        r.deep_view() == in_order(
            names.deep_view().to_set().filter(|t: Seq<char>| wild_match(pattern@, t)),
        ),
{
    let mut found: KeyMap<bool> = KeyMap::new();
    let mut i: usize = 0;
    let ghost all = names.deep_view();
    while i < names.len()
        invariant
            i <= names.len(),
            all == names.deep_view(),
            found.wf(),
            forall|t: Seq<char>| #[trigger]
                found@.dom().contains(t) <==> all.take(i as int).contains(t) && wild_match(
                    pattern@,
                    t,
                ),
        decreases names.len() - i,
    {
        let ghost name = all[i as int];
        if wildcard_match(pattern, &names[i]) {
            found.insert(names[i].clone(), true);
        }
        assert forall|t: Seq<char>| #[trigger]
            found@.dom().contains(t) <==> all.take(i + 1).contains(t) && wild_match(
                pattern@,
                t,
            ) by {
            let now = all.take(i + 1);
            if all.take(i as int).contains(t) {
                let k = choose|k: int| 0 <= k < i && all.take(i as int)[k] == t;
                assert(now[k] == t);
            }
            assert(now[i as int] == name);
            if now.contains(t) && t != name {
                let k = choose|k: int| 0 <= k < now.len() && now[k] == t;
                assert(all.take(i as int)[k] == t);
            }
        }
        i = i + 1;
    }
    assert(all.take(i as int) =~= all);
    assert(found@.dom() =~= all.to_set().filter(|t: Seq<char>| wild_match(pattern@, t)));
    found.keys()
}

} // verus!
