//! Building a commit of files whose texts are sent as they are read.

use vstd::prelude::*;

use crate::commit::{
    check_settings, encoding_is, select_svndiff_version, settings_checked, version_for, SvndiffMode,
};
use crate::commit_drive::{
    chunks_of, commands_are, parent_of, plans_view, prefixes, run_tasks, whole_drive, DirPlanKind,
    DirPlanView, Encoding, FileText, FileTextView, Task, TaskView, CHUNK_SIZE,
};
use crate::commit_plan::{add_needed, way_to, wrong_kind};
use crate::drive_laws::{commit_drives_are_in_order, entered_once, is_complete};
use crate::editor::{EditView, EditorCommand};
use crate::error::{result_view, ErrorView, SvnError};
use crate::fulltext::{
    delta_gives, encode_insertion_window, insertion_window, window_gives, windows_give_whole_text,
};
use crate::keymap::{in_order, KeyMap};
use crate::path::{rel_dir_path, rel_path, validate_rel_dir_path, validate_rel_path};
use crate::raw::copy_bytes;
use crate::svndiff::{header_bytes, SvndiffVersion, DELTA_WINDOW_MAX};
use crate::task_order::{
    ascends, insert_task, lemma_insert_ascends, place_for, together, OrderRule,
};
use crate::textdelta::joined;
use crate::token_laws::{tokens_are_given_once, tokens_once};
use crate::types::{kind_word, NodeKind};

verus! {

/// Settings for a commit of files whose texts are sent as they are read.
#[derive(Debug)]
pub struct CommitStreamBuilder {
    base_rev: Option<u64>,
    svndiff: SvndiffMode,
    zlib_level: u32,
    window_size: usize,
    paths: Vec<String>,
}

/// What a `CommitStreamBuilder` says.
pub struct StreamBuilderView {
    pub base_rev: Option<u64>,
    pub svndiff: SvndiffMode,
    pub zlib_level: u32,
    pub window_size: usize,
    pub paths: Seq<Seq<char>>,
}

impl StreamBuilderView {
    /// The most bytes of a text that are read at once.
    pub open spec fn window(self) -> usize {
        if self.window_size == 0 {
            1
        } else {
            self.window_size
        }
    }
}

impl View for CommitStreamBuilder {
    type V = StreamBuilderView;

    closed spec fn view(&self) -> StreamBuilderView {
        StreamBuilderView {
            base_rev: self.base_rev,
            svndiff: self.svndiff,
            zlib_level: self.zlib_level,
            window_size: self.window_size,
            paths: self.paths.deep_view(),
        }
    }
}

impl Default for CommitStreamBuilder {
    fn default() -> (r: CommitStreamBuilder)
        ensures
            r@ == (StreamBuilderView {
                base_rev: None,
                svndiff: SvndiffMode::Auto,
                zlib_level: 5,
                window_size: 65536,
                paths: Seq::empty(),
            }),
    {
        CommitStreamBuilder::new()
    }
}

impl CommitStreamBuilder {
    /// No files yet.
    pub fn new() -> (r: CommitStreamBuilder)
        ensures
            r@ == (StreamBuilderView {
                base_rev: None,
                svndiff: SvndiffMode::Auto,
                zlib_level: 5,
                window_size: 65536,
                paths: Seq::empty(),
            }),
    {
        let paths: Vec<String> = Vec::new();
        assert(paths.deep_view() =~= Seq::<Seq<char>>::empty());
        CommitStreamBuilder {
            base_rev: None,
            svndiff: SvndiffMode::Auto,
            zlib_level: 5,
            window_size: 65536,
            paths,
        }
    }

    /// Sets the revision that the changes are made against.
    pub fn with_base_rev(self, base_rev: u64) -> (r: CommitStreamBuilder)
        ensures
            r@ == (StreamBuilderView { base_rev: Some(base_rev), ..self@ }),
    {
        let mut s = self;
        s.base_rev = Some(base_rev);
        s
    }

    /// Sets the version of the delta format.
    pub fn with_svndiff(self, svndiff: SvndiffMode) -> (r: CommitStreamBuilder)
        ensures
            r@ == (StreamBuilderView { svndiff, ..self@ }),
    {
        let mut s = self;
        s.svndiff = svndiff;
        s
    }

    /// Sets the level of compression, from 0 to 9.
    pub fn with_zlib_level(self, level: u32) -> (r: CommitStreamBuilder)
        ensures
            r@ == (StreamBuilderView { zlib_level: level, ..self@ }),
    {
        let mut s = self;
        s.zlib_level = level;
        s
    }

    /// Sets the most data that one window of a delta holds.
    pub fn with_window_size(self, window_size: usize) -> (r: CommitStreamBuilder)
        ensures
            r@ == (StreamBuilderView { window_size, ..self@ }),
    {
        let mut s = self;
        s.window_size = window_size;
        s
    }

    /// The revision that was set.
    pub fn base_rev(&self) -> (r: Option<u64>)
        ensures
            r == self@.base_rev,
    {
        self.base_rev
    }

    /// One more file, whose text is read later.
    pub fn put_file(self, path: &str) -> (r: CommitStreamBuilder)
        ensures
            r@ == (StreamBuilderView { paths: self@.paths.push(path@), ..self@ }),
    {
        let mut s = self;
        let ghost before = s.paths.deep_view();
        s.paths.push(path.to_owned());
        assert(s.paths.deep_view() =~= before.push(path@));
        s
    }

    /// The files.
    pub fn paths(&self) -> (r: &Vec<String>)
        ensures
            r.deep_view() == self@.paths,
    {
        &self.paths
    }

    /// Whether there is something to commit, and a way to encode it.
    pub fn check(&self) -> (r: Result<(), SvnError>)
        ensures
            result_view(r) == settings_checked(self@.paths.len(), self@.zlib_level),
    {
        check_settings(self.paths.len(), self.zlib_level)
    }

    /// The most bytes of a text that are read at once. A window of no bytes counts as one
    /// of one byte.
    pub fn window(&self) -> (r: usize)
        ensures
            r == self@.window(),
    {
        if self.window_size == 0 {
            1
        } else {
            self.window_size
        }
    }

    /// How texts are encoded, where the server does or does not understand the versions 1
    /// and 2 of the delta format.
    pub fn encoding(&self, svndiff1: bool, svndiff2: bool) -> (r: Result<Encoding, SvnError>)
        ensures
            encoding_is(
                r,
                version_for(self@.svndiff, svndiff1, svndiff2),
                self@.zlib_level,
                self@.window(),
            ),
    {
        match select_svndiff_version(self.svndiff, svndiff1, svndiff2) {
            Ok(version) => Ok(
                Encoding { version, level: self.zlib_level, window_size: self.window() },
            ),
            Err(e) => Err(e),
        }
    }
}

/// What is known of the files of a streamed commit and of the directories that it
/// enters.
pub struct StreamPlan {
    tasks: Vec<Task>,
    order: Vec<usize>,
    plans: KeyMap<DirPlanKind>,
}

/// What a `StreamPlan` says: the files in the order in which they are sent, the place
/// that each had among the files as they came, and the plans for the directories.
#[verifier::ext_equal]
pub struct StreamPlanView {
    pub tasks: Seq<TaskView>,
    pub order: Seq<usize>,
    pub plans: Map<Seq<char>, DirPlanView>,
}

impl View for StreamPlan {
    type V = StreamPlanView;

    closed spec fn view(&self) -> StreamPlanView {
        StreamPlanView {
            tasks: self.tasks.deep_view(),
            order: self.order@,
            plans: plans_view(self.plans@),
        }
    }
}

/// The task for a file whose text is sent later.
pub open spec fn later_task(path: Seq<char>, exists: bool) -> TaskView {
    TaskView::File {
        path,
        exists,
        copy_from: None,
        text: FileTextView::Later,
        props: Seq::empty(),
    }
}

/// A task for a file whose text is sent later.
pub open spec fn is_later(t: TaskView) -> bool {
    t matches TaskView::File { text: FileTextView::Later, copy_from: None, props, .. }
        && props.len() == 0
}

impl StreamPlanView {
    /// One more file, of this kind.
    pub open spec fn with_file(self, path: Seq<char>, kind: NodeKind) -> Result<
        StreamPlanView,
        ErrorView,
    > {
        match rel_path(path) {
            Err(e) => Err(e),
            Ok(p) => if kind == NodeKind::Dir || kind == NodeKind::Unknown {
                Err(
                    ErrorView::Protocol(
                        "expected file or none at "@ + p + " (got "@ + kind_word(kind) + ")"@,
                    ),
                )
            } else {
                let t = later_task(p, kind == NodeKind::File);
                let at = place_for(OrderRule::Path, self.tasks, t, self.tasks.len() as int);
                Ok(
                    StreamPlanView {
                        tasks: self.tasks.insert(at, t),
                        order: self.order.insert(at, self.order.len() as usize),
                        ..self
                    },
                )
            },
        }
    }

    /// A directory is entered on the way to one of the files.
    pub open spec fn needs_dir(self, d: Seq<char>) -> bool {
        exists|i: int|
            0 <= i < self.tasks.len() && prefixes(
                parent_of(#[trigger] self.tasks[i].path()),
            ).contains(d)
    }

    /// The directories that are entered on the way to the files.
    pub open spec fn needed_dirs(self) -> Set<Seq<char>> {
        Set::new(|d: Seq<char>| self.needs_dir(d))
    }

    /// Every file gets a text that is sent later.
    pub open spec fn all_later(self) -> bool {
        forall|k: int| 0 <= k < self.tasks.len() ==> is_later(#[trigger] self.tasks[k])
    }

    /// A directory that is entered is of this kind.
    pub open spec fn dir_answered(self, needed: Seq<char>, kind: NodeKind) -> Result<
        StreamPlanView,
        ErrorView,
    > {
        match rel_dir_path(needed) {
            Err(e) => Err(e),
            Ok(dir) => match kind {
                NodeKind::Dir => Ok(
                    StreamPlanView { plans: self.plans.insert(dir, DirPlanView::Open), ..self },
                ),
                NodeKind::Missing => Ok(
                    StreamPlanView {
                        plans: self.plans.insert(dir, DirPlanView::Add { copy_from: None }),
                        ..self
                    },
                ),
                _ => Err(
                    ErrorView::Protocol(
                        "expected directory or none at "@ + dir + " (got "@ + kind_word(kind)
                            + ")"@,
                    ),
                ),
            },
        }
    }
}

/// What became of a plan that took an answer.
pub open spec fn streamed_to(
    r: Result<(), SvnError>,
    before: StreamPlanView,
    after: StreamPlanView,
    v: Result<StreamPlanView, ErrorView>,
) -> bool {
    match r {
        Ok(_) => v == Ok::<StreamPlanView, ErrorView>(after),
        Err(e) => v == Err::<StreamPlanView, ErrorView>(e.deep_view()) && after == before,
    }
}

impl StreamPlan {
    /// The map and the files are in order, and every file has a place.
    pub closed spec fn wf(self) -> bool {
        &&& self.plans.wf()
        &&& ascends(OrderRule::Path, self@.tasks)
        &&& self@.all_later()
        &&& self.tasks@.len() == self.order@.len()
    }

    /// No files yet.
    pub fn new() -> (r: StreamPlan)
        ensures
            r.wf(),
            r@ == (StreamPlanView {
                tasks: Seq::empty(),
                order: Seq::empty(),
                plans: Map::empty(),
            }),
    {
        let r = StreamPlan { tasks: Vec::new(), order: Vec::new(), plans: KeyMap::new() };
        assert(r@.tasks =~= Seq::<TaskView>::empty());
        assert(r@.plans =~= Map::<Seq<char>, DirPlanView>::empty());
        r
    }

    /// One more file, of this kind.
    pub fn add_file(&mut self, path: &str, kind: NodeKind) -> (r: Result<(), SvnError>)
        requires
            old(self).wf(),
        ensures
            final(self).wf(),
            streamed_to(r, old(self)@, final(self)@, old(self)@.with_file(path@, kind)),
    {
        let path = match validate_rel_path(path) {
            Ok(p) => p,
            Err(e) => {
                return Err(e);
            },
        };
        let exists = match kind {
            NodeKind::File => true,
            NodeKind::Missing => false,
            _ => {
                return Err(wrong_kind("expected file or none at ", &path, kind));
            },
        };
        let t = Task::File {
            path,
            exists,
            copy_from: None,
            text: FileText::Later,
            props: Vec::new(),
        };
        let ghost before = self@;
        assert(t.deep_view()->File_props =~= Seq::<crate::commit_drive::PropView>::empty());
        let index = self.order.len();
        assert(before.tasks.len() == self.tasks@.len());
        proof {
            lemma_insert_ascends(OrderRule::Path, before.tasks, t.deep_view());
        }
        let at = insert_task(OrderRule::Path, &mut self.tasks, t);
        self.order.insert(at, index);
        assert(self@.tasks.len() == self.tasks@.len());
        assert forall|k: int| 0 <= k < self@.tasks.len() implies is_later(
            #[trigger] self@.tasks[k],
        ) by {
            if k < at {
                assert(self@.tasks[k] == before.tasks[k]);
            } else if k > at {
                assert(self@.tasks[k] == before.tasks[k - 1]);
            }
        }
        Ok(())
    }

    /// The place that each file had among the files as they came, in the order in which
    /// they are sent.
    pub fn into_order(self) -> (r: Vec<usize>)
        ensures
            r@ == self@.order,
    {
        self.order
    }

    /// The directories to ask for.
    pub fn needed_dirs(&self) -> (r: Vec<String>)
        ensures
            r.deep_view() == in_order(self@.needed_dirs()),
    {
        let mut paths: Vec<String> = Vec::new();
        let mut i: usize = 0;
        while i < self.tasks.len()
            invariant
                i <= self.tasks.len(),
                paths@.len() == i,
                forall|k: int| 0 <= k < i ==> (#[trigger] paths@[k])@ == self@.tasks[k].path(),
            decreases self.tasks.len() - i,
        {
            paths.push(self.tasks[i].path().to_owned());
            i = i + 1;
        }
        let mut found: KeyMap<bool> = KeyMap::new();
        let ghost all = paths.deep_view();
        add_needed(&mut found, paths, true);
        proof {
            assert forall|d: Seq<char>| #[trigger]
                found@.dom().contains(d) <==> self@.needs_dir(d) by {
                if found@.dom().contains(d) {
                    let p = choose|p: Seq<char>| #[trigger]
                        all.contains(p) && way_to(p, true).contains(d);
                    let k = choose|k: int| 0 <= k < all.len() && all[k] == p;
                    assert(self@.tasks[k].path() == p);
                }
                if self@.needs_dir(d) {
                    let k = choose|k: int|
                        0 <= k < self@.tasks.len() && prefixes(
                            parent_of(#[trigger] self@.tasks[k].path()),
                        ).contains(d);
                    assert(all[k] == self@.tasks[k].path());
                    assert(all.contains(all[k]));
                    assert(way_to(all[k], true).contains(d));
                }
            }
            assert(found@.dom() =~= self@.needed_dirs());
        }
        found.keys()
    }

    /// Takes the kind of a directory that is entered.
    pub fn resolve_dir(&mut self, needed: &str, kind: NodeKind) -> (r: Result<(), SvnError>)
        requires
            old(self).wf(),
        ensures
            final(self).wf(),
            streamed_to(r, old(self)@, final(self)@, old(self)@.dir_answered(needed@, kind)),
    {
        let ghost before = self@;
        let dir = match validate_rel_dir_path(needed) {
            Ok(d) => d,
            Err(e) => {
                return Err(e);
            },
        };
        let ghost d = dir@;
        match kind {
            NodeKind::Dir => {
                self.plans.insert(dir, DirPlanKind::Open);
                assert(self@.plans =~= before.plans.insert(d, DirPlanView::Open));
                Ok(())
            },
            NodeKind::Missing => {
                self.plans.insert(dir, DirPlanKind::Add { copy_from: None });
                assert(self@.plans =~= before.plans.insert(
                    d,
                    DirPlanView::Add { copy_from: None },
                ));
                Ok(())
            },
            _ => Err(wrong_kind("expected directory or none at ", &dir, kind)),
        }
    }

    /// A plan has as many places as files, and sends all texts later.
    pub proof fn lemma_wf(self)
        requires
            self.wf(),
        ensures
            self@.tasks.len() == self@.order.len(),
            self@.all_later(),
    {
    }

    /// The commands of the commit. The windows of each text go behind the command that
    /// begins the delta of its file.
    pub fn commands(&self, base_rev: u64, enc: Encoding) -> (r: Result<
        Vec<EditorCommand>,
        SvnError,
    >)
        requires
            self.wf(),
        ensures
            commands_are(r, whole_drive(self@.tasks, self@.plans, base_rev, enc)),
            r matches Ok(c) ==> is_complete(c.deep_view()) && tokens_once(c.deep_view()),
            r matches Ok(c) ==> together(self@.tasks) ==> entered_once(c.deep_view()),
    {
        proof {
            commit_drives_are_in_order(self@.tasks, self@.plans, base_rev, enc);
            tokens_are_given_once(self@.tasks, self@.plans, base_rev, enc);
        }
        run_tasks(&self.tasks, &self.plans, base_rev, enc)
    }
}

/// The bytes that send a part of a text: a window, with the header before the first one.
pub open spec fn window_delta(version: SvndiffVersion, data: Seq<u8>, level: u32, first: bool) ->
    Result<Seq<u8>, ErrorView> {
    if level > 9 {
        Err(ErrorView::Protocol("zlib level must be 0..=9"@))
    } else {
        match insertion_window(version, data, level) {
            Ok(w) => Ok(
                if first {
                    header_bytes(version) + w
                } else {
                    w
                },
            ),
            Err(e) => Err(e),
        }
    }
}

fn cut(delta: &[u8]) -> (r: Vec<Vec<u8>>)
    ensures
        r.deep_view() == chunks_of(delta@),
{
    let mut out: Vec<Vec<u8>> = Vec::new();
    let n = delta.len();
    let mut i: usize = 0;
    assert(out.deep_view() + chunks_of(delta@.skip(0)) =~= chunks_of(delta@)) by {
        assert(delta@.skip(0) =~= delta@);
    }
    while i < n
        invariant
            i <= n,
            n == delta@.len(),
            out.deep_view() + chunks_of(delta@.skip(i as int)) == chunks_of(delta@),
        decreases n - i,
    {
        let m = if n - i < CHUNK_SIZE {
            n - i
        } else {
            CHUNK_SIZE
        };
        let ghost rest = delta@.skip(i as int);
        let ghost before = out.deep_view();
        let chunk = copy_bytes(vstd::slice::slice_subrange(delta, i, i + m));
        let ghost c = chunk@;
        assert(c =~= rest.take(m as int));
        assert(chunk.deep_view() =~= c);
        out.push(chunk);
        assert(out.deep_view() =~= before.push(c));
        assert(rest.skip(m as int) =~= delta@.skip(i + m));
        assert(before.push(c) + chunks_of(rest.skip(m as int)) =~= before + (seq![c] + chunks_of(
            rest.skip(m as int),
        )));
        i = i + m;
    }
    assert(out.deep_view() + chunks_of(delta@.skip(i as int)) =~= out.deep_view());
    out
}

/// The chunks of a delta, one behind the other, are the delta, and none is too long.
proof fn lemma_chunks_join(delta: Seq<u8>)
    ensures
        joined(chunks_of(delta)) == delta,
        forall|k: int|
            0 <= k < chunks_of(delta).len() ==> (#[trigger] chunks_of(delta)[k]).len() <= CHUNK_SIZE,
    decreases delta.len(),
{
    if delta.len() > 0 {
        let n: int = if delta.len() < CHUNK_SIZE {
            delta.len() as int
        } else {
            CHUNK_SIZE as int
        };
        lemma_chunks_join(delta.skip(n));
        let rest = chunks_of(delta.skip(n));
        assert(chunks_of(delta).drop_first() =~= rest);
        assert(delta.take(n) + delta.skip(n) =~= delta);
        assert forall|k: int| 0 <= k < chunks_of(delta).len() implies (#[trigger] chunks_of(
            delta,
        )[k]).len() <= CHUNK_SIZE by {
            if k > 0 {
                assert(chunks_of(delta)[k] == rest[k - 1]);
            }
        }
    } else {
        assert(joined(chunks_of(delta)) =~= delta);
    }
}

proof fn lemma_joined_add(a: Seq<Seq<u8>>, b: Seq<Seq<u8>>)
    ensures
        joined(a + b) == joined(a) + joined(b),
    decreases a.len(),
{
    if a.len() == 0 {
        assert(a + b =~= b);
        assert(joined(a) + joined(b) =~= joined(b));
    } else {
        assert((a + b).drop_first() =~= a.drop_first() + b);
        lemma_joined_add(a.drop_first(), b);
        assert((a + b)[0] == a[0]);
        assert(a[0] + (joined(a.drop_first()) + joined(b)) =~= joined(a) + joined(b));
    }
}

proof fn lemma_joined_one(a: Seq<u8>)
    ensures
        joined(seq![a]) == a,
{
    reveal_with_fuel(joined, 2);
    assert(seq![a].drop_first() =~= Seq::<Seq<u8>>::empty());
    assert(a + Seq::<u8>::empty() =~= a);
}

/// The commands that carry chunks.
pub open spec fn chunk_commands(token: Seq<char>, chunks: Seq<Seq<u8>>) -> Seq<EditView> {
    chunks.map_values(|chunk: Seq<u8>| EditView::TextDeltaChunk { file_token: token, chunk })
}

/// A text that is on its way: the parts that were read, and the chunks that send them.
pub struct TextView {
    pub token: Seq<char>,
    pub enc: Encoding,
    pub parts: Seq<Seq<u8>>,
    pub chunks: Seq<Seq<u8>>,
}

impl TextView {
    /// One part more.
    pub open spec fn with_part(self, data: Seq<u8>) -> Result<TextView, ErrorView> {
        match window_delta(self.enc.version, data, self.enc.level, self.parts.len() == 0) {
            Err(e) => Err(e),
            Ok(delta) => Ok(
                TextView {
                    parts: self.parts.push(data),
                    chunks: self.chunks + chunks_of(delta),
                    ..self
                },
            ),
        }
    }

    /// The text when it has ended; one that has no parts is sent as one empty part.
    pub open spec fn ended(self) -> Result<TextView, ErrorView> {
        if self.parts.len() == 0 {
            self.with_part(Seq::empty())
        } else {
            Ok(self)
        }
    }

    /// No part is larger than a decoder accepts.
    pub open spec fn parts_fit(self) -> bool {
        forall|i: int| 0 <= i < self.parts.len() ==> (#[trigger] self.parts[i]).len()
            <= DELTA_WINDOW_MAX
    }

    /// No chunk is longer than a command carries.
    pub open spec fn chunks_fit(self) -> bool {
        forall|i: int| 0 <= i < self.chunks.len() ==> (#[trigger] self.chunks[i]).len()
            <= CHUNK_SIZE
    }
}

/// Sends a text as it is read.
pub struct TextSender {
    token: String,
    enc: Encoding,
    begun: bool,
    parts: Ghost<Seq<Seq<u8>>>,
    windows: Ghost<Seq<Seq<u8>>>,
    chunks: Ghost<Seq<Seq<u8>>>,
}

impl View for TextSender {
    type V = TextView;

    closed spec fn view(&self) -> TextView {
        TextView {
            token: self.token@,
            enc: self.enc,
            parts: self.parts@,
            chunks: self.chunks@,
        }
    }
}

/// What taking a part of a text gave: the commands for the chunks that are new.
pub open spec fn text_moved(
    r: Result<Vec<EditorCommand>, SvnError>,
    before: TextView,
    after: TextView,
    v: Result<TextView, ErrorView>,
) -> bool {
    match r {
        Ok(c) => v == Ok::<TextView, ErrorView>(after) && c.deep_view() == chunk_commands(
            before.token,
            after.chunks.skip(before.chunks.len() as int),
        ),
        Err(e) => v == Err::<TextView, ErrorView>(e.deep_view()) && after == before,
    }
}

impl TextSender {
    /// The chunks hold a window for each part, behind a header.
    pub closed spec fn wf(self) -> bool {
        &&& self.begun == (self.parts@.len() > 0)
        &&& self.windows@.len() == self.parts@.len()
        &&& forall|i: int|
            0 <= i < self.windows@.len() ==> (#[trigger] self.windows@[i]).len() <= usize::MAX && (
            self.parts@[i].len() <= DELTA_WINDOW_MAX ==> window_gives(
                self.enc.version,
                self.windows@[i],
                self.parts@[i],
            ))
        &&& joined(self.chunks@) == (if self.begun {
            header_bytes(self.enc.version) + joined(self.windows@)
        } else {
            Seq::empty()
        })
        &&& self@.chunks_fit()
    }

    /// Nothing has been read yet.
    pub fn new(token: &str, enc: Encoding) -> (r: TextSender)
        ensures
            r.wf(),
            r@ == (TextView {
                token: token@,
                enc,
                parts: Seq::empty(),
                chunks: Seq::empty(),
            }),
    {
        TextSender {
            token: token.to_owned(),
            enc,
            begun: false,
            parts: Ghost(Seq::empty()),
            windows: Ghost(Seq::empty()),
            chunks: Ghost(Seq::empty()),
        }
    }

    /// Takes the next part of the text, and gives the commands that send it.
    pub fn part(&mut self, data: &[u8]) -> (r: Result<Vec<EditorCommand>, SvnError>)
        requires
            old(self).wf(),
        ensures
            final(self).wf(),
            text_moved(r, old(self)@, final(self)@, old(self)@.with_part(data@)),
    {
        let ghost before = self@;
        let mut delta: Vec<u8> = if self.begun {
            Vec::new()
        } else {
            self.enc.version.header()
        };
        let ghost head = delta@;
        match encode_insertion_window(self.enc.version, data, self.enc.level, &mut delta) {
            Ok(_) => {},
            Err(e) => {
                return Err(e);
            },
        }
        let ghost w = insertion_window(self.enc.version, data@, self.enc.level)->Ok_0;
        let total: usize = delta.len();
        assert(w.len() <= total);
        assert(self.begun ==> delta@ =~= w);
        let chunks = cut(&delta);
        let ghost cs = chunks.deep_view();
        let mut out: Vec<EditorCommand> = Vec::new();
        let mut i: usize = 0;
        while i < chunks.len()
            invariant
                i <= chunks.len(),
                cs == chunks.deep_view(),
                out@.len() == i,
                forall|k: int|
                    0 <= k < i ==> (#[trigger] out@[k]).deep_view() == (EditView::TextDeltaChunk {
                        file_token: self.token@,
                        chunk: cs[k],
                    }),
            decreases chunks.len() - i,
        {
            assert(cs[i as int] =~= chunks@[i as int]@);
            let chunk = copy_bytes(&chunks[i]);
            out.push(EditorCommand::TextDeltaChunk { file_token: self.token.clone(), chunk });
            i = i + 1;
        }
        self.begun = true;
        proof {
            lemma_chunks_join(delta@);
            lemma_joined_add(before.chunks, cs);
            let windows = self.windows@;
            lemma_joined_add(windows, seq![w]);
            lemma_joined_one(w);
            assert(windows.push(w) =~= windows + seq![w]);
            self.parts = Ghost(before.parts.push(data@));
            self.windows = Ghost(windows.push(w));
            self.chunks = Ghost(before.chunks + cs);
            assert(joined(self.chunks@) =~= header_bytes(self.enc.version) + joined(
                self.windows@,
            ));
            assert(out.deep_view() =~= chunk_commands(before.token, cs));
            assert(self@.chunks.skip(before.chunks.len() as int) =~= cs);
        }
        Ok(out)
    }

    /// Ends the text, and gives the commands that are left to be sent. The chunks of the
    /// text, one behind the other, are then a delta that gives all that was read.
    pub fn finish(self) -> (r: Result<Vec<EditorCommand>, SvnError>)
        requires
            self.wf(),
        ensures
            match r {
                Ok(c) => self@.ended() matches Ok(v) && c.deep_view() == chunk_commands(
                    self@.token,
                    v.chunks.skip(self@.chunks.len() as int),
                ) && v.chunks_fit() && (self@.parts_fit() ==> delta_gives(
                    joined(v.chunks),
                    joined(self@.parts),
                )),
                Err(e) => self@.ended() == Err::<TextView, ErrorView>(e.deep_view()),
            },
    {
        let mut s = self;
        let mut out: Vec<EditorCommand> = Vec::new();
        if !s.begun {
            let none: Vec<u8> = Vec::new();
            assert(none@ =~= Seq::<u8>::empty());
            match s.part(&none) {
                Ok(c) => {
                    out = c;
                },
                Err(e) => {
                    return Err(e);
                },
            }
            proof {
                let one = seq![Seq::<u8>::empty()];
                assert(s@.parts =~= one);
                lemma_joined_one(Seq::empty());
                assert(joined(self@.parts) =~= Seq::<u8>::empty());
            }
        } else {
            assert(out.deep_view() =~= chunk_commands(
                self@.token,
                self@.chunks.skip(self@.chunks.len() as int),
            ));
        }
        proof {
            if self@.parts_fit() {
                assert forall|i: int| 0 <= i < s.windows@.len() implies window_gives(
                    s.enc.version,
                    #[trigger] s.windows@[i],
                    s.parts@[i],
                ) by {
                    if self.begun {
                        assert(self@.parts[i].len() <= DELTA_WINDOW_MAX);
                    }
                }
                windows_give_whole_text(s.enc.version, s.windows@, s.parts@);
            }
        }
        Ok(out)
    }
}

} // verus!
