//! What the changes of a commit come to against the repository.

use vstd::prelude::*;

use crate::commit::{
    ChangesView, CommitChanges, DirAction, DirActionView, FileAction,
    FileActionView,
};
use crate::commit_drive::{
    clone_opt_bytes, closed_to, commands_are, common, dir_opened, dir_prefixes, dirs_opened,
    parent_dir, parent_of, plans_view, prefixes, run_tasks, tasks_done, whole_drive, DirPlanKind,
    DirPlanView, DriveView, Encoding, FileText, FileTextView, PropChange, Task, TaskView,
};
use crate::drive_laws::{commit_drives_are_in_order, entered_once, is_complete};
use crate::editor::{copy_view, EditView, EditorCommand};
use crate::error::{protocol, result_view, ErrorView, SvnError};
use crate::fulltext::fulltext_delta;
use crate::keymap::{in_order, keys_of, lemma_keys_in_order, KeyMap};
use crate::path::{rel_dir_path, validate_rel_dir_path};
use crate::raw::copy_bytes;
use crate::task_order::{
    drive_order, in_turn, insert_task, lemma_same_tasks, put_in_drive_order, tasks_come_in_order,
    OrderRule,
};
use crate::text::{cat, has_prefix, starts_with};
use crate::token_laws::{tokens_are_given_once, tokens_once};
use crate::types::{kind_word, NodeKind};

verus! {

/// A path lies below a directory.
pub open spec fn lies_below(path: Seq<char>, dir: Seq<char>) -> bool {
    has_prefix(path, dir + "/"@)
}

impl ChangesView {
    /// Something is changed below a path.
    pub open spec fn changes_below(self, dir: Seq<char>) -> bool {
        ||| exists|p: Seq<char>| #[trigger] self.files.dom().contains(p) && lies_below(p, dir)
        ||| exists|p: Seq<char>| #[trigger] self.dirs.dom().contains(p) && lies_below(p, dir)
    }

    /// A path can be deleted: nothing else happens to it or below it.
    pub open spec fn delete_checked(self, path: Seq<char>) -> Result<(), ErrorView> {
        if self.changes_below(path) {
            Err(ErrorView::Protocol("cannot edit inside deleted path "@ + path))
        } else if self.files.dom().contains(path) || self.dirs.dom().contains(path) {
            Err(ErrorView::Protocol("delete conflicts with other changes at "@ + path))
        } else {
            Ok(())
        }
    }

    /// The paths that are deleted, before index `n`, can be.
    pub open spec fn deletes_checked(self, n: int) -> Result<(), ErrorView>
        decreases n,
    {
        if n <= 0 || n > in_order(self.deletes).len() {
            Ok(())
        } else {
            match self.deletes_checked(n - 1) {
                Ok(_) => self.delete_checked(in_order(self.deletes)[n - 1]),
                Err(e) => Err(e),
            }
        }
    }

    /// A directory is entered on the way to one of the changes.
    pub open spec fn needs_dir(self, d: Seq<char>) -> bool {
        ||| exists|p: Seq<char>| #[trigger] self.dirs.dom().contains(p) && prefixes(p).contains(d)
        ||| exists|p: Seq<char>| #[trigger]
            self.files.dom().contains(p) && prefixes(parent_of(p)).contains(d)
        ||| exists|p: Seq<char>| #[trigger]
            self.deletes.contains(p) && prefixes(parent_of(p)).contains(d)
    }

    /// The directories that are entered on the way to the changes.
    pub open spec fn needed_dirs(self) -> Set<Seq<char>> {
        Set::new(|d: Seq<char>| self.needs_dir(d))
    }
}

/// A plan for a commit: what is known of the directories and files that it touches.
pub struct CommitPlan {
    pub changes: CommitChanges,
    pub needed: Vec<String>,
    pub plans: KeyMap<DirPlanKind>,
    pub exists: KeyMap<bool>,
}

/// What a `CommitPlan` says.
#[verifier::ext_equal]
pub struct PlanView {
    pub changes: ChangesView,
    pub plans: Map<Seq<char>, DirPlanView>,
    pub exists: Map<Seq<char>, bool>,
}

impl View for CommitPlan {
    type V = PlanView;

    open spec fn view(&self) -> PlanView {
        PlanView {
            changes: self.changes@,
            plans: plans_view(self.plans@),
            exists: self.exists@,
        }
    }
}

impl CommitPlan {
    /// The maps are in order, and the directories that are entered are listed.
    pub open spec fn wf(self) -> bool {
        &&& self.changes.wf()
        &&& self.plans.wf()
        &&& self.exists.wf()
        &&& self.needed.deep_view() == in_order(self@.changes.needed_dirs())
    }
}

/// What planning gives.
pub open spec fn plan_is(r: Result<CommitPlan, SvnError>, v: ChangesView) -> bool {
    let checked = v.deletes_checked(in_order(v.deletes).len() as int);
    match r {
        Ok(p) => checked is Ok && p.wf() && p@ == (PlanView {
            changes: v,
            plans: Map::empty(),
            exists: Map::empty(),
        }),
        Err(e) => checked == Err::<(), ErrorView>(e.deep_view()),
    }
}

fn some_below<V>(m: &KeyMap<V>, dir: &str) -> (r: bool)
    requires
        m.wf(),
    ensures
        r == exists|p: Seq<char>| #[trigger] m@.dom().contains(p) && lies_below(p, dir@),
{
    let prefix = cat(dir, "/");
    let keys = m.keys();
    proof {
        lemma_keys_in_order(*m);
    }
    let ghost all = keys.deep_view();
    let mut i: usize = 0;
    while i < keys.len()
        invariant
            i <= keys.len(),
            all == keys.deep_view(),
            prefix@ == dir@ + "/"@,
            forall|t: Seq<char>| #[trigger] m@.dom().contains(t) <==> all.contains(t),
            forall|k: int| 0 <= k < i ==> !lies_below(#[trigger] all[k], dir@),
        decreases keys.len() - i,
    {
        assert(all[i as int] == keys@[i as int]@);
        if starts_with(&keys[i], &prefix) {
            assert(all.contains(all[i as int]));
            assert(m@.dom().contains(all[i as int]));
            return true;
        }
        i = i + 1;
    }
    assert forall|p: Seq<char>| #[trigger] m@.dom().contains(p) implies !lies_below(p, dir@) by {
        let k = choose|k: int| 0 <= k < all.len() && all[k] == p;
        assert(!lies_below(all[k], dir@));
    }
    false
}

fn add_dirs(found: &mut KeyMap<bool>, dirs: Vec<String>)
    requires
        old(found).wf(),
    ensures
        final(found).wf(),
        forall|d: Seq<char>| #[trigger]
            final(found)@.dom().contains(d) <==> old(found)@.dom().contains(d)
                || dirs.deep_view().contains(d),
{
    let ghost all = dirs.deep_view();
    let ghost before = found@.dom();
    let mut i: usize = 0;
    while i < dirs.len()
        invariant
            i <= dirs.len(),
            all == dirs.deep_view(),
            found.wf(),
            forall|d: Seq<char>| #[trigger]
                found@.dom().contains(d) <==> before.contains(d) || all.take(i as int).contains(d),
        decreases dirs.len() - i,
    {
        let ghost now = found@.dom();
        found.insert(dirs[i].clone(), true);
        assert(all[i as int] == dirs@[i as int]@);
        assert forall|d: Seq<char>| #[trigger]
            found@.dom().contains(d) <==> before.contains(d) || all.take(i + 1).contains(d) by {
            lemma_take_contains(all, i as int, d);
            assert(now.contains(d) <==> before.contains(d) || all.take(i as int).contains(d));
        }
        i = i + 1;
    }
    assert(all.take(i as int) =~= all);
}

proof fn lemma_take_contains(s: Seq<Seq<char>>, i: int, d: Seq<char>)
    requires
        0 <= i < s.len(),
    ensures
        s.take(i + 1).contains(d) <==> s.take(i).contains(d) || d == s[i],
{
    if s.take(i).contains(d) {
        let k = choose|k: int| 0 <= k < i && s.take(i)[k] == d;
        assert(s.take(i + 1)[k] == d);
    }
    assert(s.take(i + 1)[i] == s[i]);
    if s.take(i + 1).contains(d) && d != s[i] {
        let t = s.take(i + 1);
        let k = choose|k: int| 0 <= k < t.len() && t[k] == d;
        assert(s.take(i)[k] == d);
    }
}

/// Adds the directories on the way to each path, or to the directory that it stands in.
pub(crate) fn add_needed(found: &mut KeyMap<bool>, paths: Vec<String>, above: bool)
    requires
        old(found).wf(),
    ensures
        final(found).wf(),
        forall|d: Seq<char>| #[trigger]
            final(found)@.dom().contains(d) <==> old(found)@.dom().contains(d) || (exists|p: Seq<
                char,
            >| #[trigger]
                paths.deep_view().contains(p) && way_to(p, above).contains(d)),
{
    let ghost all = paths.deep_view();
    let ghost before = found@.dom();
    let mut i: usize = 0;
    while i < paths.len()
        invariant
            i <= paths.len(),
            all == paths.deep_view(),
            found.wf(),
            forall|d: Seq<char>| #[trigger]
                found@.dom().contains(d) <==> before.contains(d) || leads_through(
                    all.take(i as int),
                    above,
                    d,
                ),
        decreases paths.len() - i,
    {
        let ghost now = found@.dom();
        let ghost path = all[i as int];
        let dirs = if above {
            dir_prefixes(&parent_dir(&paths[i]))
        } else {
            dir_prefixes(&paths[i])
        };
        add_dirs(found, dirs);
        assert forall|d: Seq<char>| #[trigger]
            found@.dom().contains(d) <==> before.contains(d) || leads_through(
                all.take(i + 1),
                above,
                d,
            ) by {
            assert(now.contains(d) <==> before.contains(d) || leads_through(
                all.take(i as int),
                above,
                d,
            ));
            lemma_leads_through(all, i as int, above, d);
        }
        i = i + 1;
    }
    assert(all.take(i as int) =~= all);
}

/// The directories on the way to a path, or to the directory that it stands in.
pub open spec fn way_to(p: Seq<char>, above: bool) -> Seq<Seq<char>> {
    if above {
        prefixes(parent_of(p))
    } else {
        prefixes(p)
    }
}

/// A directory is on the way to one of the paths.
spec fn leads_through(paths: Seq<Seq<char>>, above: bool, d: Seq<char>) -> bool {
    exists|p: Seq<char>| #[trigger] paths.contains(p) && way_to(p, above).contains(d)
}

proof fn lemma_leads_through(paths: Seq<Seq<char>>, i: int, above: bool, d: Seq<char>)
    requires
        0 <= i < paths.len(),
    ensures
        leads_through(paths.take(i + 1), above, d) <==> leads_through(paths.take(i), above, d)
            || way_to(paths[i], above).contains(d),
{
    if leads_through(paths.take(i), above, d) {
        let p = choose|p: Seq<char>| #[trigger]
            paths.take(i).contains(p) && way_to(p, above).contains(d);
        lemma_take_contains(paths, i, p);
        assert(paths.take(i + 1).contains(p));
    }
    if way_to(paths[i], above).contains(d) {
        lemma_take_contains(paths, i, paths[i]);
        assert(paths.take(i + 1).contains(paths[i]));
    }
    if leads_through(paths.take(i + 1), above, d) {
        let p = choose|p: Seq<char>| #[trigger]
            paths.take(i + 1).contains(p) && way_to(p, above).contains(d);
        lemma_take_contains(paths, i, p);
    }
}

impl CommitChanges {
    fn check_deletes(&self) -> (r: Result<(), SvnError>)
        requires
            self.wf(),
        ensures
            result_view(r) == self@.deletes_checked(in_order(self@.deletes).len() as int),
    {
        let keys = self.deletes.keys();
        let ghost all = keys.deep_view();
        let mut n: usize = 0;
        while n < keys.len()
            invariant
                n <= keys.len(),
                self.wf(),
                all == keys.deep_view(),
                all == in_order(self@.deletes),
                self@.deletes_checked(n as int) == Ok::<(), ErrorView>(()),
            decreases keys.len() - n,
        {
            let path = &keys[n];
            assert(all[n as int] == path@);
            assert(self@.files.dom() =~= self.files@.dom());
            assert(self@.dirs.dom() =~= self.dirs@.dom());
            if some_below(&self.files, path) || some_below(&self.dirs, path) {
                proof {
                    assert(self@.changes_below(path@));
                    lemma_bad_delete_stays(self@, n + 1);
                }
                return Err(SvnError::Protocol(cat("cannot edit inside deleted path ", path)));
            }
            if self.files.contains_key(path) || self.dirs.contains_key(path) {
                proof {
                    lemma_bad_delete_stays(self@, n + 1);
                }
                return Err(
                    SvnError::Protocol(cat("delete conflicts with other changes at ", path)),
                );
            }
            n = n + 1;
        }
        Ok(())
    }

    fn list_needed(&self) -> (r: Vec<String>)
        requires
            self.wf(),
        ensures
            r.deep_view() == in_order(self@.needed_dirs()),
    {
        let mut found: KeyMap<bool> = KeyMap::new();
        proof {
            lemma_keys_in_order(self.dirs);
            lemma_keys_in_order(self.files);
            lemma_keys_in_order(self.deletes);
        }
        add_needed(&mut found, self.dirs.keys(), false);
        add_needed(&mut found, self.files.keys(), true);
        add_needed(&mut found, self.deletes.keys(), true);
        proof {
            assert forall|d: Seq<char>| #[trigger]
                found@.dom().contains(d) <==> self@.needed_dirs().contains(d) by {
                lemma_same_way(self@.dirs.dom(), in_order(self.dirs@.dom()), false, d);
                lemma_same_way(self@.files.dom(), in_order(self.files@.dom()), true, d);
                lemma_same_way(self@.deletes, in_order(self.deletes@.dom()), true, d);
            }
            assert(found@.dom() =~= self@.needed_dirs());
        }
        found.keys()
    }

    /// A plan that knows nothing of the repository yet, once all copies are resolved.
    pub(crate) fn plan(self) -> (r: Result<CommitPlan, SvnError>)
        requires
            self.wf(),
            self@.copies.len() == 0,
        ensures
            plan_is(r, self@),
    {
        match self.check_deletes() {
            Ok(_) => {},
            Err(e) => {
                return Err(e);
            },
        }
        let needed = self.list_needed();
        let p = CommitPlan {
            changes: self,
            needed,
            plans: KeyMap::new(),
            exists: KeyMap::new(),
        };
        assert(p@.plans =~= Map::<Seq<char>, DirPlanView>::empty());
        Ok(p)
    }
}

/// A set and a sequence of the same paths lead through the same directories.
proof fn lemma_same_way(s: Set<Seq<char>>, v: Seq<Seq<char>>, above: bool, d: Seq<char>)
    requires
        forall|t: Seq<char>| #[trigger] s.contains(t) <==> v.contains(t),
    ensures
        leads_through(v, above, d) <==> exists|p: Seq<char>| #[trigger]
            s.contains(p) && way_to(p, above).contains(d),
{
    if leads_through(v, above, d) {
        let p = choose|p: Seq<char>| #[trigger] v.contains(p) && way_to(p, above).contains(d);
        assert(s.contains(p));
    }
    if exists|p: Seq<char>| #[trigger] s.contains(p) && way_to(p, above).contains(d) {
        let p = choose|p: Seq<char>| #[trigger] s.contains(p) && way_to(p, above).contains(d);
        assert(v.contains(p));
    }
}

/// A deletion that cannot be stays so.
proof fn lemma_bad_delete_stays(v: ChangesView, n: int)
    requires
        0 <= n <= in_order(v.deletes).len(),
        v.deletes_checked(n) is Err,
    ensures
        v.deletes_checked(in_order(v.deletes).len() as int) == v.deletes_checked(n),
    decreases in_order(v.deletes).len() - n,
{
    if n < in_order(v.deletes).len() {
        lemma_bad_delete_stays(v, n + 1);
    }
}

impl PlanView {
    /// A directory that is entered is of this kind.
    pub open spec fn dir_answered(self, needed: Seq<char>, kind: NodeKind) -> Result<
        PlanView,
        ErrorView,
    > {
        match rel_dir_path(needed) {
            Err(e) => Err(e),
            Ok(dir) => {
                let copied = match self.changes.dir_op(dir).action {
                    Some(DirActionView::Copy { from_path, from_rev }) => Some(
                        (from_path, from_rev),
                    ),
                    _ => None,
                };
                match kind {
                    NodeKind::Dir => if copied is Some {
                        Err(
                            ErrorView::Protocol(
                                "copy destination directory already exists at "@ + dir,
                            ),
                        )
                    } else {
                        Ok(PlanView { plans: self.plans.insert(dir, DirPlanView::Open), ..self })
                    },
                    NodeKind::Missing => Ok(
                        PlanView {
                            plans: self.plans.insert(dir, DirPlanView::Add { copy_from: copied }),
                            ..self
                        },
                    ),
                    _ => Err(
                        ErrorView::Protocol(
                            "expected directory or none at "@ + dir + " (got "@ + kind_word(kind)
                                + ")"@,
                        ),
                    ),
                }
            },
        }
    }

    /// A file that is changed is of this kind.
    pub open spec fn file_answered(self, path: Seq<char>, kind: NodeKind) -> Result<
        PlanView,
        ErrorView,
    > {
        let exists = kind == NodeKind::File;
        if kind == NodeKind::Dir || kind == NodeKind::Unknown {
            Err(
                ErrorView::Protocol(
                    "expected file or none at "@ + path + " (got "@ + kind_word(kind) + ")"@,
                ),
            )
        } else {
            match self.changes.file_op(path).action {
                None if !exists => Err(
                    ErrorView::Protocol(
                        "cannot set file properties on a missing file at "@ + path,
                    ),
                ),
                Some(FileActionView::Copy { .. }) if exists => Err(
                    ErrorView::Protocol("copy destination file already exists at "@ + path),
                ),
                _ => Ok(PlanView { exists: self.exists.insert(path, exists), ..self }),
            }
        }
    }
}

/// A path that is deleted is of this kind.
pub open spec fn delete_answered(path: Seq<char>, kind: NodeKind) -> Result<(), ErrorView> {
    if kind == NodeKind::Missing || kind == NodeKind::Unknown {
        Err(ErrorView::Protocol("delete target does not exist at "@ + path))
    } else {
        Ok(())
    }
}

/// What became of a plan that took an answer.
pub open spec fn planned_to(
    r: Result<(), SvnError>,
    before: PlanView,
    after: PlanView,
    v: Result<PlanView, ErrorView>,
) -> bool {
    match r {
        Ok(_) => v == Ok::<PlanView, ErrorView>(after),
        Err(e) => v == Err::<PlanView, ErrorView>(e.deep_view()) && after == before,
    }
}

pub(crate) fn wrong_kind(what: &str, path: &str, kind: NodeKind) -> (r: SvnError)
    ensures
        r.deep_view() == ErrorView::Protocol(
            what@ + path@ + " (got "@ + kind_word(kind) + ")"@,
        ),
{
    let mut s = cat(what, path);
    s.append(" (got ");
    s.append(kind.as_word());
    s.append(")");
    SvnError::Protocol(s)
}

impl CommitPlan {
    /// How many directories there are to ask for.
    pub(crate) fn dir_count(&self) -> (r: usize)
        requires
            self.wf(),
        ensures
            r == in_order(self@.changes.needed_dirs()).len(),
    {
        assert(self.needed.deep_view().len() == self.needed@.len());
        self.needed.len()
    }

    /// The `i`-th directory to ask for.
    pub(crate) fn dir_query(&self, i: usize) -> (r: Result<String, SvnError>)
        requires
            self.wf(),
            i < in_order(self@.changes.needed_dirs()).len(),
        ensures
            result_view(r) == rel_dir_path(in_order(self@.changes.needed_dirs())[i as int]),
    {
        assert(self.needed.deep_view()[i as int] == self.needed@[i as int]@);
        validate_rel_dir_path(&self.needed[i])
    }

    fn copied_from(&self, dir: &str) -> (r: Option<(String, u64)>)
        requires
            self.wf(),
        ensures
            copy_view(r) == (match self@.changes.dir_op(dir@).action {
                Some(DirActionView::Copy { from_path, from_rev }) => Some((from_path, from_rev)),
                _ => None,
            }),
    {
        match self.changes.dirs.get(dir) {
            Some(op) => match &op.action {
                Some(DirAction::Copy { from_path, from_rev }) => Some(
                    (from_path.clone(), *from_rev),
                ),
                _ => None,
            },
            None => None,
        }
    }

    /// Takes the kind of the `i`-th directory.
    pub(crate) fn resolve_dir(&mut self, i: usize, kind: NodeKind) -> (r: Result<(), SvnError>)
        requires
            old(self).wf(),
            i < in_order(old(self)@.changes.needed_dirs()).len(),
        ensures
            final(self).wf(),
            final(self)@.changes == old(self)@.changes,
            planned_to(
                r,
                old(self)@,
                final(self)@,
                old(self)@.dir_answered(
                    in_order(old(self)@.changes.needed_dirs())[i as int],
                    kind,
                ),
            ),
    {
        let ghost before = self@;
        let dir = match self.dir_query(i) {
            Ok(d) => d,
            Err(e) => {
                return Err(e);
            },
        };
        let copied = self.copied_from(&dir);
        let ghost d = dir@;
        match kind {
            NodeKind::Dir => {
                if copied.is_some() {
                    return Err(
                        SvnError::Protocol(
                            cat("copy destination directory already exists at ", &dir),
                        ),
                    );
                }
                self.plans.insert(dir, DirPlanKind::Open);
                assert(self@.plans =~= before.plans.insert(d, DirPlanView::Open));
                Ok(())
            },
            NodeKind::Missing => {
                let ghost c = copy_view(copied);
                self.plans.insert(dir, DirPlanKind::Add { copy_from: copied });
                assert(self@.plans =~= before.plans.insert(d, DirPlanView::Add { copy_from: c }));
                Ok(())
            },
            _ => Err(wrong_kind("expected directory or none at ", &dir, kind)),
        }
    }

    /// How many files there are to ask for.
    pub(crate) fn file_count(&self) -> (r: usize)
        requires
            self.wf(),
        ensures
            r == in_order(self@.changes.files.dom()).len(),
    {
        proof {
            lemma_keys_in_order(self.changes.files);
            assert(self@.changes.files.dom() =~= self.changes.files@.dom());
        }
        self.changes.files.len()
    }

    /// The `i`-th file to ask for.
    pub(crate) fn file_query(&self, i: usize) -> (r: &String)
        requires
            self.wf(),
            i < in_order(self@.changes.files.dom()).len(),
        ensures
            r@ == in_order(self@.changes.files.dom())[i as int],
    {
        proof {
            lemma_keys_in_order(self.changes.files);
            assert(self@.changes.files.dom() =~= self.changes.files@.dom());
            let pairs = self.changes.files.pairs();
            assert(keys_of(pairs)[i as int] == pairs[i as int].0);
        }
        self.changes.files.key_at(i)
    }

    /// Takes the kind of the `i`-th file.
    pub(crate) fn resolve_file(&mut self, i: usize, kind: NodeKind) -> (r: Result<(), SvnError>)
        requires
            old(self).wf(),
            i < in_order(old(self)@.changes.files.dom()).len(),
        ensures
            final(self).wf(),
            final(self)@.changes == old(self)@.changes,
            planned_to(
                r,
                old(self)@,
                final(self)@,
                old(self)@.file_answered(
                    in_order(old(self)@.changes.files.dom())[i as int],
                    kind,
                ),
            ),
    {
        let path = self.file_query(i).clone();
        match kind {
            NodeKind::Missing | NodeKind::File => {},
            _ => {
                return Err(wrong_kind("expected file or none at ", &path, kind));
            },
        }
        let exists = match kind {
            NodeKind::File => true,
            _ => false,
        };
        let (kept, copied) = match self.changes.files.get(&path) {
            Some(op) => match &op.action {
                None => (true, false),
                Some(FileAction::Copy { .. }) => (false, true),
                Some(FileAction::Put(_)) => (false, false),
            },
            None => (true, false),
        };
        if kept && !exists {
            return Err(
                SvnError::Protocol(cat("cannot set file properties on a missing file at ", &path)),
            );
        }
        if copied && exists {
            return Err(SvnError::Protocol(cat("copy destination file already exists at ", &path)));
        }
        self.exists.insert(path, exists);
        Ok(())
    }

    /// How many deleted paths there are to ask for.
    pub(crate) fn delete_count(&self) -> (r: usize)
        requires
            self.wf(),
        ensures
            r == in_order(self@.changes.deletes).len(),
    {
        proof {
            lemma_keys_in_order(self.changes.deletes);
        }
        self.changes.deletes.len()
    }

    /// The `i`-th deleted path to ask for.
    pub(crate) fn delete_query(&self, i: usize) -> (r: &String)
        requires
            self.wf(),
            i < in_order(self@.changes.deletes).len(),
        ensures
            r@ == in_order(self@.changes.deletes)[i as int],
    {
        proof {
            lemma_keys_in_order(self.changes.deletes);
            let pairs = self.changes.deletes.pairs();
            assert(keys_of(pairs)[i as int] == pairs[i as int].0);
        }
        self.changes.deletes.key_at(i)
    }

    /// Takes the kind of the `i`-th deleted path.
    pub(crate) fn resolve_delete(&self, i: usize, kind: NodeKind) -> (r: Result<(), SvnError>)
        requires
            self.wf(),
            i < in_order(self@.changes.deletes).len(),
        ensures
            result_view(r) == delete_answered(in_order(self@.changes.deletes)[i as int], kind),
    {
        match kind {
            NodeKind::Missing | NodeKind::Unknown => Err(
                SvnError::Protocol(cat("delete target does not exist at ", self.delete_query(i))),
            ),
            _ => Ok(()),
        }
    }
}

impl PlanView {
    /// The task for a directory.
    pub open spec fn dir_task(self, p: Seq<char>) -> TaskView {
        TaskView::Dir { path: p, props: self.changes.dirs[p].props }
    }

    /// The task for a file.
    pub open spec fn file_task(self, p: Seq<char>) -> TaskView {
        let op = self.changes.files[p];
        TaskView::File {
            path: p,
            exists: self.exists[p],
            copy_from: match op.action {
                Some(FileActionView::Copy { from_path, from_rev }) => Some((from_path, from_rev)),
                _ => None,
            },
            text: match op.action {
                Some(FileActionView::Put(b)) => FileTextView::Bytes(b),
                _ => FileTextView::Keep,
            },
            props: op.props,
        }
    }

    /// The tasks: directories, files, and deletions, each in order.
    pub open spec fn tasks(self) -> Seq<TaskView> {
        in_order(self.changes.dirs.dom()).map_values(|p: Seq<char>| self.dir_task(p)) + in_order(
            self.changes.files.dom(),
        ).map_values(|p: Seq<char>| self.file_task(p)) + in_order(
            self.changes.deletes,
        ).map_values(|p: Seq<char>| TaskView::Delete { path: p })
    }

    /// Every file that is changed has been asked for.
    pub open spec fn files_known(self) -> bool {
        forall|p: Seq<char>| #[trigger]
            self.changes.files.dom().contains(p) ==> self.exists.dom().contains(p)
    }

    /// The commands of the commit.
    pub open spec fn commands(self, base_rev: u64, enc: Encoding) -> Result<
        Seq<EditView>,
        ErrorView,
    > {
        if !self.files_known() {
            Err(ErrorView::Protocol("missing file plan"@))
        } else {
            whole_drive(drive_order(self.tasks()), self.plans, base_rev, enc)
        }
    }
}

fn clone_props(props: &[PropChange]) -> (r: Vec<PropChange>)
    ensures
        r.deep_view() == props.deep_view(),
{
    let mut out: Vec<PropChange> = Vec::new();
    let mut i: usize = 0;
    while i < props.len()
        invariant
            i <= props.len(),
            out@.len() == i,
            forall|k: int| 0 <= k < i ==> (#[trigger] out@[k]).deep_view() == props@[k].deep_view(),
        decreases props.len() - i,
    {
        out.push(
            PropChange {
                name: props[i].name.clone(),
                value: clone_opt_bytes(&props[i].value),
            },
        );
        i = i + 1;
    }
    assert(out.deep_view() =~= props.deep_view());
    out
}

impl CommitPlan {
    fn make_dir_task(&self, path: &str) -> (r: Task)
        requires
            self.wf(),
            self@.changes.dirs.dom().contains(path@),
        ensures
            r.deep_view() == self@.dir_task(path@),
    {
        match self.changes.dirs.get(path) {
            Some(op) => Task::Dir { path: path.to_owned(), props: clone_props(&op.props) },
            None => Task::Dir { path: path.to_owned(), props: Vec::new() },
        }
    }

    fn make_file_task(&self, path: &str) -> (r: Option<Task>)
        requires
            self.wf(),
            self@.changes.files.dom().contains(path@),
        ensures
            match r {
                Some(t) => self@.exists.dom().contains(path@) && t.deep_view() == self@.file_task(
                    path@,
                ),
                None => !self@.exists.dom().contains(path@),
            },
    {
        let exists = match self.exists.get(path) {
            Some(b) => *b,
            None => {
                return None;
            },
        };
        match self.changes.files.get(path) {
            Some(op) => {
                let (copy_from, text) = match &op.action {
                    Some(FileAction::Copy { from_path, from_rev }) => (
                        Some((from_path.clone(), *from_rev)),
                        FileText::Keep,
                    ),
                    Some(FileAction::Put(b)) => (None, FileText::Bytes(copy_bytes(b))),
                    None => (None, FileText::Keep),
                };
                let t = Task::File {
                    path: path.to_owned(),
                    exists,
                    copy_from,
                    text,
                    props: clone_props(&op.props),
                };
                assert(t.deep_view() == self@.file_task(path@));
                Some(t)
            },
            None => None,
        }
    }
}

/// The length and the members of the tasks.
pub(crate) proof fn lemma_tasks(
    v: PlanView,
    dirs: Seq<Seq<char>>,
    files: Seq<Seq<char>>,
    deletes: Seq<Seq<char>>,
)
    requires
        dirs == in_order(v.changes.dirs.dom()),
        files == in_order(v.changes.files.dom()),
        deletes == in_order(v.changes.deletes),
    ensures
        v.tasks().len() == dirs.len() + files.len() + deletes.len(),
        forall|k: int|
            0 <= k < dirs.len() ==> #[trigger] v.tasks()[k] == v.dir_task(dirs[k]),
        forall|k: int|
            dirs.len() <= k < dirs.len() + files.len() ==> #[trigger] v.tasks()[k] == v.file_task(
                files[k - dirs.len()],
            ),
        forall|k: int|
            dirs.len() + files.len() <= k < v.tasks().len() ==> #[trigger] v.tasks()[k] == (
            TaskView::Delete { path: deletes[k - dirs.len() - files.len()] }),
{
}

impl CommitPlan {
    /// The tasks in the order in which they are sent.
    fn ordered_tasks(&self) -> (r: Option<Vec<Task>>)
        requires
            self.wf(),
        ensures
            match r {
                Some(t) => self@.files_known() && t.deep_view() == drive_order(self@.tasks()),
                None => !self@.files_known(),
            },
    {
        let dirs = self.changes.dirs.keys();
        let files = self.changes.files.keys();
        let deletes = self.changes.deletes.keys();
        let ghost all = self@.tasks();
        let ghost nd = dirs.deep_view();
        let ghost nf = files.deep_view();
        let ghost nx = deletes.deep_view();
        proof {
            lemma_keys_in_order(self.changes.dirs);
            lemma_keys_in_order(self.changes.files);
            lemma_keys_in_order(self.changes.deletes);
            assert(self@.changes.dirs.dom() =~= self.changes.dirs@.dom());
            assert(self@.changes.files.dom() =~= self.changes.files@.dom());
            lemma_tasks(self@, nd, nf, nx);
        }
        let mut out: Vec<Task> = Vec::new();
        assert(out.deep_view() =~= in_turn(OrderRule::Path, all, 0));
        let mut i: usize = 0;
        while i < dirs.len()
            invariant
                i <= dirs.len(),
                nd == dirs.deep_view(),
                self.wf(),
                dirs@.len() <= all.len(),
                forall|k: int|
                    0 <= k < nd.len() ==> #[trigger] all[k] == self@.dir_task(nd[k]),
                forall|t: Seq<char>| #[trigger]
                    self@.changes.dirs.dom().contains(t) <==> nd.contains(t),
                out.deep_view() == in_turn(OrderRule::Path, all, i as int),
            decreases dirs.len() - i,
        {
            assert(nd[i as int] == dirs@[i as int]@);
            assert(nd.contains(nd[i as int]));
            assert(self@.changes.dirs.dom().contains(nd[i as int]));
            assert(all[i as int] == self@.dir_task(nd[i as int]));
            insert_task(OrderRule::Path, &mut out, self.make_dir_task(&dirs[i]));
            i = i + 1;
        }
        let mut j: usize = 0;
        while j < files.len()
            invariant
                j <= files.len(),
                nf == files.deep_view(),
                self.wf(),
                dirs@.len() + files@.len() <= all.len(),
                dirs@.len() == nd.len(),
                forall|k: int|
                    nd.len() <= k < nd.len() + nf.len() ==> #[trigger] all[k] == self@.file_task(
                        nf[k - nd.len()],
                    ),
                forall|t: Seq<char>| #[trigger]
                    self@.changes.files.dom().contains(t) <==> nf.contains(t),
                forall|k: int| 0 <= k < j ==> self@.exists.dom().contains(#[trigger] nf[k]),
                out.deep_view() == in_turn(OrderRule::Path, all, dirs@.len() + j),
            decreases files.len() - j,
        {
            assert(nf[j as int] == files@[j as int]@);
            assert(nf.contains(nf[j as int]));
            assert(self@.changes.files.dom().contains(nf[j as int]));
            assert(all[nd.len() + j] == self@.file_task(nf[j as int]));
            match self.make_file_task(&files[j]) {
                Some(t) => {
                    insert_task(OrderRule::Path, &mut out, t);
                },
                None => {
                    return None;
                },
            }
            j = j + 1;
        }
        assert forall|p: Seq<char>| #[trigger]
            self@.changes.files.dom().contains(p) implies self@.exists.dom().contains(p) by {
            let k = choose|k: int| 0 <= k < nf.len() && nf[k] == p;
            assert(self@.exists.dom().contains(nf[k]));
        }
        let mut k: usize = 0;
        while k < deletes.len()
            invariant
                k <= deletes.len(),
                nx == deletes.deep_view(),
                dirs@.len() + files@.len() + deletes@.len() == all.len(),
                dirs@.len() == nd.len(),
                files@.len() == nf.len(),
                forall|m: int|
                    nd.len() + nf.len() <= m < all.len() ==> #[trigger] all[m] == (
                    TaskView::Delete { path: nx[m - nd.len() - nf.len()] }),
                out.deep_view() == in_turn(OrderRule::Path, all, dirs@.len() + files@.len() + k),
            decreases deletes.len() - k,
        {
            assert(nx[k as int] == deletes@[k as int]@);
            assert(all[nd.len() + nf.len() + k] == (TaskView::Delete { path: nx[k as int] }));
            insert_task(OrderRule::Path, &mut out, Task::Delete { path: deletes[k].clone() });
            k = k + 1;
        }
        Some(put_in_drive_order(out))
    }
}

impl CommitPlan {
    /// The commands that send the changes of a plan that has taken all answers.
    pub(crate) fn commands(&self, base_rev: u64, enc: Encoding) -> (r: Result<
        Vec<EditorCommand>,
        SvnError,
    >)
        requires
            self.wf(),
        ensures
            commands_are(r, self@.commands(base_rev, enc)),
            r matches Ok(c) ==> is_complete(c.deep_view()) && entered_once(c.deep_view())
                && tokens_once(c.deep_view()),
    {
        let tasks = match self.ordered_tasks() {
            Some(t) => t,
            None => {
                return Err(protocol("missing file plan"));
            },
        };
        proof {
            let all = self@.tasks();
            tasks_come_in_order(all);
            commit_drives_are_in_order(drive_order(all), self@.plans, base_rev, enc);
            tokens_are_given_once(drive_order(all), self@.plans, base_rev, enc);
        }
        run_tasks(&tasks, &self.plans, base_rev, enc)
    }
}

/// A task can be done: its directories have plans, and its text can be encoded.
spec fn doable(task: TaskView, plans: Map<Seq<char>, DirPlanView>, enc: Encoding) -> bool {
    &&& forall|d: Seq<char>| #[trigger] task.dirs().contains(d) ==> plans.dom().contains(d)
    &&& task matches TaskView::File { text: FileTextView::Bytes(b), .. } ==> fulltext_delta(
        enc.version,
        b,
        enc.level,
        enc.window_size as nat,
    ) is Ok
}

pub(crate) proof fn lemma_dirs_open(
    s: DriveView,
    targets: Seq<Seq<char>>,
    k: int,
    plans: Map<Seq<char>, DirPlanView>,
    rev: u64,
)
    requires
        forall|d: Seq<char>| #[trigger] targets.contains(d) ==> plans.dom().contains(d),
    ensures
        dirs_opened(s, targets, k, plans, rev) is Ok,
    decreases targets.len() - k,
{
    if 0 <= k < targets.len() {
        assert(targets.contains(targets[k]));
        lemma_dirs_open(
            dir_opened(s, targets[k], plans[targets[k]], rev),
            targets,
            k + 1,
            plans,
            rev,
        );
    }
}

proof fn lemma_doable_done(
    tasks: Seq<TaskView>,
    n: int,
    plans: Map<Seq<char>, DirPlanView>,
    rev: u64,
    enc: Encoding,
)
    requires
        0 <= n <= tasks.len(),
        forall|i: int| 0 <= i < tasks.len() ==> doable(#[trigger] tasks[i], plans, enc),
    ensures
        tasks_done(tasks, n, plans, rev, enc) is Ok,
    decreases n,
{
    if n > 0 {
        lemma_doable_done(tasks, n - 1, plans, rev, enc);
        let s = tasks_done(tasks, n - 1, plans, rev, enc)->Ok_0;
        let task = tasks[n - 1];
        assert(doable(task, plans, enc));
        let k = common(s.dirs, task.dirs(), 0);
        lemma_dirs_open(closed_to(s, k + 1), task.dirs(), k, plans, rev);
    }
}

/// Once every directory and file that a commit touches has been asked for, nothing but
/// the encoding of a text can keep its commands from being built.
pub proof fn answered_plans_give_commands(plan: CommitPlan, base_rev: u64, enc: Encoding)
    requires
        plan.wf(),
        plan@.files_known(),
        forall|d: Seq<char>| #[trigger]
            plan@.changes.needs_dir(d) ==> plan@.plans.dom().contains(d),
        forall|p: Seq<char>| #[trigger]
            plan@.changes.files.dom().contains(p) ==> (plan@.changes.files[p].action matches Some(
                FileActionView::Put(b),
            ) ==> fulltext_delta(enc.version, b, enc.level, enc.window_size as nat) is Ok),
    ensures
        plan@.commands(base_rev, enc) is Ok,
{
    let v = plan@;
    let all = v.tasks();
    let nd = in_order(v.changes.dirs.dom());
    let nf = in_order(v.changes.files.dom());
    let nx = in_order(v.changes.deletes);
    lemma_tasks(v, nd, nf, nx);
    lemma_keys_in_order(plan.changes.files);
    lemma_keys_in_order(plan.changes.dirs);
    lemma_keys_in_order(plan.changes.deletes);
    assert(v.changes.files.dom() =~= plan.changes.files@.dom());
    assert(v.changes.dirs.dom() =~= plan.changes.dirs@.dom());
    assert forall|i: int| 0 <= i < all.len() implies doable(#[trigger] all[i], v.plans, enc) by {
        let task = all[i];
        if i < nd.len() {
            assert(nd.contains(nd[i]));
            assert(v.changes.dirs.dom().contains(nd[i]));
        } else if i < nd.len() + nf.len() {
            let p = nf[i - nd.len()];
            assert(nf.contains(p));
            assert(v.changes.files.dom().contains(p));
        } else {
            let p = nx[i - nd.len() - nf.len()];
            assert(nx.contains(p));
            assert(v.changes.deletes.contains(p));
        }
        assert forall|d: Seq<char>| #[trigger] task.dirs().contains(d) implies v.plans.dom().contains(
            d,
        ) by {
            assert(v.changes.needs_dir(d));
        }
    }
    let sorted = drive_order(all);
    assert forall|i: int| 0 <= i < sorted.len() implies doable(
        #[trigger] sorted[i],
        v.plans,
        enc,
    ) by {
        lemma_same_tasks(all, sorted[i]);
        assert(sorted.contains(sorted[i]));
        let k = choose|k: int| 0 <= k < all.len() && all[k] == sorted[i];
        assert(doable(all[k], v.plans, enc));
    }
    lemma_doable_done(sorted, sorted.len() as int, v.plans, base_rev, enc);
}

} // verus!
