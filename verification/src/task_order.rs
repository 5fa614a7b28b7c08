//! The order in which the changes of a commit are sent: by their paths, or, where a
//! directory would be entered twice so, directory by directory.

use vstd::prelude::*;

use crate::commit_drive::{parent_of, prefixes, prefixes_from, under, Task, TaskView};
use crate::keymap::{
    lemma_lt_irreflexive, lemma_lt_total, lemma_lt_transitive, order_of, text_lt, TextOrder,
};
use crate::text::{cat, chars_of, find, has_prefix, rfind, rfind_char, slice_text, str_eq, trim};

verus! {

/// What tasks are put in order by.
#[derive(Clone, Copy, Debug, PartialEq, Eq, Structural)]
pub enum OrderRule {
    /// By their paths.
    Path,
    /// By the directories that they enter, and then by their names.
    Place,
}

/// What all entries of the innermost of these directories begin with.
pub open spec fn inside_of(dirs: Seq<Seq<char>>) -> Seq<char> {
    if dirs.len() == 0 {
        Seq::empty()
    } else {
        dirs.last() + "/"@
    }
}

/// The name of an entry in its directory.
pub open spec fn name_of(path: Seq<char>) -> Seq<char> {
    path.skip(rfind(path, '/', path.len() as int) + 1)
}

impl TaskView {
    /// The directory that is entered for the task, with a slash behind it, and the name of
    /// the entry in it, where the task is not about the directory itself.
    pub open spec fn place(self) -> Seq<char> {
        match self {
            TaskView::Dir { .. } => inside_of(self.dirs()),
            TaskView::File { path, .. } => inside_of(self.dirs()) + name_of(path),
            TaskView::Delete { path } => inside_of(self.dirs()) + name_of(path),
        }
    }

    /// What the task is put in order by.
    pub open spec fn key(self, rule: OrderRule) -> Seq<char> {
        match rule {
            OrderRule::Path => self.path(),
            OrderRule::Place => self.place(),
        }
    }
}

/// A task comes before another one.
pub open spec fn task_lt(rule: OrderRule, a: TaskView, b: TaskView) -> bool {
    text_lt(a.key(rule), b.key(rule))
}

/// Of two texts at most one comes before the other.
proof fn lemma_asymmetric(a: Seq<char>, b: Seq<char>)
    requires
        text_lt(a, b),
    ensures
        !text_lt(b, a),
{
    lemma_lt_irreflexive(a);
    if text_lt(b, a) {
        lemma_lt_transitive(a, b, a);
    }
}

/// What does not come before something does not come before what that does not come
/// before.
proof fn lemma_not_before(a: Seq<char>, b: Seq<char>, c: Seq<char>)
    requires
        !text_lt(a, b),
        !text_lt(b, c),
    ensures
        !text_lt(a, c),
{
    lemma_lt_total(a, b);
    lemma_lt_total(b, c);
    lemma_lt_irreflexive(a);
    if text_lt(a, c) {
        if text_lt(c, b) {
            lemma_lt_transitive(a, c, b);
        }
    }
}

fn name_part(path: &str) -> (r: String)
    ensures
        r@ == name_of(path@),
{
    let cs = chars_of(path);
    let n = cs.len();
    let i: usize = match rfind_char(&cs, '/') {
        Some(i) => i + 1,
        None => 0,
    };
    assert(cs@.subrange(i as int, n as int) =~= path@.skip(i as int));
    proof {
        lemma_rfind_last(path@, path@.len() as int);
    }
    slice_text(&cs, i, n)
}

impl Task {
    fn place(&self) -> (r: String)
        ensures
            r@ == self.deep_view().place(),
    {
        let dirs = self.dirs();
        let n = dirs.len();
        let ghost d = dirs.deep_view();
        let base = if n == 0 {
            let s = String::new();
            assert(s@ =~= Seq::<char>::empty());
            s
        } else {
            assert(d.last() == dirs@[n - 1]@);
            cat(&dirs[n - 1], "/")
        };
        match self {
            Task::Dir { .. } => base,
            _ => cat(&base, &name_part(self.path())),
        }
    }

    fn key(&self, rule: OrderRule) -> (r: String)
        ensures
            r@ == self.deep_view().key(rule),
    {
        match rule {
            OrderRule::Path => self.path().to_owned(),
            OrderRule::Place => self.place(),
        }
    }

    /// Whether the task comes before another one.
    pub fn comes_before(&self, rule: OrderRule, other: &Task) -> (r: bool)
        ensures
            r == task_lt(rule, self.deep_view(), other.deep_view()),
    {
        match order_of(&self.key(rule), &other.key(rule)) {
            TextOrder::Before => true,
            _ => false,
        }
    }
}

/// Where a task goes among ordered tasks, of which the first `n` are looked at: behind
/// those that it does not come before.
pub open spec fn place_for(rule: OrderRule, tasks: Seq<TaskView>, t: TaskView, n: int) -> int
    decreases n,
{
    if n <= 0 || n > tasks.len() {
        0
    } else if task_lt(rule, t, tasks[n - 1]) {
        place_for(rule, tasks, t, n - 1)
    } else {
        n
    }
}

/// The tasks in order, those of which neither comes before the other as they came; the
/// first `n` are taken.
pub open spec fn in_turn(rule: OrderRule, tasks: Seq<TaskView>, n: int) -> Seq<TaskView>
    decreases n,
{
    if n <= 0 || n > tasks.len() {
        Seq::empty()
    } else {
        let before = in_turn(rule, tasks, n - 1);
        before.insert(place_for(rule, before, tasks[n - 1], before.len() as int), tasks[n - 1])
    }
}

/// No task comes before one that stands in front of it.
pub open spec fn ascends(rule: OrderRule, tasks: Seq<TaskView>) -> bool {
    forall|i: int, j: int|
        #![trigger tasks[i], tasks[j]]
        0 <= i < j < tasks.len() ==> !task_lt(rule, tasks[j], tasks[i])
}

/// A directory that is entered for two tasks is entered for those between them too, so
/// that it need not be left in between.
pub open spec fn together(tasks: Seq<TaskView>) -> bool {
    forall|i: int, j: int, d: Seq<char>|
        #![trigger tasks[i].dirs().contains(d), tasks[j].dirs().contains(d)]
        0 <= i < j < tasks.len() && tasks[i].dirs().contains(d) && tasks[j].dirs().contains(d)
            ==> tasks[j - 1].dirs().contains(d)
}

/// The tasks in the order in which they are sent: in that of their paths, unless a
/// directory would be entered twice so, and otherwise directory by directory.
pub open spec fn drive_order(tasks: Seq<TaskView>) -> Seq<TaskView> {
    let by_path = in_turn(OrderRule::Path, tasks, tasks.len() as int);
    if together(by_path) {
        by_path
    } else {
        in_turn(OrderRule::Place, by_path, by_path.len() as int)
    }
}

/// Puts a task in its place, and says where that is.
pub fn insert_task(rule: OrderRule, tasks: &mut Vec<Task>, t: Task) -> (r: usize)
    ensures
        r == place_for(
            rule,
            old(tasks).deep_view(),
            t.deep_view(),
            old(tasks).deep_view().len() as int,
        ),
        r <= old(tasks)@.len(),
        final(tasks).deep_view() == old(tasks).deep_view().insert(r as int, t.deep_view()),
{
    let ghost all = tasks.deep_view();
    let ghost x = t.deep_view();
    let mut n: usize = tasks.len();
    assert(all.len() == tasks@.len());
    let mut looking = true;
    while looking
        invariant
            n <= tasks@.len(),
            all == tasks.deep_view(),
            x == t.deep_view(),
            looking ==> place_for(rule, all, x, all.len() as int) == place_for(
                rule,
                all,
                x,
                n as int,
            ),
            !looking ==> place_for(rule, all, x, all.len() as int) == n,
        decreases n, (if looking {
            1int
        } else {
            0
        }),
    {
        if n == 0 {
            looking = false;
        } else {
            assert(all[n - 1] == tasks@[n - 1].deep_view());
            if t.comes_before(rule, &tasks[n - 1]) {
                n = n - 1;
            } else {
                looking = false;
            }
        }
    }
    tasks.insert(n, t);
    assert(tasks.deep_view() =~= all.insert(n as int, x));
    n
}

fn holds(dirs: &[String], d: &str) -> (r: bool)
    ensures
        r == dirs.deep_view().contains(d@),
{
    let ghost all = dirs.deep_view();
    let mut i: usize = 0;
    while i < dirs.len()
        invariant
            i <= dirs.len(),
            all == dirs.deep_view(),
            forall|k: int| 0 <= k < i ==> #[trigger] all[k] != d@,
        decreases dirs.len() - i,
    {
        assert(all[i as int] == dirs@[i as int]@);
        if str_eq(&dirs[i], d) {
            assert(all.contains(d@));
            return true;
        }
        i = i + 1;
    }
    false
}

/// Whether one of the directories is entered for the `j`-th task and for one before, and
/// not for the task in front of it.
fn enters_again(all: &[Vec<String>], j: usize) -> (r: bool)
    requires
        0 < j < all@.len(),
    ensures
        r == exists|i: int, d: Seq<char>|
            #![trigger all@[i].deep_view().contains(d)]
            0 <= i < j && all@[i].deep_view().contains(d) && all@[j as int].deep_view().contains(
                d,
            ) && !all@[j - 1].deep_view().contains(d),
{
    let dirs = &all[j];
    let ghost here = dirs.deep_view();
    let mut k: usize = 0;
    while k < dirs.len()
        invariant
            k <= dirs.len(),
            0 < j < all@.len(),
            *dirs == all@[j as int],
            here == dirs.deep_view(),
            forall|i: int, m: int|
                #![trigger all@[i].deep_view().contains(here[m])]
                0 <= i < j && 0 <= m < k && all@[i].deep_view().contains(here[m]) ==> all@[j
                    - 1].deep_view().contains(here[m]),
        decreases dirs.len() - k,
    {
        assert(here[k as int] == dirs@[k as int]@);
        if !holds(&all[j - 1], &dirs[k]) {
            let mut i: usize = 0;
            while i < j
                invariant
                    i <= j,
                    k < dirs.len(),
                    0 < j < all@.len(),
                    *dirs == all@[j as int],
                    here == dirs.deep_view(),
                    here[k as int] == dirs@[k as int]@,
                    !all@[j - 1].deep_view().contains(here[k as int]),
                    forall|m: int|
                        0 <= m < i ==> !(#[trigger] all@[m]).deep_view().contains(here[k as int]),
                decreases j - i,
            {
                if holds(&all[i], &dirs[k]) {
                    assert(here.contains(here[k as int]));
                    assert(all@[i as int].deep_view().contains(here[k as int]));
                    return true;
                }
                i = i + 1;
            }
        }
        k = k + 1;
    }
    assert forall|i: int, d: Seq<char>|
        #![trigger all@[i].deep_view().contains(d)]
        0 <= i < j && all@[i].deep_view().contains(d) && all@[j as int].deep_view().contains(
            d,
        ) implies all@[j - 1].deep_view().contains(d) by {
        let m = choose|m: int| 0 <= m < here.len() && here[m] == d;
        assert(all@[i].deep_view().contains(here[m]));
    }
    false
}

/// Whether no directory has to be entered twice.
pub fn stay_together(tasks: &[Task]) -> (r: bool)
    ensures
        r == together(tasks.deep_view()),
{
    let ghost v = tasks.deep_view();
    let mut all: Vec<Vec<String>> = Vec::new();
    let mut n: usize = 0;
    while n < tasks.len()
        invariant
            n <= tasks.len(),
            v == tasks.deep_view(),
            all@.len() == n,
            forall|k: int| 0 <= k < n ==> (#[trigger] all@[k]).deep_view() == v[k].dirs(),
        decreases tasks.len() - n,
    {
        assert(v[n as int] == tasks@[n as int].deep_view());
        all.push(tasks[n].dirs());
        n = n + 1;
    }
    let mut j: usize = 1;
    while j < all.len()
        invariant
            1 <= j,
            v == tasks.deep_view(),
            all@.len() == v.len(),
            forall|k: int|
                0 <= k < all@.len() ==> (#[trigger] all@[k]).deep_view() == v[k].dirs(),
            forall|i: int, m: int, d: Seq<char>|
                #![trigger v[i].dirs().contains(d), v[m].dirs().contains(d)]
                0 <= i < m < j && m < v.len() && v[i].dirs().contains(d) && v[m].dirs().contains(d)
                    ==> v[m - 1].dirs().contains(d),
        decreases all.len() - j,
    {
        if enters_again(&all, j) {
            let ghost (i, d) = choose|i: int, d: Seq<char>|
                #![trigger all@[i].deep_view().contains(d)]
                0 <= i < j && all@[i].deep_view().contains(d) && all@[j as int].deep_view().contains(
                    d,
                ) && !all@[j - 1].deep_view().contains(d);
            let ghost m = j as int;
            assert(v[i].dirs().contains(d) && v[m].dirs().contains(d));
            assert(all@[m - 1].deep_view() == v[m - 1].dirs());
            assert(!v[m - 1].dirs().contains(d));
            return false;
        }
        assert forall|i: int, m: int, d: Seq<char>|
            #![trigger v[i].dirs().contains(d), v[m].dirs().contains(d)]
            0 <= i < m < j + 1 && m < v.len() && v[i].dirs().contains(d) && v[m].dirs().contains(
                d,
            ) implies v[m - 1].dirs().contains(d) by {
            if m == j {
                assert(all@[i].deep_view().contains(d));
                assert(all@[j - 1].deep_view() == v[j - 1].dirs());
            }
        }
        j = j + 1;
    }
    true
}

/// Puts tasks that are in the order of their paths in the order in which they are sent.
pub fn put_in_drive_order(by_path: Vec<Task>) -> (r: Vec<Task>)
    ensures
        r.deep_view() == (if together(by_path.deep_view()) {
            by_path.deep_view()
        } else {
            in_turn(OrderRule::Place, by_path.deep_view(), by_path.deep_view().len() as int)
        }),
{
    if stay_together(&by_path) {
        return by_path;
    }
    let ghost all = by_path.deep_view();
    let mut rest = by_path;
    let mut reversed: Vec<Task> = Vec::new();
    while rest.len() > 0
        invariant
            rest@.len() + reversed@.len() == all.len(),
            forall|k: int| 0 <= k < rest@.len() ==> (#[trigger] rest@[k]).deep_view() == all[k],
            forall|k: int|
                0 <= k < reversed@.len() ==> (#[trigger] reversed@[k]).deep_view() == all[all.len()
                    - 1 - k],
        decreases rest.len(),
    {
        let ghost n = rest@.len();
        if let Some(t) = rest.pop() {
            assert(t.deep_view() == all[n - 1]);
            reversed.push(t);
        }
    }
    let mut out: Vec<Task> = Vec::new();
    assert(out.deep_view() =~= in_turn(OrderRule::Place, all, 0));
    while reversed.len() > 0
        invariant
            reversed@.len() <= all.len(),
            forall|k: int|
                0 <= k < reversed@.len() ==> (#[trigger] reversed@[k]).deep_view() == all[all.len()
                    - 1 - k],
            out.deep_view() == in_turn(OrderRule::Place, all, all.len() - reversed@.len()),
        decreases reversed.len(),
    {
        let ghost n = reversed@.len();
        if let Some(t) = reversed.pop() {
            assert(t.deep_view() == all[all.len() - n]);
            insert_task(OrderRule::Place, &mut out, t);
        }
    }
    out
}

/// A place lies among the tasks: those behind it come later, and the one in front of it
/// does not.
pub proof fn lemma_place(rule: OrderRule, tasks: Seq<TaskView>, t: TaskView, n: int)
    requires
        0 <= n <= tasks.len(),
    ensures
        0 <= place_for(rule, tasks, t, n) <= n,
        forall|k: int|
            place_for(rule, tasks, t, n) <= k < n ==> task_lt(rule, t, #[trigger] tasks[k]),
        place_for(rule, tasks, t, n) > 0 ==> !task_lt(
            rule,
            t,
            tasks[place_for(rule, tasks, t, n) - 1],
        ),
    decreases n,
{
    if n > 0 && task_lt(rule, t, tasks[n - 1]) {
        lemma_place(rule, tasks, t, n - 1);
    }
}

/// Tasks that are in order stay so when one more is put in its place.
pub proof fn lemma_insert_ascends(rule: OrderRule, before: Seq<TaskView>, t: TaskView)
    requires
        ascends(rule, before),
    ensures
        ascends(rule, before.insert(place_for(rule, before, t, before.len() as int), t)),
{
    let at = place_for(rule, before, t, before.len() as int);
    lemma_place(rule, before, t, before.len() as int);
    let now = before.insert(at, t);
    assert forall|i: int, j: int|
        #![trigger now[i], now[j]]
        0 <= i < j < now.len() implies !task_lt(rule, now[j], now[i]) by {
        let x = if i < at {
            i
        } else {
            i - 1
        };
        let y = if j < at {
            j
        } else {
            j - 1
        };
        if i != at && j != at {
            assert(now[i] == before[x] && now[j] == before[y]);
        } else if i == at {
            assert(now[j] == before[y]);
            assert(task_lt(rule, t, before[y]));
            lemma_asymmetric(t.key(rule), before[y].key(rule));
        } else {
            assert(now[i] == before[i]);
            assert(!task_lt(rule, t, before[at - 1]));
            if i < at - 1 {
                assert(!task_lt(rule, before[at - 1], before[i]));
                lemma_not_before(t.key(rule), before[at - 1].key(rule), before[i].key(rule));
            }
        }
    }
}

/// Putting tasks in order loses none and doubles none.
pub proof fn lemma_in_turn(rule: OrderRule, tasks: Seq<TaskView>, n: int)
    requires
        0 <= n <= tasks.len(),
    ensures
        ascends(rule, in_turn(rule, tasks, n)),
        in_turn(rule, tasks, n).to_multiset() == tasks.take(n).to_multiset(),
    decreases n,
{
    broadcast use vstd::seq_lib::group_to_multiset_ensures;

    if n > 0 {
        lemma_in_turn(rule, tasks, n - 1);
        let before = in_turn(rule, tasks, n - 1);
        let t = tasks[n - 1];
        let at = place_for(rule, before, t, before.len() as int);
        lemma_place(rule, before, t, before.len() as int);
        lemma_insert_ascends(rule, before, t);
        vstd::seq_lib::to_multiset_insert(before, at, t);
        assert(tasks.take(n) =~= tasks.take(n - 1).push(t));
    } else {
        assert(tasks.take(0) =~= Seq::<TaskView>::empty());
    }
}

/// The tasks of a commit are sent so that no directory has to be entered twice, and none
/// is lost or sent twice. They are sent in the order of their paths wherever that order
/// does so.
pub proof fn tasks_come_in_order(tasks: Seq<TaskView>)
    ensures
        together(drive_order(tasks)),
        drive_order(tasks).to_multiset() == tasks.to_multiset(),
        together(in_turn(OrderRule::Path, tasks, tasks.len() as int)) ==> ascends(
            OrderRule::Path,
            drive_order(tasks),
        ),
{
    let n = tasks.len() as int;
    let by_path = in_turn(OrderRule::Path, tasks, n);
    lemma_in_turn(OrderRule::Path, tasks, n);
    assert(tasks.take(n) =~= tasks);
    lemma_in_turn(OrderRule::Place, by_path, by_path.len() as int);
    assert(by_path.take(by_path.len() as int) =~= by_path);
    lemma_places_together(in_turn(OrderRule::Place, by_path, by_path.len() as int));
}

/// The same tasks are there, in whichever order.
pub proof fn lemma_same_tasks(tasks: Seq<TaskView>, t: TaskView)
    ensures
        drive_order(tasks).contains(t) <==> tasks.contains(t),
{
    broadcast use vstd::seq_lib::group_to_multiset_ensures;

    tasks_come_in_order(tasks);
    let a = drive_order(tasks);
    assert(a.contains(t) <==> a.to_multiset().count(t) > 0);
    assert(tasks.contains(t) <==> tasks.to_multiset().count(t) > 0);
}

/// Each directory stands in the one before it, and the first one in the root.
#[verifier::opaque]
pub open spec fn is_chain(dirs: Seq<Seq<char>>) -> bool {
    forall|k: int|
        #![trigger dirs[k]]
        0 <= k < dirs.len() ==> dirs[k].len() > 0 && (k > 0 <==> dirs[k].contains('/'))
            && parent_of(dirs[k]) == (if k == 0 {
            Seq::empty()
        } else {
            dirs[k - 1]
        })
}

pub(crate) proof fn lemma_rfind_at(s: Seq<char>, i: int, j: int)
    requires
        0 <= j < i <= s.len(),
        s[j] == '/',
        forall|k: int| j < k < i ==> s[k] != '/',
    ensures
        rfind(s, '/', i) == j,
    decreases i,
{
    if i - 1 > j {
        lemma_rfind_at(s, i - 1, j);
    }
}

pub(crate) proof fn lemma_rfind_none(s: Seq<char>, i: int)
    requires
        0 <= i <= s.len(),
        !s.contains('/'),
    ensures
        rfind(s, '/', i) == -1,
    decreases i,
{
    if i > 0 {
        assert(s.contains(s[i - 1]));
        lemma_rfind_none(s, i - 1);
    }
}

/// The last place of a character is where it stands with none behind it.
pub(crate) proof fn lemma_rfind_at_char(s: Seq<char>, c: char, i: int, j: int)
    requires
        0 <= j < i <= s.len(),
        s[j] == c,
        forall|k: int| j < k < i ==> s[k] != c,
    ensures
        rfind(s, c, i) == j,
    decreases i,
{
    if i - 1 > j {
        lemma_rfind_at_char(s, c, i - 1, j);
    }
}

/// There is no last place of a character that stands nowhere.
pub(crate) proof fn lemma_rfind_no_char(s: Seq<char>, c: char, i: int)
    requires
        0 <= i <= s.len(),
        forall|k: int| 0 <= k < i ==> s[k] != c,
    ensures
        rfind(s, c, i) == -1,
    decreases i,
{
    if i > 0 {
        lemma_rfind_no_char(s, c, i - 1);
    }
}

proof fn lemma_find_clear(s: Seq<char>, i: int)
    requires
        0 <= i <= s.len(),
    ensures
        i <= find(s, '/', i) <= s.len(),
        forall|k: int| i <= k < find(s, '/', i) ==> s[k] != '/',
    decreases s.len() - i,
{
    if i < s.len() && s[i] != '/' {
        lemma_find_clear(s, i + 1);
    }
}

proof fn lemma_prefixes_from_chain(
    dir: Seq<char>,
    i: int,
    current: Seq<char>,
    before: Seq<Seq<char>>,
)
    requires
        0 <= i <= dir.len(),
        is_chain(before),
        before.len() == 0 <==> current.len() == 0,
        before.len() > 0 ==> current == before.last(),
    ensures
        is_chain(prefixes_from(dir, i, current, before)),
    decreases dir.len() - i,
{
    reveal(is_chain);
    let k = find(dir, '/', i);
    lemma_find_clear(dir, i);
    let last = i < 0 || k < i || k >= dir.len();
    let part = if last {
        dir.skip(i)
    } else {
        dir.subrange(i, k)
    };
    let next = under(current, part);
    let now = if part.len() == 0 {
        before
    } else {
        before.push(next)
    };
    if part.len() > 0 {
        reveal_strlit("/");
        assert(!part.contains('/')) by {
            if part.contains('/') {
                let m = choose|m: int| 0 <= m < part.len() && part[m] == '/';
                assert(dir[i + m] == '/');
            }
        }
        if current.len() == 0 {
            lemma_rfind_none(part, part.len() as int);
        } else {
            assert(next[current.len() as int] == '/');
            assert forall|m: int| current.len() < m < next.len() implies next[m] != '/' by {
                assert(next[m] == part[m - current.len() - 1]);
                assert(part.contains(part[m - current.len() - 1]));
            }
            lemma_rfind_at(next, next.len() as int, current.len() as int);
            assert(next.take(current.len() as int) =~= current);
            assert(next.contains('/'));
        }
        assert forall|m: int|
            #![trigger now[m]]
            0 <= m < now.len() implies now[m].len() > 0 && (m > 0 <==> now[m].contains('/'))
            && parent_of(now[m]) == (if m == 0 {
            Seq::empty()
        } else {
            now[m - 1]
        }) by {
            if m < before.len() {
                assert(now[m] == before[m]);
                if m > 0 {
                    assert(now[m - 1] == before[m - 1]);
                }
            } else if m > 0 {
                assert(now[m - 1] == current);
            }
        }
    }
    if !last {
        lemma_prefixes_from_chain(
            dir,
            k + 1,
            if part.len() == 0 {
                current
            } else {
                next
            },
            now,
        );
    }
}

/// The directories on the way down to one stand one in the other.
pub proof fn lemma_prefixes_chain(dir: Seq<char>)
    ensures
        is_chain(prefixes(dir)),
{
    reveal(is_chain);
    if trim(dir).len() > 0 {
        lemma_prefixes_from_chain(dir, 0, Seq::empty(), Seq::empty());
    }
}

/// No directory of a chain is the root.
pub proof fn lemma_chain_dir(dirs: Seq<Seq<char>>, k: int)
    requires
        is_chain(dirs),
        0 <= k < dirs.len(),
    ensures
        dirs[k].len() > 0,
{
    reveal(is_chain);
}

/// One directory is reached in one way only.
pub proof fn lemma_one_way(a: Seq<Seq<char>>, i: int, b: Seq<Seq<char>>, j: int)
    requires
        is_chain(a),
        is_chain(b),
        0 <= i < a.len(),
        0 <= j < b.len(),
        a[i] == b[j],
    ensures
        i == j,
        a.take(i + 1) == b.take(j + 1),
    decreases i,
{
    reveal(is_chain);
    if i > 0 && j > 0 {
        assert(a[i - 1] == parent_of(a[i]));
        lemma_one_way(a, i - 1, b, j - 1);
    }
    assert forall|k: int| 0 <= k < i + 1 && i == j implies a[k] == b[k] by {
        if k < i {
            assert(a.take(i)[k] == b.take(j)[k]);
        }
    }
    assert(a.take(i + 1) =~= b.take(j + 1));
}

/// What lies between two texts that begin alike begins so too.
proof fn lemma_between(a: Seq<char>, b: Seq<char>, c: Seq<char>, m: int)
    requires
        !text_lt(b, a),
        !text_lt(c, b),
        0 <= m <= a.len(),
        m <= c.len(),
        a.take(m) == c.take(m),
    ensures
        m <= b.len(),
        b.take(m) == a.take(m),
    decreases m,
{
    if m > 0 {
        assert(a.take(m)[0] == a[0] && c.take(m)[0] == c[0]);
        assert(b[0] == a[0]);
        let x = a.drop_first();
        let y = b.drop_first();
        let z = c.drop_first();
        assert(x.take(m - 1) =~= a.take(m).drop_first());
        assert(z.take(m - 1) =~= c.take(m).drop_first());
        lemma_between(x, y, z, m - 1);
        assert(b.take(m) =~= a.take(m)) by {
            assert forall|k: int| 0 <= k < m implies b[k] == a[k] by {
                if k > 0 {
                    assert(y.take(m - 1)[k - 1] == x.take(m - 1)[k - 1]);
                }
            }
        }
    } else {
        assert(b.take(0) =~= a.take(0));
    }
}

/// Behind the last slash there is none.
proof fn lemma_rfind_last(s: Seq<char>, i: int)
    requires
        0 <= i <= s.len(),
    ensures
        -1 <= rfind(s, '/', i) < i,
        rfind(s, '/', i) >= 0 ==> s[rfind(s, '/', i)] == '/',
        forall|k: int| rfind(s, '/', i) < k < i ==> s[k] != '/',
    decreases i,
{
    if i > 0 && s[i - 1] != '/' {
        lemma_rfind_last(s, i - 1);
    }
}

/// A directory of a chain stands at the beginning of what is inside the chain.
proof fn lemma_inside(dirs: Seq<Seq<char>>, k: int)
    requires
        is_chain(dirs),
        0 <= k < dirs.len(),
    ensures
        has_prefix(inside_of(dirs), dirs[k] + "/"@),
    decreases dirs.len() - k,
{
    reveal(is_chain);
    reveal_strlit("/");
    let top = dirs.last();
    if k == dirs.len() - 1 {
        assert(inside_of(dirs).take(dirs[k].len() + 1int) =~= dirs[k] + "/"@);
    } else {
        let above = dirs.drop_last();
        assert(is_chain(above)) by {
            assert forall|m: int|
                #![trigger above[m]]
                0 <= m < above.len() implies above[m].len() > 0 && (m > 0 <==> above[m].contains(
                '/',
            )) && parent_of(above[m]) == (if m == 0 {
                Seq::empty()
            } else {
                above[m - 1]
            }) by {
                assert(above[m] == dirs[m]);
                if m > 0 {
                    assert(above[m - 1] == dirs[m - 1]);
                }
            }
        }
        lemma_inside(above, k);
        let i = rfind(top, '/', top.len() as int);
        lemma_rfind_last(top, top.len() as int);
        assert(parent_of(dirs[dirs.len() - 1]) == dirs[dirs.len() - 2]);
        assert(above.last() == dirs[dirs.len() - 2]);
        assert(above.last().len() > 0);
        let n = (dirs[k] + "/"@).len() as int;
        assert(inside_of(above) =~= top.take(i + 1));
        assert(inside_of(dirs).take(n) =~= inside_of(above).take(n));
        assert(above[k] == dirs[k]);
    }
}

/// What ends at a slash inside a chain is one of its directories.
proof fn lemma_inside_is_dir(dirs: Seq<Seq<char>>, d: Seq<char>)
    requires
        is_chain(dirs),
        d.len() < inside_of(dirs).len(),
        d.len() > 0,
        inside_of(dirs).take(d.len() as int) == d,
        inside_of(dirs)[d.len() as int] == '/',
    ensures
        dirs.contains(d),
    decreases dirs.len(),
{
    reveal(is_chain);
    reveal_strlit("/");
    if dirs.len() > 0 {
        let top = dirs.last();
        if d.len() == top.len() {
            assert(d =~= top);
            assert(dirs[dirs.len() - 1] == d);
        } else {
            assert(top[d.len() as int] == '/');
            assert(top.contains(top[d.len() as int]));
            assert(dirs[dirs.len() - 1].contains('/'));
            let above = dirs.drop_last();
            assert(is_chain(above)) by {
                assert forall|m: int|
                    #![trigger above[m]]
                    0 <= m < above.len() implies above[m].len() > 0 && (m > 0
                    <==> above[m].contains('/')) && parent_of(above[m]) == (if m == 0 {
                    Seq::empty()
                } else {
                    above[m - 1]
                }) by {
                    assert(above[m] == dirs[m]);
                    if m > 0 {
                        assert(above[m - 1] == dirs[m - 1]);
                    }
                }
            }
            let i = rfind(top, '/', top.len() as int);
            lemma_rfind_last(top, top.len() as int);
            assert(parent_of(dirs[dirs.len() - 1]) == dirs[dirs.len() - 2]);
            assert(above.last() == dirs[dirs.len() - 2]);
            assert(above.last().len() > 0);
            assert(inside_of(above) =~= top.take(i + 1));
            assert(d.len() <= i);
            assert(inside_of(above).take(d.len() as int) =~= d) by {
                assert forall|k: int| 0 <= k < d.len() implies inside_of(above)[k] == d[k] by {
                    assert(inside_of(dirs).take(d.len() as int)[k] == d[k]);
                }
            }
            lemma_inside_is_dir(above, d);
            let k = choose|k: int| 0 <= k < above.len() && above[k] == d;
            assert(dirs[k] == d);
        }
    }
}

/// The directories that a task enters stand one in the other.
pub proof fn lemma_task_chain(t: TaskView)
    ensures
        is_chain(t.dirs()),
{
    match t {
        TaskView::Dir { path, .. } => lemma_prefixes_chain(path),
        TaskView::File { path, .. } => lemma_prefixes_chain(parent_of(path)),
        TaskView::Delete { path } => lemma_prefixes_chain(parent_of(path)),
    }
}

/// A task enters a directory exactly if its place lies in it.
proof fn lemma_enters(t: TaskView, d: Seq<char>)
    requires
        d.len() > 0,
    ensures
        t.dirs().contains(d) <==> has_prefix(t.place(), d + "/"@),
{
    lemma_task_chain(t);
    reveal_strlit("/");
    let dirs = t.dirs();
    let base = inside_of(dirs);
    let n = (d + "/"@).len() as int;
    if dirs.contains(d) {
        let k = choose|k: int| 0 <= k < dirs.len() && dirs[k] == d;
        lemma_inside(dirs, k);
        assert(t.place().take(n) =~= base.take(n));
    }
    if has_prefix(t.place(), d + "/"@) {
        let path = t.path();
        lemma_rfind_last(path, path.len() as int);
        assert(t.place().take(n)[d.len() as int] == '/');
        assert(t.place()[d.len() as int] == '/');
        if d.len() >= base.len() {
            let i = rfind(path, '/', path.len() as int);
            assert(t !is Dir);
            assert(t.place()[d.len() as int] == path[i + 1 + d.len() - base.len()]);
        }
        assert(base.take(d.len() as int) =~= d) by {
            assert forall|k: int| 0 <= k < d.len() implies base[k] == d[k] by {
                assert(t.place().take(n)[k] == (d + "/"@)[k]);
            }
        }
        lemma_inside_is_dir(dirs, d);
    }
}

/// Tasks in the order of their places need not enter a directory twice.
proof fn lemma_places_together(tasks: Seq<TaskView>)
    requires
        ascends(OrderRule::Place, tasks),
    ensures
        together(tasks),
{
    assert forall|i: int, j: int, d: Seq<char>|
        #![trigger tasks[i].dirs().contains(d), tasks[j].dirs().contains(d)]
        0 <= i < j < tasks.len() && tasks[i].dirs().contains(d) && tasks[j].dirs().contains(
            d,
        ) implies tasks[j - 1].dirs().contains(d) by {
        if i < j - 1 {
            let dirs = tasks[i].dirs();
            let k = choose|k: int| 0 <= k < dirs.len() && dirs[k] == d;
            lemma_task_chain(tasks[i]);
            lemma_chain_dir(dirs, k);
            lemma_enters(tasks[i], d);
            lemma_enters(tasks[j], d);
            lemma_enters(tasks[j - 1], d);
            assert(!task_lt(OrderRule::Place, tasks[j - 1], tasks[i]));
            assert(!task_lt(OrderRule::Place, tasks[j], tasks[j - 1]));
            lemma_between(
                tasks[i].place(),
                tasks[j - 1].place(),
                tasks[j].place(),
                (d + "/"@).len() as int,
            );
        }
    }
}

/// A path whose place is the path itself: no part of it is empty, and the directory that
/// it stands in is not blank.
pub open spec fn is_plain(path: Seq<char>) -> bool {
    &&& path.len() > 0
    &&& path[0] != '/'
    &&& forall|i: int| 0 <= i < path.len() - 1 && path[i] == '/' ==> #[trigger] path[i + 1] != '/'
    &&& parent_of(path).len() > 0 ==> trim(parent_of(path)).len() > 0
}

/// The way down to a directory without empty parts ends with the directory.
proof fn lemma_way_ends(dir: Seq<char>, i: int, current: Seq<char>, before: Seq<Seq<char>>)
    requires
        0 <= i < dir.len(),
        dir[i] != '/',
        dir.last() != '/',
        forall|k: int| 0 <= k < dir.len() - 1 && dir[k] == '/' ==> #[trigger] dir[k + 1] != '/',
        i == 0 ==> current.len() == 0,
        i > 0 ==> current.len() > 0 && dir[i - 1] == '/' && current == dir.take(i - 1),
    ensures
        prefixes_from(dir, i, current, before).len() > 0,
        prefixes_from(dir, i, current, before).last() == dir,
    decreases dir.len() - i,
{
    reveal_strlit("/");
    let k = find(dir, '/', i);
    lemma_find_clear(dir, i);
    lemma_find_at(dir, i);
    if k >= dir.len() {
        let part = dir.skip(i);
        assert(under(current, part) =~= dir);
    } else {
        let part = dir.subrange(i, k);
        let next = under(current, part);
        assert(next =~= dir.take(k));
        assert(dir[k + 1] != '/');
        lemma_way_ends(dir, k + 1, next, before.push(next));
    }
}

proof fn lemma_find_at(s: Seq<char>, i: int)
    requires
        0 <= i <= s.len(),
    ensures
        find(s, '/', i) < s.len() ==> s[find(s, '/', i)] == '/',
    decreases s.len() - i,
{
    if i < s.len() && s[i] != '/' {
        lemma_find_at(s, i + 1);
    }
}

/// The place of an entry with a plain path is its path.
proof fn lemma_plain(t: TaskView)
    requires
        t !is Dir,
        is_plain(t.path()),
    ensures
        t.place() == t.path(),
{
    let path = t.path();
    let dir = parent_of(path);
    let i = rfind(path, '/', path.len() as int);
    lemma_rfind_last(path, path.len() as int);
    reveal_strlit("/");
    if i < 0 {
        assert(trim(dir).len() == 0);
        assert(t.place() =~= path);
    } else {
        assert(i > 0);
        assert(dir.len() == i);
        assert(dir[0] == path[0]);
        if dir.last() == '/' {
            assert(path[i - 1] == '/');
            assert(path[i - 1 + 1] != '/');
        }
        assert forall|k: int| 0 <= k < dir.len() - 1 && dir[k] == '/' implies #[trigger] dir[k + 1]
            != '/' by {
            assert(path[k] == '/');
            assert(path[k + 1] != '/');
        }
        lemma_way_ends(dir, 0, Seq::empty(), Seq::empty());
        assert(t.dirs().last() == dir);
        assert(t.place() =~= path);
    }
}

/// Files and deletions with plain paths are sent in the order of their paths: that order
/// enters no directory twice.
pub proof fn plain_entries_come_in_path_order(tasks: Seq<TaskView>)
    requires
        ascends(OrderRule::Path, tasks),
        forall|k: int|
            0 <= k < tasks.len() ==> (#[trigger] tasks[k]) !is Dir && is_plain(tasks[k].path()),
    ensures
        together(tasks),
{
    assert forall|i: int, j: int|
        #![trigger tasks[i], tasks[j]]
        0 <= i < j < tasks.len() implies !task_lt(OrderRule::Place, tasks[j], tasks[i]) by {
        lemma_plain(tasks[i]);
        lemma_plain(tasks[j]);
        assert(!task_lt(OrderRule::Path, tasks[j], tasks[i]));
    }
    lemma_places_together(tasks);
}

} // verus!
