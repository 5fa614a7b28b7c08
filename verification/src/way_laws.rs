//! The directories on the way to a path, and paths below a home.

use vstd::prelude::*;

use crate::commit_drive::{parent_of, prefixes, prefixes_from, under};
use crate::error::ErrorView;
use crate::export::{plain_char, plain_name, plain_token, tmp_path};
use crate::fs_guard::way_down;
use crate::fspath::joined_path;
use crate::ssh::{home_of, key_file_path, path_with_home, with_home, with_part, with_parts};
use crate::text::{decimal, find, has_prefix, is_digit, lemma_decimal, lemma_find, trim};

verus! {

/// A name of an entry: some text without a slash.
pub open spec fn is_name(s: Seq<char>) -> bool {
    s.len() > 0 && forall|k: int| 0 <= k < s.len() ==> #[trigger] s[k] != '/'
}

/// Names one below the other.
pub open spec fn below(names: Seq<Seq<char>>) -> Seq<char>
    decreases names.len(),
{
    if names.len() == 0 {
        Seq::empty()
    } else if names.len() == 1 {
        names[0]
    } else {
        below(names.drop_last()) + seq!['/'] + names.last()
    }
}

/// All of them are names.
pub open spec fn are_names(names: Seq<Seq<char>>) -> bool {
    forall|k: int| 0 <= k < names.len() ==> is_name(#[trigger] names[k])
}

/// The text of names from the `k`-th on, behind a text that ends with a slash or is empty.
spec fn tail(names: Seq<Seq<char>>, k: int) -> Seq<char>
    decreases names.len() - k,
{
    if k < 0 || k >= names.len() {
        Seq::empty()
    } else if k == names.len() - 1 {
        names[k]
    } else {
        names[k] + seq!['/'] + tail(names, k + 1)
    }
}

proof fn lemma_below_len(names: Seq<Seq<char>>)
    requires
        are_names(names),
        names.len() > 0,
    ensures
        below(names).len() > 0,
    decreases names.len(),
{
    assert(is_name(names[0]));
    if names.len() > 1 {
        assert(is_name(names[names.len() - 1]));
    }
}

/// A path of names is the text of the first ones, then that of the others.
proof fn lemma_cut(names: Seq<Seq<char>>, k: int)
    requires
        are_names(names),
        0 < k < names.len(),
    ensures
        below(names) == below(names.take(k)) + seq!['/'] + tail(names, k),
    decreases names.len() - k,
{
    if k == names.len() - 1 {
        assert(names.take(k) =~= names.drop_last());
    } else {
        lemma_cut(names, k + 1);
        let a = names.take(k + 1);
        assert(a.drop_last() =~= names.take(k));
        assert(a.last() == names[k]);
        assert(below(a) == below(names.take(k)) + seq!['/'] + names[k]);
        assert(below(a) + seq!['/'] + tail(names, k + 1) =~= below(names.take(k)) + seq!['/'] + (
        names[k] + seq!['/'] + tail(names, k + 1)));
    }
}

proof fn lemma_way(
    names: Seq<Seq<char>>,
    k: int,
    dir: Seq<char>,
    i: int,
    before: Seq<Seq<char>>,
)
    requires
        are_names(names),
        0 <= k < names.len(),
        dir == below(names),
        i == (if k == 0 {
            0
        } else {
            below(names.take(k)).len() + 1
        }),
    ensures
        prefixes_from(dir, i, below(names.take(k)), before) == before + Seq::new(
            (names.len() - k) as nat,
            |j: int| below(names.take(k + j + 1)),
        ),
    decreases names.len() - k,
{
    reveal_strlit("/");
    let current = below(names.take(k));
    assert(names.take(0).len() == 0);
    assert(names.take(names.len() as int) =~= names);
    if k > 0 {
        lemma_cut(names, k);
    }
    let n = names[k].len() as int;
    assert(is_name(names[k]));
    let a = names.take(k + 1);
    assert(a.drop_last() =~= names.take(k));
    assert(a.last() == names[k]);
    if k > 0 {
        assert(names.take(k).len() > 0);
        assert forall|j: int| 0 <= j < names.take(k).len() implies is_name(
            #[trigger] names.take(k)[j],
        ) by {
            assert(names.take(k)[j] == names[j]);
        }
        lemma_below_len(names.take(k));
        assert("/"@ =~= seq!['/']);
    }
    assert(under(current, names[k]) =~= below(a)) by {
        if k == 0 {
            assert(a =~= seq![names[0]]);
        }
    }
    if k < names.len() - 1 {
        lemma_cut(names, k + 1);
    }
    // The part that stands at the index is the name.
    lemma_find(dir, '/', i);
    let m = find(dir, '/', i);
    let text = tail(names, k);
    assert(dir.skip(i) =~= text) by {
        if k == 0 {
            assert(dir.skip(0) =~= dir);
            if names.len() > 1 {
                assert(a =~= seq![names[0]]);
                assert(below(a) == names[0]);
            } else {
                assert(names =~= seq![names[0]]);
            }
        }
    }
    assert forall|j: int| i <= j < i + n implies dir[j] != '/' by {
        assert(dir[j] == dir.skip(i)[j - i]);
        assert(text[j - i] == names[k][j - i]);
    }
    if k == names.len() - 1 {
        assert(text == names[k]);
        assert(m >= dir.len());
        let all = Seq::new(1, |j: int| below(names.take(k + j + 1)));
        assert(before.push(below(a)) =~= before + all);
    } else {
        assert(dir[i + n] == '/') by {
            assert(dir[i + n] == dir.skip(i)[n]);
        }
        assert(m == i + n);
        assert(dir.subrange(i, m) =~= names[k]) by {
            assert forall|j: int| 0 <= j < n implies dir.subrange(i, m)[j] == names[k][j] by {
                assert(dir.subrange(i, m)[j] == dir.skip(i)[j]);
            }
        }
        assert(m + 1 == below(a).len() + 1);
        lemma_way(names, k + 1, dir, m + 1, before.push(below(a)));
        let rest = Seq::new(
            (names.len() - k - 1) as nat,
            |j: int| below(names.take(k + 1 + j + 1)),
        );
        let all = Seq::new((names.len() - k) as nat, |j: int| below(names.take(k + j + 1)));
        assert(before.push(below(a)) + rest =~= before + all) by {
            assert forall|j: int| 0 <= j < all.len() implies #[trigger] (before.push(below(a))
                + rest)[before.len() + j] == all[j] by {
                if j > 0 {
                    assert(rest[j - 1] == below(names.take(k + 1 + (j - 1) + 1)));
                    assert(k + 1 + (j - 1) + 1 == k + j + 1);
                }
            }
        }
    }
}

/// The way to a directory leads through every directory above it, from the outermost one
/// down to the directory itself.
pub proof fn the_way_leads_through_every_directory(names: Seq<Seq<char>>)
    requires
        are_names(names),
        names.len() > 0,
        trim(below(names)).len() > 0,
    ensures
        prefixes(below(names)).len() == names.len(),
        forall|k: int|
            0 <= k < names.len() ==> #[trigger] prefixes(below(names))[k] == below(
                names.take(k + 1),
            ),
{
    lemma_way(names, 0, below(names), 0, Seq::empty());
    assert(names.take(0) =~= Seq::empty());
    let all = Seq::new(names.len(), |j: int| below(names.take(0 + j + 1)));
    assert(Seq::<Seq<char>>::empty() + all =~= all);
}

/// An entry stands in the directory before its name, and one without a slash in the root.
pub proof fn an_entry_stands_in_its_directory(dir: Seq<char>, name: Seq<char>)
    requires
        is_name(name),
    ensures
        parent_of(dir + seq!['/'] + name) == dir,
        parent_of(name) == Seq::<char>::empty(),
{
    let p = dir + seq!['/'] + name;
    let n = dir.len() as int;
    assert(p[n] == '/');
    assert forall|k: int| n < k < p.len() implies p[k] != '/' by {
        assert(p[k] == name[k - n - 1]);
    }
    crate::task_order::lemma_rfind_at_char(p, '/', p.len() as int, n);
    assert(p.take(n) =~= dir);
    crate::task_order::lemma_rfind_no_char(name, '/', name.len() as int);
}

/// A path of names below a home is that path behind a tilde.
pub proof fn a_tilde_stands_for_the_home(home: Seq<char>, names: Seq<Seq<char>>)
    requires
        home.len() > 0,
        home.last() != '/',
        names.len() > 0,
        are_names(names),
        forall|k: int| 0 <= k < names.len() ==> #[trigger] names[k] != seq!['.'],
    ensures
        with_home("~/"@ + below(names), Some(home)) == home + seq!['/'] + below(names),
        path_with_home("~/"@ + below(names), Some(home)) == home + seq!['/'] + below(names),
        home[0] == '/' ==> key_file_path("~/"@ + below(names), Some(home)) == home + seq!['/']
            + below(names),
        with_home("~/"@ + below(names), None) == "~/"@ + below(names),
        with_home("~"@, Some(home)) == home,
{
    reveal_strlit("~/");
    reveal_strlit("~");
    reveal_strlit("~\\");
    reveal_strlit("/");
    let rest = below(names);
    let s = "~/"@ + rest;
    lemma_first(names);
    assert(s.take(2) =~= "~/"@);
    assert(s.skip(2) =~= rest);
    assert(s.len() > 1 && "~"@.len() == 1);
    assert("/"@ =~= seq!['/']);
    assert(s[0] == '~' && s[1] == '/');
    lemma_find(s, '/', 0);
    assert(find(s, '/', 0) == 1);
    assert(s.take(1) =~= "~"@);
    // The empty part before the slash adds nothing.
    lemma_find(s, '/', 1);
    assert(find(s, '/', 1) == 1);
    assert(s.subrange(1, 1).len() == 0);
    assert(with_parts(home, s, 1) == with_parts(home, s, 2));
    lemma_tail(names);
    lemma_parts(home, names, 0, s, 2);
}

proof fn lemma_tail(names: Seq<Seq<char>>)
    requires
        are_names(names),
        names.len() > 0,
    ensures
        tail(names, 0) == below(names),
{
    if names.len() > 1 {
        lemma_cut(names, 1);
        assert(names.take(1) =~= seq![names[0]]);
    }
}

proof fn lemma_first(names: Seq<Seq<char>>)
    requires
        are_names(names),
        names.len() > 0,
    ensures
        below(names).len() > 0,
        below(names)[0] != '/',
{
    lemma_tail(names);
    assert(is_name(names[0]));
    assert(below(names)[0] == names[0][0]);
}

proof fn lemma_parts(dir: Seq<char>, names: Seq<Seq<char>>, k: int, s: Seq<char>, i: int)
    requires
        dir.len() > 0,
        dir.last() != '/',
        are_names(names),
        0 <= k < names.len(),
        forall|j: int| 0 <= j < names.len() ==> #[trigger] names[j] != seq!['.'],
        0 <= i <= s.len(),
        s.skip(i) == tail(names, k),
    ensures
        with_parts(dir, s, i) == dir + seq!['/'] + tail(names, k),
    decreases names.len() - k,
{
    reveal_strlit("/");
    reveal_strlit(".");
    assert("/"@ =~= seq!['/'] && "."@ =~= seq!['.']);
    let name = names[k];
    let n = name.len() as int;
    assert(is_name(name));
    let text = tail(names, k);
    assert(text.len() >= n);
    assert(s.skip(i).len() == s.len() - i);
    assert forall|j: int| 0 <= j < text.len() implies s[i + j] == text[j] by {
        assert(s.skip(i)[j] == s[i + j]);
    }
    assert forall|j: int| i <= j < i + n implies s[j] != '/' by {
        assert(s[i + (j - i)] == text[j - i]);
        assert(text[j - i] == name[j - i]);
    }
    lemma_find(s, '/', i);
    let m = find(s, '/', i);
    assert(name[0] != '/');
    assert(with_part(dir, name) == dir + seq!['/'] + name);
    if k < names.len() - 1 {
        assert(text[n] == '/');
        assert(s[i + n] == '/');
        assert(m == i + n);
        assert(s.subrange(i, m) =~= name);
        let next = dir + seq!['/'] + name;
        assert(next.last() == name.last());
        assert(name[n - 1] != '/');
        assert(s.skip(m + 1) =~= tail(names, k + 1)) by {
            let more = tail(names, k + 1);
            let left = s.skip(m + 1);
            assert forall|j: int| 0 <= j < more.len() implies left[j] == #[trigger] more[j] by {
                assert(s[i + (n + 1 + j)] == text[n + 1 + j]);
            }
        }
        lemma_parts(next, names, k + 1, s, m + 1);
        assert(next + seq!['/'] + tail(names, k + 1) =~= dir + seq!['/'] + text);
    } else {
        assert(m >= s.len());
        assert(s.skip(i) =~= name);
    }
}

/// A key file that is named without a root stands below the home, and any other where it
/// says.
pub proof fn key_files_stand_below_the_home(home: Seq<char>, path: Seq<char>)
    requires
        home.len() > 0,
        home.last() != '/',
        path.len() > 0,
        path[0] != '~',
    ensures
        path[0] == '/' ==> key_file_path(path, Some(home)) == path,
        path[0] != '/' ==> key_file_path(path, Some(home)) == home + seq!['/'] + path,
        key_file_path(path, None) == path,
        with_home(path, Some(home)) == path,
{
    reveal_strlit("~");
    reveal_strlit("~/");
    reveal_strlit("~\\");
    reveal_strlit("/");
    assert("/"@ =~= seq!['/']);
    lemma_find(path, '/', 0);
    let k = find(path, '/', 0);
    if path.take(k) == "~"@ {
        assert(k == 1) by {
            assert(path.take(k).len() == 1);
        }
        assert(path.take(k)[0] == path[0]);
    }
    if path == "~"@ {
        assert(path[0] == '~');
    }
    if has_prefix(path, "~/"@) {
        assert(path.take(2)[0] == path[0]);
    }
    if has_prefix(path, "~\\"@) {
        assert(path.take(2)[0] == path[0]);
    }
}

/// The home is the first of these that is set: the home, the profile, and the drive with its
/// path. What is empty is not set.
pub proof fn the_home_is_the_first_that_is_set(
    home: Option<Seq<char>>,
    profile: Option<Seq<char>>,
    drive: Option<Seq<char>>,
    path: Option<Seq<char>>,
)
    ensures
        home is Some && home->0.len() > 0 ==> home_of(home, profile, drive, path) == home,
        (home is None || home->0.len() == 0) && profile is Some && profile->0.len() > 0
            ==> home_of(home, profile, drive, path) == profile,
        home is None && profile is None && drive is Some && path is Some && drive->0.len() > 0
            && path->0.len() > 0 ==> home_of(home, profile, drive, path) == Some(
            joined_path(drive->0, path->0),
        ),
        home is None && profile is None && drive is None ==> home_of(home, profile, drive, path)
            is None,
{
}

/// A path that starts at the root is taken as it stands; any other stands below the
/// directory.
pub proof fn a_path_is_joined_below_its_directory(dir: Seq<char>, path: Seq<char>)
    requires
        path.len() > 0,
    ensures
        path[0] == '/' ==> joined_path(dir, path) == path,
        path[0] != '/' && dir.len() > 0 && dir.last() != '/' ==> joined_path(dir, path) == dir
            + seq!['/'] + path,
        path[0] != '/' && dir.len() > 0 && dir.last() == '/' ==> joined_path(dir, path) == dir
            + path,
        path[0] != '/' && dir.len() == 0 ==> joined_path(dir, path) == path,
{
    reveal_strlit("/");
    assert("/"@ =~= seq!['/']);
    if dir.len() == 0 {
        assert(dir + path =~= path);
    }
}

/// The way down to a path below a root leads through every directory between them, from the
/// outermost one down to the path itself; there is none to a path elsewhere.
pub proof fn the_way_down_leads_through_every_directory(
    root: Seq<char>,
    names: Seq<Seq<char>>,
    other: Seq<char>,
)
    requires
        root.len() > 0,
        root.last() != '/',
        names.len() > 0,
        are_names(names),
    ensures
        way_down(root, root + seq!['/'] + below(names)) matches Ok(way) && way.len() == names.len()
            && forall|k: int|
            0 <= k < names.len() ==> #[trigger] way[k] == root + seq!['/'] + below(
                names.take(k + 1),
            ),
        way_down(root, root) == Ok::<Seq<Seq<char>>, ErrorView>(Seq::empty()),
        other != root && !(other.len() > root.len() && other.take(root.len() as int) == root
            && other[root.len() as int] == '/') ==> (way_down(root, other) matches Err(e) && e
            is InvalidPath),
{
    reveal_strlit("/");
    assert("/"@ =~= seq!['/']);
    let dir = joined_path(root, Seq::empty());
    assert(dir =~= root + seq!['/']);
    let path = root + seq!['/'] + below(names);
    assert(path.take(dir.len() as int) =~= dir);
    assert(path.skip(dir.len() as int) =~= below(names));
    lemma_way(names, 0, below(names), 0, Seq::empty());
    assert(names.take(0) =~= Seq::empty());
    let all = Seq::new(names.len(), |j: int| below(names.take(0 + j + 1)));
    assert(Seq::<Seq<char>>::empty() + all =~= all);
    let way = way_down(root, path)->Ok_0;
    assert forall|k: int| 0 <= k < names.len() implies #[trigger] way[k] == root + seq!['/']
        + below(names.take(k + 1)) by {
        let first = names.take(k + 1);
        assert forall|j: int| 0 <= j < first.len() implies is_name(#[trigger] first[j]) by {
            assert(first[j] == names[j]);
        }
        lemma_first(first);
        assert(all[k] == below(first));
        assert(way[k] == joined_path(root, all[k]));
    }
    if has_prefix(other, dir) {
        let n = root.len() as int;
        assert(other.take(dir.len() as int)[n] == dir[n]);
        assert(other.take(n) =~= root) by {
            assert forall|k: int| 0 <= k < n implies other.take(n)[k] == #[trigger] root[k] by {
                assert(other.take(dir.len() as int)[k] == dir[k]);
            }
        }
    }
}

/// A temporary file stands beside the file that it is for, under a name of its own kind.
pub proof fn a_temporary_file_stands_beside_its_file(
    dir: Seq<char>,
    name: Seq<char>,
    token: Seq<char>,
    id: u64,
)
    requires
        dir.len() > 0,
        dir.last() != '/',
        is_name(name),
    ensures
        exists|m: Seq<char>|
            tmp_path(dir + seq!['/'] + name, token, id) == dir + seq!['/'] + #[trigger] (
            ".svn-rs."@ + m + ".tmp"@) && forall|k: int| 0 <= k < m.len() ==> m[k] != '/',
{
    reveal_strlit("/");
    reveal_strlit(".");
    reveal_strlit("file");
    reveal_strlit(".svn-rs.");
    assert("/"@ =~= seq!['/'] && "."@ =~= seq!['.']);
    let dest = dir + seq!['/'] + name;
    let i = dir.len() as int;
    assert(dest[i] == '/');
    assert forall|k: int| i < k < dest.len() implies dest[k] != '/' by {
        assert(dest[k] == name[k - i - 1]);
    }
    crate::task_order::lemma_rfind_at_char(dest, '/', dest.len() as int, i);
    assert(dest.take(i) =~= dir);
    assert(dest.skip(i + 1) =~= name);
    let p = plain_name(name);
    let n = if p.len() == 0 {
        "file"@
    } else {
        p
    };
    let t = plain_token(token);
    let d = decimal(id as nat);
    let m = n + "."@ + t + "."@ + d;
    let whole = ".svn-rs."@ + n + "."@ + t + "."@ + d + ".tmp"@;
    assert(whole =~= ".svn-rs."@ + m + ".tmp"@);
    assert(whole[0] == '.');
    assert(tmp_path(dest, token, id) == joined_path(dir, whole));
    lemma_decimal(id as nat);
    assert forall|k: int| 0 <= k < n.len() implies n[k] != '/' by {
        if p.len() > 0 {
            let keep = |c: char| plain_char(c) || c == '.' || c == '-' || c == '_';
            name.lemma_filter_pred(keep, k);
        } else {
            assert("file"@ =~= seq!['f', 'i', 'l', 'e']);
        }
    }
    assert forall|k: int| 0 <= k < m.len() implies m[k] != '/' by {
        let a = n.len();
        if k < a {
            assert(m[k] == n[k]);
        } else if k == a {
            assert(m[k] == '.');
        } else if k < a + 1 + t.len() {
            assert(m[k] == t[k - a - 1]);
        } else if k == a + 1 + t.len() {
            assert(m[k] == '.');
        } else {
            assert(m[k] == d[k - a - 1 - t.len() - 1]);
            assert(is_digit(d[k - a - 1 - t.len() - 1]));
        }
    }
}

} // verus!
