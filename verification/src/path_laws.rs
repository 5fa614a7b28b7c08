//! What becomes of a path that is given: it is taken as it stands, without what is around
//! it, or it is refused.

use vstd::prelude::*;

use crate::answer_laws::{bare, behind_slashes, lemma_slashes};
use crate::error::ErrorView;
use crate::export::{fs_path, safe_from, safe_part, safe_path, stripped};
use crate::path::{clean, has_parent_part, parent_part_at, rel_dir_path, rel_path};
use crate::text::{
    find, has_prefix, is_space, lemma_find, strip_leading, strip_trailing, trim, trim_end,
    trim_start,
};

verus! {

/// The text is white space only.
pub open spec fn blank(s: Seq<char>) -> bool {
    forall|k: int| 0 <= k < s.len() ==> is_space(#[trigger] s[k])
}

/// The text stands between white space and is none itself: it neither begins nor ends with
/// white space.
pub open spec fn tight(s: Seq<char>) -> bool {
    s.len() > 0 ==> !is_space(s[0]) && !is_space(s.last())
}

/// White space at the beginning is taken off.
pub(crate) proof fn lemma_trim_start(a: Seq<char>, s: Seq<char>)
    requires
        blank(a),
        s.len() > 0 ==> !is_space(s[0]),
    ensures
        trim_start(a + s) == s,
    decreases a.len(),
{
    let t = a + s;
    if a.len() > 0 {
        let rest = a.drop_first();
        assert forall|k: int| 0 <= k < rest.len() implies is_space(#[trigger] rest[k]) by {
            assert(rest[k] == a[k + 1]);
        }
        assert(is_space(a[0]));
        assert(t[0] == a[0]);
        assert(t.drop_first() =~= rest + s);
        lemma_trim_start(rest, s);
    } else {
        assert(t =~= s);
    }
}

proof fn lemma_trim_end(s: Seq<char>, b: Seq<char>)
    requires
        blank(b),
        s.len() > 0 ==> !is_space(s.last()),
    ensures
        trim_end(s + b) == s,
    decreases b.len(),
{
    let t = s + b;
    if b.len() > 0 {
        let rest = b.drop_last();
        assert forall|k: int| 0 <= k < rest.len() implies is_space(#[trigger] rest[k]) by {
            assert(rest[k] == b[k]);
        }
        assert(is_space(b[b.len() - 1]));
        assert(t.last() == b.last());
        assert(t.drop_last() =~= s + rest);
        lemma_trim_end(s, rest);
    } else {
        assert(t =~= s);
    }
}

/// White space around a text does not count.
pub proof fn lemma_trim(a: Seq<char>, s: Seq<char>, b: Seq<char>)
    requires
        blank(a),
        blank(b),
        tight(s),
    ensures
        trim(a + s + b) == s,
{
    if s.len() > 0 {
        assert(a + s + b =~= a + (s + b));
        lemma_trim_start(a, s + b);
        lemma_trim_end(s, b);
    } else {
        let c = a + b;
        assert(a + s + b =~= c);
        assert forall|k: int| 0 <= k < c.len() implies is_space(#[trigger] c[k]) by {
            if k < a.len() {
                assert(c[k] == a[k]);
            } else {
                assert(c[k] == b[k - a.len()]);
            }
        }
        assert(c + Seq::empty() =~= c);
        lemma_trim_start(c, Seq::empty());
        assert(s =~= Seq::empty());
    }
}

/// One of the parts of the path leads to the directory above.
pub open spec fn leads_up(s: Seq<char>) -> bool {
    exists|i: int|
        0 <= i && i + 2 <= s.len() && #[trigger] s[i] == '.' && s[i + 1] == '.' && (i == 0 || s[i
            - 1] == '/') && (i + 2 == s.len() || s[i + 2] == '/')
}

proof fn lemma_leads_up(s: Seq<char>)
    ensures
        leads_up(s) == has_parent_part(s),
{
    if leads_up(s) {
        let i = choose|i: int|
            0 <= i && i + 2 <= s.len() && #[trigger] s[i] == '.' && s[i + 1] == '.' && (i == 0
                || s[i - 1] == '/') && (i + 2 == s.len() || s[i + 2] == '/');
        assert(parent_part_at(s, i));
    }
    if has_parent_part(s) {
        let i = choose|i: int| parent_part_at(s, i);
        assert(s[i] == '.');
    }
}

/// A path is taken as it stands: white space around it and slashes in front of it do not
/// count. It is refused if a part of it leads up. The empty path names the root, which is a
/// directory and nothing else.
pub proof fn a_path_is_taken_as_it_stands(a: Seq<char>, n: nat, path: Seq<char>, b: Seq<char>)
    requires
        blank(a),
        blank(b),
        bare(path),
        path.len() > 0 ==> !is_space(path.last()),
        n == 0 && path.len() > 0 ==> !is_space(path[0]),
    ensures
        ({
            let given = a + behind_slashes(n, path) + b;
            &&& path.len() == 0 ==> rel_dir_path(given) == Ok::<Seq<char>, ErrorView>(path)
            &&& path.len() == 0 ==> (rel_path(given) matches Err(e) && e is InvalidPath)
            &&& path.len() > 0 && !leads_up(path) ==> rel_path(given) == Ok::<
                Seq<char>,
                ErrorView,
            >(path) && rel_dir_path(given) == Ok::<Seq<char>, ErrorView>(path)
            &&& leads_up(path) ==> (rel_path(given) matches Err(e) && e is InvalidPath) && (
            rel_dir_path(given) matches Err(e) && e is InvalidPath)
        }),
{
    let s = behind_slashes(n, path);
    if n > 0 {
        assert(s[0] == '/');
        assert(s.last() == (if path.len() > 0 {
            path.last()
        } else {
            '/'
        }));
    } else {
        assert(s =~= path);
    }
    lemma_trim(a, s, b);
    lemma_slashes(n, path);
    lemma_leads_up(path);
    assert(clean(a + s + b) == path);
    assert(path.len() == 0 ==> path =~= Seq::empty());
}

/// A path that can be exported: its parts have names, none of them is `.` or `..`, and no
/// character of it means anything to a file system.
pub open spec fn exportable(p: Seq<char>) -> bool {
    &&& p.len() > 0
    &&& forall|k: int| 0 <= k < p.len() ==> #[trigger] p[k] != '\\' && p[k] != ':'
    &&& forall|from: int, to: int| #[trigger] is_part(p, from, to) ==> !bad_part(p, from, to)
}

/// Between these indices stands a part of the path.
pub open spec fn is_part(p: Seq<char>, from: int, to: int) -> bool {
    &&& 0 <= from <= to <= p.len()
    &&& from == 0 || p[from - 1] == '/'
    &&& to == p.len() || p[to] == '/'
    &&& forall|k: int| from <= k < to ==> #[trigger] p[k] != '/'
}

/// A part that names nothing: it is empty, or `.`, or `..`.
pub open spec fn bad_part(p: Seq<char>, from: int, to: int) -> bool {
    ||| to == from
    ||| to == from + 1 && p[from] == '.'
    ||| to == from + 2 && p[from] == '.' && p[from + 1] == '.'
}

proof fn lemma_safe_part(p: Seq<char>, from: int, to: int)
    requires
        0 <= from <= to <= p.len(),
    ensures
        safe_part(p.subrange(from, to)) <==> !bad_part(p, from, to),
{
    let part = p.subrange(from, to);
    reveal_strlit(".");
    reveal_strlit("..");
    if to == from + 1 && p[from] == '.' {
        assert(part =~= "."@);
    }
    if to == from + 2 && p[from] == '.' && p[from + 1] == '.' {
        assert(part =~= ".."@);
    }
    if part == "."@ {
        assert(part.len() == 1 && part[0] == '.');
    }
    if part == ".."@ {
        assert(part.len() == 2 && part[0] == '.' && part[1] == '.');
    }
}

proof fn lemma_parts(p: Seq<char>, i: int)
    requires
        0 <= i <= p.len(),
        i == 0 || p[i - 1] == '/',
    ensures
        safe_from(p, i) <==> forall|from: int, to: int| #[trigger]
            is_part(p, from, to) && i <= from ==> !bad_part(p, from, to),
    decreases p.len() - i,
{
    let k = find(p, '/', i);
    lemma_find(p, '/', i);
    assert(is_part(p, i, k));
    lemma_safe_part(p, i, k);
    if k < p.len() {
        lemma_parts(p, k + 1);
        if safe_from(p, i) {
            assert forall|from: int, to: int| #[trigger]
                is_part(p, from, to) && i <= from implies !bad_part(p, from, to) by {
                if from == i {
                    if to < k {
                        assert(p[to] == '/');
                    } else if to > k {
                        assert(p[k] != '/');
                    }
                } else if from <= k {
                    assert(p[from - 1] != '/');
                }
            }
        }
    } else {
        assert(p.skip(i) =~= p.subrange(i, k));
        if safe_from(p, i) {
            assert forall|from: int, to: int| #[trigger]
                is_part(p, from, to) && i <= from implies !bad_part(p, from, to) by {
                if from > i {
                    assert(p[from - 1] != '/');
                } else if to < k {
                    assert(p[to] == '/');
                }
            }
        }
    }
}

proof fn lemma_exportable(p: Seq<char>)
    ensures
        p.len() > 0 ==> (safe_path(p) <==> exportable(p)),
        exportable(p) ==> bare(p) && p.last() != '/',
{
    lemma_parts(p, 0);
    if safe_path(p) && p.len() > 0 {
        assert forall|k: int| 0 <= k < p.len() implies #[trigger] p[k] != '\\' && p[k] != ':' by {
            assert(p.contains(p[k]));
        }
    }
    if exportable(p) {
        if p[0] == '/' {
            assert(is_part(p, 0, 0));
        }
        if p.last() == '/' {
            assert(is_part(p, p.len() as int, p.len() as int));
        }
        if p.contains('\\') {
            let k = choose|k: int| 0 <= k < p.len() && p[k] == '\\';
            assert(p[k] != '\\');
        }
        if p.contains(':') {
            let k = choose|k: int| 0 <= k < p.len() && p[k] == ':';
            assert(p[k] != ':');
        }
    }
}

/// Where a path stands below a directory.
pub open spec fn placed_in(root: Seq<char>, p: Seq<char>) -> Seq<char> {
    if p.len() == 0 {
        root
    } else if root.len() == 0 || root.last() == '/' {
        root + p
    } else {
        root + seq!['/'] + p
    }
}

/// A prefix as it counts: a path without white space around it, and without slashes at
/// either end.
pub open spec fn is_prefix(q: Seq<char>) -> bool {
    q.len() > 0 && tight(q) && q[0] != '/' && q.last() != '/'
}

/// What is exported of a path: without the prefix, where the path stands below it.
pub open spec fn exported_part(prefix: Option<Seq<char>>, path: Seq<char>, p: Seq<char>) -> bool {
    match prefix {
        None => p == path,
        Some(q) => {
            ||| p.len() == 0 && path == q
            ||| p.len() > 0 && path == q + seq!['/'] + p
            ||| p == path && path != q && !has_prefix(path, q + seq!['/'])
        },
    }
}

/// A path of the repository is exported to the place below the root that it has below the
/// prefix, if there is one, or else in the repository; it is refused exactly if a part of
/// it could not be a name.
pub proof fn a_path_is_exported_to_its_place(
    root: Seq<char>,
    prefix: Option<Seq<char>>,
    n: nat,
    path: Seq<char>,
    p: Seq<char>,
    allow_empty: bool,
)
    requires
        prefix matches Some(q) ==> is_prefix(q),
        bare(path),
        path.len() > 0 ==> !is_space(path.last()),
        n == 0 ==> tight(path),
        exported_part(prefix, path, p),
    ensures
        ({
            let r = fs_path(root, prefix, behind_slashes(n, path), allow_empty);
            &&& r is Ok <==> exportable(p) || p.len() == 0 && allow_empty
            &&& r matches Ok(place) ==> place == placed_in(root, p)
            &&& r matches Err(e) ==> e is InvalidPath
        }),
{
    let s = behind_slashes(n, path);
    if n > 0 {
        assert(s[0] == '/');
        assert(s.last() == (if path.len() > 0 {
            path.last()
        } else {
            '/'
        }));
    } else {
        assert(s =~= path);
    }
    assert(Seq::<char>::empty() + s + Seq::<char>::empty() =~= s);
    lemma_trim(Seq::empty(), s, Seq::empty());
    lemma_slashes(n, path);
    reveal_strlit("/");
    assert("/"@ =~= seq!['/']);
    if let Some(q) = prefix {
        assert(Seq::<char>::empty() + q + Seq::<char>::empty() =~= q);
        lemma_trim(Seq::empty(), q, Seq::empty());
        assert(strip_leading(q, '/') == q);
        assert(strip_trailing(q, '/') == q);
        let full = q + seq!['/'];
        assert(q + "/"@ =~= full);
        if p.len() > 0 && path == q + seq!['/'] + p {
            assert(path.take(full.len() as int) =~= full);
            assert(path.skip((q.len() + 1) as int) =~= p);
            assert(path != q);
        }
    }
    assert(stripped(prefix, s) =~= p);
    lemma_exportable(p);
}

} // verus!
