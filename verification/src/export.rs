//! Exporting: what an editor drive does to a directory of the file system.
//!
//! Each event of the drive is planned first: the plan lists what is to be done to files
//! and directories, and what then is known. The caller does it, and confirms.

use vstd::prelude::*;

use crate::error::{invalid_path, result_view, ErrorView, SvnError};
use crate::fspath::{join_path, joined_path};
use crate::path::{has_parent_part, parent_part_at};
use crate::text::{
    cat, cat3, chars_of, decimal, decimal_string, find, find_char, has_prefix, rfind, rfind_char,
    slice_text, starts_with, str_eq, strip_leading, strip_trailing, trim, trimmed, without_leading,
    without_trailing,
};

verus! {

/// A path of the repository without white space around it and leading slashes, and
/// without the prefix that is stripped.
pub open spec fn stripped(prefix: Option<Seq<char>>, path: Seq<char>) -> Seq<char> {
    let t = strip_leading(trim(path), '/');
    match prefix {
        None => t,
        Some(q) => {
            let p = strip_trailing(strip_leading(trim(q), '/'), '/');
            if p.len() == 0 {
                t
            } else if t == p {
                Seq::empty()
            } else if has_prefix(t, p + "/"@) {
                t.skip((p.len() + 1) as int)
            } else {
                t
            }
        },
    }
}

/// A part of a path that can name a file.
pub open spec fn safe_part(part: Seq<char>) -> bool {
    part.len() > 0 && part != "."@ && part != ".."@
}

/// The parts of a path from index `i` on can name files.
pub open spec fn safe_from(t: Seq<char>, i: int) -> bool
    decreases t.len() - i,
{
    let k = find(t, '/', i);
    if i < 0 || k < i || k >= t.len() {
        safe_part(t.skip(i))
    } else {
        safe_part(t.subrange(i, k)) && safe_from(t, k + 1)
    }
}

/// A path can name a file below the root on every system.
pub open spec fn safe_path(t: Seq<char>) -> bool {
    &&& !t.contains('\\')
    &&& !t.contains(':')
    &&& safe_from(t, 0)
}

/// The file that a path of the repository stands for.
pub open spec fn fs_path(
    root: Seq<char>,
    prefix: Option<Seq<char>>,
    path: Seq<char>,
    allow_empty: bool,
) -> Result<Seq<char>, ErrorView> {
    let t = stripped(prefix, path);
    if t.len() == 0 {
        if allow_empty {
            Ok(root)
        } else {
            Err(ErrorView::InvalidPath("empty path"@))
        }
    } else if !safe_path(t) {
        Err(ErrorView::InvalidPath("unsafe path"@))
    } else {
        Ok(joined_path(root, t))
    }
}

fn strip(prefix: &Option<String>, path: &str) -> (r: String)
    ensures
        r@ == stripped(prefix.deep_view(), path@),
{
    let t = without_leading(&trimmed(path), '/');
    match prefix {
        None => t,
        Some(q) => {
            let p = without_trailing(&without_leading(&trimmed(q), '/'), '/');
            if p.as_str().is_empty() {
                return t;
            }
            if str_eq(&t, &p) {
                let e = String::new();
                assert(e@ =~= Seq::<char>::empty());
                return e;
            }
            let full = cat(&p, "/");
            if starts_with(&t, &full) {
                proof {
                    reveal_strlit("/");
                }
                let cs = chars_of(&t);
                let n = cs.len();
                let m = chars_of(&full).len();
                assert(cs@.subrange(m as int, n as int) =~= t@.skip((p@.len() + 1) as int));
                return slice_text(&cs, m, n);
            }
            t
        },
    }
}

fn has_char(cs: &[char], c: char) -> (r: bool)
    ensures
        r == cs@.contains(c),
{
    let mut i: usize = 0;
    while i < cs.len()
        invariant
            i <= cs.len(),
            forall|k: int| 0 <= k < i ==> cs@[k] != c,
        decreases cs.len() - i,
    {
        if cs[i] == c {
            return true;
        }
        i = i + 1;
    }
    false
}

fn is_safe(t: &str) -> (r: bool)
    ensures
        r == safe_path(t@),
{
    let cs = chars_of(t);
    if has_char(&cs, '\\') || has_char(&cs, ':') {
        return false;
    }
    let n = cs.len();
    let mut i: usize = 0;
    let mut more = true;
    while more
        invariant
            n == cs@.len(),
            cs@ == t@,
            i <= n,
            !t@.contains('\\'),
            !t@.contains(':'),
            more ==> safe_from(t@, 0) == safe_from(t@, i as int),
            !more ==> safe_from(t@, 0),
        decreases (if more {
            n - i + 1
        } else {
            0
        }),
    {
        let k = find_char(&cs, '/', i);
        let part = slice_text(&cs, i, k);
        proof {
            if k >= n {
                assert(part@ =~= t@.skip(i as int));
            }
        }
        if part.as_str().is_empty() || str_eq(&part, ".") || str_eq(&part, "..") {
            return false;
        }
        if k < n {
            i = k + 1;
        } else {
            more = false;
        }
    }
    true
}

/// The file that a path of the repository stands for.
pub fn map_repo_path_to_fs(root: &str, prefix: &Option<String>, path: &str, allow_empty: bool) -> (r:
    Result<String, SvnError>)
    ensures
        result_view(r) == fs_path(root@, prefix.deep_view(), path@, allow_empty),
{
    let t = strip(prefix, path);
    if t.as_str().is_empty() {
        if allow_empty {
            return Ok(root.to_owned());
        }
        return Err(invalid_path("empty path"));
    }
    if !is_safe(&t) {
        return Err(invalid_path("unsafe path"));
    }
    Ok(join_path(root, &t))
}

proof fn lemma_safe_parts(t: Seq<char>, i: int, j: int)
    requires
        0 <= i <= j,
        safe_from(t, i),
        i == 0 || t[i - 1] == '/',
    ensures
        !parent_part_at(t, j),
    decreases t.len() - i,
{
    if parent_part_at(t, j) {
        let k = find(t, '/', i);
        crate::text::lemma_find(t, '/', i);
        reveal_strlit("..");
        if k >= t.len() {
            if j > i {
                assert(t[j - 1] == '/');
            } else {
                assert(t.skip(i) =~= ".."@);
            }
        } else if j > k {
            lemma_safe_parts(t, k + 1, j);
        } else {
            if j > i {
                assert(t[j - 1] == '/');
            } else {
                if i + 2 < t.len() {
                    assert(t[i + 2] == '/');
                }
                assert(k == i + 2);
                assert(t.subrange(i, k) =~= ".."@);
            }
        }
    }
}

/// Whatever a server sends, no file outside the root is written: a path stands for the
/// root itself, or for the root with a relative path behind it in which no part is `..`.
pub proof fn exported_paths_stay_inside(
    root: Seq<char>,
    prefix: Option<Seq<char>>,
    path: Seq<char>,
    allow_empty: bool,
)
    ensures
        fs_path(root, prefix, path, allow_empty) matches Ok(p) ==> p == root || exists|t: Seq<
            char,
        >| #[trigger]
            joined_path(root, t) == p && t.len() > 0 && t[0] != '/' && !has_parent_part(t),
{
    let t = stripped(prefix, path);
    if fs_path(root, prefix, path, allow_empty) is Ok && t.len() > 0 {
        if has_parent_part(t) {
            let j = choose|j: int| parent_part_at(t, j);
            lemma_safe_parts(t, 0, j);
        }
        crate::text::lemma_find(t, '/', 0);
        if t[0] == '/' {
            assert(find(t, '/', 0) == 0);
            assert(t.subrange(0, 0).len() == 0);
        }
        assert(joined_path(root, t) == fs_path(root, prefix, path, allow_empty)->Ok_0);
    }
}

/// A character that may stand in the name of a temporary file.
pub open spec fn plain_char(c: char) -> bool {
    ||| '0' <= c <= '9'
    ||| 'A' <= c <= 'Z'
    ||| 'a' <= c <= 'z'
}

fn is_plain(c: char) -> (r: bool)
    ensures
        r == plain_char(c),
{
    ('0' <= c && c <= '9') || ('A' <= c && c <= 'Z') || ('a' <= c && c <= 'z')
}

/// The name of a file, with only plain characters, dots, hyphens and underscores.
pub open spec fn plain_name(name: Seq<char>) -> Seq<char> {
    name.filter(|c: char| plain_char(c) || c == '.' || c == '-' || c == '_')
}

/// A token, with underscores in place of what is not plain.
pub open spec fn plain_token(token: Seq<char>) -> Seq<char> {
    token.map_values(
        |c: char| if plain_char(c) {
            c
        } else {
            '_'
        },
    )
}

/// The directory that a file stands in, and its name.
pub open spec fn split_path(dest: Seq<char>) -> (Seq<char>, Seq<char>) {
    let i = rfind(dest, '/', dest.len() as int);
    if i < 0 {
        (Seq::empty(), dest)
    } else if i == 0 {
        ("/"@, dest.skip(1))
    } else {
        (dest.take(i), dest.skip(i + 1))
    }
}

/// The temporary file beside a file, for a token and a number.
pub open spec fn tmp_path(dest: Seq<char>, token: Seq<char>, id: u64) -> Seq<char> {
    let (dir, name) = split_path(dest);
    let n = if plain_name(name).len() == 0 {
        "file"@
    } else {
        plain_name(name)
    };
    joined_path(
        dir,
        ".svn-rs."@ + n + "."@ + plain_token(token) + "."@ + decimal(id as nat) + ".tmp"@,
    )
}

fn keep_plain(name: &str) -> (r: String)
    ensures
        r@ == plain_name(name@),
{
    let cs = chars_of(name);
    let ghost p = |c: char| plain_char(c) || c == '.' || c == '-' || c == '_';
    let mut out = String::new();
    let mut i: usize = 0;
    assert(out@ =~= name@.take(0).filter(p)) by {
        reveal(Seq::filter);
    }
    while i < cs.len()
        invariant
            i <= cs.len(),
            cs@ == name@,
            p == (|c: char| plain_char(c) || c == '.' || c == '-' || c == '_'),
            out@ == name@.take(i as int).filter(p),
        decreases cs.len() - i,
    {
        let c = cs[i];
        proof {
            let now = name@.take(i + 1);
            assert(now.drop_last() =~= name@.take(i as int));
            assert(now.last() == c);
            reveal(Seq::filter);
        }
        if is_plain(c) || c == '.' || c == '-' || c == '_' {
            out.push(c);
        }
        i = i + 1;
    }
    assert(name@.take(i as int) =~= name@);
    out
}

fn make_plain(token: &str) -> (r: String)
    ensures
        r@ == plain_token(token@),
{
    let cs = chars_of(token);
    let mut out = String::new();
    let mut i: usize = 0;
    while i < cs.len()
        invariant
            i <= cs.len(),
            cs@ == token@,
            out@ == plain_token(token@).take(i as int),
        decreases cs.len() - i,
    {
        if is_plain(cs[i]) {
            out.push(cs[i]);
        } else {
            out.push('_');
        }
        i = i + 1;
        assert(out@ =~= plain_token(token@).take(i as int));
    }
    assert(out@ =~= plain_token(token@));
    out
}

/// The temporary file beside a file.
pub fn new_tmp_path(dest: &str, token: &str, id: u64) -> (r: String)
    ensures
        r@ == tmp_path(dest@, token@, id),
{
    let cs = chars_of(dest);
    let n = cs.len();
    let (dir, name) = match rfind_char(&cs, '/') {
        None => {
            let e = String::new();
            assert(e@ =~= Seq::<char>::empty());
            (e, dest.to_owned())
        },
        Some(i) => {
            assert(cs@.subrange(i + 1, n as int) =~= dest@.skip(i + 1));
            let name = slice_text(&cs, i + 1, n);
            if i == 0 {
                ("/".to_owned(), name)
            } else {
                assert(cs@.subrange(0, i as int) =~= dest@.take(i as int));
                (slice_text(&cs, 0, i), name)
            }
        },
    };
    let kept = keep_plain(&name);
    let plain = if kept.as_str().is_empty() {
        "file".to_owned()
    } else {
        kept
    };
    let mut s = cat3(".svn-rs.", &plain, ".");
    s.append(&make_plain(token));
    s.append(".");
    s.append(&decimal_string(id));
    s.append(".tmp");
    join_path(&dir, &s)
}

} // verus!
