//! What the files of an export hold after an editor drive.

use vstd::prelude::*;

use crate::editor::EditView;
use crate::error::ErrorView;
use crate::export::{plain_char, plain_name, plain_token, split_path, tmp_path};
use crate::export_plan::{lookup, ExportView, FsActionView, PendingView};
use crate::fspath::joined_path;
use crate::text::{decimal, rfind};
use crate::textdelta::{apply_delta, at_end_output, take_chunk, take_chunks, StreamView};

verus! {

/// A delta that is being applied: to which bytes, and how far its decoder has come.
pub struct OpenText {
    pub tmp: Seq<char>,
    pub base: Seq<u8>,
    pub state: StreamView,
}

/// The files that stand in a file system, the bytes to which deltas are about to be
/// applied, and the deltas that are being applied in it.
#[verifier::ext_equal]
pub struct DiskView {
    pub files: Map<Seq<char>, Seq<u8>>,
    pub bases: Map<Seq<char>, Seq<u8>>,
    pub open: Map<Seq<char>, OpenText>,
}

impl DiskView {
    /// The bytes that a delta is applied to: the file, or the source where there is no
    /// such file; nothing where there is neither.
    pub open spec fn base(self, dest: Seq<char>, source: Option<Seq<char>>) -> Seq<u8> {
        match lookup(self.files, dest) {
            Some(b) => b,
            None => match source {
                Some(s) => match lookup(self.files, s) {
                    Some(b) => b,
                    None => Seq::empty(),
                },
                None => Seq::empty(),
            },
        }
    }

    /// What an action that carries a text does, if it does not fail. A temporary file is
    /// made new; a delta writes to it what its chunks give; at the end it takes the place
    /// of the file.
    pub open spec fn after(self, a: FsActionView) -> Option<DiskView> {
        match a {
            FsActionView::OpenBase { token, dest, source } => Some(
                DiskView {
                    bases: self.bases.insert(token, self.base(dest, source)),
                    ..self
                },
            ),
            FsActionView::BeginText { token, tmp, .. } => match lookup(self.bases, token) {
                None => None,
                Some(base) => if self.files.dom().contains(tmp) {
                    None
                } else {
                    Some(
                        DiskView {
                            files: self.files.insert(tmp, Seq::empty()),
                            bases: self.bases.remove(token),
                            open: self.open.insert(
                                token,
                                OpenText { tmp, base, state: StreamView::start() },
                            ),
                        },
                    )
                },
            },
            FsActionView::PushText { token, chunk } => match lookup(self.open, token) {
                None => None,
                Some(t) => {
                    let d = take_chunk(t.base, t.state, chunk);
                    if d.result is Err || !self.files.dom().contains(t.tmp) {
                        None
                    } else {
                        Some(
                            DiskView {
                                files: self.files.insert(t.tmp, self.files[t.tmp] + d.out),
                                open: self.open.insert(token, OpenText { state: d.state, ..t }),
                                ..self
                            },
                        )
                    }
                },
            },
            FsActionView::EndText { token } => match lookup(self.open, token) {
                None => None,
                Some(t) => if t.state.at_end() is Err || !self.files.dom().contains(t.tmp) {
                    None
                } else {
                    Some(
                        DiskView {
                            files: self.files.insert(
                                t.tmp,
                                self.files[t.tmp] + at_end_output(t.base, t.state),
                            ),
                            ..self
                        },
                    )
                },
            },
            FsActionView::FinishText { token, dest, tmp, .. } => if self.files.dom().contains(tmp) {
                Some(
                    DiskView {
                        files: self.files.remove(tmp).insert(dest, self.files[tmp]),
                        open: self.open.remove(token),
                        ..self
                    },
                )
            } else {
                None
            },
            _ => None,
        }
    }

    /// What the actions before index `n` do.
    pub open spec fn after_all(self, actions: Seq<FsActionView>, n: int) -> Option<DiskView>
        decreases n,
    {
        if n <= 0 || n > actions.len() {
            Some(self)
        } else {
            match self.after_all(actions, n - 1) {
                Some(d) => d.after(actions[n - 1]),
                None => None,
            }
        }
    }
}

/// What an export knows and what stands on disk, after an event that is planned, done and
/// confirmed without failing.
pub open spec fn took_event(v: ExportView, disk: DiskView, e: EditView) -> Option<
    (ExportView, DiskView),
> {
    let p = v.plan(e);
    match disk.after_all(p.actions, p.actions.len() as int) {
        Some(d) => match p.outcome {
            Ok(u) => Some(
                (v.planned(e).acted_all(p.actions, p.actions.len() as int).updated(u), d),
            ),
            Err(_) => None,
        },
        None => None,
    }
}

/// What is known, and what stands on disk, after events.
pub open spec fn took_events(v: ExportView, disk: DiskView, events: Seq<EditView>) -> Option<
    (ExportView, DiskView),
>
    decreases events.len(),
{
    if events.len() == 0 {
        Some((v, disk))
    } else {
        match took_event(v, disk, events[0]) {
            Some((w, d)) => took_events(w, d, events.drop_first()),
            None => None,
        }
    }
}

/// The events that send chunks of a delta, and end it.
pub open spec fn chunk_events(token: Seq<char>, chunks: Seq<Seq<u8>>) -> Seq<EditView> {
    chunks.map_values(|chunk: Seq<u8>| EditView::TextDeltaChunk { file_token: token, chunk }).push(
        EditView::TextDeltaEnd { file_token: token },
    )
}

/// The events that send a delta: its beginning, its chunks, and its end.
pub open spec fn delta_events(
    token: Seq<char>,
    base_checksum: Option<Seq<char>>,
    chunks: Seq<Seq<u8>>,
) -> Seq<EditView> {
    seq![EditView::ApplyTextDelta { file_token: token, base_checksum }] + chunk_events(
        token,
        chunks,
    )
}

proof fn lemma_chunks(
    v: ExportView,
    disk: DiskView,
    token: Seq<char>,
    chunks: Seq<Seq<u8>>,
)
    requires
        v.pending.dom().contains(token),
        v.pending[token].open,
        disk.open.dom().contains(token),
        disk.files.dom().contains(disk.open[token].tmp),
        ({
            let t = disk.open[token];
            let d = take_chunks(t.base, t.state, chunks);
            d.result is Ok && d.state.at_end() is Ok
        }),
    ensures
        ({
            let t = disk.open[token];
            let d = take_chunks(t.base, t.state, chunks);
            took_events(v, disk, chunk_events(token, chunks)) matches Some((w, e)) && w
                == (ExportView {
                pending: v.pending.insert(
                    token,
                    PendingView { open: false, ended: true, ..v.pending[token] },
                ),
                ..v
            }) && e.files == disk.files.insert(
                t.tmp,
                disk.files[t.tmp] + (d.out + at_end_output(t.base, d.state)),
            ) && e.open.remove(token) == disk.open.remove(token)
        }),
    decreases chunks.len(),
{
    reveal_with_fuel(DiskView::after_all, 2);
    reveal_with_fuel(ExportView::acted_all, 2);
    let t = disk.open[token];
    let events = chunk_events(token, chunks);
    if chunks.len() == 0 {
        reveal_with_fuel(took_events, 2);
        let end = EditView::TextDeltaEnd { file_token: token };
        assert(events =~= seq![end]);
        assert(events.drop_first() =~= Seq::<EditView>::empty());
        let out = at_end_output(t.base, t.state);
        assert(Seq::<u8>::empty() + out =~= out);
        let shut = PendingView { open: false, ..v.pending[token] };
        let gone = PendingView { open: false, ended: true, ..v.pending[token] };
        assert(v.pending.insert(token, shut).insert(token, gone) =~= v.pending.insert(token, gone));
    } else {
        let d = take_chunk(t.base, t.state, chunks[0]);
        let first = EditView::TextDeltaChunk { file_token: token, chunk: chunks[0] };
        assert(events[0] == first);
        assert(events.drop_first() =~= chunk_events(token, chunks.drop_first()));
        let next = DiskView {
            files: disk.files.insert(t.tmp, disk.files[t.tmp] + d.out),
            open: disk.open.insert(token, OpenText { state: d.state, ..t }),
            ..disk
        };
        assert(took_event(v, disk, first) == Some((v, next)));
        lemma_chunks(v, next, token, chunks.drop_first());
        let m = take_chunks(t.base, d.state, chunks.drop_first());
        let z = at_end_output(t.base, m.state);
        assert((disk.files[t.tmp] + d.out) + (m.out + z) =~= disk.files[t.tmp] + ((d.out + m.out)
            + z));
        let x = disk.files[t.tmp] + ((d.out + m.out) + z);
        assert(next.files.insert(t.tmp, x) =~= disk.files.insert(t.tmp, x));
        assert(next.open.remove(token) =~= disk.open.remove(token));
    }
}

proof fn lemma_rfind(s: Seq<char>, i: int)
    requires
        0 <= i <= s.len(),
    ensures
        -1 <= rfind(s, '/', i) < i,
        rfind(s, '/', i) >= 0 ==> s[rfind(s, '/', i)] == '/',
    decreases i,
{
    if i > 0 && s[i - 1] != '/' {
        lemma_rfind(s, i - 1);
    }
}

proof fn lemma_filter_all(s: Seq<char>, p: spec_fn(char) -> bool)
    requires
        forall|i: int| 0 <= i < s.len() ==> p(#[trigger] s[i]),
    ensures
        s.filter(p) == s,
    decreases s.len(),
{
    reveal(Seq::filter);
    if s.len() > 0 {
        let t = s.drop_last();
        assert forall|i: int| 0 <= i < t.len() implies p(#[trigger] t[i]) by {
            assert(t[i] == s[i]);
        }
        lemma_filter_all(t, p);
        assert(p(s[s.len() - 1]));
        assert(t.push(s.last()) =~= s);
    }
}

/// Only the name of a file can lead to the file from the directory that it stands in.
proof fn lemma_name_of(dest: Seq<char>, f: Seq<char>)
    requires
        f.len() > 0,
        f[0] == '.',
        joined_path(split_path(dest).0, f) == dest,
    ensures
        split_path(dest).1 == f,
{
    let (dir, name) = split_path(dest);
    reveal_strlit("/");
    lemma_rfind(dest, dest.len() as int);
    let i = rfind(dest, '/', dest.len() as int);
    if i < 0 {
        assert(dest =~= f);
    } else if i == 0 {
        assert(dest =~= "/"@ + f);
        assert(name =~= f);
    } else {
        assert(dest[i] == '/');
        if dir.last() == '/' {
            assert((dir + f)[i] == f[0]);
        } else {
            assert(dest =~= dir + "/"@ + f);
            assert(name =~= f);
        }
    }
}

/// A text is shorter than one that has something in front of its plain characters.
proof fn lemma_not_itself(name: Seq<char>, head: Seq<char>, n: Seq<char>, tail: Seq<char>)
    requires
        head.len() > 0,
        forall|k: int| 0 <= k < head.len() ==> (#[trigger] head[k] == '.' || plain_char(head[k])
            || head[k] == '-'),
        plain_name(name).len() > 0 ==> n == plain_name(name),
    ensures
        name != (head + n) + tail,
{
    let p = |c: char| plain_char(c) || c == '.' || c == '-' || c == '_';
    if name == (head + n) + tail {
        Seq::filter_distributes_over_add(head + n, tail, p);
        Seq::filter_distributes_over_add(head, n, p);
        lemma_filter_all(head, p);
        assert(plain_name(name) == name.filter(p));
        assert forall|k: int| 0 <= k < n.len() implies p(#[trigger] n[k]) by {
            name.lemma_filter_pred(p, k);
        }
        lemma_filter_all(n, p);
    }
}

/// A temporary file is never the file that it is for.
proof fn lemma_tmp_is_another(dest: Seq<char>, token: Seq<char>, id: u64)
    ensures
        tmp_path(dest, token, id) != dest,
{
    let (dir, name) = split_path(dest);
    let n = if plain_name(name).len() == 0 {
        "file"@
    } else {
        plain_name(name)
    };
    let head = ".svn-rs."@;
    let tail = "."@ + plain_token(token) + "."@ + decimal(id as nat) + ".tmp"@;
    let f = ".svn-rs."@ + n + "."@ + plain_token(token) + "."@ + decimal(id as nat) + ".tmp"@;
    reveal_strlit(".svn-rs.");
    assert(f =~= (head + n) + tail);
    lemma_not_itself(name, head, n, tail);
    if tmp_path(dest, token, id) == dest {
        lemma_name_of(dest, f);
    }
}

/// Text deltas are applied to the file that stands on disk: the events that send a delta
/// leave the file as it is, and closing the file then puts the decoded text in its place.
/// No other file changes, and no temporary file remains.
pub proof fn deltas_leave_the_decoded_text(
    v: ExportView,
    disk: DiskView,
    token: Seq<char>,
    base_checksum: Option<Seq<char>>,
    text_checksum: Option<Seq<char>>,
    chunks: Seq<Seq<u8>>,
    out: Seq<u8>,
)
    requires
        v.files.dom().contains(token),
        ({
            let dest = v.files[token];
            let tmp = tmp_path(dest, token, v.tmp_id());
            &&& !disk.files.dom().contains(tmp)
            &&& apply_delta(disk.base(dest, lookup(v.sources, token)), chunks) == (
                out,
                Ok::<(), ErrorView>(()),
            )
        }),
    ensures
        took_events(v, disk, delta_events(token, base_checksum, chunks)) matches Some((w, d)) && ({
            let dest = v.files[token];
            let tmp = tmp_path(dest, token, v.tmp_id());
            &&& d.files.remove(tmp) == disk.files
            &&& took_event(
                w,
                d,
                EditView::CloseFile { file_token: token, text_checksum },
            ) matches Some((x, e)) && e.files == disk.files.insert(dest, out)
        }),
{
    reveal_with_fuel(DiskView::after_all, 3);
    reveal_with_fuel(ExportView::acted_all, 3);
    let dest = v.files[token];
    let tmp = tmp_path(dest, token, v.tmp_id());
    let base = disk.base(dest, lookup(v.sources, token));
    lemma_tmp_is_another(dest, token, v.tmp_id());
    let begin = EditView::ApplyTextDelta { file_token: token, base_checksum };
    let events = delta_events(token, base_checksum, chunks);
    assert(events[0] == begin);
    assert(events.drop_first() =~= chunk_events(token, chunks));
    let next = DiskView {
        files: disk.files.insert(tmp, Seq::empty()),
        bases: disk.bases.remove(token),
        open: disk.open.insert(token, OpenText { tmp, base, state: StreamView::start() }),
    };
    assert(disk.bases.insert(token, base).remove(token) =~= disk.bases.remove(token));
    let w = ExportView {
        pending: v.pending.insert(token, PendingView { dest, tmp, open: true, ended: false }),
        next_tmp_id: v.tmp_id(),
        ..v
    };
    assert(took_event(v, disk, begin) == Some((w, next)));
    lemma_chunks(w, next, token, chunks);
    let (x, d) = took_events(w, next, chunk_events(token, chunks))->0;
    assert(Seq::<u8>::empty() + out =~= out);
    assert(d.files =~= disk.files.insert(tmp, out));
    assert(d.files.remove(tmp) =~= disk.files);
}

} // verus!
