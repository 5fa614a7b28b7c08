//! Recording the text deltas of an editor drive.

use vstd::prelude::*;

use crate::assoc::Assoc;
use crate::editor::{EditView, EditorEvent, EditorEventHandler};
use crate::error::{protocol, ErrorView, SvnError};
use crate::text::cat3;
use crate::textdelta::chunks_view;

verus! {

/// A text delta that was received as a whole.
#[derive(Clone, Debug, PartialEq, Eq)]
pub struct RecordedTextDelta {
    /// The path of the file, if it is known.
    pub path: Option<String>,
    /// The token of the file.
    pub file_token: String,
    /// The checksum of the base, if the server announced one.
    pub base_checksum: Option<String>,
    /// The chunks of the delta, as they were received.
    pub chunks: Vec<Vec<u8>>,
    /// The checksum of the result, if the server announced one.
    pub text_checksum: Option<String>,
}

/// What a recorded delta says.
pub struct RecordedView {
    pub path: Option<Seq<char>>,
    pub file_token: Seq<char>,
    pub base_checksum: Option<Seq<char>>,
    pub chunks: Seq<Seq<u8>>,
    pub text_checksum: Option<Seq<char>>,
}

impl DeepView for RecordedTextDelta {
    type V = RecordedView;

    open spec fn deep_view(&self) -> RecordedView {
        RecordedView {
            path: self.path.deep_view(),
            file_token: self.file_token@,
            base_checksum: self.base_checksum.deep_view(),
            chunks: chunks_view(self.chunks@),
            text_checksum: self.text_checksum.deep_view(),
        }
    }
}

/// A text delta that is being received.
#[derive(Debug)]
pub struct PendingTextDelta {
    path: Option<String>,
    base_checksum: Option<String>,
    chunks: Vec<Vec<u8>>,
}

/// What a pending delta says.
pub struct PendingView {
    pub path: Option<Seq<char>>,
    pub base_checksum: Option<Seq<char>>,
    pub chunks: Seq<Seq<u8>>,
}

impl DeepView for PendingTextDelta {
    type V = PendingView;

    closed spec fn deep_view(&self) -> PendingView {
        PendingView {
            path: self.path.deep_view(),
            base_checksum: self.base_checksum.deep_view(),
            chunks: chunks_view(self.chunks@),
        }
    }
}

/// The state of a recorder: the paths of open files, the deltas that are being received,
/// which of the completed deltas is the last of each file, and the completed deltas.
pub struct RecorderView {
    pub file_paths: Map<Seq<char>, Seq<char>>,
    pub pending: Map<Seq<char>, PendingView>,
    pub last_completed: Map<Seq<char>, usize>,
    pub completed: Seq<RecordedView>,
}

/// Records the text deltas of an editor drive.
#[derive(Debug)]
pub struct TextDeltaRecorder {
    file_paths: Assoc<String>,
    pending: Assoc<PendingTextDelta>,
    last_completed: Assoc<usize>,
    completed: Vec<RecordedTextDelta>,
}

impl View for TextDeltaRecorder {
    type V = RecorderView;

    closed spec fn view(&self) -> RecorderView {
        RecorderView {
            file_paths: self.file_paths@.map_values(|s: String| s@),
            pending: self.pending@.map_values(|p: PendingTextDelta| p.deep_view()),
            last_completed: self.last_completed@,
            completed: self.completed.deep_view(),
        }
    }
}

/// The value of a key, if there is one.
pub open spec fn lookup<V>(m: Map<Seq<char>, V>, k: Seq<char>) -> Option<V> {
    if m.dom().contains(k) {
        Some(m[k])
    } else {
        None
    }
}

/// What an event does to a recorder.
pub open spec fn record(s: RecorderView, event: EditView) -> Result<RecorderView, ErrorView> {
    match event {
        EditView::AddFile { path, file_token, .. } => Ok(
            RecorderView { file_paths: s.file_paths.insert(file_token, path), ..s },
        ),
        EditView::OpenFile { path, file_token, .. } => Ok(
            RecorderView { file_paths: s.file_paths.insert(file_token, path), ..s },
        ),
        EditView::ApplyTextDelta { file_token, base_checksum } => if s.pending.dom().contains(
            file_token,
        ) {
            Err(
                ErrorView::Protocol(
                    "duplicate apply-textdelta for file token '"@ + file_token + "'"@,
                ),
            )
        } else {
            let p = PendingView {
                path: lookup(s.file_paths, file_token),
                base_checksum,
                chunks: Seq::empty(),
            };
            Ok(RecorderView { pending: s.pending.insert(file_token, p), ..s })
        },
        EditView::TextDeltaChunk { file_token, chunk } => if !s.pending.dom().contains(
            file_token,
        ) {
            Err(
                ErrorView::Protocol(
                    "textdelta-chunk for unknown file token '"@ + file_token + "'"@,
                ),
            )
        } else {
            let p = s.pending[file_token];
            let q = PendingView { chunks: p.chunks.push(chunk), ..p };
            Ok(RecorderView { pending: s.pending.insert(file_token, q), ..s })
        },
        EditView::TextDeltaEnd { file_token } => if !s.pending.dom().contains(file_token) {
            Err(
                ErrorView::Protocol("textdelta-end for unknown file token '"@ + file_token + "'"@),
            )
        } else {
            let p = s.pending[file_token];
            let d = RecordedView {
                path: p.path,
                file_token,
                base_checksum: p.base_checksum,
                chunks: p.chunks,
                text_checksum: None,
            };
            Ok(
                RecorderView {
                    pending: s.pending.remove(file_token),
                    last_completed: s.last_completed.insert(
                        file_token,
                        s.completed.len() as usize,
                    ),
                    completed: s.completed.push(d),
                    ..s
                },
            )
        },
        EditView::CloseFile { file_token, text_checksum } => Ok(
            RecorderView {
                file_paths: s.file_paths.remove(file_token),
                completed: if text_checksum is Some && s.last_completed.dom().contains(file_token)
                    && s.last_completed[file_token] < s.completed.len() {
                    let i = s.last_completed[file_token] as int;
                    s.completed.update(i, RecordedView { text_checksum, ..s.completed[i] })
                } else {
                    s.completed
                },
                ..s
            },
        ),
        EditView::CloseEdit | EditView::AbortEdit | EditView::FinishReplay => if s.pending
            == Map::<Seq<char>, PendingView>::empty() {
            Ok(s)
        } else {
            Err(ErrorView::Protocol("editor drive ended with an unfinished textdelta"@))
        },
        _ => Ok(s),
    }
}

fn token_error(front: &str, token: &str) -> (r: SvnError)
    ensures
        r.deep_view() == ErrorView::Protocol(front@ + token@ + "'"@),
{
    SvnError::Protocol(cat3(front, token, "'"))
}

impl TextDeltaRecorder {
    /// A recorder that has seen nothing.
    pub fn new() -> (r: TextDeltaRecorder)
        ensures
            r@ == (RecorderView {
                file_paths: Map::empty(),
                pending: Map::empty(),
                last_completed: Map::empty(),
                completed: Seq::empty(),
            }),
    {
        let r = TextDeltaRecorder {
            file_paths: Assoc::new(),
            pending: Assoc::new(),
            last_completed: Assoc::new(),
            completed: Vec::new(),
        };
        assert(r@.file_paths =~= Map::<Seq<char>, Seq<char>>::empty());
        assert(r@.pending =~= Map::<Seq<char>, PendingView>::empty());
        assert(r@.completed =~= Seq::<RecordedView>::empty());
        r
    }

    /// The deltas that are complete.
    pub fn completed(&self) -> (r: &[RecordedTextDelta])
        ensures
            r.deep_view() == self@.completed,
    {
        let r = self.completed.as_slice();
        assert(r.deep_view() =~= self@.completed);
        r
    }

    /// Takes the deltas that are complete, leaving none.
    pub fn take_completed(&mut self) -> (r: Vec<RecordedTextDelta>)
        ensures
            r.deep_view() == old(self)@.completed,
            final(self)@ == (RecorderView {
                last_completed: Map::empty(),
                completed: Seq::empty(),
                ..old(self)@
            }),
    {
        self.last_completed.clear();
        let mut out: Vec<RecordedTextDelta> = Vec::new();
        std::mem::swap(&mut out, &mut self.completed);
        assert(self@.completed =~= Seq::<RecordedView>::empty());
        out
    }
}

impl EditorEventHandler for TextDeltaRecorder {
    /// Takes one event. An event that is refused changes nothing.
    fn on_event(&mut self, event: EditorEvent) -> (r: Result<(), SvnError>)
        ensures
            match r {
                Ok(_) => record(old(self)@, event.deep_view()) == Ok::<RecorderView, ErrorView>(
                    final(self)@,
                ),
                Err(e) => record(old(self)@, event.deep_view()) == Err::<RecorderView, ErrorView>(
                    e.deep_view(),
                ) && final(self)@ == old(self)@,
            },
    {
        let ghost s = self@;
        match event {
            EditorEvent::AddFile { path, file_token, .. } => {
                self.file_paths.insert(file_token, path);
                assert(self@.file_paths =~= s.file_paths.insert(file_token@, path@));
            },
            EditorEvent::OpenFile { path, file_token, .. } => {
                self.file_paths.insert(file_token, path);
                assert(self@.file_paths =~= s.file_paths.insert(file_token@, path@));
            },
            EditorEvent::ApplyTextDelta { file_token, base_checksum } => {
                if self.pending.contains_key(&file_token) {
                    return Err(
                        token_error("duplicate apply-textdelta for file token '", &file_token),
                    );
                }
                let path = match self.file_paths.get(&file_token) {
                    Some(p) => Some(p.clone()),
                    None => None,
                };
                let p = PendingTextDelta { path, base_checksum, chunks: Vec::new() };
                let ghost said = p.deep_view();
                assert(said.chunks =~= Seq::<Seq<u8>>::empty());
                self.pending.insert(file_token, p);
                assert(self@.pending =~= s.pending.insert(file_token@, said));
            },
            EditorEvent::TextDeltaChunk { file_token, chunk } => {
                match self.pending.remove(&file_token) {
                    None => {
                        assert(self@.pending =~= s.pending);
                        return Err(
                            token_error("textdelta-chunk for unknown file token '", &file_token),
                        );
                    },
                    Some(p) => {
                        let mut p = p;
                        let ghost before = p.deep_view();
                        let ghost said = chunk@;
                        p.chunks.push(chunk);
                        assert(p.deep_view().chunks =~= before.chunks.push(said));
                        let ghost after = p.deep_view();
                        self.pending.insert(file_token, p);
                        assert(self@.pending =~= s.pending.insert(file_token@, after));
                    },
                }
            },
            EditorEvent::TextDeltaEnd { file_token } => {
                match self.pending.remove(&file_token) {
                    None => {
                        assert(self@.pending =~= s.pending);
                        return Err(
                            token_error("textdelta-end for unknown file token '", &file_token),
                        );
                    },
                    Some(p) => {
                        assert(self@.pending =~= s.pending.remove(file_token@));
                        let n: usize = self.completed.len();
                        let d = RecordedTextDelta {
                            path: p.path,
                            file_token: file_token.clone(),
                            base_checksum: p.base_checksum,
                            chunks: p.chunks,
                            text_checksum: None,
                        };
                        let ghost said = d.deep_view();
                        self.completed.push(d);
                        assert(self@.completed =~= s.completed.push(said));
                        self.last_completed.insert(file_token, n);
                    },
                }
            },
            EditorEvent::CloseFile { file_token, text_checksum } => {
                if text_checksum.is_some() {
                    let at: Option<usize> = match self.last_completed.get(&file_token) {
                        Some(i) => Some(*i),
                        None => None,
                    };
                    match at {
                        Some(i) => {
                            if i < self.completed.len() {
                                let ghost said = text_checksum.deep_view();
                                self.completed[i].text_checksum = text_checksum;
                                assert(self@.completed =~= s.completed.update(
                                    i as int,
                                    RecordedView {
                                        text_checksum: said,
                                        ..s.completed[i as int]
                                    },
                                ));
                            }
                        },
                        None => {},
                    }
                }
                let _ = self.file_paths.remove(&file_token);
                assert(self@.file_paths =~= s.file_paths.remove(file_token@));
            },
            EditorEvent::CloseEdit | EditorEvent::AbortEdit | EditorEvent::FinishReplay => {
                proof {
                    if self.pending@ == Map::<Seq<char>, PendingTextDelta>::empty() {
                        assert(s.pending =~= Map::<Seq<char>, PendingView>::empty());
                    } else {
                        assert(s.pending.dom() =~= self.pending@.dom());
                        if s.pending == Map::<Seq<char>, PendingView>::empty() {
                            assert(self.pending@ =~= Map::<Seq<char>, PendingTextDelta>::empty());
                        }
                    }
                }
                if !self.pending.is_empty() {
                    return Err(protocol("editor drive ended with an unfinished textdelta"));
                }
            },
            _ => {},
        }
        Ok(())
    }
}

} // verus!
