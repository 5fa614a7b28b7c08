//! Client side of Subversion's `svn://` (`ra_svn`) protocol, verified with Verus.
//!
//! The library holds what the client computes and decides, and no input or output: it
//! turns calls into the items that are sent, and the bytes that come back into results.
//! Where sending and deciding alternate, a value of the library is the state of the
//! exchange: it is told what happened, and says what to do next.
//!
//! - `raw` and `wire` are the items of the protocol and how they are written and read.
//! - `conn`, `auth` and `sasl` open a connection: greeting, mechanisms, security layer.
//! - `client`, `requests`, `answers` and `streams` are the operations of a session.
//! - `edit` and `editor` are the editor drives in both directions.
//! - `svndiff`, `textdelta`, `fulltext` and `recorder` are the deltas of file texts.
//! - `commit` and the modules beside it plan and send a commit; `export_plan` and
//!   `fs_guard` write a tree to disk; `pool` keeps sessions; `ssh` and the modules beside
//!   it read OpenSSH configurations and settle how a tunnel is opened.
//! - The modules whose names end in `_laws` state what holds of the library as a whole, in
//!   terms of what goes in and what comes out; `server` is the server's side of it.

pub mod answer_laws;
pub mod answers;
pub mod asked_laws;
pub mod assoc;
pub mod auth;
pub mod change_laws;
pub mod client;
pub mod commit;
pub mod commit_drive;
pub mod commit_driver;
pub mod commit_laws;
pub mod commit_plan;
pub mod commit_send;
pub mod commit_stream;
pub mod conn;
pub mod delta_laws;
pub mod disk_laws;
pub mod drive_laws;
pub mod edit;
pub mod editor;
pub mod error;
pub mod event_laws;
pub mod export;
pub mod export_laws;
pub mod export_plan;
pub mod form_laws;
pub mod fs_guard;
pub mod fspath;
pub mod fulltext;
pub mod history;
pub mod keymap;
pub mod login_laws;
pub mod options;
pub mod outcome_laws;
pub mod params;
pub mod parse;
pub mod path;
pub mod path_laws;
pub mod pattern_laws;
pub mod pool;
pub mod question_laws;
pub mod raw;
pub mod recorder;
pub mod refusal_laws;
pub mod replies;
pub mod report_laws;
pub mod request_laws;
pub mod requests;
pub mod results;
pub mod sasl;
pub mod sasl_laws;
pub mod server;
pub mod session_laws;
pub mod settings_laws;
pub mod ssh;
pub mod ssh_config;
pub mod ssh_parser;
pub mod stream_driver;
pub mod stream_laws;
pub mod streams;
pub mod svndiff;
pub mod task_order;
pub mod text;
pub mod text_laws;
pub mod textdelta;
pub mod time;
pub mod token_laws;
pub mod tunnel_laws;
pub mod types;
pub mod url;
pub mod url_laws;
pub mod value_laws;
pub mod way_laws;
pub mod wildcard;
pub mod wire;
pub mod wire_laws;

pub use client::{RaSvnClient, RaSvnSession};
pub use commit::{CommitBuilder, SvndiffMode};
pub use commit_stream::CommitStreamBuilder;
pub use editor::{EditorCommand, EditorEvent, EditorEventHandler, Report, ReportCommand};
pub use error::{ServerError, ServerErrorItem, SvnError};
pub use export_plan::{FsEditor, TokioFsEditor};
pub use options::{
    CommitLockToken, CommitOptions, DiffOptions, GetFileOptions, ListOptions, LockManyOptions,
    LockOptions, LockTarget, LogOptions, LogRevProps, ReplayOptions, ReplayRangeOptions,
    StatusOptions, SwitchOptions, UnlockManyOptions, UnlockOptions, UnlockTarget, UpdateOptions,
};
pub use pool::{SessionPoolConfig, SessionPoolHealthCheck, SessionPoolKey};
pub use recorder::{RecordedTextDelta, TextDeltaRecorder};
pub use results::{
    ChangedPath, CommitInfo, DirEntry, DirListing, FileRev, GetFileResult, InheritedProps,
    LocationEntry, LocationSegment, LockDesc, LogEntry, MergeInfoCatalog, PropDelta, StatEntry,
};
pub use ssh::{SshAuth, SshConfig, SshHostKeyPolicy};
pub use textdelta::{
    apply_textdelta, apply_textdelta_sync, TextDeltaApplier, TextDeltaApplierSync,
};
pub use types::{
    Capability, Depth, DirentField, MergeInfoInheritance, NodeKind, PropertyList, RepositoryInfo,
    ServerInfo,
};
pub use url::SvnUrl;
