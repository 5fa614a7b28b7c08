//! Answers that come in several items: each collector takes the items one by one.

use vstd::prelude::*;

use crate::answers::{succeeded, unit_answer};
use crate::conn::{response_failure, CommandResponse, ResponseView};
use crate::error::{protocol, result_view, summary, ErrorView, SvnError};
use crate::edit::parse_failure;
use crate::history::{
    add_usual_props, file_rev, log_entry, parse_file_rev_entry, parse_log_entry, with_usual_props,
    LogWants,
};
use crate::parse::{
    item_at, list_at, nth, nth_list, nth_string, nth_word, server_error, string_at, word_at,
};
use crate::raw::{bytes_string_of, kind_of, ItemView, SvnItem};
use crate::replies::{
    list_dirent, location_entry, location_segment, lockdesc, no_slash, parse_list_dirent,
    parse_location_entry, parse_location_segment, parse_lockdesc,
};
use crate::results::{
    file_revs_wf, log_wf, DirEntry, DirEntryView, FileMeta, FileMetaView, FileRev, FileRevView,
    GetFileResult, GetFileResultView, LocationEntry, LocationEntryView, LocationSegment,
    LocationSegmentView, LockDesc, LockDescView, LogEntry, LogEntryView,
};
use crate::text::{
    cat, cat3, contains_text, decimal, decimal_string, has_part, lower_text, str_eq, to_lower,
    without_leading,
};

verus! {

/// The next entry of an answer, or nothing where the answer is complete.
pub open spec fn entry_of(item: ItemView, what: Seq<char>) -> Result<
    Option<Seq<ItemView>>,
    ErrorView,
> {
    match item {
        ItemView::List(v) => Ok(Some(v)),
        ItemView::Word(w) if w == "done"@ => Ok(None),
        _ => Err(ErrorView::Protocol("unexpected "@ + what + ": "@ + kind_of(item))),
    }
}

/// What the next entry is.
pub open spec fn entry_is(
    r: Result<Option<&Vec<SvnItem>>, SvnError>,
    v: Result<Option<Seq<ItemView>>, ErrorView>,
) -> bool {
    match r {
        Ok(Some(x)) => v == Ok::<Option<Seq<ItemView>>, ErrorView>(Some(x.deep_view())),
        Ok(None) => v == Ok::<Option<Seq<ItemView>>, ErrorView>(None),
        Err(e) => v == Err::<Option<Seq<ItemView>>, ErrorView>(e.deep_view()),
    }
}

fn next_entry<'a>(item: &'a SvnItem, what: &str) -> (r: Result<Option<&'a Vec<SvnItem>>, SvnError>)
    ensures
        entry_is(r, entry_of(item.deep_view(), what@)),
{
    match item.as_list() {
        Some(v) => Ok(Some(v)),
        None => {
            if let Some(w) = item.as_word() {
                if str_eq(&w, "done") {
                    return Ok(None);
                }
            }
            let mut s = cat3("unexpected ", what, ": ");
            s.append(item.kind());
            Err(SvnError::Protocol(s))
        },
    }
}

/// What a collector that holds `before` makes of an item: its new contents, or nothing
/// where the answer is complete.
pub open spec fn collected<V>(
    before: Seq<V>,
    item: ItemView,
    what: Seq<char>,
    read: spec_fn(Seq<ItemView>) -> Result<V, ErrorView>,
) -> Result<Option<Seq<V>>, ErrorView> {
    match entry_of(item, what) {
        Err(e) => Err(e),
        Ok(None) => Ok(None),
        Ok(Some(v)) => match read(v) {
            Err(e) => Err(e),
            Ok(x) => Ok(Some(before.push(x))),
        },
    }
}

/// What taking an item did: whether the answer is complete, and what is held.
pub open spec fn took<V>(
    r: Result<bool, SvnError>,
    before: Seq<V>,
    after: Seq<V>,
    v: Result<Option<Seq<V>>, ErrorView>,
) -> bool {
    match r {
        Ok(true) => v == Ok::<Option<Seq<V>>, ErrorView>(None) && after == before,
        Ok(false) => v == Ok::<Option<Seq<V>>, ErrorView>(Some(after)),
        Err(e) => v == Err::<Option<Seq<V>>, ErrorView>(e.deep_view()) && after == before,
    }
}

/// What was collected, if the command succeeded.
pub open spec fn finished<V>(entries: Seq<V>, response: ResponseView, ctx: Seq<char>) -> Result<
    Seq<V>,
    ErrorView,
> {
    if response.success {
        Ok(entries)
    } else {
        Err(response_failure(response, ctx))
    }
}

/// Collects the places where a node was.
pub struct LocationCollector {
    entries: Vec<LocationEntry>,
}

impl View for LocationCollector {
    type V = Seq<LocationEntryView>;

    closed spec fn view(&self) -> Seq<LocationEntryView> {
        self.entries.deep_view()
    }
}

impl LocationCollector {
    /// Nothing yet.
    pub fn new() -> (r: LocationCollector)
        ensures
            r@ == Seq::<LocationEntryView>::empty(),

    {
        let r = LocationCollector { entries: Vec::new() };
        assert(r@ =~= Seq::<LocationEntryView>::empty());
        r
    }

    /// Takes an item, and says whether the answer is complete.
    pub fn take(&mut self, item: &SvnItem) -> (r: Result<bool, SvnError>)
        ensures
            took(
                r,
                old(self)@,
                final(self)@,
                collected(
                    old(self)@,
                    item.deep_view(),
                    "location entry item"@,
                    |v: Seq<ItemView>| location_entry(v),
                ),
            ),

    {
        let ghost before = self@;
        match next_entry(item, "location entry item") {
            Err(e) => Err(e),
            Ok(None) => Ok(true),
            Ok(Some(v)) => match parse_location_entry(v) {
                Err(e) => Err(e),
                Ok(x) => {
                    let ghost said = x.deep_view();
                    self.entries.push(x);
                    assert(self@ =~= before.push(said));
                    Ok(false)
                },
            },
        }
    }

    /// What was collected, if the command succeeded.
    pub fn finish(self, response: &CommandResponse) -> (r: Result<Vec<LocationEntry>, SvnError>)
        ensures
            result_view(r) == finished(self@, response.deep_view(), "get-locations"@),
    {
        match response.ensure_success("get-locations") {
            Ok(_) => Ok(self.entries),
            Err(e) => Err(e),
        }
    }
}

/// Collects the places where a node was over ranges of revisions.
pub struct SegmentCollector {
    entries: Vec<LocationSegment>,
}

impl View for SegmentCollector {
    type V = Seq<LocationSegmentView>;

    closed spec fn view(&self) -> Seq<LocationSegmentView> {
        self.entries.deep_view()
    }
}

impl SegmentCollector {
    /// Nothing yet.
    pub fn new() -> (r: SegmentCollector)
        ensures
            r@ == Seq::<LocationSegmentView>::empty(),

    {
        let r = SegmentCollector { entries: Vec::new() };
        assert(r@ =~= Seq::<LocationSegmentView>::empty());
        r
    }

    /// Takes an item, and says whether the answer is complete.
    pub fn take(&mut self, item: &SvnItem) -> (r: Result<bool, SvnError>)
        ensures
            took(
                r,
                old(self)@,
                final(self)@,
                collected(
                    old(self)@,
                    item.deep_view(),
                    "location segment item"@,
                    |v: Seq<ItemView>| location_segment(v),
                ),
            ),

    {
        let ghost before = self@;
        match next_entry(item, "location segment item") {
            Err(e) => Err(e),
            Ok(None) => Ok(true),
            Ok(Some(v)) => match parse_location_segment(v) {
                Err(e) => Err(e),
                Ok(x) => {
                    let ghost said = x.deep_view();
                    self.entries.push(x);
                    assert(self@ =~= before.push(said));
                    Ok(false)
                },
            },
        }
    }

    /// What was collected, if the command succeeded.
    pub fn finish(self, response: &CommandResponse) -> (r: Result<Vec<LocationSegment>, SvnError>)
        ensures
            result_view(r) == finished(self@, response.deep_view(), "get-location-segments"@),
    {
        match response.ensure_success("get-location-segments") {
            Ok(_) => Ok(self.entries),
            Err(e) => Err(e),
        }
    }
}

/// Collects the entries of a listing.
pub struct ListCollector {
    entries: Vec<DirEntry>,
}

impl View for ListCollector {
    type V = Seq<DirEntryView>;

    closed spec fn view(&self) -> Seq<DirEntryView> {
        self.entries.deep_view()
    }
}

impl ListCollector {
    /// Nothing yet.
    pub fn new() -> (r: ListCollector)
        ensures
            r@ == Seq::<DirEntryView>::empty(),

    {
        let r = ListCollector { entries: Vec::new() };
        assert(r@ =~= Seq::<DirEntryView>::empty());
        r
    }

    /// Takes an item, and says whether the answer is complete.
    pub fn take(&mut self, item: &SvnItem) -> (r: Result<bool, SvnError>)
        ensures
            took(
                r,
                old(self)@,
                final(self)@,
                collected(
                    old(self)@,
                    item.deep_view(),
                    "list dirent item"@,
                    |v: Seq<ItemView>| list_dirent(v),
                ),
            ),

    {
        let ghost before = self@;
        match next_entry(item, "list dirent item") {
            Err(e) => Err(e),
            Ok(None) => Ok(true),
            Ok(Some(v)) => match parse_list_dirent(v) {
                Err(e) => Err(e),
                Ok(x) => {
                    let ghost said = x.deep_view();
                    self.entries.push(x);
                    assert(self@ =~= before.push(said));
                    Ok(false)
                },
            },
        }
    }

    /// What was collected, if the command succeeded.
    pub fn finish(self, response: &CommandResponse) -> (r: Result<Vec<DirEntry>, SvnError>)
        ensures
            result_view(r) == finished(self@, response.deep_view(), "list"@),
    {
        match response.ensure_success("list") {
            Ok(_) => Ok(self.entries),
            Err(e) => Err(e),
        }
    }
}

/// An entry of the log, with the wanted properties.
pub open spec fn wanted_entry(v: Seq<ItemView>, w: LogWants) -> Result<LogEntryView, ErrorView> {
    match log_entry(v, w.custom) {
        Ok(e) => Ok(with_usual_props(e, w)),
        Err(e) => Err(e),
    }
}

fn read_wanted_entry(v: &[SvnItem], w: LogWants) -> (r: Result<LogEntry, SvnError>)
    ensures
        result_view(r) == wanted_entry(v.deep_view(), w),
        r matches Ok(e) ==> e.rev_props.wf(),
{
    match parse_log_entry(v, w.custom) {
        Ok(e) => Ok(add_usual_props(e, w)),
        Err(e) => Err(e),
    }
}

/// Collects the entries of the log.
pub struct LogCollector {
    entries: Vec<LogEntry>,
    wants: LogWants,
}

impl View for LogCollector {
    type V = Seq<LogEntryView>;

    closed spec fn view(&self) -> Seq<LogEntryView> {
        self.entries.deep_view()
    }
}

impl LogCollector {
    /// The properties of all entries are in order.
    pub closed spec fn wf(self) -> bool {
        log_wf(self.entries@)
    }

    /// Which properties of revisions are wanted.
    pub closed spec fn wanted(self) -> LogWants {
        self.wants
    }

    /// Nothing yet.
    pub fn new(wants: LogWants) -> (r: LogCollector)
        ensures
            r.wf(),
            r@ == Seq::<LogEntryView>::empty(),
            r.wanted() == wants,
    {
        let r = LogCollector { entries: Vec::new(), wants };
        assert(r@ =~= Seq::<LogEntryView>::empty());
        r
    }

    /// Takes an item, and says whether the answer is complete.
    pub fn take(&mut self, item: &SvnItem) -> (r: Result<bool, SvnError>)
        requires
            old(self).wf(),
        ensures
            final(self).wf(),
            took(
                r,
                old(self)@,
                final(self)@,
                collected(
                    old(self)@,
                    item.deep_view(),
                    "log entry item"@,
                    |v: Seq<ItemView>| wanted_entry(v, old(self).wanted()),
                ),
            ),
            final(self).wanted() == old(self).wanted(),
    {
        let ghost before = self@;
        match next_entry(item, "log entry item") {
            Err(e) => Err(e),
            Ok(None) => Ok(true),
            Ok(Some(v)) => match read_wanted_entry(v, self.wants) {
                Err(e) => Err(e),
                Ok(x) => {
                    let ghost said = x.deep_view();
                    self.entries.push(x);
                    assert(self@ =~= before.push(said));
                    Ok(false)
                },
            },
        }
    }

    /// What was collected, if the command succeeded.
    pub fn finish(self, response: &CommandResponse) -> (r: Result<Vec<LogEntry>, SvnError>)
        requires
            self.wf(),
        ensures
            result_view(r) == finished(self@, response.deep_view(), "log"@),
            r matches Ok(v) ==> log_wf(v@),
    {
        match response.ensure_success("log") {
            Ok(_) => Ok(self.entries),
            Err(e) => Err(e),
        }
    }
}

/// Collects the revisions of a file, each with the chunks of its delta.
pub struct FileRevCollector {
    entries: Vec<FileRev>,
    open: Option<FileRev>,
}

/// What a `FileRevCollector` holds: the revisions that are complete, and the one whose
/// delta is being read.
#[verifier::ext_equal]
pub struct FileRevsView {
    pub entries: Seq<FileRevView>,
    pub open: Option<FileRevView>,
}

impl View for FileRevCollector {
    type V = FileRevsView;

    closed spec fn view(&self) -> FileRevsView {
        FileRevsView { entries: self.entries.deep_view(), open: self.open.deep_view() }
    }
}

impl FileRevView {
    /// One more chunk of the delta.
    pub open spec fn with_chunk(self, chunk: Seq<u8>) -> FileRevView {
        FileRevView { delta_chunks: self.delta_chunks.push(chunk), ..self }
    }
}

impl FileRevsView {
    /// What an item makes of what is held: nothing where the answer is complete. While a
    /// delta is being read, items are its chunks, and an empty one ends it.
    pub open spec fn after(self, item: ItemView) -> Result<Option<FileRevsView>, ErrorView> {
        match self.open {
            Some(f) => match bytes_string_of(item) {
                None => Err(ErrorView::Protocol("file-rev delta chunk not a string"@)),
                Some(b) => Ok(
                    Some(
                        if b.len() == 0 {
                            FileRevsView { entries: self.entries.push(f), open: None }
                        } else {
                            FileRevsView { open: Some(f.with_chunk(b)), ..self }
                        },
                    ),
                ),
            },
            None => match entry_of(item, "file-rev entry item"@) {
                Err(e) => Err(e),
                Ok(None) => Ok(None),
                Ok(Some(v)) => match file_rev(v) {
                    Err(e) => Err(e),
                    Ok(f) => Ok(Some(FileRevsView { open: Some(f), ..self })),
                },
            },
        }
    }

    /// The revisions, if the command succeeded and gave any.
    pub open spec fn finished(self, response: ResponseView) -> Result<Seq<FileRevView>, ErrorView> {
        if !response.success {
            Err(response_failure(response, "get-file-revs"@))
        } else if self.entries.len() == 0 {
            Err(
                ErrorView::Protocol("The get-file-revs command didn't return any revisions"@),
            )
        } else {
            Ok(self.entries)
        }
    }
}

/// What taking an item did.
pub open spec fn file_revs_took(
    r: Result<bool, SvnError>,
    before: FileRevsView,
    after: FileRevsView,
    v: Result<Option<FileRevsView>, ErrorView>,
) -> bool {
    match r {
        Ok(true) => v == Ok::<Option<FileRevsView>, ErrorView>(None) && after == before,
        Ok(false) => v == Ok::<Option<FileRevsView>, ErrorView>(Some(after)),
        Err(e) => v == Err::<Option<FileRevsView>, ErrorView>(e.deep_view()) && after == before,
    }
}

impl FileRevCollector {
    /// The properties of all revisions are in order.
    pub closed spec fn wf(self) -> bool {
        &&& file_revs_wf(self.entries@)
        &&& self.open matches Some(f) ==> f.rev_props.wf()
    }

    /// Nothing yet.
    pub fn new() -> (r: FileRevCollector)
        ensures
            r.wf(),
            r@ == (FileRevsView { entries: Seq::empty(), open: None }),
    {
        let r = FileRevCollector { entries: Vec::new(), open: None };
        assert(r@.entries =~= Seq::<FileRevView>::empty());
        r
    }

    /// Takes an item, and says whether the answer is complete.
    pub fn take(&mut self, item: &SvnItem) -> (r: Result<bool, SvnError>)
        requires
            old(self).wf(),
        ensures
            final(self).wf(),
            file_revs_took(r, old(self)@, final(self)@, old(self)@.after(item.deep_view())),
    {
        let ghost before = self@;
        match self.open.take() {
            Some(rev) => {
                let mut f = rev;
                match item.as_bytes_string() {
                    None => {
                        self.open = Some(f);
                        Err(protocol("file-rev delta chunk not a string"))
                    },
                    Some(b) => {
                        let ghost had = f.deep_view();
                        let ghost chunk = b@;
                        if b.len() == 0 {
                            self.entries.push(f);
                            assert(self@.entries =~= before.entries.push(had));
                        } else {
                            f.delta_chunks.push(b);
                            assert(f.deep_view() =~= had.with_chunk(chunk));
                            self.open = Some(f);
                        }
                        Ok(false)
                    },
                }
            },
            None => match next_entry(item, "file-rev entry item") {
                Err(e) => Err(e),
                Ok(None) => Ok(true),
                Ok(Some(v)) => match parse_file_rev_entry(v) {
                    Err(e) => Err(e),
                    Ok(f) => {
                        self.open = Some(f);
                        Ok(false)
                    },
                },
            },
        }
    }

    /// The revisions, if the command succeeded and gave any.
    pub fn finish(self, response: &CommandResponse) -> (r: Result<Vec<FileRev>, SvnError>)
        requires
            self.wf(),
        ensures
            result_view(r) == self@.finished(response.deep_view()),
            r matches Ok(v) ==> file_revs_wf(v@),
    {
        match response.ensure_success("get-file-revs") {
            Ok(_) => {},
            Err(e) => {
                return Err(e);
            },
        }
        assert(self@.entries.len() == self.entries@.len());
        if self.entries.len() == 0 {
            return Err(protocol("The get-file-revs command didn't return any revisions"));
        }
        Ok(self.entries)
    }
}

/// A failure says that the server does not know the command.
pub open spec fn says_unknown(message: Seq<char>) -> bool {
    let m = lower_text(message);
    has_part(m, "unknown command"@) || has_part(m, "unknown cmd"@)
}

/// An error says that the server does not know the command.
pub open spec fn unknown_command(e: ErrorView) -> bool {
    match e {
        ErrorView::Server(s) => says_unknown(summary(s.chain)),
        ErrorView::Protocol(m) => says_unknown(m),
        _ => false,
    }
}

/// Whether an error says that the server does not know the command.
pub fn is_unknown_command_error(err: &SvnError) -> (r: bool)
    ensures
        r == unknown_command(err.deep_view()),
{
    let message = match err {
        SvnError::Server(s) => s.message_summary(),
        SvnError::Protocol(m) => m.clone(),
        _ => {
            return false;
        },
    };
    let m = to_lower(&message);
    contains_text(&m, "unknown command") || contains_text(&m, "unknown cmd")
}

/// How the answer to a command on many targets goes on.
#[derive(Clone, Copy, Debug, PartialEq, Eq, Structural)]
pub enum ManyStep {
    /// More results are to come.
    More,
    /// The results are complete.
    Done,
    /// The server does not know the command; the targets are to be done one by one.
    Unsupported,
}

/// The results for targets, one for each.
pub open spec fn outcomes<T: DeepView>(v: Seq<Result<T, SvnError>>) -> Seq<
    Result<T::V, ErrorView>,
> {
    v.map_values(|r: Result<T, SvnError>| result_view(r))
}

/// What an item says of the next target: a result, or how the answer goes on.
pub enum ManyItem<V> {
    Result(Result<V, ErrorView>),
    Step(ManyStep),
}

/// What an item of the answer to the command `cmd` says, where `first` holds if no
/// result has come yet, and `read` reads the parameters of a success.
pub open spec fn many_item<V>(
    item: ItemView,
    cmd: Seq<char>,
    first: bool,
    read: spec_fn(Seq<ItemView>) -> Result<Result<V, ErrorView>, ErrorView>,
) -> Result<ManyItem<V>, ErrorView> {
    match entry_of(item, cmd + " item"@) {
        Err(e) => Err(e),
        Ok(None) => Ok(ManyItem::Step(ManyStep::Done)),
        Ok(Some(v)) => match nth_word(v, 0) {
            None => Err(ErrorView::Protocol(cmd + " status not a word"@)),
            Some(status) => match nth_list(v, 1) {
                None => Err(ErrorView::Protocol(cmd + " params not a list"@)),
                Some(params) => if status == "success"@ {
                    match read(params) {
                        Ok(x) => Ok(ManyItem::Result(x)),
                        Err(e) => Err(e),
                    }
                } else if status == "failure"@ {
                    let e = ErrorView::Server(server_error(params));
                    if first && unknown_command(e) {
                        Ok(ManyItem::Step(ManyStep::Unsupported))
                    } else {
                        Ok(ManyItem::Result(Err(e)))
                    }
                } else {
                    Err(ErrorView::Protocol("unexpected "@ + cmd + " status: "@ + status))
                },
            },
        },
    }
}

/// What a collector that holds `before`, for so many targets, makes of an item.
pub open spec fn many_collected<V>(
    before: Seq<Result<V, ErrorView>>,
    count: nat,
    item: Result<ManyItem<V>, ErrorView>,
    cmd: Seq<char>,
) -> Result<(Seq<Result<V, ErrorView>>, ManyStep), ErrorView> {
    match item {
        Err(e) => Err(e),
        Ok(ManyItem::Step(s)) => Ok((before, s)),
        Ok(ManyItem::Result(x)) => if before.len() + 1 > count {
            Err(ErrorView::Protocol(cmd + " returned more results than targets"@))
        } else {
            Ok((before.push(x), ManyStep::More))
        },
    }
}

/// What taking an item did.
pub open spec fn many_took<V>(
    r: Result<ManyStep, SvnError>,
    before: Seq<Result<V, ErrorView>>,
    after: Seq<Result<V, ErrorView>>,
    v: Result<(Seq<Result<V, ErrorView>>, ManyStep), ErrorView>,
) -> bool {
    match r {
        Ok(s) => v == Ok::<(Seq<Result<V, ErrorView>>, ManyStep), ErrorView>((after, s)),
        Err(e) => v == Err::<(Seq<Result<V, ErrorView>>, ManyStep), ErrorView>(e.deep_view())
            && after == before,
    }
}

/// What was collected, if the command succeeded and gave a result for each target.
pub open spec fn many_finished<V>(
    entries: Seq<Result<V, ErrorView>>,
    count: nat,
    response: ResponseView,
    cmd: Seq<char>,
) -> Result<Seq<Result<V, ErrorView>>, ErrorView> {
    if !response.success {
        Err(response_failure(response, cmd))
    } else if entries.len() != count {
        Err(
            ErrorView::Protocol(
                cmd + " returned "@ + decimal(entries.len()) + " results for "@ + decimal(count)
                    + " targets"@,
            ),
        )
    } else {
        Ok(entries)
    }
}

/// What finishing gave.
pub open spec fn many_is<T: DeepView>(
    r: Result<Vec<Result<T, SvnError>>, SvnError>,
    v: Result<Seq<Result<T::V, ErrorView>>, ErrorView>,
) -> bool {
    match r {
        Ok(x) => v == Ok::<Seq<Result<T::V, ErrorView>>, ErrorView>(outcomes(x@)),
        Err(e) => v == Err::<Seq<Result<T::V, ErrorView>>, ErrorView>(e.deep_view()),
    }
}

fn count_message(cmd: &str, got: usize, count: usize) -> (r: SvnError)
    ensures
        r.deep_view() == ErrorView::Protocol(
            cmd@ + " returned "@ + decimal(got as nat) + " results for "@ + decimal(count as nat)
                + " targets"@,
        ),
{
    let mut s = cat3(cmd, " returned ", &decimal_string(got as u64));
    s.append(" results for ");
    s.append(&decimal_string(count as u64));
    s.append(" targets");
    SvnError::Protocol(s)
}

/// A lock that was taken.
pub open spec fn locked(params: Seq<ItemView>) -> Result<
    Result<LockDescView, ErrorView>,
    ErrorView,
> {
    match nth(params, 0) {
        None => Err(ErrorView::Protocol("lock-many success missing lockdesc"@)),
        Some(item) => Ok(lockdesc(item)),
    }
}

/// The path of a lock that was released.
pub open spec fn unlocked(
    params: Seq<ItemView>,
) -> Result<Result<Seq<char>, ErrorView>, ErrorView> {
    match nth_string(params, 0) {
        None => Err(ErrorView::Protocol("unlock-many success missing path"@)),
        Some(path) => Ok(Ok(no_slash(path))),
    }
}

fn protocol_with(cmd: &str, rest: &str) -> (r: SvnError)
    ensures
        r.deep_view() == ErrorView::Protocol(cmd@ + rest@),
{
    SvnError::Protocol(cat(cmd, rest))
}

/// Collects the results of taking locks.
pub struct LockManyCollector {
    entries: Vec<Result<LockDesc, SvnError>>,
    count: usize,
}

impl View for LockManyCollector {
    type V = Seq<Result<LockDescView, ErrorView>>;

    closed spec fn view(&self) -> Seq<Result<LockDescView, ErrorView>> {
        outcomes(self.entries@)
    }
}

impl LockManyCollector {
    /// How many targets there are.
    pub closed spec fn targets(self) -> nat {
        self.count as nat
    }

    /// Nothing yet, for so many targets.
    pub fn new(count: usize) -> (r: LockManyCollector)
        ensures
            r@ == Seq::<Result<LockDescView, ErrorView>>::empty(),
            r.targets() == count,
    {
        let r = LockManyCollector { entries: Vec::new(), count };
        assert(r@ =~= Seq::<Result<LockDescView, ErrorView>>::empty());
        r
    }

    fn push(&mut self, x: Result<LockDesc, SvnError>) -> (r: Result<ManyStep, SvnError>)
        ensures
            final(self).targets() == old(self).targets(),
            many_took(
                r,
                old(self)@,
                final(self)@,
                many_collected(
                    old(self)@,
                    old(self).targets(),
                    Ok::<ManyItem<LockDescView>, ErrorView>(ManyItem::Result(result_view(x))),
                    "lock-many"@,
                ),
            ),
    {
        let ghost before = self@;
        let ghost said = result_view(x);
        assert(before.len() == self.entries@.len());
        if self.entries.len() >= self.count {
            return Err(protocol_with("lock-many", " returned more results than targets"));
        }
        self.entries.push(x);
        assert(self@ =~= before.push(said));
        Ok(ManyStep::More)
    }

    /// Takes an item, and says how the answer goes on.
    pub fn take(&mut self, item: &SvnItem) -> (r: Result<ManyStep, SvnError>)
        ensures
            final(self).targets() == old(self).targets(),
            many_took(
                r,
                old(self)@,
                final(self)@,
                many_collected(
                    old(self)@,
                    old(self).targets(),
                    many_item(
                        item.deep_view(),
                        "lock-many"@,
                        old(self)@.len() == 0,
                        |p: Seq<ItemView>| locked(p),
                    ),
                    "lock-many"@,
                ),
            ),
    {
        let what = cat("lock-many", " item");
        let v = match next_entry(item, &what) {
            Err(e) => {
                return Err(e);
            },
            Ok(None) => {
                return Ok(ManyStep::Done);
            },
            Ok(Some(v)) => v,
        };
        let status = match word_at(v, 0) {
            Some(w) => w,
            None => {
                return Err(protocol_with("lock-many", " status not a word"));
            },
        };
        let params = match list_at(v, 1) {
            Some(p) => p,
            None => {
                return Err(protocol_with("lock-many", " params not a list"));
            },
        };
        if str_eq(&status, "success") {
            match item_at(params, 0) {
                None => Err(protocol("lock-many success missing lockdesc")),
                Some(lock) => self.push(parse_lockdesc(lock)),
            }
        } else if str_eq(&status, "failure") {
            proof {
                reveal_strlit("success");
                reveal_strlit("failure");
            }
            let err = parse_failure(params);
            assert(self@.len() == self.entries@.len());
            if self.entries.len() == 0 && is_unknown_command_error(&err) {
                return Ok(ManyStep::Unsupported);
            }
            self.push(Err(err))
        } else {
            let mut s = cat3("unexpected ", "lock-many", " status: ");
            s.append(&status);
            Err(SvnError::Protocol(s))
        }
    }

    /// What was collected, if the command succeeded and gave a result for each target.
    pub fn finish(self, response: &CommandResponse) -> (r: Result<
        Vec<Result<LockDesc, SvnError>>,
        SvnError,
    >)
        ensures
            many_is(
                r,
                many_finished(self@, self.targets(), response.deep_view(), "lock-many"@),
            ),
    {
        match response.ensure_success("lock-many") {
            Ok(_) => {},
            Err(e) => {
                return Err(e);
            },
        }
        assert(self@.len() == self.entries@.len());
        let got = self.entries.len();
        if got != self.count {
            return Err(count_message("lock-many", got, self.count));
        }
        Ok(self.entries)
    }
}

/// Collects the results of releasing locks.
pub struct UnlockManyCollector {
    entries: Vec<Result<String, SvnError>>,
    count: usize,
}

impl View for UnlockManyCollector {
    type V = Seq<Result<Seq<char>, ErrorView>>;

    closed spec fn view(&self) -> Seq<Result<Seq<char>, ErrorView>> {
        outcomes(self.entries@)
    }
}

impl UnlockManyCollector {
    /// How many targets there are.
    pub closed spec fn targets(self) -> nat {
        self.count as nat
    }

    /// Nothing yet, for so many targets.
    pub fn new(count: usize) -> (r: UnlockManyCollector)
        ensures
            r@ == Seq::<Result<Seq<char>, ErrorView>>::empty(),
            r.targets() == count,
    {
        let r = UnlockManyCollector { entries: Vec::new(), count };
        assert(r@ =~= Seq::<Result<Seq<char>, ErrorView>>::empty());
        r
    }

    fn push(&mut self, x: Result<String, SvnError>) -> (r: Result<ManyStep, SvnError>)
        ensures
            final(self).targets() == old(self).targets(),
            many_took(
                r,
                old(self)@,
                final(self)@,
                many_collected(
                    old(self)@,
                    old(self).targets(),
                    Ok::<ManyItem<Seq<char>>, ErrorView>(ManyItem::Result(result_view(x))),
                    "unlock-many"@,
                ),
            ),
    {
        let ghost before = self@;
        let ghost said = result_view(x);
        assert(before.len() == self.entries@.len());
        if self.entries.len() >= self.count {
            return Err(protocol_with("unlock-many", " returned more results than targets"));
        }
        self.entries.push(x);
        assert(self@ =~= before.push(said));
        Ok(ManyStep::More)
    }

    /// Takes an item, and says how the answer goes on.
    pub fn take(&mut self, item: &SvnItem) -> (r: Result<ManyStep, SvnError>)
        ensures
            final(self).targets() == old(self).targets(),
            many_took(
                r,
                old(self)@,
                final(self)@,
                many_collected(
                    old(self)@,
                    old(self).targets(),
                    many_item(
                        item.deep_view(),
                        "unlock-many"@,
                        old(self)@.len() == 0,
                        |p: Seq<ItemView>| unlocked(p),
                    ),
                    "unlock-many"@,
                ),
            ),
    {
        let what = cat("unlock-many", " item");
        let v = match next_entry(item, &what) {
            Err(e) => {
                return Err(e);
            },
            Ok(None) => {
                return Ok(ManyStep::Done);
            },
            Ok(Some(v)) => v,
        };
        let status = match word_at(v, 0) {
            Some(w) => w,
            None => {
                return Err(protocol_with("unlock-many", " status not a word"));
            },
        };
        let params = match list_at(v, 1) {
            Some(p) => p,
            None => {
                return Err(protocol_with("unlock-many", " params not a list"));
            },
        };
        if str_eq(&status, "success") {
            match string_at(params, 0) {
                None => Err(protocol("unlock-many success missing path")),
                Some(path) => self.push(Ok(without_leading(&path, '/'))),
            }
        } else if str_eq(&status, "failure") {
            proof {
                reveal_strlit("success");
                reveal_strlit("failure");
            }
            let err = parse_failure(params);
            assert(self@.len() == self.entries@.len());
            if self.entries.len() == 0 && is_unknown_command_error(&err) {
                return Ok(ManyStep::Unsupported);
            }
            self.push(Err(err))
        } else {
            let mut s = cat3("unexpected ", "unlock-many", " status: ");
            s.append(&status);
            Err(SvnError::Protocol(s))
        }
    }

    /// What was collected, if the command succeeded and gave a result for each target.
    pub fn finish(self, response: &CommandResponse) -> (r: Result<
        Vec<Result<String, SvnError>>,
        SvnError,
    >)
        ensures
            many_is(
                r,
                many_finished(self@, self.targets(), response.deep_view(), "unlock-many"@),
            ),
    {
        match response.ensure_success("unlock-many") {
            Ok(_) => {},
            Err(e) => {
                return Err(e);
            },
        }
        assert(self@.len() == self.entries@.len());
        let got = self.entries.len();
        if got != self.count {
            return Err(count_message("unlock-many", got, self.count));
        }
        Ok(self.entries)
    }
}

/// How many bytes have come after another `n`, as far as that can be counted.
pub open spec fn text_total(written: u64, n: nat) -> u64 {
    if written + n > u64::MAX {
        u64::MAX
    } else {
        (written + n) as u64
    }
}

/// What a chunk of a text, behind so many bytes, comes to: how many bytes there are with
/// it, or nothing where the text is complete.
pub open spec fn text_taken(written: u64, max_bytes: u64, item: ItemView) -> Result<
    Option<(u64, Seq<u8>)>,
    ErrorView,
> {
    match bytes_string_of(item) {
        None => Err(ErrorView::Protocol("expected file chunk string"@)),
        Some(b) => if b.len() == 0 {
            Ok(None)
        } else if text_total(written, b.len()) > max_bytes {
            Err(ErrorView::Protocol("downloaded file exceeds limit "@ + decimal(max_bytes as nat)))
        } else {
            Ok(Some((text_total(written, b.len()), b)))
        },
    }
}

/// Takes the text of a file, up to a limit.
pub struct FileTextCollector {
    written: u64,
    max_bytes: u64,
}

impl View for FileTextCollector {
    type V = (u64, u64);

    closed spec fn view(&self) -> (u64, u64) {
        (self.written, self.max_bytes)
    }
}

/// What taking a chunk gave.
pub open spec fn text_took(
    r: Result<Option<Vec<u8>>, SvnError>,
    before: (u64, u64),
    after: (u64, u64),
    item: ItemView,
) -> bool {
    let v = text_taken(before.0, before.1, item);
    match r {
        Ok(Some(b)) => v == Ok::<Option<(u64, Seq<u8>)>, ErrorView>(Some((after.0, b@)))
            && after.1 == before.1,
        Ok(None) => v == Ok::<Option<(u64, Seq<u8>)>, ErrorView>(None) && after == before,
        Err(e) => v == Err::<Option<(u64, Seq<u8>)>, ErrorView>(e.deep_view()) && after == before,
    }
}

/// A file that was fetched.
pub open spec fn file_fetched(meta: FileMetaView, written: u64, answer: ResponseView) -> Result<
    GetFileResultView,
    ErrorView,
> {
    match unit_answer(answer, "get-file"@) {
        Err(e) => Err(e),
        Ok(_) => Ok(
            GetFileResultView {
                rev: meta.rev,
                checksum: meta.checksum,
                props: meta.props,
                inherited_props: meta.inherited_props,
                bytes_written: written,
            },
        ),
    }
}

impl FileTextCollector {
    /// Nothing yet.
    pub fn new(max_bytes: u64) -> (r: FileTextCollector)
        ensures
            r@ == (0u64, max_bytes),
    {
        FileTextCollector { written: 0, max_bytes }
    }

    /// How many bytes have been taken.
    pub fn written(&self) -> (r: u64)
        ensures
            r == self@.0,
    {
        self.written
    }

    /// Takes an item: the next chunk of the text, or nothing where the text is complete.
    pub fn take(&mut self, item: &SvnItem) -> (r: Result<Option<Vec<u8>>, SvnError>)
        ensures
            text_took(r, old(self)@, final(self)@, item.deep_view()),
    {
        let b = match item.as_bytes_string() {
            Some(b) => b,
            None => {
                return Err(protocol("expected file chunk string"));
            },
        };
        if b.len() == 0 {
            return Ok(None);
        }
        let n: u64 = b.len() as u64;
        let total: u64 = if n > u64::MAX - self.written {
            u64::MAX
        } else {
            self.written + n
        };
        if total > self.max_bytes {
            return Err(
                SvnError::Protocol(
                    cat("downloaded file exceeds limit ", &decimal_string(self.max_bytes)),
                ),
            );
        }
        self.written = total;
        Ok(Some(b))
    }

    /// The file, from what came before the text, the bytes that were taken, and the
    /// answer that came after it.
    pub fn finish(self, meta: FileMeta, response: &CommandResponse) -> (r: Result<
        GetFileResult,
        SvnError,
    >)
        ensures
            result_view(r) == file_fetched(meta.deep_view(), self@.0, response.deep_view()),
            r matches Ok(f) ==> f.props == meta.props && f.inherited_props == meta.inherited_props,
    {
        match succeeded(response, "get-file") {
            Err(e) => Err(e),
            Ok(_) => Ok(
                GetFileResult {
                    rev: meta.rev,
                    checksum: meta.checksum,
                    props: meta.props,
                    inherited_props: meta.inherited_props,
                    bytes_written: self.written,
                },
            ),
        }
    }
}

} // verus!
