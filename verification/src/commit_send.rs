//! Sending a commit: the command that opens it, and its editor drive in batches.

use vstd::prelude::*;
use vstd::utf8::*;

use crate::drive_laws::editor_after;
use crate::edit::{command_params, encode_editor_command};
use crate::editor::{EditView, EditorCommand};
use crate::error::{protocol, result_view, ErrorView, SvnError};
use crate::keymap::{in_order, lemma_keys_in_order, KeyMap};
use crate::options::{CommitLockTokenView, CommitOptions, CommitOptionsView};
use crate::params::{command4, list, text};
use crate::path::{rel_path, validate_rel_path};
use crate::raw::{copy_bytes, text_item, ItemView, SvnItem};
use crate::text::{
    bytes_of, char_is_space, chars_of, has_prefix, is_space, skip_chars, slice_text, starts_with,
    str_eq, trim_start, trimmed_start,
};
use crate::types::{props_view, PropertyList};
use crate::wire::{command_item, encode_line};

verus! {

/// A batch is sent when it holds this many bytes.
pub const MAX_BATCH_BYTES: usize = 262144;

/// A batch is sent when it holds this many commands.
pub const MAX_COMMANDS_PER_BATCH: usize = 32;

/// A command ends a drive.
pub open spec fn ends_drive(c: EditView) -> bool {
    c is CloseEdit || c is AbortEdit
}

/// Commands can be committed: the last one closes the edit, and no other one ends it.
pub open spec fn commands_checked(commands: Seq<EditView>) -> Result<(), ErrorView> {
    if commands.len() == 0 {
        Err(ErrorView::Protocol("commit requires at least a close-edit command"@))
    } else if commands.last() !is CloseEdit {
        Err(ErrorView::Protocol("commit editor commands must end with close-edit"@))
    } else if exists|i: int|
        0 <= i < commands.len() - 1 && ends_drive(#[trigger] commands[i]) {
        Err(ErrorView::Protocol("commit editor commands may only close or abort at the end"@))
    } else {
        Ok(())
    }
}

/// Whether commands can be committed.
pub fn check_commit_commands(commands: &[EditorCommand]) -> (r: Result<(), SvnError>)
    ensures
        result_view(r) == commands_checked(commands.deep_view()),
{
    let n = commands.len();
    let ghost all = commands.deep_view();
    if n == 0 {
        return Err(protocol("commit requires at least a close-edit command"));
    }
    assert(all.last() == commands@[n - 1].deep_view());
    match &commands[n - 1] {
        EditorCommand::CloseEdit => {},
        _ => {
            return Err(protocol("commit editor commands must end with close-edit"));
        },
    }
    let mut i: usize = 0;
    while i < n - 1
        invariant
            i <= n - 1,
            n == commands@.len(),
            n > 0,
            all == commands.deep_view(),
            all.last() is CloseEdit,
            forall|k: int| 0 <= k < i ==> !ends_drive(#[trigger] all[k]),
        decreases n - i,
    {
        assert(all[i as int] == commands@[i as int].deep_view());
        match &commands[i] {
            EditorCommand::CloseEdit | EditorCommand::AbortEdit => {
                assert(ends_drive(all[i as int]));
                return Err(protocol("commit editor commands may only close or abort at the end"));
            },
            _ => {},
        }
        i = i + 1;
    }
    Ok(())
}

/// After commands that are in order, the edit is closed exactly if the last one closes
/// it, and none before ends it.
proof fn lemma_only_last_ends(commands: Seq<EditView>)
    ensures
        editor_after(commands) matches Some(s) ==> commands.len() > 0 && (s.done
            <==> commands.last() is CloseEdit) && forall|i: int|
            0 <= i < commands.len() && ends_drive(#[trigger] commands[i]) ==> s.done && i
                == commands.len() - 1,
    decreases commands.len(),
{
    if commands.len() > 1 {
        let before = commands.drop_last();
        lemma_only_last_ends(before);
        if let Some(s) = editor_after(commands) {
            let t = editor_after(before)->0;
            assert(!t.done);
            assert forall|i: int|
                0 <= i < commands.len() && ends_drive(#[trigger] commands[i]) implies s.done && i
                == commands.len() - 1 by {
                if i < before.len() {
                    assert(before[i] == commands[i]);
                    assert(ends_drive(before[i]));
                }
            }
        }
    }
}

/// A drive that is complete and in order can be committed.
pub proof fn drives_in_order_can_be_committed(commands: Seq<EditView>)
    requires
        editor_after(commands) matches Some(s) && s.done,
    ensures
        commands_checked(commands) == Ok::<(), ErrorView>(()),
{
    lemma_only_last_ends(commands);
}

/// The index of the first white space at or after `i`, or the length.
pub open spec fn space_from(s: Seq<char>, i: int) -> int
    decreases s.len() - i,
{
    if 0 <= i < s.len() && !is_space(s[i]) {
        space_from(s, i + 1)
    } else {
        i
    }
}

/// The version of this library, which a client that does not call itself `SVN/...` names.
pub fn library_version() -> (r: &'static str)
    ensures
        r@ == "0.1.0"@,
{
    "0.1.0"
}

/// The version that a client is compatible with: the first word behind `SVN/`, or the
/// version of this library.
pub open spec fn compat_version(ra_client: Seq<char>) -> Seq<char> {
    if has_prefix(ra_client, "SVN/"@) {
        let rest = ra_client.skip(4);
        let t = trim_start(rest);
        if t.len() == 0 {
            rest
        } else {
            t.take(space_from(t, 0))
        }
    } else {
        "0.1.0"@
    }
}

/// The version that a client is compatible with.
pub fn txn_client_compat_version(ra_client: &str) -> (r: String)
    ensures
        r@ == compat_version(ra_client@),
{
    if !starts_with(ra_client, "SVN/") {
        return library_version().to_owned();
    }
    proof {
        reveal_strlit("SVN/");
    }
    let rest = skip_chars(ra_client, 4);
    let t = trimmed_start(&rest);
    if t.as_str().is_empty() {
        return rest;
    }
    let cs = chars_of(&t);
    let mut i: usize = 0;
    while i < cs.len() && !char_is_space(cs[i])
        invariant
            i <= cs.len(),
            cs@ == t@,
            space_from(t@, 0) == space_from(t@, i as int),
        decreases cs.len() - i,
    {
        i = i + 1;
    }
    assert(cs@.subrange(0, i as int) =~= t@.take(i as int));
    slice_text(&cs, 0, i)
}

/// Properties as an item: a list of names and values, in the order of the names.
pub open spec fn proplist_item(props: Map<Seq<char>, Seq<u8>>) -> ItemView {
    ItemView::List(
        in_order(props.dom()).map_values(
            |k: Seq<char>| ItemView::List(seq![text_item(k), ItemView::String(props[k])]),
        ),
    )
}

/// Properties as an item.
pub fn encode_proplist(props: &PropertyList) -> (r: SvnItem)
    requires
        props.wf(),
    ensures
        r.deep_view() == proplist_item(props_view(*props)),
{
    let mut items: Vec<SvnItem> = Vec::new();
    let ghost v = props_view(*props);
    let ghost keys = in_order(v.dom());
    let ghost pairs = props.pairs();
    proof {
        lemma_keys_in_order(*props);
        assert(v.dom() =~= props@.dom());
    }
    let n = props.len();
    let mut i: usize = 0;
    while i < n
        invariant
            i <= n,
            n == pairs.len(),
            pairs == props.pairs(),
            props.wf(),
            v == props_view(*props),
            keys == in_order(v.dom()),
            keys.len() == pairs.len(),
            forall|k: int| 0 <= k < pairs.len() ==> #[trigger] keys[k] == pairs[k].0,
            items@.len() == i,
            forall|k: int|
                0 <= k < i ==> (#[trigger] items@[k]).deep_view() == ItemView::List(
                    seq![text_item(keys[k]), ItemView::String(v[keys[k]])],
                ),
        decreases n - i,
    {
        let name = props.key_at(i);
        let value = props.value_at(i);
        proof {
            crate::keymap::lemma_entry(pairs, i as int);
            assert(keys[i as int] == pairs[i as int].0);
        }
        let p = vec![text(name), SvnItem::String(copy_bytes(value))];
        assert(p.deep_view() =~= seq![text_item(name@), ItemView::String(value@)]);
        items.push(list(p));
        i = i + 1;
    }
    assert(items.deep_view() =~= keys.map_values(
        |k: Seq<char>| ItemView::List(seq![text_item(k), ItemView::String(v[k])]),
    ));
    list(items)
}

/// The properties that the new revision gets.
pub open spec fn commit_props(o: CommitOptionsView, ra_client: Seq<char>, ephemeral: bool) -> Map<
    Seq<char>,
    Seq<u8>,
> {
    let p = o.rev_props.insert("svn:log"@, encode_utf8(o.log_message));
    if ephemeral {
        p.insert(
            "svn:txn-client-compat-version"@,
            encode_utf8(compat_version(ra_client)),
        ).insert("svn:txn-user-agent"@, encode_utf8(ra_client))
    } else {
        p
    }
}

/// The locks that a commit holds, from index `i` on, behind those before.
pub open spec fn lock_tokens_from(
    tokens: Seq<CommitLockTokenView>,
    i: int,
    before: Seq<ItemView>,
) -> Result<Seq<ItemView>, ErrorView>
    decreases tokens.len() - i,
{
    if i < 0 || i >= tokens.len() {
        Ok(before)
    } else {
        match rel_path(tokens[i].path) {
            Err(e) => Err(e),
            Ok(p) => lock_tokens_from(
                tokens,
                i + 1,
                before.push(ItemView::List(seq![text_item(p), text_item(tokens[i].token)])),
            ),
        }
    }
}

/// The command that opens a commit, where the server does or does not take properties of
/// the revision, and of the transaction alone.
pub open spec fn commit_item(
    o: CommitOptionsView,
    ra_client: Seq<char>,
    takes_revprops: bool,
    takes_ephemeral: bool,
) -> Result<ItemView, ErrorView> {
    if !takes_revprops && exists|k: Seq<char>| #[trigger]
        o.rev_props.dom().contains(k) && k != "svn:log"@ {
        Err(
            ErrorView::Protocol(
                "server does not support setting revision properties during commit"@,
            ),
        )
    } else {
        match lock_tokens_from(o.lock_tokens, 0, Seq::empty()) {
            Err(e) => Err(e),
            Ok(tokens) => Ok(
                command_item(
                    "commit"@,
                    seq![
                        text_item(o.log_message),
                        ItemView::List(tokens),
                        ItemView::Bool(o.keep_locks),
                        proplist_item(
                            commit_props(o, ra_client, takes_revprops && takes_ephemeral),
                        ),
                    ],
                ),
            ),
        }
    }
}

fn has_other_props(props: &PropertyList) -> (r: bool)
    requires
        props.wf(),
    ensures
        r == exists|k: Seq<char>| #[trigger]
            props_view(*props).dom().contains(k) && k != "svn:log"@,
{
    let keys = props.keys();
    let ghost all = keys.deep_view();
    let ghost dom = props_view(*props).dom();
    proof {
        lemma_keys_in_order(*props);
        assert(dom =~= props@.dom());
    }
    let mut i: usize = 0;
    while i < keys.len()
        invariant
            i <= keys.len(),
            all == keys.deep_view(),
            dom == props_view(*props).dom(),
            forall|t: Seq<char>| #[trigger] dom.contains(t) <==> all.contains(t),
            forall|k: int| 0 <= k < i ==> #[trigger] all[k] == "svn:log"@,
        decreases keys.len() - i,
    {
        assert(all[i as int] == keys@[i as int]@);
        if !str_eq(&keys[i], "svn:log") {
            assert(all.contains(all[i as int]));
            assert(dom.contains(all[i as int]));
            return true;
        }
        i = i + 1;
    }
    assert forall|k: Seq<char>| #[trigger] dom.contains(k) implies k == "svn:log"@ by {
        let j = choose|j: int| 0 <= j < all.len() && all[j] == k;
        assert(all[j] == "svn:log"@);
    }
    false
}

fn clone_props(props: &PropertyList) -> (r: PropertyList)
    requires
        props.wf(),
    ensures
        r.wf(),
        props_view(r) == props_view(*props),
{
    let mut out: PropertyList = KeyMap::new();
    let ghost pairs = props.pairs();
    let n = props.len();
    let mut i: usize = 0;
    while i < n
        invariant
            i <= n,
            n == pairs.len(),
            pairs == props.pairs(),
            props.wf(),
            out.wf(),
            forall|k: Seq<char>| #[trigger]
                out@.dom().contains(k) <==> exists|j: int|
                    0 <= j < i && (#[trigger] pairs[j]).0 == k,
            forall|k: Seq<char>| #[trigger]
                out@.dom().contains(k) ==> out@[k]@ == props@[k]@,
        decreases n - i,
    {
        let ghost before = out@;
        let ghost key = pairs[i as int].0;
        proof {
            crate::keymap::lemma_entry(pairs, i as int);
        }
        out.insert(props.key_at(i).clone(), copy_bytes(props.value_at(i)));
        assert forall|k: Seq<char>| #[trigger]
            out@.dom().contains(k) <==> exists|j: int|
                0 <= j < i + 1 && (#[trigger] pairs[j]).0 == k by {
            if before.dom().contains(k) {
                let j = choose|j: int| 0 <= j < i && (#[trigger] pairs[j]).0 == k;
                assert(pairs[j].0 == k);
            }
            assert(pairs[i as int].0 == key);
        }
        i = i + 1;
    }
    proof {
        assert forall|k: Seq<char>| #[trigger]
            props@.dom().contains(k) <==> out@.dom().contains(k) by {
            if props@.dom().contains(k) {
                let j = choose|j: int| 0 <= j < pairs.len() && (#[trigger] pairs[j]).0 == k;
                assert(pairs[j].0 == k);
            }
            if out@.dom().contains(k) {
                let j = choose|j: int| 0 <= j < pairs.len() && (#[trigger] pairs[j]).0 == k;
                crate::keymap::lemma_entry(pairs, j);
            }
        }
        assert(props_view(out) =~= props_view(*props));
    }
    out
}

fn put_text(props: &mut PropertyList, name: &str, value: &str)
    requires
        old(props).wf(),
    ensures
        final(props).wf(),
        props_view(*final(props)) == props_view(*old(props)).insert(name@, encode_utf8(value@)),
{
    let ghost before = props_view(*props);
    props.insert(name.to_owned(), bytes_of(value));
    assert(props_view(*props) =~= before.insert(name@, encode_utf8(value@)));
}

/// The command that opens a commit.
pub fn commit_request(
    o: &CommitOptions,
    ra_client: &str,
    takes_revprops: bool,
    takes_ephemeral: bool,
) -> (r: Result<SvnItem, SvnError>)
    requires
        o.rev_props.wf(),
    ensures
        result_view(r) == commit_item(o.deep_view(), ra_client@, takes_revprops, takes_ephemeral),
{
    if !takes_revprops && has_other_props(&o.rev_props) {
        return Err(
            protocol("server does not support setting revision properties during commit"),
        );
    }
    let ghost tokens = o.lock_tokens.deep_view();
    let mut items: Vec<SvnItem> = Vec::new();
    let mut i: usize = 0;
    assert(items.deep_view() =~= Seq::<ItemView>::empty());
    while i < o.lock_tokens.len()
        invariant
            i <= o.lock_tokens.len(),
            tokens == o.lock_tokens.deep_view(),
            lock_tokens_from(tokens, i as int, items.deep_view()) == lock_tokens_from(
                tokens,
                0,
                Seq::empty(),
            ),
            takes_revprops || !exists|k: Seq<char>| #[trigger]
                o.deep_view().rev_props.dom().contains(k) && k != "svn:log"@,
        decreases o.lock_tokens.len() - i,
    {
        assert(tokens[i as int] == o.lock_tokens@[i as int].deep_view());
        let p = match validate_rel_path(&o.lock_tokens[i].path) {
            Ok(p) => p,
            Err(e) => {
                return Err(e);
            },
        };
        let ghost before = items.deep_view();
        let pair = vec![text(&p), text(&o.lock_tokens[i].token)];
        assert(pair.deep_view() =~= seq![text_item(p@), text_item(tokens[i as int].token)]);
        let item = list(pair);
        let ghost said = item.deep_view();
        items.push(item);
        assert(items.deep_view() =~= before.push(said));
        i = i + 1;
    }
    let mut props = clone_props(&o.rev_props);
    put_text(&mut props, "svn:log", &o.log_message);
    if takes_revprops && takes_ephemeral {
        let compat = txn_client_compat_version(ra_client);
        put_text(&mut props, "svn:txn-client-compat-version", &compat);
        put_text(&mut props, "svn:txn-user-agent", ra_client);
    }
    Ok(
        command4(
            "commit",
            text(&o.log_message),
            list(items),
            SvnItem::Bool(o.keep_locks),
            encode_proplist(&props),
        ),
    )
}

/// The bytes that carry a command.
pub open spec fn command_bytes(c: EditView) -> Seq<u8> {
    let p = command_params(c)->Ok_0;
    encode_line(command_item(p.0, p.1))
}

/// Commands that are sent together.
pub struct CommitBatch {
    batch: Vec<u8>,
    since_poll: usize,
}

/// What a `CommitBatch` holds: the bytes of its commands, and how many there are.
pub struct BatchView {
    pub bytes: Seq<u8>,
    pub count: nat,
}

impl View for CommitBatch {
    type V = BatchView;

    closed spec fn view(&self) -> BatchView {
        BatchView { bytes: self.batch@, count: self.since_poll as nat }
    }
}

impl BatchView {
    /// A batch with one more command: what is sent now, and what is kept.
    pub open spec fn with(self, c: EditView) -> (Seq<u8>, BatchView) {
        let bytes = self.bytes + command_bytes(c);
        if self.count + 1 >= MAX_COMMANDS_PER_BATCH || bytes.len() >= MAX_BATCH_BYTES {
            (bytes, BatchView { bytes: Seq::empty(), count: 0 })
        } else {
            (Seq::empty(), BatchView { bytes, count: self.count + 1 })
        }
    }
}

/// What adding a command did.
pub open spec fn batch_took(
    r: Result<Vec<u8>, SvnError>,
    before: BatchView,
    after: BatchView,
    c: EditView,
) -> bool {
    match r {
        Ok(sent) => command_params(c) is Ok && (sent@, after) == before.with(c),
        Err(e) => command_params(c) == Err::<(Seq<char>, Seq<ItemView>), ErrorView>(e.deep_view())
            && after == before,
    }
}

impl CommitBatch {
    /// An empty batch.
    pub fn new() -> (r: CommitBatch)
        ensures
            r@ == (BatchView { bytes: Seq::empty(), count: 0 }),
            r.wf(),
    {
        CommitBatch { batch: Vec::new(), since_poll: 0 }
    }

    /// The batch is not full.
    pub open spec fn wf(self) -> bool {
        self@.count < MAX_COMMANDS_PER_BATCH
    }

    /// Whether it is time to look whether the server has answered already.
    pub fn needs_poll(&self) -> (r: bool)
        ensures
            r == (self@.count == 0),
    {
        self.since_poll == 0
    }

    /// Adds a command, and gives the bytes that are to be sent now.
    pub fn add(&mut self, c: &EditorCommand) -> (r: Result<Vec<u8>, SvnError>)
        requires
            old(self).wf(),
        ensures
            final(self).wf(),
            batch_took(r, old(self)@, final(self)@, c.deep_view()),
    {
        match encode_editor_command(c, &mut self.batch) {
            Ok(_) => {},
            Err(e) => {
                return Err(e);
            },
        }
        self.since_poll = self.since_poll + 1;
        let mut out: Vec<u8> = Vec::new();
        if self.since_poll >= MAX_COMMANDS_PER_BATCH || self.batch.len() >= MAX_BATCH_BYTES {
            std::mem::swap(&mut out, &mut self.batch);
            self.since_poll = 0;
        }
        Ok(out)
    }

    /// The bytes that are left to be sent.
    pub fn finish(self) -> (r: Vec<u8>)
        ensures
            r@ == self@.bytes,
    {
        self.batch
    }
}

/// The bytes of the commands before index `n`, one behind the other.
pub open spec fn all_bytes(commands: Seq<EditView>, n: int) -> Seq<u8>
    decreases n,
{
    if n <= 0 || n > commands.len() {
        Seq::empty()
    } else {
        all_bytes(commands, n - 1) + command_bytes(commands[n - 1])
    }
}

/// What batching the commands before index `n` sends, and what it keeps.
pub open spec fn batched(commands: Seq<EditView>, n: int) -> (Seq<u8>, BatchView)
    decreases n,
{
    if n <= 0 || n > commands.len() {
        (Seq::empty(), BatchView { bytes: Seq::empty(), count: 0 })
    } else {
        let (sent, b) = batched(commands, n - 1);
        let (now, kept) = b.with(commands[n - 1]);
        (sent + now, kept)
    }
}

/// Batching loses and reorders nothing: what has been sent, with what is kept, is the
/// commands one behind the other. What is kept is never a full batch.
pub proof fn batches_hold_all_commands(commands: Seq<EditView>, n: int)
    requires
        0 <= n <= commands.len(),
    ensures
        batched(commands, n).0 + batched(commands, n).1.bytes == all_bytes(commands, n),
        batched(commands, n).1.count < MAX_COMMANDS_PER_BATCH,
        batched(commands, n).1.bytes.len() < MAX_BATCH_BYTES,
    decreases n,
{
    if n > 0 {
        batches_hold_all_commands(commands, n - 1);
        let (sent, b) = batched(commands, n - 1);
        let (now, kept) = b.with(commands[n - 1]);
        let c = command_bytes(commands[n - 1]);
        assert((sent + now) + kept.bytes =~= (sent + b.bytes) + c);
    } else {
        assert(Seq::<u8>::empty() + Seq::<u8>::empty() =~= Seq::<u8>::empty());
    }
}

/// A server that answers in the middle of a drive has refused the commit: a success at
/// that point is an error.
pub fn early_status(response: &crate::conn::CommandResponse) -> (r: SvnError)
    ensures
        r.deep_view() == (if response.deep_view().success {
            ErrorView::Protocol("successful edit status returned too soon"@)
        } else {
            crate::conn::response_failure(response.deep_view(), "abort-edit"@)
        }),
{
    match response.ensure_success("abort-edit") {
        Ok(_) => protocol("successful edit status returned too soon"),
        Err(e) => e,
    }
}

} // verus!
