//! The state of one tab: connection status, the files the computer shares,
//! the notifications shown above the editor, the mirrored terminal and the
//! AI assistant panel, with the transitions that packets, connection events
//! and user actions make. Channels and tasks live with the caller, which
//! hands each drained event in and sends each packet this state gives back.

use crate::checksum::{fletcher32, fletcher32_spec};
use crate::diff::{apply_fragments, char_alignment, compute_diff, fragments_of, Fragment};
use crate::protocol::{FileActionEntry, FileConsumeEntry, FileConsumeResult, Packet, TerminalContents};
use crate::text::{
    chars_of, is_back_run, is_front_run, is_white_space, is_white_space_char,
    lemma_back_run_unique, lemma_front_run_unique, trim_both_by, white_space, lemma_text_le_total, lemma_text_le_transitive, text_le, text_le_exec, trim_for_save,
    trim_trailing_whitespace,
};
use std::collections::HashMap;
use vstd::prelude::*;
use vstd::string::StrSliceExecFns;
use vstd::string::StringExecFns;
use vstd::utf8::encode_utf8;

verus! {

broadcast use vstd::seq_lib::group_seq_properties;

/// What the connection task reports.
#[derive(Debug)]
pub enum SessionEvent {
    Connected,
    Packet(Packet),
    Closed(String),
    Error(String),
}

/// Where the connection stands.
#[derive(Clone, Debug)]
pub enum SessionStatus {
    Connecting,
    /// Handshake complete but no `file:host` / `terminal:host` peer yet.
    Waiting,
    /// At least one host peer is present.
    Connected,
    LostConnection,
    Errored(String),
}

pub enum StatusView {
    Connecting,
    Waiting,
    Connected,
    LostConnection,
    Errored(Seq<char>),
}

impl View for SessionStatus {
    type V = StatusView;

    open spec fn view(&self) -> StatusView {
        match self {
            SessionStatus::Connecting => StatusView::Connecting,
            SessionStatus::Waiting => StatusView::Waiting,
            SessionStatus::Connected => StatusView::Connected,
            SessionStatus::LostConnection => StatusView::LostConnection,
            SessionStatus::Errored(reason) => StatusView::Errored(reason@),
        }
    }
}

pub open spec fn opt_view(o: Option<String>) -> Option<Seq<char>> {
    match o {
        Some(s) => Some(s@),
        None => None,
    }
}

/// What the host told of the computer.
#[derive(Clone, Debug)]
pub struct SessionInfo {
    pub computer_id: Option<i64>,
    pub label: Option<String>,
}

pub struct InfoView {
    pub computer_id: Option<i64>,
    pub label: Option<Seq<char>>,
}

impl View for SessionInfo {
    type V = InfoView;

    open spec fn view(&self) -> InfoView {
        InfoView { computer_id: self.computer_id, label: opt_view(self.label) }
    }
}

impl Default for SessionInfo {
    fn default() -> (r: Self)
        ensures
            r@ == (InfoView { computer_id: None, label: None }),
    {
        SessionInfo { computer_id: None, label: None }
    }
}

/// The mirrored screen of the computer.
#[derive(Clone, Debug)]
pub struct TerminalState {
    pub width: u32,
    pub height: u32,
    pub text: Vec<String>,
    pub fore: Vec<String>,
    pub back: Vec<String>,
    /// Cursor column, counted from 0.
    pub cursor_x: u32,
    /// Cursor row, counted from 0.
    pub cursor_y: u32,
    pub cursor_blink: bool,
    pub cursor_fore: String,
    pub cursor_back: String,
    /// Palette from the host, keyed by single-char index ("0".."f"), value is
    /// a packed 0x00RRGGBB int. `None` until the first `TerminalContents`
    /// packet lands; renderers then fall back to the default palette.
    pub palette: Option<HashMap<String, u32>>,
}

pub open spec fn lines_view(v: Seq<String>) -> Seq<Seq<char>> {
    v.map_values(|s: String| s@)
}

pub struct TerminalView {
    pub width: u32,
    pub height: u32,
    pub text: Seq<Seq<char>>,
    pub fore: Seq<Seq<char>>,
    pub back: Seq<Seq<char>>,
    pub cursor_x: u32,
    pub cursor_y: u32,
    pub cursor_blink: bool,
    pub cursor_fore: Seq<char>,
    pub cursor_back: Seq<char>,
    pub palette: Option<HashMap<String, u32>>,
}

impl View for TerminalState {
    type V = TerminalView;

    open spec fn view(&self) -> TerminalView {
        TerminalView {
            width: self.width,
            height: self.height,
            text: lines_view(self.text@),
            fore: lines_view(self.fore@),
            back: lines_view(self.back@),
            cursor_x: self.cursor_x,
            cursor_y: self.cursor_y,
            cursor_blink: self.cursor_blink,
            cursor_fore: self.cursor_fore@,
            cursor_back: self.cursor_back@,
            palette: self.palette,
        }
    }
}

fn empty_lines(n: usize) -> (v: Vec<String>)
    ensures
        lines_view(v@) == Seq::new(n as nat, |i: int| Seq::<char>::empty()),
{
    let mut v: Vec<String> = Vec::new();
    let mut i: usize = 0;
    while i < n
        invariant
            i <= n,
            lines_view(v@) == Seq::new(i as nat, |j: int| Seq::<char>::empty()),
        decreases n - i,
    {
        let ghost before = v@;
        let e = String::new();
        assert(e@ == Seq::<char>::empty());
        v.push(e);
        proof {
            assert(v@ == before.push(e));
            assert(lines_view(v@) =~= lines_view(before).push(e@));
            assert(lines_view(v@) =~= Seq::new((i + 1) as nat, |j: int| Seq::<char>::empty()));
        }
        i += 1;
    }
    v
}

impl Default for TerminalState {
    /// An 80 by 25 blank screen with the cursor at the top left, white on
    /// black, blinking, and no palette yet.
    fn default() -> (r: Self)
        ensures
            r@ == (TerminalView {
                width: 80,
                height: 25,
                text: Seq::new(25, |i: int| Seq::<char>::empty()),
                fore: Seq::new(25, |i: int| Seq::<char>::empty()),
                back: Seq::new(25, |i: int| Seq::<char>::empty()),
                cursor_x: 1,
                cursor_y: 1,
                cursor_blink: true,
                cursor_fore: "#ffffff"@,
                cursor_back: "#000000"@,
                palette: None,
            }),
    {
        TerminalState {
            width: 80,
            height: 25,
            text: empty_lines(25),
            fore: empty_lines(25),
            back: empty_lines(25),
            cursor_x: 1,
            cursor_y: 1,
            cursor_blink: true,
            cursor_fore: String::from_str("#ffffff"),
            cursor_back: String::from_str("#000000"),
            palette: None,
        }
    }
}

/// A save in flight: what was sent, and its checksum.
#[derive(Clone, Debug)]
pub struct PendingUpdate {
    pub contents: String,
    pub checksum: u32,
}

/// One file of the computer, as the editor holds it.
#[derive(Clone, Debug)]
pub struct FileModel {
    pub name: String,
    pub read_only: bool,
    pub is_new: bool,
    /// Last contents we know the remote has.
    pub remote_contents: String,
    pub remote_checksum: u32,
    /// The text the user is editing. Starts equal to `remote_contents`.
    pub buffer: String,
    /// While a save is in flight, these hold what we sent. Cleared on
    /// an accepted `FileConsume`.
    pub pending_update: Option<PendingUpdate>,
}

pub struct FileView {
    pub name: Seq<char>,
    pub read_only: bool,
    pub is_new: bool,
    pub remote_contents: Seq<char>,
    pub remote_checksum: u32,
    pub buffer: Seq<char>,
    pub pending: Option<(Seq<char>, u32)>,
}

impl View for FileModel {
    type V = FileView;

    open spec fn view(&self) -> FileView {
        FileView {
            name: self.name@,
            read_only: self.read_only,
            is_new: self.is_new,
            remote_contents: self.remote_contents@,
            remote_checksum: self.remote_checksum,
            buffer: self.buffer@,
            pending: match self.pending_update {
                Some(p) => Some((p.contents@, p.checksum)),
                None => None,
            },
        }
    }
}

impl FileModel {
    /// The buffer differs from what the remote has.
    pub fn modified(&self) -> (r: bool)
        ensures
            r == (self.buffer@ != self.remote_contents@),
    {
        !(self.buffer == self.remote_contents)
    }
}

/// How a notification is shown.
#[derive(Clone, Copy, Debug, PartialEq, Eq, Structural)]
pub enum NotificationKind {
    Success,
    Warn,
    Error,
}

/// A banner above the editor, replaced by any later one with the same id.
#[derive(Clone, Debug)]
pub struct Notification {
    pub id: String,
    pub kind: NotificationKind,
    pub message: String,
}

pub struct NotificationView {
    pub id: Seq<char>,
    pub kind: NotificationKind,
    pub message: Seq<char>,
}

impl View for Notification {
    type V = NotificationView;

    open spec fn view(&self) -> NotificationView {
        NotificationView { id: self.id@, kind: self.kind, message: self.message@ }
    }
}

/// Where the AI assistant stands.
#[derive(Clone, Debug)]
pub enum AiStatus {
    Idle,
    Running,
    Error(String),
}

pub enum AiStatusView {
    Idle,
    Running,
    Error(Seq<char>),
}

impl View for AiStatus {
    type V = AiStatusView;

    open spec fn view(&self) -> AiStatusView {
        match self {
            AiStatus::Idle => AiStatusView::Idle,
            AiStatus::Running => AiStatusView::Running,
            AiStatus::Error(m) => AiStatusView::Error(m@),
        }
    }
}

impl Default for AiStatus {
    fn default() -> (r: Self)
        ensures
            r@ == AiStatusView::Idle,
    {
        AiStatus::Idle
    }
}

/// The AI assistant panel of a tab.
#[derive(Clone, Debug)]
pub struct AiState {
    /// Free-form instruction the user types into the agent panel.
    pub prompt: String,
    pub status: AiStatus,
    /// Most recent successful response, awaiting Apply / Discard.
    pub last_result: Option<String>,
}

pub struct AiView {
    pub prompt: Seq<char>,
    pub status: AiStatusView,
    pub last_result: Option<Seq<char>>,
}

impl View for AiState {
    type V = AiView;

    open spec fn view(&self) -> AiView {
        AiView { prompt: self.prompt@, status: self.status@, last_result: opt_view(self.last_result) }
    }
}

impl Default for AiState {
    fn default() -> (r: Self)
        ensures
            r@ == (AiView { prompt: Seq::empty(), status: AiStatusView::Idle, last_result: None }),
    {
        AiState { prompt: String::new(), status: AiStatus::Idle, last_result: None }
    }
}

/// What an AI request came back with.
#[derive(Clone, Debug)]
pub enum AiResult {
    /// The model's answer.
    Done(String),
    /// Why the request failed.
    Failed(String),
}

/// The state of one tab.
pub struct Session {
    pub status: SessionStatus,
    pub info: SessionInfo,
    pub files: Vec<FileModel>,
    pub active_file: Option<String>,
    pub notifications: Vec<Notification>,
    pub terminal: TerminalState,
    pub ai: AiState,
    /// Set once we've seen a host peer in a ConnectionUpdate. Used to decide
    /// whether to render the "lost connection" vs "waiting for computer" view.
    pub has_connected: bool,
}

pub open spec fn files_view(v: Seq<FileModel>) -> Seq<FileView> {
    v.map_values(|f: FileModel| f@)
}

pub open spec fn notifications_view(v: Seq<Notification>) -> Seq<NotificationView> {
    v.map_values(|n: Notification| n@)
}

pub struct SessionView {
    pub status: StatusView,
    pub info: InfoView,
    pub files: Seq<FileView>,
    pub active_file: Option<Seq<char>>,
    pub notifications: Seq<NotificationView>,
    pub terminal: TerminalView,
    pub ai: AiView,
    pub has_connected: bool,
}

impl View for Session {
    type V = SessionView;

    open spec fn view(&self) -> SessionView {
        SessionView {
            status: self.status@,
            info: self.info@,
            files: files_view(self.files@),
            active_file: opt_view(self.active_file),
            notifications: notifications_view(self.notifications@),
            terminal: self.terminal@,
            ai: self.ai@,
            has_connected: self.has_connected,
        }
    }
}

impl Session {
    /// A tab whose connection is being opened: no files, no notifications, a
    /// default terminal, an idle assistant.
    pub fn new() -> (s: Self)
        ensures
            s@.status == StatusView::Connecting,
            s@.info == (InfoView { computer_id: None, label: None }),
            s@.files == Seq::<FileView>::empty(),
            s@.active_file is None,
            s@.notifications == Seq::<NotificationView>::empty(),
            s.terminal@ == TerminalState::default_view(),
            s@.ai == (AiView { prompt: Seq::empty(), status: AiStatusView::Idle, last_result: None }),
            !s@.has_connected,
    {
        Session {
            status: SessionStatus::Connecting,
            info: SessionInfo::default(),
            files: Vec::new(),
            active_file: None,
            notifications: Vec::new(),
            terminal: TerminalState::default(),
            ai: AiState::default(),
            has_connected: false,
        }
    }
}

impl TerminalState {
    pub open spec fn default_view() -> TerminalView {
        TerminalView {
            width: 80,
            height: 25,
            text: Seq::new(25, |i: int| Seq::<char>::empty()),
            fore: Seq::new(25, |i: int| Seq::<char>::empty()),
            back: Seq::new(25, |i: int| Seq::<char>::empty()),
            cursor_x: 1,
            cursor_y: 1,
            cursor_blink: true,
            cursor_fore: "#ffffff"@,
            cursor_back: "#000000"@,
            palette: None,
        }
    }
}

/// The id of the notification about `file` in `category` (such as
/// `"update"`): the two joined by a NUL character.
pub open spec fn notification_id(file: Seq<char>, category: Seq<char>) -> Seq<char> {
    file + seq!['\0'] + category
}

/// The notifications of `ns` whose id is not `id`, in order.
pub open spec fn without_id(ns: Seq<NotificationView>, id: Seq<char>) -> Seq<NotificationView>
    decreases ns.len(),
{
    if ns.len() == 0 {
        ns
    } else {
        let rest = without_id(ns.drop_last(), id);
        if ns.last().id == id {
            rest
        } else {
            rest.push(ns.last())
        }
    }
}

/// The state after showing `message` under `id`, replacing any notification
/// with that id.
pub open spec fn push_notification_spec(
    s: SessionView,
    kind: NotificationKind,
    id: Seq<char>,
    message: Seq<char>,
) -> SessionView {
    SessionView {
        notifications: without_id(s.notifications, id).push(
            NotificationView { id, kind, message },
        ),
        ..s
    }
}

/// The state after dropping the notification about `file` in `category`.
pub open spec fn remove_notification_spec(s: SessionView, file: Seq<char>, category: Seq<char>) -> SessionView {
    SessionView { notifications: without_id(s.notifications, notification_id(file, category)), ..s }
}

fn retain_other_ids(ns: Vec<Notification>, id: &String) -> (r: Vec<Notification>)
    ensures
        notifications_view(r@) == without_id(notifications_view(ns@), id@),
{
    let ghost ns0 = ns@;
    let mut out: Vec<Notification> = Vec::new();
    for n in it: ns.into_iter()
        invariant
            it.seq() == ns0,
            notifications_view(out@) == without_id(
                notifications_view(ns0.take(it.index() as int)),
                id@,
            ),
    {
        let ghost k = it.index();
        proof {
            assert(notifications_view(ns0.take(k + 1)).drop_last() =~= notifications_view(
                ns0.take(k as int),
            ));
            assert(notifications_view(ns0.take(k + 1)).last() == n@);
        }
        if !(n.id == *id) {
            let ghost before = out@;
            out.push(n);
            proof {
                assert(notifications_view(out@) =~= notifications_view(before).push(n@));
            }
        }
    }
    proof {
        assert(ns0.take(ns0.len() as int) =~= ns0);
    }
    out
}

impl Session {
    fn retain_notifications(&mut self, id: &String)
        ensures
            final(self)@ == (SessionView {
                notifications: without_id(old(self)@.notifications, id@),
                ..old(self)@
            }),
    {
        let mut ns: Vec<Notification> = Vec::new();
        std::mem::swap(&mut ns, &mut self.notifications);
        self.notifications = retain_other_ids(ns, id);
    }

    /// Shows `message` under `id`, replacing any notification with that id.
    pub fn push_notification(&mut self, kind: NotificationKind, id: &str, message: String)
        ensures
            final(self)@ == push_notification_spec(old(self)@, kind, id@, message@),
    {
        let id_string = String::from_str(id);
        self.retain_notifications(&id_string);
        let ghost before = self.notifications@;
        self.notifications.push(Notification { id: id_string, kind, message });
        proof {
            assert(notifications_view(self.notifications@) =~= notifications_view(before).push(
                NotificationView { id: id@, kind, message: message@ },
            ));
        }
    }

    /// Drops the notification about `file` in `category`.
    pub fn remove_notification(&mut self, file: &str, category: &str)
        ensures
            final(self)@ == remove_notification_spec(old(self)@, file@, category@),
    {
        let id = notification_id_string(file, category);
        self.retain_notifications(&id);
    }
}

/// The id of the notification about `file` in `category`.
pub fn notification_id_string(file: &str, category: &str) -> (r: String)
    ensures
        r@ == notification_id(file@, category@),
{
    let mut id = String::from_str(file);
    crate::text::push_char(&mut id, '\0');
    id.append(category);
    id
}

proof fn lemma_without_id_idempotent(ns: Seq<NotificationView>, id: Seq<char>)
    ensures
        without_id(without_id(ns, id), id) == without_id(ns, id),
    decreases ns.len(),
{
    if ns.len() > 0 {
        lemma_without_id_idempotent(ns.drop_last(), id);
        let rest = without_id(ns.drop_last(), id);
        if ns.last().id != id {
            assert(rest.push(ns.last()).drop_last() =~= rest);
        }
    }
}

/// No notification of `without_id(ns, id)` has id `id`, and every one of
/// them is in `ns`.
pub proof fn lemma_without_id_members(ns: Seq<NotificationView>, id: Seq<char>)
    ensures
        forall|i: int| 0 <= i < without_id(ns, id).len() ==> (#[trigger] without_id(ns, id)[i]).id != id
            && ns.contains(without_id(ns, id)[i]),
    decreases ns.len(),
{
    if ns.len() > 0 {
        lemma_without_id_members(ns.drop_last(), id);
        let rest = without_id(ns.drop_last(), id);
        assert forall|i: int| 0 <= i < without_id(ns, id).len() implies (#[trigger] without_id(ns, id)[i]).id
            != id && ns.contains(without_id(ns, id)[i]) by {
            if i < rest.len() {
                assert(without_id(ns, id)[i] == rest[i]);
                let j = choose|j: int| 0 <= j < ns.drop_last().len() && ns.drop_last()[j] == rest[i];
                assert(ns[j] == rest[i]);
            } else {
                assert(ns[ns.len() - 1] == ns.last());
            }
        }
    }
}

/// Dropping the notification about `file` in `category` right after showing
/// one under that id leaves the notifications as dropping it alone would:
/// the shown one is gone, and so is any earlier one with the same id.
pub proof fn lemma_remove_undoes_push(
    s: SessionView,
    kind: NotificationKind,
    file: Seq<char>,
    category: Seq<char>,
    message: Seq<char>,
)
    ensures
        remove_notification_spec(
            push_notification_spec(s, kind, notification_id(file, category), message),
            file,
            category,
        ) == remove_notification_spec(s, file, category),
{
    let id = notification_id(file, category);
    let w = without_id(s.notifications, id);
    let pushed = w.push(NotificationView { id, kind, message });
    assert(pushed.drop_last() =~= w);
    lemma_without_id_idempotent(s.notifications, id);
}

/// After a notification is shown under `id`, it is the only one with that
/// id, and it is the last.
pub proof fn lemma_push_leaves_one_per_id(
    s: SessionView,
    kind: NotificationKind,
    id: Seq<char>,
    message: Seq<char>,
)
    ensures
        ({
            let ns = push_notification_spec(s, kind, id, message).notifications;
            &&& ns.last() == (NotificationView { id, kind, message })
            &&& forall|i: int| 0 <= i < ns.len() - 1 ==> (#[trigger] ns[i]).id != id
        }),
{
    lemma_without_id_members(s.notifications, id);
    let w = without_id(s.notifications, id);
    let ns = push_notification_spec(s, kind, id, message).notifications;
    assert forall|i: int| 0 <= i < ns.len() - 1 implies (#[trigger] ns[i]).id != id by {
        assert(ns[i] == w[i]);
    }
}

/// How many files of `fs` have a name that does not come after `name`.
pub open spec fn count_not_after(fs: Seq<FileView>, name: Seq<char>) -> nat
    decreases fs.len(),
{
    if fs.len() == 0 {
        0
    } else {
        count_not_after(fs.drop_last(), name) + if text_le(fs.last().name, name) {
            1nat
        } else {
            0nat
        }
    }
}

/// `f` placed after every file of `fs` whose name does not come after its
/// own.
pub open spec fn insert_by_name(fs: Seq<FileView>, f: FileView) -> Seq<FileView> {
    fs.insert(count_not_after(fs, f.name) as int, f)
}

/// The files ordered by name, files of equal names keeping their order:
/// what a stable sort by name gives.
pub open spec fn sort_by_name(fs: Seq<FileView>) -> Seq<FileView>
    decreases fs.len(),
{
    if fs.len() == 0 {
        fs
    } else {
        insert_by_name(sort_by_name(fs.drop_last()), fs.last())
    }
}

fn count_files_not_after(fs: &Vec<FileModel>, name: &String) -> (r: usize)
    ensures
        r == count_not_after(files_view(fs@), name@),
        r <= fs@.len(),
{
    let mut c: usize = 0;
    let mut k: usize = 0;
    while k < fs.len()
        invariant
            k <= fs@.len(),
            c <= k,
            c == count_not_after(files_view(fs@.take(k as int)), name@),
        decreases fs@.len() - k,
    {
        proof {
            assert(files_view(fs@.take(k + 1)).drop_last() =~= files_view(fs@.take(k as int)));
            assert(files_view(fs@.take(k + 1)).last() == fs@[k as int]@);
        }
        if text_le_exec(fs[k].name.as_str(), name.as_str()) {
            c += 1;
        }
        k += 1;
    }
    proof {
        assert(fs@.take(fs@.len() as int) =~= fs@);
    }
    c
}

/// The files ordered by name, stably.
pub fn sort_files(files: Vec<FileModel>) -> (r: Vec<FileModel>)
    ensures
        files_view(r@) == sort_by_name(files_view(files@)),
{
    let ghost fs0 = files@;
    let mut out: Vec<FileModel> = Vec::new();
    for f in it: files.into_iter()
        invariant
            it.seq() == fs0,
            files_view(out@) == sort_by_name(files_view(fs0.take(it.index() as int))),
    {
        let ghost k = it.index();
        proof {
            assert(files_view(fs0.take(k + 1)).drop_last() =~= files_view(fs0.take(k as int)));
            assert(files_view(fs0.take(k + 1)).last() == f@);
        }
        let p = count_files_not_after(&out, &f.name);
        let ghost before = out@;
        out.insert(p, f);
        proof {
            assert(files_view(out@) =~= files_view(before).insert(p as int, f@));
        }
    }
    proof {
        assert(fs0.take(fs0.len() as int) =~= fs0);
    }
    out
}

/// `i` is the first file of `fs` named `name`.
pub open spec fn is_first_file(fs: Seq<FileView>, name: Seq<char>, i: int) -> bool {
    &&& 0 <= i < fs.len()
    &&& fs[i].name == name
    &&& forall|j: int| 0 <= j < i ==> fs[j].name != name
}

/// Where the first file named `name` stands, if any.
pub open spec fn first_file(fs: Seq<FileView>, name: Seq<char>) -> Option<int> {
    if exists|i: int| is_first_file(fs, name, i) {
        Some(choose|i: int| is_first_file(fs, name, i))
    } else {
        None
    }
}

proof fn lemma_first_file_found(fs: Seq<FileView>, name: Seq<char>, i: int)
    requires
        is_first_file(fs, name, i),
    ensures
        first_file(fs, name) == Some(i),
{
    let i2 = choose|i: int| is_first_file(fs, name, i);
    assert(is_first_file(fs, name, i2));
    if i2 < i {
        assert(fs[i2].name != name);
    } else if i < i2 {
        assert(fs[i].name != name);
    }
}

/// The files of `fs` not named `name`, in order.
pub open spec fn without_file(fs: Seq<FileView>, name: Seq<char>) -> Seq<FileView>
    decreases fs.len(),
{
    if fs.len() == 0 {
        fs
    } else {
        let rest = without_file(fs.drop_last(), name);
        if fs.last().name == name {
            rest
        } else {
            rest.push(fs.last())
        }
    }
}

pub open spec fn contents_view(c: Option<String>) -> Seq<char> {
    match c {
        Some(t) => t@,
        None => Seq::empty(),
    }
}

/// The state after a `Replace` file action: the file is updated (or warned
/// about, when it changed on the remote and the action is not forced) or
/// added; the files are then ordered by name, and the file becomes the
/// active one when the action asks to open it.
pub open spec fn replace_action_spec(s: SessionView, a: FileActionEntry) -> SessionView {
    let s1 = replace_in_place_spec(s, a);
    SessionView {
        files: sort_by_name(s1.files),
        active_file: if a.flags & 4u32 != 0 {
            Some(a.file@)
        } else {
            s1.active_file
        },
        ..s1
    }
}

/// The first part of a `Replace`: the update, warning or addition, before
/// the files are ordered again.
pub open spec fn replace_in_place_spec(s: SessionView, a: FileActionEntry) -> SessionView {
    let name = a.file@;
    let contents = contents_view(a.contents);
    let checksum = fletcher32_spec(contents);
    let read_only = a.flags & 1u32 != 0;
    let force = a.flags & 2u32 != 0;
    let is_new = a.flags & 8u32 != 0;
    match first_file(s.files, name) {
        Some(i) => {
            let f = s.files[i];
            if force || f.remote_checksum == a.checksum {
                let nf = FileView {
                    read_only,
                    is_new: false,
                    remote_contents: contents,
                    remote_checksum: checksum,
                    buffer: contents,
                    ..f
                };
                remove_notification_spec(
                    SessionView { files: s.files.update(i, nf), ..s },
                    name,
                    "update"@,
                )
            } else {
                push_notification_spec(
                    s,
                    NotificationKind::Warn,
                    notification_id(name, "update"@),
                    name + " changed on the remote."@,
                )
            }
        },
        None => SessionView {
            files: s.files.push(
                FileView {
                    name,
                    read_only,
                    is_new,
                    remote_contents: contents,
                    remote_checksum: checksum,
                    buffer: contents,
                    pending: None,
                },
            ),
            ..s
        },
    }
}

/// The state after one file action: `Replace` as above, `Delete` drops the
/// file (and closes it in the editor), any other action changes nothing.
pub open spec fn file_action_spec(s: SessionView, a: FileActionEntry) -> SessionView {
    if a.action == 0 {
        replace_action_spec(s, a)
    } else if a.action == 2 {
        SessionView {
            files: without_file(s.files, a.file@),
            active_file: if s.active_file == Some(a.file@) {
                None
            } else {
                s.active_file
            },
            ..s
        }
    } else {
        s
    }
}

/// The state after the file actions `acts`, taken in order.
pub open spec fn file_actions_spec(s: SessionView, acts: Seq<FileActionEntry>) -> SessionView
    decreases acts.len(),
{
    if acts.len() == 0 {
        s
    } else {
        file_action_spec(file_actions_spec(s, acts.drop_last()), acts.last())
    }
}

/// The changed-on-the-remote warning for `name`.
pub fn remote_changed_message(name: &str) -> (r: String)
    ensures
        r@ == name@ + " changed on the remote."@,
{
    let mut m = String::from_str(name);
    m.append(" changed on the remote.");
    m
}

impl Session {
    /// Where the first file named `name` stands, if any.
    pub fn find_file(&self, name: &str) -> (r: Option<usize>)
        ensures
            match r {
                Some(i) => first_file(self@.files, name@) == Some(i as int),
                None => first_file(self@.files, name@) is None,
            },
    {
        let ghost fs = self@.files;
        let target = String::from_str(name);
        let mut i: usize = 0;
        while i < self.files.len()
            invariant
                i <= self.files@.len(),
                fs == files_view(self.files@),
                target@ == name@,
                forall|j: int| 0 <= j < i ==> fs[j].name != name@,
            decreases self.files@.len() - i,
        {
            if self.files[i].name == target {
                proof {
                    lemma_first_file_found(fs, name@, i as int);
                }
                return Some(i);
            }
            i += 1;
        }
        None
    }

    fn sort_files_in_place(&mut self)
        ensures
            final(self)@ == (SessionView { files: sort_by_name(old(self)@.files), ..old(self)@ }),
    {
        let mut fs: Vec<FileModel> = Vec::new();
        std::mem::swap(&mut fs, &mut self.files);
        self.files = sort_files(fs);
    }

    /// A copy of file `i`, which keeps its place.
    fn take_file(&self, i: usize) -> (f: FileModel)
        requires
            i < self.files@.len(),
        ensures
            f@ == self@.files[i as int],
    {
        let g = &self.files[i];
        let pending = match &g.pending_update {
            Some(p) => Some(PendingUpdate { contents: p.contents.clone(), checksum: p.checksum }),
            None => None,
        };
        FileModel {
            name: g.name.clone(),
            read_only: g.read_only,
            is_new: g.is_new,
            remote_contents: g.remote_contents.clone(),
            remote_checksum: g.remote_checksum,
            buffer: g.buffer.clone(),
            pending_update: pending,
        }
    }

    fn set_file(&mut self, i: usize, f: FileModel)
        requires
            i < old(self).files@.len(),
        ensures
            final(self)@ == (SessionView {
                files: old(self)@.files.update(i as int, f@),
                ..old(self)@
            }),
    {
        let ghost before = self.files@;
        let _old = self.files.remove(i);
        self.files.insert(i, f);
        proof {
            assert(files_view(self.files@) =~= files_view(before).update(i as int, f@));
        }
    }

    fn apply_replace(&mut self, a: FileActionEntry)
        requires
            a.action == 0,
        ensures
            final(self)@ == replace_action_spec(old(self)@, a),
    {
        let read_only = a.flags & crate::file_flags::READ_ONLY != 0;
        let is_new = a.flags & crate::file_flags::NEW != 0;
        let open_flag = a.flags & crate::file_flags::OPEN != 0;
        let force = a.flags & crate::file_flags::FORCE != 0;
        let contents = match a.contents {
            Some(c) => c,
            None => String::new(),
        };
        let checksum = fletcher32(contents.as_str());
        let name = a.file;
        match self.find_file(name.as_str()) {
            Some(i) => {
                if force || self.files[i].remote_checksum == a.checksum {
                    let mut f = self.take_file(i);
                    f.read_only = read_only;
                    f.is_new = false;
                    f.remote_contents = contents.clone();
                    f.remote_checksum = checksum;
                    f.buffer = contents;
                    self.set_file(i, f);
                    self.remove_notification(name.as_str(), "update");
                } else {
                    let id = notification_id_string(name.as_str(), "update");
                    let message = remote_changed_message(name.as_str());
                    self.push_notification(NotificationKind::Warn, id.as_str(), message);
                }
            },
            None => {
                let f = FileModel {
                    name: name.clone(),
                    read_only,
                    is_new,
                    remote_contents: contents.clone(),
                    remote_checksum: checksum,
                    buffer: contents,
                    pending_update: None,
                };
                let ghost before = self.files@;
                let ghost fv = f@;
                self.files.push(f);
                proof {
                    assert(files_view(self.files@) =~= files_view(before).push(fv));
                }
            },
        }

        self.sort_files_in_place();
        if open_flag {
            self.active_file = Some(name);
        }
    }
}

fn retain_other_files(fs: Vec<FileModel>, name: &String) -> (r: Vec<FileModel>)
    ensures
        files_view(r@) == without_file(files_view(fs@), name@),
{
    let ghost fs0 = fs@;
    let mut out: Vec<FileModel> = Vec::new();
    for f in it: fs.into_iter()
        invariant
            it.seq() == fs0,
            files_view(out@) == without_file(files_view(fs0.take(it.index() as int)), name@),
    {
        let ghost k = it.index();
        proof {
            assert(files_view(fs0.take(k + 1)).drop_last() =~= files_view(fs0.take(k as int)));
            assert(files_view(fs0.take(k + 1)).last() == f@);
        }
        if !(f.name == *name) {
            let ghost before = out@;
            let ghost fv = f@;
            out.push(f);
            proof {
                assert(files_view(out@) =~= files_view(before).push(fv));
            }
        }
    }
    proof {
        assert(fs0.take(fs0.len() as int) =~= fs0);
    }
    out
}

impl Session {
    fn apply_delete(&mut self, name: String)
        ensures
            final(self)@ == (SessionView {
                files: without_file(old(self)@.files, name@),
                active_file: if old(self)@.active_file == Some(name@) {
                    None
                } else {
                    old(self)@.active_file
                },
                ..old(self)@
            }),
    {
        let mut fs: Vec<FileModel> = Vec::new();
        std::mem::swap(&mut fs, &mut self.files);
        self.files = retain_other_files(fs, &name);
        let is_active = match &self.active_file {
            Some(n) => *n == name,
            None => false,
        };
        if is_active {
            self.active_file = None;
        }
    }

    /// Applies one file action from the host.
    pub fn apply_file_action(&mut self, a: FileActionEntry)
        ensures
            final(self)@ == file_action_spec(old(self)@, a),
    {
        if a.action == crate::protocol::ACTION_REPLACE {
            self.apply_replace(a);
        } else if a.action == crate::protocol::ACTION_DELETE {
            self.apply_delete(a.file);
        } else {
            // A patch from the host is allowed by the protocol, but the host
            // only ever sends replacements: nothing to apply.
        }
    }

    /// Applies the file actions of a `FileAction` packet, in order.
    pub fn apply_file_actions(&mut self, actions: Vec<FileActionEntry>)
        ensures
            final(self)@ == file_actions_spec(old(self)@, actions@),
    {
        let ghost acts = actions@;
        let ghost s0 = self@;
        for a in it: actions.into_iter()
            invariant
                it.seq() == acts,
                self@ == file_actions_spec(s0, acts.take(it.index() as int)),
        {
            let ghost k = it.index();
            proof {
                assert(acts.take(k + 1).drop_last() =~= acts.take(k as int));
                assert(acts.take(k + 1).last() == a);
            }
            self.apply_file_action(a);
        }
        proof {
            assert(acts.take(acts.len() as int) =~= acts);
        }
    }
}

/// The state after the host's answer `e` to a save: an accepted save whose
/// checksum is the one sent makes the sent contents the remote ones (and
/// drops the warning about the file); an accepted save with another checksum
/// warns that the file changed on the remote; either way the save is no
/// longer in flight. A rejected or failed save is reported. Answers about
/// files that are not listed change nothing.
pub open spec fn file_consume_spec(s: SessionView, e: FileConsumeEntry) -> SessionView {
    let name = e.file@;
    let id = notification_id(name, "update"@);
    match first_file(s.files, name) {
        None => s,
        Some(i) => {
            let f = s.files[i];
            match e.result {
                FileConsumeResult::Accepted => match f.pending {
                    None => s,
                    Some((contents, checksum)) => if checksum == e.checksum {
                        remove_notification_spec(
                            SessionView {
                                files: s.files.update(
                                    i,
                                    FileView {
                                        remote_contents: contents,
                                        remote_checksum: checksum,
                                        pending: None,
                                        ..f
                                    },
                                ),
                                ..s
                            },
                            name,
                            "update"@,
                        )
                    } else {
                        push_notification_spec(
                            SessionView {
                                files: s.files.update(i, FileView { pending: None, ..f }),
                                ..s
                            },
                            NotificationKind::Warn,
                            id,
                            name + " changed on the remote."@,
                        )
                    },
                },
                FileConsumeResult::Reject => push_notification_spec(
                    s,
                    NotificationKind::Error,
                    id,
                    name + " couldn't be saved (remote was changed)."@,
                ),
                FileConsumeResult::Failure => push_notification_spec(
                    s,
                    NotificationKind::Error,
                    id,
                    name + " failed to save (read only?)."@,
                ),
            }
        },
    }
}

/// The state after the answers `es`, taken in order.
pub open spec fn file_consumes_spec(s: SessionView, es: Seq<FileConsumeEntry>) -> SessionView
    decreases es.len(),
{
    if es.len() == 0 {
        s
    } else {
        file_consume_spec(file_consumes_spec(s, es.drop_last()), es.last())
    }
}

impl Session {
    /// Applies the host's answer to one save.
    pub fn apply_file_consume_entry(&mut self, e: FileConsumeEntry)
        ensures
            final(self)@ == file_consume_spec(old(self)@, e),
    {
        let i = match self.find_file(e.file.as_str()) {
            Some(i) => i,
            None => return ,
        };
        let id = notification_id_string(e.file.as_str(), "update");
        match e.result {
            FileConsumeResult::Accepted => {
                let mut f = self.take_file(i);
                let pending = f.pending_update;
                f.pending_update = None;
                match pending {
                    None => {},
                    Some(p) => {
                        if p.checksum == e.checksum {
                            f.remote_contents = p.contents;
                            f.remote_checksum = p.checksum;
                            self.set_file(i, f);
                            self.remove_notification(e.file.as_str(), "update");
                        } else {
                            self.set_file(i, f);
                            let message = remote_changed_message(e.file.as_str());
                            self.push_notification(NotificationKind::Warn, id.as_str(), message);
                        }
                    },
                }
            },
            FileConsumeResult::Reject => {
                let mut message = String::from_str(e.file.as_str());
                message.append(" couldn't be saved (remote was changed).");
                self.push_notification(NotificationKind::Error, id.as_str(), message);
            },
            FileConsumeResult::Failure => {
                let mut message = String::from_str(e.file.as_str());
                message.append(" failed to save (read only?).");
                self.push_notification(NotificationKind::Error, id.as_str(), message);
            },
        }
    }

    /// Applies the answers of a `FileConsume` packet, in order.
    pub fn apply_file_consume(&mut self, files: Vec<FileConsumeEntry>)
        ensures
            final(self)@ == file_consumes_spec(old(self)@, files@),
    {
        let ghost es = files@;
        let ghost s0 = self@;
        for e in it: files.into_iter()
            invariant
                it.seq() == es,
                self@ == file_consumes_spec(s0, es.take(it.index() as int)),
        {
            let ghost k = it.index();
            proof {
                assert(es.take(k + 1).drop_last() =~= es.take(k as int));
                assert(es.take(k + 1).last() == e);
            }
            self.apply_file_consume_entry(e);
        }
        proof {
            assert(es.take(es.len() as int) =~= es);
        }
    }
}

/// What is sent of `buffer` on save.
pub open spec fn save_contents(buffer: Seq<char>, trim: bool) -> Seq<char> {
    if trim {
        trim_for_save(buffer)
    } else {
        buffer
    }
}

/// The state after saving the file named `name`: unless it is missing or
/// read-only, the (possibly trimmed) contents become both the buffer and the
/// save in flight, with their checksum.
pub open spec fn save_file_spec(s: SessionView, name: Seq<char>, trim: bool) -> SessionView {
    match first_file(s.files, name) {
        None => s,
        Some(i) => {
            let f = s.files[i];
            if f.read_only {
                s
            } else {
                let c = save_contents(f.buffer, trim);
                SessionView {
                    files: s.files.update(
                        i,
                        FileView { buffer: c, pending: Some((c, fletcher32_spec(c))), ..f },
                    ),
                    ..s
                }
            }
        },
    }
}

/// Whether saving `name` sends a packet: the file is listed and writable.
pub open spec fn save_sends(s: SessionView, name: Seq<char>) -> bool {
    first_file(s.files, name) matches Some(i) && !s.files[i].read_only
}

/// `p` is the save of file `f` with `contents`: a `FileAction` of id 0 with
/// one action against the file's remote checksum, with no flags; a
/// replacement with the contents when the file is new on the computer, else
/// a patch from the remote contents to the new ones, which applied to the
/// remote contents gives the saved contents.
pub open spec fn is_save_packet(p: Packet, f: FileView, contents: Seq<char>) -> bool {
    &&& p matches Packet::FileAction { id, actions }
    &&& id == 0
    &&& actions.len() == 1
    &&& actions[0].file@ == f.name
    &&& actions[0].checksum == f.remote_checksum
    &&& actions[0].flags == 0
    &&& if f.is_new {
        &&& actions[0].action == 0
        &&& actions[0].contents matches Some(c) && c@ == contents
        &&& actions[0].delta is None
    } else {
        &&& actions[0].action == 1
        &&& actions[0].contents is None
        &&& actions[0].delta matches Some(d) && d@.map_values(|x: Fragment| x@) == fragments_of(
            char_alignment(f.remote_contents, contents),
        )
        &&& actions[0].delta matches Some(d) && apply_fragments(
            f.remote_contents,
            d@.map_values(|x: Fragment| x@),
        ) == Some(contents)
    }
}

impl Session {
    /// Saves the file named `name`: returns the packet to send, or `None`
    /// when the file is not listed or is read-only.
    pub fn save_file(&mut self, name: &str, trim_whitespace: bool) -> (r: Option<Packet>)
        ensures
            final(self)@ == save_file_spec(old(self)@, name@, trim_whitespace),
            r is Some <==> save_sends(old(self)@, name@),
            r matches Some(p) ==> ({
                let f = old(self)@.files[first_file(old(self)@.files, name@)->Some_0];
                is_save_packet(p, f, save_contents(f.buffer, trim_whitespace))
            }),
    {
        let i = match self.find_file(name) {
            Some(i) => i,
            None => return None,
        };
        if self.files[i].read_only {
            return None;
        }
        let mut f = self.take_file(i);
        let contents = if trim_whitespace {
            trim_trailing_whitespace(f.buffer.as_str())
        } else {
            f.buffer.clone()
        };
        let new_checksum = fletcher32(contents.as_str());
        let entry = if f.is_new {
            FileActionEntry {
                file: f.name.clone(),
                checksum: f.remote_checksum,
                flags: 0,
                action: crate::protocol::ACTION_REPLACE,
                contents: Some(contents.clone()),
                delta: None,
            }
        } else {
            let delta = compute_diff(f.remote_contents.as_str(), contents.as_str());
            FileActionEntry {
                file: f.name.clone(),
                checksum: f.remote_checksum,
                flags: 0,
                action: crate::protocol::ACTION_PATCH,
                contents: None,
                delta: Some(delta),
            }
        };
        // The buffer takes the possibly trimmed text so that the dirty state
        // clears once the save is accepted.
        f.buffer = contents.clone();
        f.pending_update = Some(PendingUpdate { contents, checksum: new_checksum });
        self.set_file(i, f);
        Some(Packet::FileAction { id: 0, actions: vec![entry] })
    }

    /// Saves the file open in the editor, if any.
    pub fn save_active(&mut self, trim_whitespace: bool) -> (r: Option<Packet>)
        ensures
            match old(self)@.active_file {
                None => final(self)@ == old(self)@ && r is None,
                Some(name) => {
                    &&& final(self)@ == save_file_spec(old(self)@, name, trim_whitespace)
                    &&& (r is Some <==> save_sends(old(self)@, name))
                    &&& r matches Some(p) ==> ({
                        let f = old(self)@.files[first_file(old(self)@.files, name)->Some_0];
                        is_save_packet(p, f, save_contents(f.buffer, trim_whitespace))
                    })
                },
            },
    {
        let name = match &self.active_file {
            Some(n) => n.clone(),
            None => return None,
        };
        self.save_file(name.as_str(), trim_whitespace)
    }
}

proof fn lemma_first_file_after_update(fs: Seq<FileView>, name: Seq<char>, i: int, g: FileView)
    requires
        first_file(fs, name) == Some(i),
        g.name == name,
    ensures
        first_file(fs.update(i, g), name) == Some(i),
{
    let i0 = choose|i: int| is_first_file(fs, name, i);
    assert(is_first_file(fs, name, i0));
    assert(is_first_file(fs.update(i, g), name, i));
    lemma_first_file_found(fs.update(i, g), name, i);
}

/// A save that the host accepts with the checksum it was sent with leaves
/// the file unmodified: its buffer is its remote contents, those contents
/// are what was saved, and no save is in flight.
pub proof fn lemma_accepted_save_is_clean(
    s: SessionView,
    name: Seq<char>,
    trim: bool,
    answer: FileConsumeEntry,
)
    requires
        save_sends(s, name),
        answer.file@ == name,
        answer.result == FileConsumeResult::Accepted,
        answer.checksum == fletcher32_spec(
            save_contents(s.files[first_file(s.files, name)->Some_0].buffer, trim),
        ),
    ensures
        ({
            let i = first_file(s.files, name)->Some_0;
            let saved = save_contents(s.files[i].buffer, trim);
            let after = file_consume_spec(save_file_spec(s, name, trim), answer);
            &&& first_file(after.files, name) == Some(i)
            &&& after.files[i].buffer == saved
            &&& after.files[i].remote_contents == saved
            &&& after.files[i].remote_checksum == fletcher32_spec(saved)
            &&& after.files[i].pending is None
        }),
{
    let i = first_file(s.files, name)->Some_0;
    let f = s.files[i];
    let c = save_contents(f.buffer, trim);
    let g = FileView { buffer: c, pending: Some((c, fletcher32_spec(c))), ..f };
    let i0 = choose|i: int| is_first_file(s.files, name, i);
    assert(is_first_file(s.files, name, i0));
    lemma_first_file_after_update(s.files, name, i, g);
    let fs1 = s.files.update(i, g);
    let h = FileView { remote_contents: c, remote_checksum: fletcher32_spec(c), pending: None, ..g };
    lemma_first_file_after_update(fs1, name, i, h);
}

pub open spec fn clamp(v: u32, lo: u32, hi: u32) -> u32 {
    if v < lo {
        lo
    } else if v > hi {
        hi
    } else {
        v
    }
}

/// Line `y` of `lines`, or an empty line past its end.
pub open spec fn line_or_empty(lines: Seq<String>, y: int) -> Seq<char> {
    if y < lines.len() {
        lines[y]@
    } else {
        Seq::empty()
    }
}

/// At most the first `max` characters of `line`.
pub open spec fn at_most(line: Seq<char>, max: nat) -> Seq<char> {
    if line.len() <= max {
        line
    } else {
        line.take(max as int)
    }
}

/// The screen after the host sent `c`: the size is clamped to 1..=200
/// columns and 1..=100 rows; there is one line of text and colours per row
/// (missing rows blank, text cut at twice the width); the cursor moves to
/// the 0-based position, kept on screen; missing cursor colours fall back to
/// white on black; a palette replaces the previous one when one is sent.
pub open spec fn terminal_after(t: TerminalView, c: TerminalContents) -> TerminalView {
    let w = clamp(c.width, 1, 200);
    let h = clamp(c.height, 1, 100);
    TerminalView {
        width: w,
        height: h,
        text: Seq::new(h as nat, |y: int| at_most(line_or_empty(c.text@, y), (2 * w) as nat)),
        fore: Seq::new(h as nat, |y: int| line_or_empty(c.fore@, y)),
        back: Seq::new(h as nat, |y: int| line_or_empty(c.back@, y)),
        cursor_x: if c.cursor_x == 0 || c.cursor_x - 1 > w - 1 {
            if c.cursor_x == 0 { 0 } else { (w - 1) as u32 }
        } else {
            (c.cursor_x - 1) as u32
        },
        cursor_y: if c.cursor_y == 0 || c.cursor_y - 1 > h - 1 {
            if c.cursor_y == 0 { 0 } else { (h - 1) as u32 }
        } else {
            (c.cursor_y - 1) as u32
        },
        cursor_blink: c.cursor_blink,
        cursor_fore: match c.cur_fore {
            Some(f) => f@,
            None => "#ffffff"@,
        },
        cursor_back: match c.cur_back {
            Some(b) => b@,
            None => "#000000"@,
        },
        palette: match c.palette {
            Some(p) => Some(p),
            None => t.palette,
        },
    }
}

/// A screen the renderer can draw: a sane size, one line per row, text no
/// wider than twice the width, and the cursor on screen.
pub open spec fn terminal_well_formed(t: TerminalView) -> bool {
    &&& 1 <= t.width <= 200
    &&& 1 <= t.height <= 100
    &&& t.text.len() == t.height
    &&& t.fore.len() == t.height
    &&& t.back.len() == t.height
    &&& forall|y: int| 0 <= y < t.height ==> (#[trigger] t.text[y]).len() <= 2 * t.width
    &&& t.cursor_x < t.width
    &&& t.cursor_y < t.height
}

/// Whatever the host sends, the screen is one the renderer can draw.
pub proof fn lemma_terminal_after_well_formed(t: TerminalView, c: TerminalContents)
    ensures
        terminal_well_formed(terminal_after(t, c)),
{
}

fn clamp_exec(v: u32, lo: u32, hi: u32) -> (r: u32)
    ensures
        r == clamp(v, lo, hi),
{
    if v < lo {
        lo
    } else if v > hi {
        hi
    } else {
        v
    }
}

fn copy_line(lines: &Vec<String>, y: usize) -> (r: String)
    ensures
        r@ == line_or_empty(lines@, y as int),
{
    if y < lines.len() {
        lines[y].clone()
    } else {
        String::new()
    }
}

fn cut_line(line: &str, max: usize) -> (r: String)
    ensures
        r@ == at_most(line@, max as nat),
{
    let n = crate::text::chars_of(line).len();
    if n <= max {
        String::from_str(line)
    } else {
        String::from_str(line.substring_char(0, max))
    }
}

impl Session {
    /// Mirrors the screen the host sent.
    pub fn apply_terminal_contents(&mut self, contents: TerminalContents)
        ensures
            final(self)@ == (SessionView {
                terminal: terminal_after(old(self)@.terminal, contents),
                ..old(self)@
            }),
    {
        let ghost c0 = contents;
        let w = clamp_exec(contents.width, 1, 200);
        let h = clamp_exec(contents.height, 1, 100);
        let hu = h as usize;
        let max = (w as usize) * 2;
        let mut text: Vec<String> = Vec::new();
        let mut fore: Vec<String> = Vec::new();
        let mut back: Vec<String> = Vec::new();
        let mut y: usize = 0;
        while y < hu
            invariant
                y <= hu,
                hu == h,
                max == 2 * w,
                lines_view(text@) == Seq::new(
                    y as nat,
                    |k: int| at_most(line_or_empty(contents.text@, k), max as nat),
                ),
                lines_view(fore@) == Seq::new(y as nat, |k: int| line_or_empty(contents.fore@, k)),
                lines_view(back@) == Seq::new(y as nat, |k: int| line_or_empty(contents.back@, k)),
            decreases hu - y,
        {
            let raw = copy_line(&contents.text, y);
            let t = cut_line(raw.as_str(), max);
            let f = copy_line(&contents.fore, y);
            let b = copy_line(&contents.back, y);
            let ghost (t0, f0, b0) = (text@, fore@, back@);
            let ghost (tv, fv, bv) = (t@, f@, b@);
            text.push(t);
            fore.push(f);
            back.push(b);
            proof {
                assert(lines_view(text@) =~= lines_view(t0).push(tv));
                assert(lines_view(fore@) =~= lines_view(f0).push(fv));
                assert(lines_view(back@) =~= lines_view(b0).push(bv));
                assert(lines_view(text@) =~= Seq::new(
                    (y + 1) as nat,
                    |k: int| at_most(line_or_empty(contents.text@, k), max as nat),
                ));
                assert(lines_view(fore@) =~= Seq::new(
                    (y + 1) as nat,
                    |k: int| line_or_empty(contents.fore@, k),
                ));
                assert(lines_view(back@) =~= Seq::new(
                    (y + 1) as nat,
                    |k: int| line_or_empty(contents.back@, k),
                ));
            }
            y += 1;
        }
        let cursor_x = if contents.cursor_x == 0 {
            0
        } else if contents.cursor_x - 1 > w - 1 {
            w - 1
        } else {
            contents.cursor_x - 1
        };
        let cursor_y = if contents.cursor_y == 0 {
            0
        } else if contents.cursor_y - 1 > h - 1 {
            h - 1
        } else {
            contents.cursor_y - 1
        };
        let cursor_fore = match contents.cur_fore {
            Some(f) => f,
            None => String::from_str("#ffffff"),
        };
        let cursor_back = match contents.cur_back {
            Some(b) => b,
            None => String::from_str("#000000"),
        };
        self.terminal.width = w;
        self.terminal.height = h;
        self.terminal.text = text;
        self.terminal.fore = fore;
        self.terminal.back = back;
        self.terminal.cursor_x = cursor_x;
        self.terminal.cursor_y = cursor_y;
        self.terminal.cursor_blink = contents.cursor_blink;
        self.terminal.cursor_fore = cursor_fore;
        self.terminal.cursor_back = cursor_back;
        match contents.palette {
            Some(p) => {
                self.terminal.palette = Some(p);
            },
            None => {},
        }
        proof {
            assert(self@.terminal =~~= terminal_after(old(self)@.terminal, c0));
        }
    }
}

/// A host peer (`terminal:host` or `file:host`) is among `caps`.
pub open spec fn has_host_capability(caps: Seq<String>) -> bool {
    exists|i: int|
        0 <= i < caps.len() && (#[trigger] caps[i]@ == "terminal:host"@ || caps[i]@ == "file:host"@)
}

/// The state after a packet from the relay.
pub open spec fn handle_packet_spec(s: SessionView, p: Packet) -> SessionView {
    match p {
        Packet::ConnectionUpdate { capabilities, .. } => if has_host_capability(capabilities@) {
            SessionView { status: StatusView::Connected, has_connected: true, ..s }
        } else if s.has_connected {
            SessionView {
                status: StatusView::LostConnection,
                info: InfoView { computer_id: None, label: None },
                ..s
            }
        } else {
            SessionView { status: StatusView::Waiting, ..s }
        },
        Packet::ConnectionAbuse { message } => push_notification_spec(
            s,
            NotificationKind::Warn,
            "abuse"@,
            message@,
        ),
        Packet::TerminalInfo { id, label } => SessionView {
            info: InfoView { computer_id: id, label: opt_view(label) },
            ..s
        },
        Packet::TerminalContents(c) => SessionView { terminal: terminal_after(s.terminal, c), ..s },
        Packet::FileAction { actions, .. } => file_actions_spec(s, actions@),
        Packet::FileConsume { files, .. } => file_consumes_spec(s, files@),
        _ => s,
    }
}

fn has_host(caps: &Vec<String>) -> (r: bool)
    ensures
        r == has_host_capability(caps@),
{
    let terminal_host = String::from_str("terminal:host");
    let file_host = String::from_str("file:host");
    let mut i: usize = 0;
    while i < caps.len()
        invariant
            i <= caps@.len(),
            terminal_host@ == "terminal:host"@,
            file_host@ == "file:host"@,
            forall|j: int|
                0 <= j < i ==> !(#[trigger] caps@[j]@ == "terminal:host"@ || caps@[j]@ == "file:host"@),
        decreases caps@.len() - i,
    {
        if caps[i] == terminal_host || caps[i] == file_host {
            return true;
        }
        i += 1;
    }
    false
}

impl Session {
    /// Applies a packet from the relay; returns the packet to answer with,
    /// which is the echo of a ping.
    pub fn handle_packet(&mut self, p: Packet) -> (reply: Option<Packet>)
        ensures
            final(self)@ == handle_packet_spec(old(self)@, p),
            reply is Some <==> p is ConnectionPing,
            reply matches Some(q) ==> q is ConnectionPing,
    {
        match p {
            Packet::ConnectionPing => {
                // Echo right back: the server hangs up clients that don't.
                return Some(Packet::ConnectionPing);
            },
            Packet::ConnectionUpdate { capabilities, .. } => {
                if has_host(&capabilities) {
                    self.status = SessionStatus::Connected;
                    self.has_connected = true;
                } else if self.has_connected {
                    self.status = SessionStatus::LostConnection;
                    self.info = SessionInfo::default();
                } else {
                    self.status = SessionStatus::Waiting;
                }
            },
            Packet::ConnectionAbuse { message } => {
                self.push_notification(NotificationKind::Warn, "abuse", message);
            },
            Packet::TerminalInfo { id, label } => {
                self.info = SessionInfo { computer_id: id, label };
            },
            Packet::TerminalContents(contents) => {
                self.apply_terminal_contents(contents);
            },
            Packet::FileAction { actions, .. } => {
                self.apply_file_actions(actions);
            },
            Packet::FileConsume { files, .. } => {
                self.apply_file_consume(files);
            },
            Packet::FileListing { .. } | Packet::FileRequest { .. } => {
                // We don't act as a file:host peer.
            },
            Packet::TerminalEvents { .. } => {
                // Outbound only; echoes are ignored.
            },
        }
        None
    }
}

/// The state after an event of the connection task.
pub open spec fn event_spec(s: SessionView, ev: SessionEvent) -> SessionView {
    match ev {
        SessionEvent::Connected => SessionView { status: StatusView::Waiting, ..s },
        SessionEvent::Closed(reason) => SessionView {
            status: if s.has_connected {
                StatusView::LostConnection
            } else {
                StatusView::Errored(reason@)
            },
            ..s
        },
        SessionEvent::Error(reason) => SessionView { status: StatusView::Errored(reason@), ..s },
        SessionEvent::Packet(p) => handle_packet_spec(s, p),
    }
}

/// The state after the events `evs`, taken in order.
pub open spec fn events_spec(s: SessionView, evs: Seq<SessionEvent>) -> SessionView
    decreases evs.len(),
{
    if evs.len() == 0 {
        s
    } else {
        event_spec(events_spec(s, evs.drop_last()), evs.last())
    }
}

/// How many of `evs` are pings from the relay.
pub open spec fn ping_count(evs: Seq<SessionEvent>) -> nat
    decreases evs.len(),
{
    if evs.len() == 0 {
        0
    } else {
        ping_count(evs.drop_last()) + if evs.last() matches SessionEvent::Packet(Packet::ConnectionPing) {
            1nat
        } else {
            0nat
        }
    }
}

/// The state after the AI task delivered `r`, if it did. The answer is only
/// offered: no file changes.
pub open spec fn ai_result_spec(s: SessionView, r: Option<AiResult>) -> SessionView {
    match r {
        None => s,
        Some(AiResult::Done(text)) => SessionView {
            ai: AiView { status: AiStatusView::Idle, last_result: Some(text@), ..s.ai },
            ..s
        },
        Some(AiResult::Failed(msg)) => SessionView {
            ai: AiView { status: AiStatusView::Error(msg@), ..s.ai },
            ..s
        },
    }
}

/// The prompt sent to the model to edit `file_name`.
pub open spec fn ai_prompt_spec(instruction: Seq<char>, file_name: Seq<char>, contents: Seq<char>) -> Seq<
    char,
> {
    "File path: "@ + file_name + "\n\n=== BEGIN current contents ===\n"@ + contents
        + "\n=== END current contents ===\n\nInstruction:\n"@ + instruction
        + "\n\nReply with the new file contents only."@
}

/// The instructions given to the model with every request: reply with the
/// complete new contents of the file and nothing else.
pub open spec fn ai_system_prompt_spec() -> Seq<char> {
    "You are a code editor assistant for ComputerCraft Lua (and other languages where applicable). The user gives you the current contents of a file plus an instruction. Reply with the COMPLETE new contents of the file, with no commentary, no explanations, no markdown code fences. Only the literal file contents \u{2014} anything else will be written into their file verbatim."@
}

/// The instructions given to the model with every request.
pub fn ai_system_prompt() -> (r: &'static str)
    ensures
        r@ == ai_system_prompt_spec(),
{
    "You are a code editor assistant for ComputerCraft Lua (and other languages where applicable). The user gives you the current contents of a file plus an instruction. Reply with the COMPLETE new contents of the file, with no commentary, no explanations, no markdown code fences. Only the literal file contents \u{2014} anything else will be written into their file verbatim."
}

impl Session {
    /// Applies the events drained from the connection task, in order, and
    /// the AI task's answer if one came. Returns whether anything happened
    /// and the packets to send back (an echo per ping).
    pub fn pump(&mut self, events: Vec<SessionEvent>, ai_result: Option<AiResult>) -> (r: (
        bool,
        Vec<Packet>,
    ))
        ensures
            final(self)@ == ai_result_spec(events_spec(old(self)@, events@), ai_result),
            r.0 == (events@.len() > 0 || ai_result is Some),
            r.1@.len() == ping_count(events@),
            forall|i: int| 0 <= i < r.1@.len() ==> (#[trigger] r.1@[i]) is ConnectionPing,
    {
        let ghost evs = events@;
        let ghost s0 = self@;
        let mut changed = false;
        let mut replies: Vec<Packet> = Vec::new();
        for ev in it: events.into_iter()
            invariant
                it.seq() == evs,
                self@ == events_spec(s0, evs.take(it.index() as int)),
                changed == (it.index() > 0),
                replies@.len() == ping_count(evs.take(it.index() as int)),
                forall|i: int| 0 <= i < replies@.len() ==> (#[trigger] replies@[i]) is ConnectionPing,
        {
            let ghost k = it.index();
            proof {
                assert(evs.take(k + 1).drop_last() =~= evs.take(k as int));
                assert(evs.take(k + 1).last() == ev);
            }
            changed = true;
            match ev {
                SessionEvent::Connected => {
                    self.status = SessionStatus::Waiting;
                },
                SessionEvent::Closed(reason) => {
                    self.status = if self.has_connected {
                        SessionStatus::LostConnection
                    } else {
                        SessionStatus::Errored(reason)
                    };
                },
                SessionEvent::Error(reason) => {
                    self.status = SessionStatus::Errored(reason);
                },
                SessionEvent::Packet(p) => {
                    match self.handle_packet(p) {
                        Some(q) => replies.push(q),
                        None => {},
                    }
                },
            }
        }
        proof {
            assert(evs.take(evs.len() as int) =~= evs);
        }
        match ai_result {
            None => {},
            Some(AiResult::Done(text)) => {
                changed = true;
                self.ai.status = AiStatus::Idle;
                self.ai.last_result = Some(text);
            },
            Some(AiResult::Failed(msg)) => {
                changed = true;
                self.ai.status = AiStatus::Error(msg);
            },
        }
        (changed, replies)
    }

    /// Starts an AI edit of `file_name`: unless a request is already running
    /// (then nothing happens and `None` comes back), the assistant is marked
    /// running, the previous answer is dropped, and the prompt to send to the
    /// model (with `ai_system_prompt`) comes back.
    pub fn start_ai_edit(&mut self, instruction: &str, file_name: &str, file_contents: &str) -> (r:
        Option<String>)
        ensures
            old(self)@.ai.status is Running ==> final(self)@ == old(self)@ && r is None,
            !(old(self)@.ai.status is Running) ==> {
                &&& final(self)@ == (SessionView {
                    ai: AiView {
                        status: AiStatusView::Running,
                        last_result: None,
                        ..old(self)@.ai
                    },
                    ..old(self)@
                })
                &&& r matches Some(prompt) && prompt@ == ai_prompt_spec(
                    instruction@,
                    file_name@,
                    file_contents@,
                )
            },
    {
        if let AiStatus::Running = self.ai.status {
            return None;
        }
        self.ai.status = AiStatus::Running;
        self.ai.last_result = None;
        let mut prompt = String::from_str("File path: ");
        prompt.append(file_name);
        prompt.append("\n\n=== BEGIN current contents ===\n");
        prompt.append(file_contents);
        prompt.append("\n=== END current contents ===\n\nInstruction:\n");
        prompt.append(instruction);
        prompt.append("\n\nReply with the new file contents only.");
        Some(prompt)
    }
}

/// The files are in order of name.
pub open spec fn names_sorted(fs: Seq<FileView>) -> bool {
    forall|i: int, j: int| 0 <= i < j < fs.len() ==> text_le(#[trigger] fs[i].name, #[trigger] fs[j].name)
}

proof fn lemma_count_not_after_prefix(fs: Seq<FileView>, name: Seq<char>)
    requires
        names_sorted(fs),
    ensures
        count_not_after(fs, name) <= fs.len(),
        forall|j: int| 0 <= j < count_not_after(fs, name) ==> text_le(#[trigger] fs[j].name, name),
        forall|j: int| count_not_after(fs, name) <= j < fs.len() ==> !text_le(#[trigger] fs[j].name, name),
    decreases fs.len(),
{
    if fs.len() > 0 {
        let pre = fs.drop_last();
        assert(names_sorted(pre)) by {
            assert forall|i: int, j: int| 0 <= i < j < pre.len() implies text_le(
                #[trigger] pre[i].name,
                #[trigger] pre[j].name,
            ) by {
                assert(pre[i] == fs[i] && pre[j] == fs[j]);
            }
        }
        lemma_count_not_after_prefix(pre, name);
        let l = fs.last();
        assert(l == fs[fs.len() - 1]);
        if text_le(l.name, name) {
            assert forall|j: int| 0 <= j < pre.len() implies text_le(#[trigger] pre[j].name, name) by {
                assert(pre[j] == fs[j]);
                assert(text_le(fs[j].name, fs[fs.len() - 1].name));
                lemma_text_le_transitive(pre[j].name, l.name, name);
            }
            if count_not_after(pre, name) < pre.len() {
                let j = count_not_after(pre, name) as int;
                assert(!text_le(pre[j].name, name));
            }
        }
        assert forall|j: int| 0 <= j < count_not_after(fs, name) implies text_le(#[trigger] fs[j].name, name) by {
            if j < pre.len() {
                assert(pre[j] == fs[j]);
            }
        }
        assert forall|j: int| count_not_after(fs, name) <= j < fs.len() implies !text_le(#[trigger] fs[j].name, name) by {
            if j < pre.len() {
                assert(pre[j] == fs[j]);
            }
        }
    }
}

proof fn lemma_insert_by_name_sorted(fs: Seq<FileView>, f: FileView)
    requires
        names_sorted(fs),
    ensures
        names_sorted(insert_by_name(fs, f)),
        insert_by_name(fs, f).len() == fs.len() + 1,
{
    lemma_count_not_after_prefix(fs, f.name);
    let p = count_not_after(fs, f.name) as int;
    let r = insert_by_name(fs, f);
    assert forall|i: int, j: int| 0 <= i < j < r.len() implies text_le(#[trigger] r[i].name, #[trigger] r[j].name) by {
        if j < p {
            assert(r[i] == fs[i] && r[j] == fs[j]);
        } else if j == p {
            assert(r[i] == fs[i] && r[j] == f);
        } else if i < p {
            assert(r[i] == fs[i] && r[j] == fs[j - 1]);
            assert(text_le(fs[i].name, fs[j - 1].name));
        } else if i == p {
            assert(r[i] == f && r[j] == fs[j - 1]);
            assert(!text_le(fs[j - 1].name, f.name));
            lemma_text_le_total(fs[j - 1].name, f.name);
        } else {
            assert(r[i] == fs[i - 1] && r[j] == fs[j - 1]);
        }
    }
}

/// Ordering files by name leaves them in order of name, whatever order
/// they came in.
pub proof fn lemma_sort_by_name_sorted(fs: Seq<FileView>)
    ensures
        names_sorted(sort_by_name(fs)),
        sort_by_name(fs).len() == fs.len(),
    decreases fs.len(),
{
    if fs.len() > 0 {
        lemma_sort_by_name_sorted(fs.drop_last());
        lemma_insert_by_name_sorted(sort_by_name(fs.drop_last()), fs.last());
    }
}

/// After a `Replace` action the files are in order of name.
pub proof fn lemma_replace_leaves_files_sorted(s: SessionView, a: FileActionEntry)
    ensures
        names_sorted(replace_action_spec(s, a).files),
{
    lemma_sort_by_name_sorted(replace_in_place_spec(s, a).files);
}

/// The connection picture is consistent: a lost connection is only shown
/// after a host peer was seen.
pub open spec fn connection_consistent(s: SessionView) -> bool {
    s.status is LostConnection ==> s.has_connected
}

proof fn lemma_file_actions_keep_connection(s: SessionView, acts: Seq<FileActionEntry>)
    ensures
        file_actions_spec(s, acts).status == s.status,
        file_actions_spec(s, acts).has_connected == s.has_connected,
    decreases acts.len(),
{
    if acts.len() > 0 {
        lemma_file_actions_keep_connection(s, acts.drop_last());
    }
}

proof fn lemma_file_consumes_keep_connection(s: SessionView, es: Seq<FileConsumeEntry>)
    ensures
        file_consumes_spec(s, es).status == s.status,
        file_consumes_spec(s, es).has_connected == s.has_connected,
    decreases es.len(),
{
    if es.len() > 0 {
        lemma_file_consumes_keep_connection(s, es.drop_last());
    }
}

/// Every connection event keeps the connection picture consistent, and a
/// host peer once seen stays seen.
pub proof fn lemma_event_keeps_connection_consistent(s: SessionView, ev: SessionEvent)
    requires
        connection_consistent(s),
    ensures
        connection_consistent(event_spec(s, ev)),
        s.has_connected ==> event_spec(s, ev).has_connected,
{
    if let SessionEvent::Packet(p) = ev {
        match p {
            Packet::FileAction { actions, .. } => lemma_file_actions_keep_connection(s, actions@),
            Packet::FileConsume { files, .. } => lemma_file_consumes_keep_connection(s, files@),
            _ => {},
        }
    }
}

/// Over any run of events: the connection picture stays consistent and a
/// host peer once seen stays seen.
pub proof fn lemma_events_keep_connection_consistent(s: SessionView, evs: Seq<SessionEvent>)
    requires
        connection_consistent(s),
    ensures
        connection_consistent(events_spec(s, evs)),
        s.has_connected ==> events_spec(s, evs).has_connected,
    decreases evs.len(),
{
    if evs.len() > 0 {
        lemma_events_keep_connection_consistent(s, evs.drop_last());
        lemma_event_keeps_connection_consistent(events_spec(s, evs.drop_last()), evs.last());
    }
}

/// An answer of the AI assistant never touches the files: it waits for the
/// user to apply it.
pub proof fn lemma_ai_answer_leaves_files(s: SessionView, r: Option<AiResult>)
    ensures
        ai_result_spec(s, r).files == s.files,
        ai_result_spec(s, r).active_file == s.active_file,
{
}

/// What the user asked of the AI panel.
#[derive(Clone, Debug)]
pub enum AiAction {
    Idle,
    /// User clicked Generate; payload is the trimmed prompt.
    Generate(String),
    /// Apply `last_result` to the active file's buffer.
    Apply,
    /// Drop `last_result` without applying.
    Discard,
    /// Clear an `Error` status so the user can try again.
    ResetError,
}

/// `s` without white space at either end.
pub fn trim_white_space(s: &str) -> (r: String)
    ensures
        r@ == trim_both_by(s@, white_space()),
{
    let v = chars_of(s);
    let n = v.len();
    let mut a: usize = 0;
    while a < n && is_white_space_char(v[a])
        invariant
            a <= n,
            n == v@.len(),
            forall|j: int| 0 <= j < a ==> is_white_space(v@[j]),
        decreases n - a,
    {
        a += 1;
    }
    let mut e: usize = n;
    while e > a && is_white_space_char(v[e - 1])
        invariant
            a <= e <= n,
            n == v@.len(),
            forall|j: int| e <= j < n ==> is_white_space(v@[j]),
        decreases e,
    {
        e -= 1;
    }
    let ghost vs = v@;
    let ghost t1 = vs.skip(a as int);
    proof {
        assert(is_front_run(vs, white_space(), a as int));
        lemma_front_run_unique(vs, white_space(), a as int);
        assert(is_back_run(t1, white_space(), n - e)) by {
            if n - e != t1.len() {
                assert(t1[t1.len() - 1 - (n - e)] == vs[e - 1]);
            }
            assert forall|j: int| t1.len() - (n - e) <= j < t1.len() implies #[trigger] white_space()(
                t1[j],
            ) by {
                assert(t1[j] == vs[a + j]);
            }
        }
        lemma_back_run_unique(t1, white_space(), n - e);
        assert(t1.take(t1.len() - (n - e)) =~= vs.subrange(a as int, e as int));
    }
    String::from_str(s.substring_char(a, e))
}

impl AiState {
    /// The instruction that Generate sends: the prompt without surrounding
    /// white space, offered only while no request runs and the prompt is not
    /// blank.
    pub fn generate_instruction(&self) -> (r: Option<String>)
        ensures
            match r {
                Some(t) => !(self@.status is Running) && t@ == trim_both_by(self@.prompt, white_space())
                    && t@.len() > 0,
                None => self@.status is Running || trim_both_by(self@.prompt, white_space()).len()
                    == 0,
            },
    {
        if let AiStatus::Running = self.status {
            return None;
        }
        let t = trim_white_space(self.prompt.as_str());
        if t.as_str().unicode_len() == 0 {
            None
        } else {
            Some(t)
        }
    }
}

/// The address of the relay for `token`: the local development relay over
/// plain WebSocket when `dev`, else `server_host` over TLS; the tab asks to
/// edit files and view the terminal.
pub open spec fn build_url_spec(token: Seq<char>, server_host: Seq<char>, dev: bool) -> Seq<char> {
    if dev {
        "ws://localhost:8080/connect?id="@ + token + "&capabilities=file:edit,terminal:view"@
    } else {
        "wss://"@ + server_host + "/connect?id="@ + token + "&capabilities=file:edit,terminal:view"@
    }
}

/// The address of the relay for `token`.
pub fn build_url(token: &str, server_host: &str, dev: bool) -> (r: String)
    ensures
        r@ == build_url_spec(token@, server_host@, dev),
{
    let mut url = if dev {
        String::from_str("ws://localhost:8080/connect?id=")
    } else {
        let mut u = String::from_str("wss://");
        u.append(server_host);
        u.append("/connect?id=");
        u
    };
    url.append(token);
    url.append("&capabilities=file:edit,terminal:view");
    url
}

impl Session {
    /// Size of a patch in bytes, kept for callers that budget packets; no
    /// patch is measured yet, so it is always 0.
    pub fn pending_patch_bytes(_delta: &[Fragment]) -> (r: usize)
        ensures
            r == 0,
    {
        0
    }
}

/// The files are in strictly increasing order of name: sorted, and no
/// name twice.
pub open spec fn files_ordered(fs: Seq<FileView>) -> bool {
    forall|i: int, j: int|
        0 <= i < j < fs.len() ==> text_le(#[trigger] fs[i].name, #[trigger] fs[j].name) && fs[i].name
            != fs[j].name
}

proof fn lemma_ordered_prefix(fs: Seq<FileView>)
    requires
        files_ordered(fs),
        fs.len() > 0,
    ensures
        files_ordered(fs.drop_last()),
        forall|i: int| 0 <= i < fs.len() - 1 ==> text_le(#[trigger] fs[i].name, fs.last().name),
{
    assert forall|i: int, j: int| 0 <= i < j < fs.drop_last().len() implies text_le(
        #[trigger] fs.drop_last()[i].name,
        #[trigger] fs.drop_last()[j].name,
    ) && fs.drop_last()[i].name != fs.drop_last()[j].name by {
        assert(fs.drop_last()[i] == fs[i] && fs.drop_last()[j] == fs[j]);
    }
    assert forall|i: int| 0 <= i < fs.len() - 1 implies text_le(#[trigger] fs[i].name, fs.last().name) by {
        assert(fs.last() == fs[fs.len() - 1]);
    }
}

/// Ordering files that are already in order changes nothing.
pub proof fn lemma_sort_of_sorted(fs: Seq<FileView>)
    requires
        names_sorted(fs),
    ensures
        sort_by_name(fs) == fs,
    decreases fs.len(),
{
    if fs.len() > 0 {
        let pre = fs.drop_last();
        assert(names_sorted(pre)) by {
            assert forall|i: int, j: int| 0 <= i < j < pre.len() implies text_le(
                #[trigger] pre[i].name,
                #[trigger] pre[j].name,
            ) by {
                assert(pre[i] == fs[i] && pre[j] == fs[j]);
            }
        }
        lemma_sort_of_sorted(pre);
        lemma_count_not_after_prefix(pre, fs.last().name);
        let c = count_not_after(pre, fs.last().name);
        if c < pre.len() {
            assert(pre[c as int] == fs[c as int]);
            assert(fs.last() == fs[fs.len() - 1]);
            assert(text_le(fs[c as int].name, fs[fs.len() - 1].name));
        }
        assert(pre.insert(pre.len() as int, fs.last()) =~= fs);
    }
}

/// Updating a file without renaming it keeps the files in order.
proof fn lemma_update_keeps_order(fs: Seq<FileView>, i: int, g: FileView)
    requires
        files_ordered(fs),
        0 <= i < fs.len(),
        g.name == fs[i].name,
    ensures
        files_ordered(fs.update(i, g)),
{
    let u = fs.update(i, g);
    assert forall|a: int, b: int| 0 <= a < b < u.len() implies text_le(#[trigger] u[a].name, #[trigger] u[b].name)
        && u[a].name != u[b].name by {
        assert(u[a].name == fs[a].name && u[b].name == fs[b].name);
    }
}

/// Adding a file of a new name and ordering keeps the files in order.
proof fn lemma_add_keeps_order(fs: Seq<FileView>, f: FileView)
    requires
        files_ordered(fs),
        forall|i: int| 0 <= i < fs.len() ==> #[trigger] fs[i].name != f.name,
    ensures
        files_ordered(sort_by_name(fs.push(f))),
{
    lemma_sort_of_sorted(fs);
    assert(fs.push(f).drop_last() =~= fs);
    lemma_count_not_after_prefix(fs, f.name);
    let p = count_not_after(fs, f.name) as int;
    let r = insert_by_name(fs, f);
    assert(sort_by_name(fs.push(f)) == r);
    assert forall|i: int, j: int| 0 <= i < j < r.len() implies text_le(#[trigger] r[i].name, #[trigger] r[j].name)
        && r[i].name != r[j].name by {
        if j < p {
            assert(r[i] == fs[i] && r[j] == fs[j]);
        } else if j == p {
            assert(r[i] == fs[i] && r[j] == f);
        } else if i < p {
            assert(r[i] == fs[i] && r[j] == fs[j - 1]);
        } else if i == p {
            assert(r[i] == f && r[j] == fs[j - 1]);
            assert(!text_le(fs[j - 1].name, f.name));
            lemma_text_le_total(fs[j - 1].name, f.name);
        } else {
            assert(r[i] == fs[i - 1] && r[j] == fs[j - 1]);
        }
    }
}

proof fn lemma_without_file_keeps_order(fs: Seq<FileView>, name: Seq<char>)
    requires
        files_ordered(fs),
    ensures
        files_ordered(without_file(fs, name)),
        forall|i: int| 0 <= i < without_file(fs, name).len() ==> fs.contains(
            #[trigger] without_file(fs, name)[i],
        ),
    decreases fs.len(),
{
    if fs.len() > 0 {
        let pre = fs.drop_last();
        lemma_ordered_prefix(fs);
        lemma_without_file_keeps_order(pre, name);
        let rest = without_file(pre, name);
        let w = without_file(fs, name);
        assert forall|i: int| 0 <= i < w.len() implies fs.contains(#[trigger] w[i]) by {
            if i < rest.len() {
                assert(w[i] == rest[i]);
                let j = choose|j: int| 0 <= j < pre.len() && pre[j] == rest[i];
                assert(fs[j] == rest[i]);
            } else {
                assert(fs[fs.len() - 1] == fs.last());
            }
        }
        if fs.last().name != name {
            assert forall|i: int, j: int| 0 <= i < j < w.len() implies text_le(
                #[trigger] w[i].name,
                #[trigger] w[j].name,
            ) && w[i].name != w[j].name by {
                if j == w.len() - 1 {
                    assert(w[i] == rest[i]);
                    let k = choose|k: int| 0 <= k < pre.len() && pre[k] == rest[i];
                    assert(fs[k] == rest[i]);
                    assert(w[j] == fs[fs.len() - 1]);
                } else {
                    assert(w[i] == rest[i] && w[j] == rest[j]);
                }
            }
        }
    }
}

proof fn lemma_first_file_none(fs: Seq<FileView>, name: Seq<char>)
    requires
        files_ordered(fs),
        first_file(fs, name) is None,
    ensures
        forall|i: int| 0 <= i < fs.len() ==> #[trigger] fs[i].name != name,
{
    assert forall|i: int| 0 <= i < fs.len() implies #[trigger] fs[i].name != name by {
        if fs[i].name == name {
            assert(is_first_file(fs, name, i));
        }
    }
}

proof fn lemma_first_file_some(fs: Seq<FileView>, name: Seq<char>)
    requires
        first_file(fs, name) is Some,
    ensures
        is_first_file(fs, name, first_file(fs, name)->Some_0),
{
    let i = choose|i: int| is_first_file(fs, name, i);
    assert(is_first_file(fs, name, i));
}

/// Every file action keeps the files in strictly increasing order of name.
pub proof fn lemma_file_action_keeps_order(s: SessionView, a: FileActionEntry)
    requires
        files_ordered(s.files),
    ensures
        files_ordered(file_action_spec(s, a).files),
{
    if a.action == 0 {
        let name = a.file@;
        match first_file(s.files, name) {
            Some(i) => {
                lemma_first_file_some(s.files, name);
                let s1 = replace_in_place_spec(s, a);
                let f = s.files[i];
                let contents = contents_view(a.contents);
                if (a.flags & 2u32 != 0) || f.remote_checksum == a.checksum {
                    let nf = FileView {
                        read_only: a.flags & 1u32 != 0,
                        is_new: false,
                        remote_contents: contents,
                        remote_checksum: fletcher32_spec(contents),
                        buffer: contents,
                        ..f
                    };
                    lemma_update_keeps_order(s.files, i, nf);
                    assert(s1.files == s.files.update(i, nf));
                } else {
                    assert(s1.files == s.files);
                }
                lemma_sort_of_sorted(s1.files);
            },
            None => {
                lemma_first_file_none(s.files, name);
                lemma_add_keeps_order(
                    s.files,
                    FileView {
                        name,
                        read_only: a.flags & 1u32 != 0,
                        is_new: a.flags & 8u32 != 0,
                        remote_contents: contents_view(a.contents),
                        remote_checksum: fletcher32_spec(contents_view(a.contents)),
                        buffer: contents_view(a.contents),
                        pending: None,
                    },
                );
            },
        }
    } else if a.action == 2 {
        lemma_without_file_keeps_order(s.files, a.file@);
    }
}

/// Any run of file actions keeps the files in strictly increasing order of
/// name.
pub proof fn lemma_file_actions_keep_order(s: SessionView, acts: Seq<FileActionEntry>)
    requires
        files_ordered(s.files),
    ensures
        files_ordered(file_actions_spec(s, acts).files),
    decreases acts.len(),
{
    if acts.len() > 0 {
        lemma_file_actions_keep_order(s, acts.drop_last());
        lemma_file_action_keeps_order(file_actions_spec(s, acts.drop_last()), acts.last());
    }
}

/// Answers to saves never rename, add or drop files.
pub proof fn lemma_file_consume_keeps_names(s: SessionView, e: FileConsumeEntry)
    ensures
        file_consume_spec(s, e).files.len() == s.files.len(),
        forall|i: int| 0 <= i < s.files.len() ==> (#[trigger] file_consume_spec(s, e).files[i]).name
            == s.files[i].name,
{
}

proof fn lemma_file_consumes_keep_order(s: SessionView, es: Seq<FileConsumeEntry>)
    requires
        files_ordered(s.files),
    ensures
        files_ordered(file_consumes_spec(s, es).files),
    decreases es.len(),
{
    if es.len() > 0 {
        lemma_file_consumes_keep_order(s, es.drop_last());
        let s1 = file_consumes_spec(s, es.drop_last());
        lemma_file_consume_keeps_names(s1, es.last());
        let r = file_consume_spec(s1, es.last()).files;
        assert forall|i: int, j: int| 0 <= i < j < r.len() implies text_le(#[trigger] r[i].name, #[trigger] r[j].name)
            && r[i].name != r[j].name by {
            assert(r[i].name == s1.files[i].name && r[j].name == s1.files[j].name);
        }
    }
}

/// Saving never renames, adds or drops files.
pub proof fn lemma_save_keeps_names(s: SessionView, name: Seq<char>, trim: bool)
    ensures
        save_file_spec(s, name, trim).files.len() == s.files.len(),
        forall|i: int| 0 <= i < s.files.len() ==> (#[trigger] save_file_spec(s, name, trim).files[i]).name
            == s.files[i].name,
{
}

/// Every event of the connection keeps the files in strictly increasing
/// order of name: the list stays sorted and never holds a name twice.
pub proof fn lemma_events_keep_order(s: SessionView, evs: Seq<SessionEvent>)
    requires
        files_ordered(s.files),
    ensures
        files_ordered(events_spec(s, evs).files),
    decreases evs.len(),
{
    if evs.len() > 0 {
        lemma_events_keep_order(s, evs.drop_last());
        let s1 = events_spec(s, evs.drop_last());
        if let SessionEvent::Packet(p) = evs.last() {
            match p {
                Packet::FileAction { actions, .. } => lemma_file_actions_keep_order(s1, actions@),
                Packet::FileConsume { files, .. } => lemma_file_consumes_keep_order(s1, files@),
                _ => {},
            }
        }
    }
}

/// No two notifications share an id.
pub open spec fn ids_unique(ns: Seq<NotificationView>) -> bool {
    forall|i: int, j: int| 0 <= i < j < ns.len() ==> (#[trigger] ns[i]).id != (#[trigger] ns[j]).id
}

proof fn lemma_without_id_keeps_unique(ns: Seq<NotificationView>, id: Seq<char>)
    requires
        ids_unique(ns),
    ensures
        ids_unique(without_id(ns, id)),
    decreases ns.len(),
{
    if ns.len() > 0 {
        let pre = ns.drop_last();
        assert(ids_unique(pre)) by {
            assert forall|i: int, j: int| 0 <= i < j < pre.len() implies (#[trigger] pre[i]).id
                != (#[trigger] pre[j]).id by {
                assert(pre[i] == ns[i] && pre[j] == ns[j]);
            }
        }
        lemma_without_id_keeps_unique(pre, id);
        lemma_without_id_members(pre, id);
        let rest = without_id(pre, id);
        let w = without_id(ns, id);
        if ns.last().id != id {
            assert forall|i: int, j: int| 0 <= i < j < w.len() implies (#[trigger] w[i]).id != (
            #[trigger] w[j]).id by {
                if j == w.len() - 1 {
                    assert(w[i] == rest[i]);
                    let k = choose|k: int| 0 <= k < pre.len() && pre[k] == rest[i];
                    assert(ns[k] == rest[i]);
                    assert(w[j] == ns[ns.len() - 1]);
                } else {
                    assert(w[i] == rest[i] && w[j] == rest[j]);
                }
            }
        }
    }
}

proof fn lemma_push_keeps_unique(s: SessionView, kind: NotificationKind, id: Seq<char>, message: Seq<char>)
    requires
        ids_unique(s.notifications),
    ensures
        ids_unique(push_notification_spec(s, kind, id, message).notifications),
{
    lemma_without_id_keeps_unique(s.notifications, id);
    lemma_push_leaves_one_per_id(s, kind, id, message);
    let w = without_id(s.notifications, id);
    let ns = push_notification_spec(s, kind, id, message).notifications;
    assert forall|i: int, j: int| 0 <= i < j < ns.len() implies (#[trigger] ns[i]).id != (
    #[trigger] ns[j]).id by {
        if j < ns.len() - 1 {
            assert(ns[i] == w[i] && ns[j] == w[j]);
        }
    }
}

proof fn lemma_file_action_keeps_unique(s: SessionView, a: FileActionEntry)
    requires
        ids_unique(s.notifications),
    ensures
        ids_unique(file_action_spec(s, a).notifications),
{
    if a.action == 0 {
        let name = a.file@;
        lemma_without_id_keeps_unique(s.notifications, notification_id(name, "update"@));
        lemma_push_keeps_unique(
            s,
            NotificationKind::Warn,
            notification_id(name, "update"@),
            name + " changed on the remote."@,
        );
    }
}

proof fn lemma_file_consume_keeps_unique(s: SessionView, e: FileConsumeEntry)
    requires
        ids_unique(s.notifications),
    ensures
        ids_unique(file_consume_spec(s, e).notifications),
{
    let name = e.file@;
    let id = notification_id(name, "update"@);
    lemma_without_id_keeps_unique(s.notifications, id);
    lemma_push_keeps_unique(s, NotificationKind::Warn, id, name + " changed on the remote."@);
    lemma_push_keeps_unique(
        s,
        NotificationKind::Error,
        id,
        name + " couldn't be saved (remote was changed)."@,
    );
    lemma_push_keeps_unique(s, NotificationKind::Error, id, name + " failed to save (read only?)."@);
    if let Some(i) = first_file(s.files, name) {
        let f = s.files[i];
        if let Some((contents, checksum)) = f.pending {
            let s2 = SessionView { files: s.files.update(i, FileView { pending: None, ..f }), ..s };
            lemma_push_keeps_unique(s2, NotificationKind::Warn, id, name + " changed on the remote."@);
        }
    }
}

proof fn lemma_file_actions_keep_unique(s: SessionView, acts: Seq<FileActionEntry>)
    requires
        ids_unique(s.notifications),
    ensures
        ids_unique(file_actions_spec(s, acts).notifications),
    decreases acts.len(),
{
    if acts.len() > 0 {
        lemma_file_actions_keep_unique(s, acts.drop_last());
        lemma_file_action_keeps_unique(file_actions_spec(s, acts.drop_last()), acts.last());
    }
}

proof fn lemma_file_consumes_keep_unique(s: SessionView, es: Seq<FileConsumeEntry>)
    requires
        ids_unique(s.notifications),
    ensures
        ids_unique(file_consumes_spec(s, es).notifications),
    decreases es.len(),
{
    if es.len() > 0 {
        lemma_file_consumes_keep_unique(s, es.drop_last());
        lemma_file_consume_keeps_unique(file_consumes_spec(s, es.drop_last()), es.last());
    }
}

/// Every event of the connection keeps at most one notification per id.
pub proof fn lemma_events_keep_ids_unique(s: SessionView, evs: Seq<SessionEvent>)
    requires
        ids_unique(s.notifications),
    ensures
        ids_unique(events_spec(s, evs).notifications),
    decreases evs.len(),
{
    if evs.len() > 0 {
        lemma_events_keep_ids_unique(s, evs.drop_last());
        let s1 = events_spec(s, evs.drop_last());
        if let SessionEvent::Packet(p) = evs.last() {
            match p {
                Packet::ConnectionAbuse { message } => lemma_push_keeps_unique(
                    s1,
                    NotificationKind::Warn,
                    "abuse"@,
                    message@,
                ),
                Packet::FileAction { actions, .. } => lemma_file_actions_keep_unique(s1, actions@),
                Packet::FileConsume { files, .. } => lemma_file_consumes_keep_unique(s1, files@),
                _ => {},
            }
        }
    }
}


/// When the host accepts a save whose checksum is the one in flight, the
/// file's remote contents become exactly the contents sent with that save,
/// whatever the buffer holds by the time the answer comes; the remote
/// checksum is the one sent, no save is left in flight, the buffer and the
/// other fields are kept, and the other files are untouched.
pub proof fn lemma_accepted_answer_sets_sent_contents(
    s: SessionView,
    e: FileConsumeEntry,
    i: int,
    sent: Seq<char>,
    sum: u32,
)
    requires
        is_first_file(s.files, e.file@, i),
        s.files[i].pending == Some((sent, sum)),
        e.result == FileConsumeResult::Accepted,
        e.checksum == sum,
    ensures
        ({
            let after = file_consume_spec(s, e).files;
            &&& after.len() == s.files.len()
            &&& after[i].remote_contents == sent
            &&& after[i].remote_checksum == sum
            &&& after[i].pending is None
            &&& after[i].buffer == s.files[i].buffer
            &&& after[i].name == s.files[i].name
            &&& after[i].read_only == s.files[i].read_only
            &&& after[i].is_new == s.files[i].is_new
            &&& forall|j: int| 0 <= j < after.len() && j != i ==> after[j] == s.files[j]
        }),
        file_consume_spec(s, e).active_file == s.active_file,
        file_consume_spec(s, e).notifications == without_id(
            s.notifications,
            notification_id(e.file@, "update"@),
        ),
{
    lemma_first_file_found(s.files, e.file@, i);
}

/// When the host accepts a save with a checksum other than the one in
/// flight, the remote contents and checksum stay as they were, the save is
/// no longer in flight, and a warning that the file changed on the remote is
/// shown last.
pub proof fn lemma_accepted_answer_other_checksum(
    s: SessionView,
    e: FileConsumeEntry,
    i: int,
    sent: Seq<char>,
    sum: u32,
)
    requires
        is_first_file(s.files, e.file@, i),
        s.files[i].pending == Some((sent, sum)),
        e.result == FileConsumeResult::Accepted,
        e.checksum != sum,
    ensures
        ({
            let after = file_consume_spec(s, e);
            &&& after.files.len() == s.files.len()
            &&& after.files[i].remote_contents == s.files[i].remote_contents
            &&& after.files[i].remote_checksum == s.files[i].remote_checksum
            &&& after.files[i].buffer == s.files[i].buffer
            &&& after.files[i].pending is None
            &&& after.notifications.last() == (NotificationView {
                id: notification_id(e.file@, "update"@),
                kind: NotificationKind::Warn,
                message: e.file@ + " changed on the remote."@,
            })
        }),
{
    lemma_first_file_found(s.files, e.file@, i);
}

/// A rejected or failed save leaves the files as they were and shows an
/// error about the file last; an answer about a file that is not listed
/// changes nothing.
pub proof fn lemma_refused_answer_reports(s: SessionView, e: FileConsumeEntry)
    ensures
        !(exists|i: int| is_first_file(s.files, e.file@, i)) ==> file_consume_spec(s, e) == s,
        (exists|i: int| is_first_file(s.files, e.file@, i)) && e.result == FileConsumeResult::Reject
            ==> {
            let after = file_consume_spec(s, e);
            &&& after.files == s.files
            &&& after.notifications.last() == (NotificationView {
                id: notification_id(e.file@, "update"@),
                kind: NotificationKind::Error,
                message: e.file@ + " couldn't be saved (remote was changed)."@,
            })
        },
        (exists|i: int| is_first_file(s.files, e.file@, i)) && e.result == FileConsumeResult::Failure
            ==> {
            let after = file_consume_spec(s, e);
            &&& after.files == s.files
            &&& after.notifications.last() == (NotificationView {
                id: notification_id(e.file@, "update"@),
                kind: NotificationKind::Error,
                message: e.file@ + " failed to save (read only?)."@,
            })
        },
{
}

/// A `Replace` action that asks to open its file makes that file the active
/// one, whether or not a file of that name was listed before; one that does
/// not ask leaves the active file as it was.
pub proof fn lemma_replace_open_makes_active(s: SessionView, a: FileActionEntry)
    requires
        a.action == crate::protocol::ACTION_REPLACE,
    ensures
        a.flags & crate::file_flags::OPEN != 0 ==> file_action_spec(s, a).active_file == Some(
            a.file@,
        ),
        a.flags & crate::file_flags::OPEN == 0 ==> file_action_spec(s, a).active_file
            == s.active_file,
{
}

/// After a `TerminalInfo` packet the session shows the computer id and the
/// label that the packet carries, and nothing else changes.
pub proof fn lemma_terminal_info_shown(s: SessionView, id: Option<i64>, label: Option<String>)
    ensures
        ({
            let after = handle_packet_spec(s, Packet::TerminalInfo { id, label });
            &&& after.info.computer_id == id
            &&& (label is None ==> after.info.label is None)
            &&& (label matches Some(l) ==> after.info.label == Some(l@))
            &&& after.files == s.files
            &&& after.status == s.status
            &&& after.terminal == s.terminal
            &&& after.notifications == s.notifications
        }),
{
}

/// The mirrored screen is the one the host sent: its size, clamped to
/// 1..=200 columns and 1..=100 rows; one line of text and colours per row,
/// the host's lines row by row and blank rows past them, text cut at twice
/// the width; its cursor position (counted from 1), kept on screen; its
/// blinking; its cursor colours (white on black only for a colour left out)
/// and its palette (the previous one kept when none is sent).
pub proof fn lemma_terminal_mirrors_host(t: TerminalView, c: TerminalContents)
    ensures
        ({
            let after = terminal_after(t, c);
            &&& (1 <= c.width <= 200 ==> after.width == c.width)
            &&& (c.width < 1 ==> after.width == 1)
            &&& (c.width > 200 ==> after.width == 200)
            &&& (1 <= c.height <= 100 ==> after.height == c.height)
            &&& (c.height < 1 ==> after.height == 1)
            &&& (c.height > 100 ==> after.height == 100)
            &&& after.text.len() == after.height
            &&& after.fore.len() == after.height
            &&& after.back.len() == after.height
            &&& (forall|y: int|
                0 <= y < after.height && y >= c.text@.len() ==> after.text[y].len() == 0)
            &&& (forall|y: int|
                0 <= y < after.height && y >= c.fore@.len() ==> after.fore[y].len() == 0)
            &&& (forall|y: int|
                0 <= y < after.height && y >= c.back@.len() ==> after.back[y].len() == 0)
            &&& (forall|y: int|
                0 <= y < after.height && y < c.text@.len() && c.text@[y]@.len() > 2 * after.width
                    ==> after.text[y] == c.text@[y]@.take(2 * after.width))
            &&& (c.cursor_x == 0 ==> after.cursor_x == 0)
            &&& (c.cursor_x > after.width ==> after.cursor_x == after.width - 1)
            &&& (c.cursor_y == 0 ==> after.cursor_y == 0)
            &&& (c.cursor_y > after.height ==> after.cursor_y == after.height - 1)
            &&& (forall|y: int|
                0 <= y < after.height && y < c.fore@.len() ==> after.fore[y] == c.fore@[y]@)
            &&& (forall|y: int|
                0 <= y < after.height && y < c.back@.len() ==> after.back[y] == c.back@[y]@)
            &&& (forall|y: int|
                0 <= y < after.height && y < c.text@.len() && c.text@[y]@.len() <= 2 * after.width
                    ==> after.text[y] == c.text@[y]@)
            &&& (1 <= c.cursor_x <= after.width ==> after.cursor_x == c.cursor_x - 1)
            &&& (1 <= c.cursor_y <= after.height ==> after.cursor_y == c.cursor_y - 1)
            &&& after.cursor_blink == c.cursor_blink
            &&& (c.cur_fore matches Some(f) ==> after.cursor_fore == f@)
            &&& (c.cur_fore is None ==> after.cursor_fore == "#ffffff"@)
            &&& (c.cur_back matches Some(b) ==> after.cursor_back == b@)
            &&& (c.cur_back is None ==> after.cursor_back == "#000000"@)
            &&& (c.palette is Some ==> after.palette == c.palette)
            &&& (c.palette is None ==> after.palette == t.palette)
        }),
{
}

proof fn lemma_count_not_after_bounded(fs: Seq<FileView>, name: Seq<char>)
    ensures
        count_not_after(fs, name) <= fs.len(),
    decreases fs.len(),
{
    if fs.len() > 0 {
        lemma_count_not_after_bounded(fs.drop_last(), name);
    }
}

/// Ordering files by name keeps exactly the files it was given.
pub proof fn lemma_sort_by_name_keeps_files(fs: Seq<FileView>)
    ensures
        sort_by_name(fs).len() == fs.len(),
        forall|x: FileView| #[trigger] sort_by_name(fs).contains(x) <==> fs.contains(x),
    decreases fs.len(),
{
    if fs.len() > 0 {
        let pre = fs.drop_last();
        lemma_sort_by_name_keeps_files(pre);
        let r = sort_by_name(pre);
        let l = fs.last();
        lemma_count_not_after_bounded(r, l.name);
        let k = count_not_after(r, l.name) as int;
        let out = r.insert(k, l);
        assert(sort_by_name(fs) == out);
        assert forall|x: FileView| out.contains(x) <==> fs.contains(x) by {
            if out.contains(x) {
                let j = choose|j: int| 0 <= j < out.len() && out[j] == x;
                if j == k {
                    assert(fs[fs.len() - 1] == x);
                } else {
                    let m = if j < k { j } else { j - 1 };
                    assert(r[m] == x);
                    assert(r.contains(x));
                    assert(pre.contains(x));
                    let q = choose|q: int| 0 <= q < pre.len() && pre[q] == x;
                    assert(fs[q] == x);
                }
            }
            if fs.contains(x) {
                let j = choose|j: int| 0 <= j < fs.len() && fs[j] == x;
                if j == fs.len() - 1 {
                    assert(out[k] == x);
                } else {
                    assert(pre[j] == x);
                    assert(pre.contains(x));
                    assert(r.contains(x));
                    let m = choose|m: int| 0 <= m < r.len() && r[m] == x;
                    if m < k {
                        assert(out[m] == x);
                    } else {
                        assert(out[m + 1] == x);
                    }
                }
            }
        }
    }
}

/// Dropping the files named `name` keeps every other file and no file of
/// that name.
pub proof fn lemma_without_file_members(fs: Seq<FileView>, name: Seq<char>)
    ensures
        forall|x: FileView| #[trigger]
            without_file(fs, name).contains(x) <==> (fs.contains(x) && x.name != name),
    decreases fs.len(),
{
    if fs.len() > 0 {
        let pre = fs.drop_last();
        lemma_without_file_members(pre, name);
        let rest = without_file(pre, name);
        let l = fs.last();
        assert forall|x: FileView| #[trigger]
            without_file(fs, name).contains(x) <==> (fs.contains(x) && x.name != name) by {
            if pre.contains(x) {
                let q = choose|q: int| 0 <= q < pre.len() && pre[q] == x;
                assert(fs[q] == x);
            }
            if fs.contains(x) {
                let j = choose|j: int| 0 <= j < fs.len() && fs[j] == x;
                if j < fs.len() - 1 {
                    assert(pre[j] == x);
                }
            }
            if l.name != name {
                let out = rest.push(l);
                assert(out[rest.len() as int] == l);
                if out.contains(x) {
                    let j = choose|j: int| 0 <= j < out.len() && out[j] == x;
                    if j < rest.len() {
                        assert(rest[j] == x);
                    }
                }
                if rest.contains(x) {
                    let j = choose|j: int| 0 <= j < rest.len() && rest[j] == x;
                    assert(out[j] == x);
                }
            }
        }
    }
}

/// A `Replace` action on a listed file that is forced, or that was made
/// against the file's remote checksum, leaves that file with the action's
/// contents as both its remote contents and its buffer, their checksum, the
/// action's read-only flag and no longer new; the number of files is kept.
/// One that is neither forced nor made against the remote checksum keeps
/// the files and warns, last, that the file changed on the remote.
pub proof fn lemma_replace_updates_listed_file(s: SessionView, a: FileActionEntry, i: int)
    requires
        a.action == crate::protocol::ACTION_REPLACE,
        is_first_file(s.files, a.file@, i),
    ensures
        ({
            let after = file_action_spec(s, a);
            let contents = contents_view(a.contents);
            let f = s.files[i];
            &&& after.files.len() == s.files.len()
            &&& (a.flags & crate::file_flags::FORCE != 0 || f.remote_checksum == a.checksum)
                ==> after.files.contains(
                FileView {
                    read_only: a.flags & crate::file_flags::READ_ONLY != 0,
                    is_new: false,
                    remote_contents: contents,
                    remote_checksum: fletcher32_spec(contents),
                    buffer: contents,
                    ..f
                },
            )
            &&& !(a.flags & crate::file_flags::FORCE != 0 || f.remote_checksum == a.checksum)
                ==> {
                &&& (forall|x: FileView| #[trigger]
                    after.files.contains(x) <==> s.files.contains(x))
                &&& after.notifications.last() == (NotificationView {
                    id: notification_id(a.file@, "update"@),
                    kind: NotificationKind::Warn,
                    message: a.file@ + " changed on the remote."@,
                })
            }
        }),
{
    lemma_first_file_found(s.files, a.file@, i);
    let s1 = replace_in_place_spec(s, a);
    lemma_sort_by_name_keeps_files(s1.files);
    let contents = contents_view(a.contents);
    let f = s.files[i];
    if a.flags & 2u32 != 0 || f.remote_checksum == a.checksum {
        let nf = FileView {
            read_only: a.flags & 1u32 != 0,
            is_new: false,
            remote_contents: contents,
            remote_checksum: fletcher32_spec(contents),
            buffer: contents,
            ..f
        };
        assert(s1.files[i] == nf);
        assert(s1.files.contains(nf));
    }
}

/// A `Replace` action on a file that is not listed adds one file of that
/// name, with the action's contents as its remote contents and buffer,
/// their checksum, the action's read-only and new flags and no save in
/// flight; every file listed before stays.
pub proof fn lemma_replace_adds_unlisted_file(s: SessionView, a: FileActionEntry)
    requires
        a.action == crate::protocol::ACTION_REPLACE,
        !(exists|i: int| is_first_file(s.files, a.file@, i)),
    ensures
        ({
            let after = file_action_spec(s, a);
            let contents = contents_view(a.contents);
            &&& after.files.len() == s.files.len() + 1
            &&& after.files.contains(
                FileView {
                    name: a.file@,
                    read_only: a.flags & crate::file_flags::READ_ONLY != 0,
                    is_new: a.flags & crate::file_flags::NEW != 0,
                    remote_contents: contents,
                    remote_checksum: fletcher32_spec(contents),
                    buffer: contents,
                    pending: None,
                },
            )
            &&& forall|x: FileView| s.files.contains(x) ==> #[trigger] after.files.contains(x)
            &&& after.notifications == s.notifications
        }),
{
    let s1 = replace_in_place_spec(s, a);
    lemma_sort_by_name_keeps_files(s1.files);
    let contents = contents_view(a.contents);
    let nf = FileView {
        name: a.file@,
        read_only: a.flags & 1u32 != 0,
        is_new: a.flags & 8u32 != 0,
        remote_contents: contents,
        remote_checksum: fletcher32_spec(contents),
        buffer: contents,
        pending: None,
    };
    assert(s1.files == s.files.push(nf));
    assert(s1.files[s.files.len() as int] == nf);
    assert forall|x: FileView| s.files.contains(x) implies #[trigger] s1.files.contains(x) by {
        let j = choose|j: int| 0 <= j < s.files.len() && s.files[j] == x;
        assert(s1.files[j] == x);
    }
}

/// A `Delete` action drops every file of that name and keeps every other
/// file; the editor closes the file when it was the active one.
pub proof fn lemma_delete_drops_file(s: SessionView, a: FileActionEntry)
    requires
        a.action == crate::protocol::ACTION_DELETE,
    ensures
        ({
            let after = file_action_spec(s, a);
            &&& forall|x: FileView| #[trigger]
                after.files.contains(x) <==> (s.files.contains(x) && x.name != a.file@)
            &&& (s.active_file == Some(a.file@) ==> after.active_file is None)
            &&& (s.active_file != Some(a.file@) ==> after.active_file == s.active_file)
            &&& after.notifications == s.notifications
        }),
{
    lemma_without_file_members(s.files, a.file@);
}

/// Saving a listed, writable file puts the (possibly trimmed) buffer in
/// flight with its checksum and makes it the buffer, leaving the remote
/// contents and every other file alone; saving a read-only or unlisted
/// file changes nothing.
pub proof fn lemma_save_puts_contents_in_flight(s: SessionView, name: Seq<char>, trim: bool)
    ensures
        !save_sends(s, name) ==> save_file_spec(s, name, trim) == s,
        save_sends(s, name) ==> ({
            let i = first_file(s.files, name)->Some_0;
            let f = s.files[i];
            let sent = save_contents(f.buffer, trim);
            let after = save_file_spec(s, name, trim).files;
            &&& after.len() == s.files.len()
            &&& after[i].buffer == sent
            &&& after[i].pending == Some((sent, fletcher32_spec(sent)))
            &&& after[i].remote_contents == f.remote_contents
            &&& after[i].remote_checksum == f.remote_checksum
            &&& after[i].name == name
            &&& forall|j: int| 0 <= j < after.len() && j != i ==> after[j] == s.files[j]
        }),
        !trim ==> save_contents(s.files[first_file(s.files, name)->Some_0].buffer, trim)
            == s.files[first_file(s.files, name)->Some_0].buffer,
{
    if save_sends(s, name) {
        lemma_first_file_some(s.files, name);
    }
}

/// The connection status follows the relay: a host peer among the
/// capabilities means connected; otherwise a connection that had a host is
/// lost (and the computer's details are cleared), and one that never had
/// one is waiting. An abuse warning is shown last, under the id `abuse`.
pub proof fn lemma_connection_updates(s: SessionView, p: Packet)
    ensures
        p matches Packet::ConnectionUpdate { capabilities, .. } ==> ({
            let after = handle_packet_spec(s, p);
            &&& has_host_capability(capabilities@) ==> after.status is Connected
                && after.has_connected
            &&& (!has_host_capability(capabilities@) && s.has_connected) ==> after.status
                is LostConnection && after.info == (InfoView { computer_id: None, label: None })
            &&& (!has_host_capability(capabilities@) && !s.has_connected) ==> after.status
                is Waiting && !after.has_connected && after.info == s.info
            &&& after.files == s.files
        }),
        p matches Packet::ConnectionAbuse { message } ==> ({
            let after = handle_packet_spec(s, p);
            &&& after.notifications.last() == (NotificationView {
                id: "abuse"@,
                kind: NotificationKind::Warn,
                message: message@,
            })
            &&& after.status == s.status
            &&& after.files == s.files
        }),
{
}

/// An answer from the assistant is offered as its last result and makes it
/// idle again; a failure is shown as the assistant's error and keeps the
/// previous answer. No answer changes nothing.
pub proof fn lemma_ai_answer_recorded(s: SessionView, r: Option<AiResult>)
    ensures
        r is None ==> ai_result_spec(s, r) == s,
        r matches Some(AiResult::Done(text)) ==> ai_result_spec(s, r).ai.last_result == Some(text@)
            && ai_result_spec(s, r).ai.status is Idle,
        r matches Some(AiResult::Failed(msg)) ==> ai_result_spec(s, r).ai.status == AiStatusView::Error(
            msg@,
        ) && ai_result_spec(s, r).ai.last_result == s.ai.last_result,
{
}

/// A closed connection that had a host is shown as lost; one that never
/// had a host shows the reason as an error, as does a connection error.
pub proof fn lemma_connection_end_shown(s: SessionView, ev: SessionEvent)
    ensures
        ev matches SessionEvent::Closed(reason) ==> (if s.has_connected {
            event_spec(s, ev).status is LostConnection
        } else {
            event_spec(s, ev).status == StatusView::Errored(reason@)
        }),
        ev matches SessionEvent::Error(reason) ==> event_spec(s, ev).status == StatusView::Errored(
            reason@,
        ),
        ev is Connected ==> event_spec(s, ev).status is Waiting,
{
}

/// A file action other than a replacement or a deletion (a patch, which
/// the host never sends) changes nothing.
pub proof fn lemma_other_actions_change_nothing(s: SessionView, a: FileActionEntry)
    requires
        a.action != crate::protocol::ACTION_REPLACE,
        a.action != crate::protocol::ACTION_DELETE,
    ensures
        file_action_spec(s, a) == s,
{
}

} // verus!
