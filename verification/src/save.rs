//! The session archive: durable, rotating records of conversations. This
//! module holds the archive's authoritative model — naming, ordering by
//! modification stamp, retention — as an in-memory store; mirroring each
//! record to a file on disk is left to the unverified shell around the
//! library, which calls the same decisions.
use vstd::prelude::*;

verus! {

use crate::text::{views_of_strings, duplicate_strings, dec_str, u64_to_string};
use vstd::string::{StrSliceExecFns, StringExecFns};

/// What kind of entry a stored record line is.
#[derive(Clone, Copy, Debug, PartialEq, Eq, Structural)]
pub enum MessageType {
    Text,
    File,
    System,
}

/// One archived message line.
#[derive(Debug)]
pub struct ChatMessage {
    pub sender: String,
    pub content: String,
    pub timestamp: String,
    pub message_type: MessageType,
}

/// The mathematical value of an archived message line.
pub ghost struct ChatMessageView {
    pub sender: Seq<char>,
    pub content: Seq<char>,
    pub timestamp: Seq<char>,
    pub message_type: MessageType,
}

impl View for ChatMessage {
    type V = ChatMessageView;

    open spec fn view(&self) -> ChatMessageView {
        ChatMessageView {
            sender: self.sender@,
            content: self.content@,
            timestamp: self.timestamp@,
            message_type: self.message_type,
        }
    }
}

impl ChatMessage {
    /// A copy of this line.
    pub fn duplicate(&self) -> (r: ChatMessage)
        ensures
            r@ == self@,
    {
        ChatMessage {
            sender: self.sender.clone(),
            content: self.content.clone(),
            timestamp: self.timestamp.clone(),
            message_type: self.message_type,
        }
    }
}

/// The views of a list of archived lines, in order.
pub open spec fn views_of_lines(s: Seq<ChatMessage>) -> Seq<ChatMessageView> {
    s.map_values(|m: ChatMessage| m@)
}

/// Copies a list of archived lines.
fn duplicate_lines(v: &Vec<ChatMessage>) -> (r: Vec<ChatMessage>)
    ensures
        views_of_lines(r@) == views_of_lines(v@),
{
    let mut r: Vec<ChatMessage> = Vec::new();
    let mut i: usize = 0;
    while i < v.len()
        invariant
            i <= v@.len(),
            views_of_lines(r@) == views_of_lines(v@).take(i as int),
        decreases v@.len() - i,
    {
        let ghost prior = views_of_lines(r@);
        let copy = v[i].duplicate();
        proof {
            assert(copy@ == views_of_lines(v@)[i as int]);
        }
        r.push(copy);
        proof {
            assert(views_of_lines(r@) =~= prior.push(copy@));
            assert(views_of_lines(v@).take(i + 1) =~= views_of_lines(v@).take(i as int).push(
                views_of_lines(v@)[i as int],
            ));
        }
        i = i + 1;
    }
    proof {
        assert(views_of_lines(v@).take(v@.len() as int) =~= views_of_lines(v@));
    }
    r
}

/// One durable, archivable record of a room's conversation.
#[derive(Debug)]
pub struct ChatSession {
    pub session_id: String,
    pub participants: Vec<String>,
    pub messages: Vec<ChatMessage>,
    pub created_at: String,
    pub last_updated: String,
}

/// The mathematical value of a [`ChatSession`].
pub ghost struct ChatSessionView {
    pub session_id: Seq<char>,
    pub participants: Seq<Seq<char>>,
    pub messages: Seq<ChatMessageView>,
    pub created_at: Seq<char>,
    pub last_updated: Seq<char>,
}

impl View for ChatSession {
    type V = ChatSessionView;

    open spec fn view(&self) -> ChatSessionView {
        ChatSessionView {
            session_id: self.session_id@,
            participants: views_of_strings(self.participants@),
            messages: views_of_lines(self.messages@),
            created_at: self.created_at@,
            last_updated: self.last_updated@,
        }
    }
}

impl ChatSession {
    /// A copy of this record.
    pub fn duplicate(&self) -> (r: ChatSession)
        ensures
            r@ == self@,
    {
        ChatSession {
            session_id: self.session_id.clone(),
            participants: duplicate_strings(&self.participants),
            messages: duplicate_lines(&self.messages),
            created_at: self.created_at.clone(),
            last_updated: self.last_updated.clone(),
        }
    }
}

/// The recognized configuration options.
#[derive(Debug)]
pub struct Config {
    pub auto_save_enabled: bool,
    pub save_directory: String,
    pub max_saved_chats: usize,
}

impl Default for Config {
    /// Auto-save on, records under `saved_chats`, at most fifty kept.
    fn default() -> (r: Config)
        ensures
            r.auto_save_enabled == true,
            r.save_directory@ == "saved_chats"@,
            r.max_saved_chats == 50,
    {
        Config {
            auto_save_enabled: true,
            save_directory: String::from_str("saved_chats"),
            max_saved_chats: 50,
        }
    }
}

/// What a caller learns about one archived record.
#[derive(Debug)]
pub struct ChatFileInfo {
    pub filename: String,
    pub last_modified: u64,
    pub size: u64,
}

/// The mathematical value of a [`ChatFileInfo`].
pub ghost struct ChatFileInfoView {
    pub filename: Seq<char>,
    pub last_modified: u64,
    pub size: u64,
}

impl View for ChatFileInfo {
    type V = ChatFileInfoView;

    open spec fn view(&self) -> ChatFileInfoView {
        ChatFileInfoView {
            filename: self.filename@,
            last_modified: self.last_modified,
            size: self.size,
        }
    }
}

/// One record held by the archive.
#[derive(Debug)]
struct ArchiveEntry {
    filename: String,
    modified: u64,
    size: u64,
    session: ChatSession,
}

/// The mathematical value of one archived record.
pub ghost struct ArchiveEntryView {
    pub filename: Seq<char>,
    pub modified: u64,
    pub size: u64,
    pub session: ChatSessionView,
}

impl View for ArchiveEntry {
    type V = ArchiveEntryView;

    closed spec fn view(&self) -> ArchiveEntryView {
        ArchiveEntryView {
            filename: self.filename@,
            modified: self.modified,
            size: self.size,
            session: self.session@,
        }
    }
}

/// The views of the archive's records, in order of saving.
spec fn views_of_archive(s: Seq<ArchiveEntry>) -> Seq<ArchiveEntryView> {
    s.map_values(|e: ArchiveEntry| e@)
}

/// The name an archived record is stored under: it embeds the session id
/// and the creation timestamp, so two sessions never collide.
pub open spec fn spec_archive_name(session_id: Seq<char>, created_at: Seq<char>) -> Seq<char> {
    "chat_"@ + session_id + "_"@ + created_at + ".json"@
}

/// Builds the storage name for a record.
pub fn archive_name(session_id: &String, created_at: &String) -> (r: String)
    ensures
        r@ == spec_archive_name(session_id@, created_at@),
{
    let mut r = String::from_str("chat_");
    r.append(session_id.as_str());
    r.append("_");
    r.append(created_at.as_str());
    r.append(".json");
    r
}

/// The tenths of `size / div`, rounded to nearest with ties to even — the
/// rounding a one-decimal rendering uses.
pub open spec fn tenths_of(size: nat, div: nat) -> nat
    recommends
        div > 0,
{
    let q = size * 10 / div;
    let r2 = 2 * (size * 10 % div);
    if r2 > div || (r2 == div && q % 2 == 1) {
        q + 1
    } else {
        q
    }
}

/// The rendering of a byte size: plain bytes below one binary kilobyte,
/// otherwise one decimal of binary kilobytes or megabytes.
pub open spec fn size_text(size: nat) -> Seq<char> {
    if size < 1024 {
        dec_str(size) + " B"@
    } else if size < 1048576 {
        let t = tenths_of(size, 1024);
        dec_str(t / 10) + "."@ + dec_str(t % 10) + " KB"@
    } else {
        let t = tenths_of(size, 1048576);
        dec_str(t / 10) + "."@ + dec_str(t % 10) + " MB"@
    }
}

/// Renders a byte size for display.
pub fn format_file_size(size: u64) -> (r: String)
    ensures
        r@ == size_text(size as nat),
{
    if size < 1024 {
        let mut r = u64_to_string(size);
        r.append(" B");
        r
    } else {
        let div: u64 = if size < 1048576 {
            1024
        } else {
            1048576
        };
        let q = size / div;
        let rem = size % div;
        let p = rem * 10;
        let base = p / div;
        let rem2 = p % div;
        let mut t = q * 10 + base;
        if 2 * rem2 > div || (2 * rem2 == div && t % 2 == 1) {
            t = t + 1;
        }
        proof {
            let si = size as int;
            let di = div as int;
            let qi = q as int;
            let remi = rem as int;
            let basei = base as int;
            let rem2i = rem2 as int;
            assert(si * 10 / di == qi * 10 + basei && si * 10 % di == rem2i)
                by (nonlinear_arith)
                requires
                    di > 0,
                    0 <= si,
                    qi == si / di,
                    remi == si % di,
                    basei == remi * 10 / di,
                    rem2i == remi * 10 % di,
            ;
            assert(t == tenths_of(size as nat, div as nat));
        }
        let mut r = u64_to_string(t / 10);
        r.append(".");
        let frac = u64_to_string(t % 10);
        r.append(frac.as_str());
        if size < 1048576 {
            r.append(" KB");
        } else {
            r.append(" MB");
        }
        r
    }
}

/// The first position at or after `from` where `c` occurs, or the text's
/// length when it never does.
pub open spec fn find_from(s: Seq<char>, c: char, from: int) -> int
    decreases s.len() - from,
{
    if from >= s.len() || from < 0 {
        s.len() as int
    } else if s[from] == c {
        from
    } else {
        find_from(s, c, from + 1)
    }
}

/// `find_from` returns the position with no earlier occurrence.
proof fn lemma_find_from(s: Seq<char>, c: char, from: int, k: int)
    requires
        0 <= from <= k <= s.len(),
        forall|j: int| from <= j < k ==> s[j] != c,
        k == s.len() || s[k] == c,
    ensures
        find_from(s, c, from) == k,
    decreases k - from,
{
    if from < k {
        lemma_find_from(s, c, from + 1, k);
    }
}

/// Whether an archive file name has the shape the display parser reads:
/// a `chat_` prefix, a `.json` suffix, and at least three `_`-separated
/// parts in between, the second at least eight characters and the third at
/// least six.
pub open spec fn archive_display_wf(f: Seq<char>) -> bool {
    let n = f.len() as int;
    &&& n >= 10
    &&& f.take(5) == "chat_"@
    &&& f.skip(n - 5) == ".json"@
    &&& {
        let inner = f.subrange(5, n - 5);
        let p1 = find_from(inner, '_', 0);
        let p2 = find_from(inner, '_', p1 + 1);
        let p3 = find_from(inner, '_', p2 + 1);
        &&& p1 < inner.len()
        &&& p2 < inner.len()
        &&& p2 - p1 - 1 >= 8
        &&& p3 - p2 - 1 >= 6
    }
}

/// The display name of an archive file: for a well-shaped
/// `chat_{id}_{date}_{time}.json` name, a `Session` line with the date and
/// time fields spelled out; any other name displays as itself. Fields are
/// counted in characters.
pub open spec fn archive_display_name(f: Seq<char>) -> Seq<char> {
    if archive_display_wf(f) {
        let n = f.len() as int;
        let inner = f.subrange(5, n - 5);
        let p1 = find_from(inner, '_', 0);
        let p2 = find_from(inner, '_', p1 + 1);
        let p3 = find_from(inner, '_', p2 + 1);
        let sid = inner.take(p1);
        let date = inner.subrange(p1 + 1, p2);
        let time = inner.subrange(p2 + 1, p3);
        "Session "@ + sid + " - "@ + date.take(4) + "/"@ + date.subrange(4, 6) + "/"@
            + date.subrange(6, 8) + " "@ + time.take(2) + ":"@ + time.subrange(2, 4) + ":"@
            + time.subrange(4, 6)
    } else {
        f
    }
}

/// Scans for the next `_` in `f` at or after `start`, staying below `end`.
fn scan_underscore(f: &str, start: usize, end: usize) -> (r: usize)
    requires
        5 <= start <= end,
        end as int == f@.len() - 5,
        f@.len() >= 10,
    ensures
        start <= r <= end,
        find_from(f@.subrange(5, f@.len() - 5), '_', start - 5) == r - 5,
        r < end ==> f@[r as int] == '_',
{
    let ghost inner = f@.subrange(5, f@.len() - 5);
    let mut i = start;
    while i < end && f.get_char(i) != '_'
        invariant
            5 <= start <= i <= end,
            end as int == f@.len() - 5,
            f@.len() >= 10,
            inner == f@.subrange(5, f@.len() - 5),
            forall|j: int| start - 5 <= j < i - 5 ==> inner[j] != '_',
        decreases end - i,
    {
        proof {
            assert(f@.subrange(5, f@.len() - 5)[i - 5] == f@[i as int]);
            assert(inner[i - 5] == f@[i as int]);
        }
        i = i + 1;
    }
    proof {
        if i < end {
            assert(f@.subrange(5, f@.len() - 5)[i - 5] == f@[i as int]);
            assert(inner[i - 5] == f@[i as int]);
        }
        lemma_find_from(inner, '_', start - 5, i - 5);
    }
    i
}

/// Renders the display name of an archive file.
pub fn extract_display_name(filename: &str) -> (r: String)
    ensures
        r@ == archive_display_name(filename@),
{
    let n = filename.unicode_len();
    if n < 10 {
        return filename.to_owned();
    }
    let ok_prefix = filename.get_char(0) == 'c' && filename.get_char(1) == 'h'
        && filename.get_char(2) == 'a' && filename.get_char(3) == 't' && filename.get_char(4)
        == '_';
    proof {
        reveal_strlit("chat_");
        if ok_prefix {
            assert(filename@.take(5) =~= "chat_"@);
        } else {
            assert(filename@.take(5) != "chat_"@) by {
                if filename@.take(5) == "chat_"@ {
                    assert(filename@.take(5)[0] == 'c' && filename@.take(5)[1] == 'h'
                        && filename@.take(5)[2] == 'a' && filename@.take(5)[3] == 't'
                        && filename@.take(5)[4] == '_');
                }
            };
        }
    }
    if !ok_prefix {
        return filename.to_owned();
    }
    let ok_suffix = filename.get_char(n - 5) == '.' && filename.get_char(n - 4) == 'j'
        && filename.get_char(n - 3) == 's' && filename.get_char(n - 2) == 'o'
        && filename.get_char(n - 1) == 'n';
    proof {
        reveal_strlit(".json");
        if ok_suffix {
            assert(filename@.skip(filename@.len() - 5) =~= ".json"@);
        } else {
            assert(filename@.skip(filename@.len() - 5) != ".json"@) by {
                let tail = filename@.skip(filename@.len() - 5);
                if tail == ".json"@ {
                    assert(tail[0] == '.' && tail[1] == 'j' && tail[2] == 's' && tail[3] == 'o'
                        && tail[4] == 'n');
                }
            };
        }
    }
    if !ok_suffix {
        return filename.to_owned();
    }
    let end = n - 5;
    let ghost inner = filename@.subrange(5, filename@.len() - 5);
    let p1 = scan_underscore(filename, 5, end);
    if p1 >= end {
        return filename.to_owned();
    }
    let p2 = scan_underscore(filename, p1 + 1, end);
    if p2 >= end {
        return filename.to_owned();
    }
    let p3 = scan_underscore(filename, p2 + 1, end);
    if p2 - p1 - 1 < 8 || p3 - p2 - 1 < 6 {
        return filename.to_owned();
    }
    let sid = filename.substring_char(5, p1);
    let date = filename.substring_char(p1 + 1, p1 + 9);
    let time = filename.substring_char(p2 + 1, p2 + 7);
    proof {
        assert(sid@ =~= inner.take(p1 - 5));
        assert(date@ =~= inner.subrange(p1 - 5 + 1, p2 - 5).take(8));
        assert(time@ =~= inner.subrange(p2 - 5 + 1, p3 - 5).take(6));
    }
    let mut r = String::from_str("Session ");
    r.append(sid);
    r.append(" - ");
    r.append(date.substring_char(0, 4));
    r.append("/");
    r.append(date.substring_char(4, 6));
    r.append("/");
    r.append(date.substring_char(6, 8));
    r.append(" ");
    r.append(time.substring_char(0, 2));
    r.append(":");
    r.append(time.substring_char(2, 4));
    r.append(":");
    r.append(time.substring_char(4, 6));
    proof {
        let p1s = p1 - 5;
        let p2s = p2 - 5;
        let p3s = p3 - 5;
        let datev = inner.subrange(p1s + 1, p2s);
        let timev = inner.subrange(p2s + 1, p3s);
        assert(date@.subrange(0, 4) =~= datev.take(4));
        assert(date@.subrange(4, 6) =~= datev.subrange(4, 6));
        assert(date@.subrange(6, 8) =~= datev.subrange(6, 8));
        assert(time@.subrange(0, 2) =~= timev.take(2));
        assert(time@.subrange(2, 4) =~= timev.subrange(2, 4));
        assert(time@.subrange(4, 6) =~= timev.subrange(4, 6));
        assert(archive_display_wf(filename@));
        assert(r@ =~= archive_display_name(filename@));
    }
    r
}

/// The bounded, rotating session archive. Records carry strictly increasing
/// modification stamps; the record at the front is always the least
/// recently modified one.
#[derive(Debug)]
pub struct ChatSaveManager {
    config: Config,
    files: Vec<ArchiveEntry>,
    clock: u64,
}

impl ChatSaveManager {
    /// The archive's records, oldest first.
    pub closed spec fn files_view(&self) -> Seq<ArchiveEntryView> {
        views_of_archive(self.files@)
    }

    /// Whether auto-saving is switched on.
    pub closed spec fn spec_auto_save_enabled(&self) -> bool {
        self.config.auto_save_enabled
    }

    /// The configured retention cap.
    pub closed spec fn spec_max_saved_chats(&self) -> int {
        self.config.max_saved_chats as int
    }

    /// The configured directory name.
    pub closed spec fn spec_save_directory(&self) -> Seq<char> {
        self.config.save_directory@
    }

    /// The next modification stamp to be handed out.
    pub closed spec fn spec_clock(&self) -> u64 {
        self.clock
    }

    /// Well-formedness: stamps increase strictly from front to back and stay
    /// below the clock.
    pub closed spec fn wf(&self) -> bool {
        &&& forall|i: int, j: int|
            0 <= i < j < self.files@.len() ==> (#[trigger] self.files@[i])@.modified < (
            #[trigger] self.files@[j])@.modified
        &&& forall|i: int|
            0 <= i < self.files@.len() ==> (#[trigger] self.files@[i])@.modified < self.clock
    }

    /// An empty archive under the given configuration.
    pub fn new(config: Config) -> (r: ChatSaveManager)
        ensures
            r.wf(),
            r.files_view() == Seq::<ArchiveEntryView>::empty(),
            r.spec_auto_save_enabled() == config.auto_save_enabled,
            r.spec_max_saved_chats() == config.max_saved_chats,
            r.spec_save_directory() == config.save_directory@,
    {
        let r = ChatSaveManager { config, files: Vec::new(), clock: 0 };
        proof {
            assert(r.files_view() =~= Seq::<ArchiveEntryView>::empty());
        }
        r
    }

    /// The configured retention cap.
    pub fn max_saved_chats(&self) -> (r: usize)
        ensures
            r == self.spec_max_saved_chats(),
    {
        self.config.max_saved_chats
    }

    /// Whether auto-saving is switched on.
    pub fn auto_save_enabled(&self) -> (r: bool)
        ensures
            r == self.spec_auto_save_enabled(),
    {
        self.config.auto_save_enabled
    }

    /// How an archive run looks after retention: only the records with the
    /// newest stamps stay, at most the cap many.
    pub open spec fn retained(s: Seq<ArchiveEntryView>, max: int) -> Seq<ArchiveEntryView> {
        if s.len() > max {
            s.skip(s.len() - max)
        } else {
            s
        }
    }

    /// Saves a dated record when auto-saving is on; a no-op otherwise. After
    /// the save, the oldest records are dropped until at most the cap many
    /// remain: saving the cap-plus-first record evicts exactly the least
    /// recently modified one. The record is named from the session id and
    /// creation timestamp and carries a fresh modification stamp; its size
    /// field counts the record's message lines.
    pub fn auto_save_chat(&mut self, session: &ChatSession) -> (saved: bool)
        requires
            old(self).wf(),
        ensures
            final(self).wf(),
            final(self).spec_auto_save_enabled() == old(self).spec_auto_save_enabled(),
            final(self).spec_max_saved_chats() == old(self).spec_max_saved_chats(),
            final(self).spec_save_directory() == old(self).spec_save_directory(),
            !old(self).spec_auto_save_enabled() ==> !saved && final(self).files_view() == old(
                self,
            ).files_view(),
            old(self).spec_auto_save_enabled() && old(self).spec_clock() < u64::MAX ==> saved
                && final(self).files_view() == ChatSaveManager::retained(
                old(self).files_view().push(
                    ArchiveEntryView {
                        filename: spec_archive_name(session@.session_id, session@.created_at),
                        modified: old(self).spec_clock(),
                        size: session@.messages.len() as u64,
                        session: session@,
                    },
                ),
                old(self).spec_max_saved_chats(),
            ),
            old(self).spec_auto_save_enabled() && old(self).spec_clock() == u64::MAX ==> !saved
                && final(self).files_view() == old(self).files_view(),
    {
        if !self.config.auto_save_enabled {
            return false;
        }
        if self.clock == u64::MAX {
            return false;
        }
        let filename = archive_name(&session.session_id, &session.created_at);
        let size = session.messages.len() as u64;
        let entry = ArchiveEntry {
            filename,
            modified: self.clock,
            size,
            session: session.duplicate(),
        };
        let ghost appended = old(self).files_view().push(entry@);
        self.files.push(entry);
        self.clock = self.clock + 1;
        proof {
            assert(self.files_view() =~= appended);
        }
        let len = self.files.len();
        let max = self.config.max_saved_chats;
        if len > max {
            let excess = len - max;
            let ghost before = self.files@;
            let kept = self.files.split_off(excess);
            self.files = kept;
            proof {
                assert(self.files_view() =~= views_of_archive(before).skip(excess as int));
                assert(views_of_archive(before).skip(excess as int) =~= ChatSaveManager::retained(
                    appended,
                    max as int,
                ));
            }
        }
        true
    }

    /// The archived records, newest first. Recency goes by modification
    /// stamp, never by name.
    pub fn get_saved_chats(&self) -> (r: Vec<ChatFileInfo>)
        requires
            self.wf(),
        ensures
            r@.len() == self.files_view().len(),
            forall|i: int|
                0 <= i < r@.len() ==> {
                    let e = self.files_view()[self.files_view().len() - 1 - i];
                    (#[trigger] r@[i])@.filename == e.filename && r@[i]@.last_modified
                        == e.modified && r@[i]@.size == e.size
                },
            forall|i: int, j: int|
                0 <= i < j < r@.len() ==> (#[trigger] r@[i])@.last_modified > (
                #[trigger] r@[j])@.last_modified,
    {
        let mut r: Vec<ChatFileInfo> = Vec::new();
        let n = self.files.len();
        let mut i: usize = 0;
        while i < n
            invariant
                i <= n,
                n == self.files@.len(),
                r@.len() == i,
                forall|j: int|
                    0 <= j < i ==> {
                        let e = self.files_view()[self.files_view().len() - 1 - j];
                        (#[trigger] r@[j])@.filename == e.filename && r@[j]@.last_modified
                            == e.modified && r@[j]@.size == e.size
                    },
            decreases n - i,
        {
            let e = &self.files[n - 1 - i];
            r.push(
                ChatFileInfo {
                    filename: e.filename.clone(),
                    last_modified: e.modified,
                    size: e.size,
                },
            );
            i = i + 1;
        }
        proof {
            assert forall|i: int, j: int| 0 <= i < j < r@.len() implies (
            #[trigger] r@[i])@.last_modified > (#[trigger] r@[j])@.last_modified by {
                assert((self.files@[n - 1 - j])@.modified < (self.files@[n - 1 - i])@.modified);
            };
        }
        r
    }

    /// Loads the record stored under `filename`: the most recently saved one
    /// of that name, or nothing when no record carries it.
    pub fn load_chat_from_file(&self, filename: &String) -> (r: Option<ChatSession>)
        ensures
            r is Some <==> exists|i: int|
                0 <= i < self.files_view().len() && (#[trigger] self.files_view()[i]).filename
                    == filename@,
            r is Some ==> exists|i: int|
                {
                    &&& 0 <= i < self.files_view().len()
                    &&& (#[trigger] self.files_view()[i]).filename == filename@
                    &&& r->0@ == self.files_view()[i].session
                    &&& forall|j: int|
                        i < j < self.files_view().len() ==> (
                        #[trigger] self.files_view()[j]).filename != filename@
                },
    {
        let n = self.files.len();
        let mut k: usize = 0;
        while k < n
            invariant
                k <= n,
                n == self.files@.len(),
                forall|j: int|
                    n - k <= j < n ==> (#[trigger] self.files_view()[j]).filename != filename@,
            decreases n - k,
        {
            let i = n - 1 - k;
            if self.files[i].filename == *filename {
                let s = self.files[i].session.duplicate();
                proof {
                    assert(self.files_view()[i as int].filename == filename@);
                }
                return Some(s);
            }
            k = k + 1;
        }
        None
    }

    /// The number of records currently kept.
    pub fn saved_count(&self) -> (r: usize)
        ensures
            r == self.files_view().len(),
    {
        self.files.len()
    }
}

} // verus!
