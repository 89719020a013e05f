//! The room synchronizer: the state machine that turns inbound broadcast
//! events into directory and log mutations plus outbound protocol reactions,
//! and user actions into outbound envelopes and local state mutations. All
//! transport work — joining the topic, broadcasting, receiving — happens in
//! the unverified shell around the library, which drives this state machine
//! with the decoded bodies it receives and broadcasts the bodies it returns.
use vstd::prelude::*;

verus! {

use crate::directory::{PeerDirectory, lists_name, map_has_name};
use crate::errors::ParseError;
use crate::ident::{NodeAddress, PeerId, TopicId, bytes_eq};
use crate::log::{ChatMessage, ChatMessageView, SessionLog, views_of_entries};
use crate::messaging::{
    MessageBody, MessageBodyView, StoredMessage, StoredMessageView, views_of_stored,
    duplicate_stored,
};
use crate::text::{u64_to_string, dec_str, name_le, string_le, lemma_name_total, lemma_name_trans};
use crate::ticket::{Ticket, TicketView, hex_of, is_hex_seq, unhex, spec_encode_ticket};
use vstd::string::{StrSliceExecFns, StringExecFns};

/// Where a room session stands.
#[derive(Clone, Copy, Debug, PartialEq, Eq, Structural)]
pub enum RoomPhase {
    /// No room.
    Idle,
    /// A room is being created; the transport handshake is in flight.
    Creating,
    /// A room is being joined; the transport handshake is in flight.
    Joining,
    /// Subscribed; the inbound loop is running.
    Active,
    /// Teardown announced; transport resources are being released.
    Disconnecting,
}

/// The log text announcing a newcomer.
pub open spec fn joined_text(name: Seq<char>) -> Seq<char> {
    name + " joined the room"@
}

/// The log text announcing a departure.
pub open spec fn left_text(name: Seq<char>) -> Seq<char> {
    name + " disconnected"@
}

/// The log text summarizing a history replay.
pub open spec fn summary_text(n: nat) -> Seq<char> {
    "--- Loaded "@ + dec_str(n) + " messages from history ---"@
}

/// A system entry as it lands in the log.
pub open spec fn system_entry(content: Seq<char>, timestamp: Seq<char>) -> ChatMessageView {
    ChatMessageView {
        username: "System"@,
        content,
        timestamp,
        is_own: false,
        is_system: true,
    }
}

/// A chat entry as it lands in the log.
pub open spec fn chat_entry(
    username: Seq<char>,
    content: Seq<char>,
    timestamp: Seq<char>,
    is_own: bool,
) -> ChatMessageView {
    ChatMessageView { username, content, timestamp, is_own, is_system: false }
}

/// The display entries a replayed history run turns into, in replay order.
pub open spec fn replay_entries(
    ms: Seq<StoredMessageView>,
    self_id: Option<Seq<u8>>,
) -> Seq<ChatMessageView> {
    Seq::new(
        ms.len(),
        |i: int|
            chat_entry(
                ms[i].sender_name,
                ms[i].text,
                ms[i].timestamp,
                self_id == Some(ms[i].from),
            ),
    )
}

/// The archive line a display entry turns into: system entries become
/// system lines, everything else a text line.
pub open spec fn archive_line_of(e: ChatMessageView) -> crate::save::ChatMessageView {
    crate::save::ChatMessageView {
        sender: e.username,
        content: e.content,
        timestamp: e.timestamp,
        message_type: if e.is_system {
            crate::save::MessageType::System
        } else {
            crate::save::MessageType::Text
        },
    }
}

/// The archive lines of a whole log, in order.
pub open spec fn archive_lines_of(log: Seq<ChatMessageView>) -> Seq<
    crate::save::ChatMessageView,
> {
    log.map_values(|e: ChatMessageView| archive_line_of(e))
}

/// Whether some text in the list reads `x`.
pub open spec fn lists_text(ns: Seq<Seq<char>>, x: Seq<char>) -> bool {
    exists|i: int| 0 <= i < ns.len() && #[trigger] ns[i] == x
}

/// Whether a text list is sorted in display order without repeats.
pub open spec fn strictly_sorted_texts(ns: Seq<Seq<char>>) -> bool {
    forall|i: int, j: int|
        0 <= i < j < ns.len() ==> name_le(#[trigger] ns[i], #[trigger] ns[j]) && ns[i] != ns[j]
}

/// Builds the newcomer announcement.
pub fn joined_message(name: &String) -> (r: String)
    ensures
        r@ == joined_text(name@),
{
    let mut r = name.clone();
    r.append(" joined the room");
    r
}

/// Builds the departure announcement.
pub fn left_message(name: &String) -> (r: String)
    ensures
        r@ == left_text(name@),
{
    let mut r = name.clone();
    r.append(" disconnected");
    r
}

/// Builds the history replay summary.
pub fn summary_message(n: u64) -> (r: String)
    ensures
        r@ == summary_text(n as nat),
{
    let mut r = String::from_str("--- Loaded ");
    let count = u64_to_string(n);
    r.append(count.as_str());
    r.append(" messages from history ---");
    r
}

/// The system message shown after joining a room, with the token to share.
pub open spec fn room_joined_text(ticket: Seq<char>) -> Seq<char> {
    "Successfully joined room! Share this room token with others:\n"@ + ticket
}

/// The system message shown after creating a room, with the token to share.
pub open spec fn room_created_text(ticket: Seq<char>) -> Seq<char> {
    "Room created successfully! Share this invitation token with others to join:\n"@ + ticket
}

/// Builds the system message shown after joining a room.
pub fn create_room_joined_message(ticket: &str) -> (r: String)
    ensures
        r@ == room_joined_text(ticket@),
{
    let mut r = String::from_str(
        "Successfully joined room! Share this room token with others:\n",
    );
    r.append(ticket);
    r
}

/// Builds the system message shown after creating a room.
pub fn create_room_created_message(ticket: &str) -> (r: String)
    ensures
        r@ == room_created_text(ticket@),
{
    let mut r = String::from_str(
        "Room created successfully! Share this invitation token with others to join:\n",
    );
    r.append(ticket);
    r
}

/// Builds a system log entry.
fn make_system_entry(content: String, timestamp: String) -> (r: ChatMessage)
    ensures
        r@ == system_entry(content@, timestamp@),
{
    ChatMessage {
        username: String::from_str("System"),
        content,
        timestamp,
        is_own: false,
        is_system: true,
    }
}

/// What one handled event asks the shell to do: bodies to broadcast, and
/// which presentation notifications are due.
#[derive(Debug)]
pub struct HandleOutcome {
    pub outbound: Vec<MessageBody>,
    pub log_changed: bool,
    pub presence_changed: bool,
}

/// The views of a list of bodies, in order.
pub open spec fn views_of_bodies(s: Seq<MessageBody>) -> Seq<MessageBodyView> {
    s.map_values(|b: MessageBody| b@)
}

/// The mathematical value of a [`HandleOutcome`].
pub ghost struct HandleOutcomeView {
    pub outbound: Seq<MessageBodyView>,
    pub log_changed: bool,
    pub presence_changed: bool,
}

impl View for HandleOutcome {
    type V = HandleOutcomeView;

    open spec fn view(&self) -> HandleOutcomeView {
        HandleOutcomeView {
            outbound: views_of_bodies(self.outbound@),
            log_changed: self.log_changed,
            presence_changed: self.presence_changed,
        }
    }
}

/// The state of one room session. Everything the protocol decides is decided
/// here; the shell owns the transport handles.
#[derive(Debug)]
pub struct RoomState {
    phase: RoomPhase,
    self_id: Option<PeerId>,
    self_name: String,
    directory: PeerDirectory,
    log: SessionLog,
    history: Vec<StoredMessage>,
}

/// The mathematical value of a [`RoomState`].
pub ghost struct RoomStateView {
    pub phase: RoomPhase,
    pub self_id: Option<Seq<u8>>,
    pub self_name: Seq<char>,
    pub directory: Map<Seq<u8>, Seq<char>>,
    pub log: Seq<ChatMessageView>,
    pub history: Seq<StoredMessageView>,
}

impl View for RoomState {
    type V = RoomStateView;

    closed spec fn view(&self) -> RoomStateView {
        RoomStateView {
            phase: self.phase,
            self_id: match self.self_id {
                Some(id) => Some(id@),
                None => None,
            },
            self_name: self.self_name@,
            directory: self.directory@,
            log: self.log@,
            history: views_of_stored(self.history@),
        }
    }
}

impl RoomState {
    /// Well-formedness: outside a session everything is empty; within one,
    /// the local identity is known. Constructors establish it and every
    /// method preserves it.
    pub closed spec fn wf(&self) -> bool {
        &&& self.directory.wf()
        &&& (self.phase is Idle || self.phase is Creating || self.phase is Joining) ==> {
            &&& self.self_id is None
            &&& self.directory@ == Map::<Seq<u8>, Seq<char>>::empty()
            &&& self.log@ == Seq::<ChatMessageView>::empty()
            &&& self.history@.len() == 0
        }
        &&& (self.phase is Active || self.phase is Disconnecting) ==> self.self_id is Some
    }

    /// A fresh, idle room state.
    pub fn new() -> (r: RoomState)
        ensures
            r.wf(),
            r@.phase == RoomPhase::Idle,
            r@.self_id is None,
            r@.self_name == Seq::<char>::empty(),
            r@.directory == Map::<Seq<u8>, Seq<char>>::empty(),
            r@.log == Seq::<ChatMessageView>::empty(),
            r@.history == Seq::<StoredMessageView>::empty(),
    {
        let r = RoomState {
            phase: RoomPhase::Idle,
            self_id: None,
            self_name: String::new(),
            directory: PeerDirectory::new(),
            log: SessionLog::new(),
            history: Vec::new(),
        };
        proof {
            assert(r@.history =~= Seq::<StoredMessageView>::empty());
        }
        r
    }

    /// The session's phase.
    pub fn phase(&self) -> (r: RoomPhase)
        ensures
            r == self@.phase,
    {
        self.phase
    }

    /// Marks that a create handshake is in flight.
    pub fn begin_create(&mut self)
        requires
            old(self).wf(),
            old(self)@.phase == RoomPhase::Idle,
        ensures
            final(self).wf(),
            final(self)@ == (RoomStateView { phase: RoomPhase::Creating, ..old(self)@ }),
    {
        self.phase = RoomPhase::Creating;
    }

    /// Marks that a join handshake is in flight.
    pub fn begin_join(&mut self)
        requires
            old(self).wf(),
            old(self)@.phase == RoomPhase::Idle,
        ensures
            final(self).wf(),
            final(self)@ == (RoomStateView { phase: RoomPhase::Joining, ..old(self)@ }),
    {
        self.phase = RoomPhase::Joining;
    }

    /// Abandons an in-flight handshake after a transport failure.
    pub fn abort_pending(&mut self)
        requires
            old(self).wf(),
            old(self)@.phase == RoomPhase::Creating || old(self)@.phase == RoomPhase::Joining,
        ensures
            final(self).wf(),
            final(self)@ == (RoomStateView { phase: RoomPhase::Idle, ..old(self)@ }),
    {
        self.phase = RoomPhase::Idle;
    }

    /// Enters the room: the transport handshake finished and handed back the
    /// local identity.
    pub fn activate(&mut self, self_id: PeerId, name: String)
        requires
            old(self).wf(),
            old(self)@.phase == RoomPhase::Creating || old(self)@.phase == RoomPhase::Joining,
        ensures
            final(self).wf(),
            final(self)@.phase == RoomPhase::Active,
            final(self)@.self_id == Some(self_id@),
            final(self)@.self_name == name@,
            final(self)@.directory == Map::<Seq<u8>, Seq<char>>::empty(),
            final(self)@.log == Seq::<ChatMessageView>::empty(),
            final(self)@.history == Seq::<StoredMessageView>::empty(),
    {
        self.phase = RoomPhase::Active;
        self.self_id = Some(self_id);
        self.self_name = name;
    }

    /// The local participant's presence announcement.
    pub fn hello(&self) -> (r: MessageBody)
        requires
            self.wf(),
            self@.phase == RoomPhase::Active,
        ensures
            r@ == (MessageBodyView::AboutMe {
                from: self@.self_id->0,
                name: self@.self_name,
            }),
    {
        let id = match &self.self_id {
            Some(id) => id.duplicate(),
            None => unreached(),
        };
        MessageBody::AboutMe { from: id, name: self.self_name.clone() }
    }

    /// Announces departure: the first half of a user-initiated disconnect.
    /// The state stays intact until [`RoomState::finish_disconnect`], so the
    /// inbound loop can wind down while delivery of the announcement is
    /// given its chance.
    pub fn disconnect(&mut self) -> (r: MessageBody)
        requires
            old(self).wf(),
            old(self)@.phase == RoomPhase::Active,
        ensures
            final(self).wf(),
            final(self)@ == (RoomStateView { phase: RoomPhase::Disconnecting, ..old(self)@ }),
            r@ == (MessageBodyView::Disconnect {
                from: old(self)@.self_id->0,
                name: old(self)@.self_name,
            }),
    {
        let id = match &self.self_id {
            Some(id) => id.duplicate(),
            None => unreached(),
        };
        let body = MessageBody::Disconnect { from: id, name: self.self_name.clone() };
        self.phase = RoomPhase::Disconnecting;
        body
    }

    /// Clears all session state after the transport resources are released;
    /// the directory and log are emptied whatever teardown itself did.
    pub fn finish_disconnect(&mut self)
        requires
            old(self).wf(),
            old(self)@.phase == RoomPhase::Disconnecting,
        ensures
            final(self).wf(),
            final(self)@.phase == RoomPhase::Idle,
            final(self)@.self_id is None,
            final(self)@.self_name == old(self)@.self_name,
            final(self)@.directory == Map::<Seq<u8>, Seq<char>>::empty(),
            final(self)@.log == Seq::<ChatMessageView>::empty(),
            final(self)@.history == Seq::<StoredMessageView>::empty(),
    {
        self.phase = RoomPhase::Idle;
        self.self_id = None;
        self.directory.clear();
        self.log.clear();
        self.history = Vec::new();
        proof {
            assert(views_of_stored(self.history@) =~= Seq::<StoredMessageView>::empty());
        }
    }

    /// Sends a chat text: the matching display entry lands in the local log
    /// first — the sender sees their own message immediately, whatever later
    /// happens to the broadcast — and the returned body is what the shell
    /// broadcasts.
    pub fn send_chat(&mut self, text: String, now: &String) -> (r: MessageBody)
        requires
            old(self).wf(),
            old(self)@.phase == RoomPhase::Active,
        ensures
            final(self).wf(),
            r@ == (MessageBodyView::Message { from: old(self)@.self_id->0, text: text@ }),
            final(self)@ == (RoomStateView {
                log: old(self)@.log.push(
                    chat_entry(old(self)@.self_name, text@, now@, true),
                ),
                history: old(self)@.history.push(
                    StoredMessageView {
                        from: old(self)@.self_id->0,
                        sender_name: old(self)@.self_name,
                        text: text@,
                        timestamp: now@,
                    },
                ),
                ..old(self)@
            }),
    {
        let id = match &self.self_id {
            Some(id) => id.duplicate(),
            None => unreached(),
        };
        let ghost prior_history = self@.history;
        let entry = ChatMessage {
            username: self.self_name.clone(),
            content: text.clone(),
            timestamp: now.clone(),
            is_own: true,
            is_system: false,
        };
        self.log.append(entry);
        let stored = StoredMessage {
            from: id.duplicate(),
            sender_name: self.self_name.clone(),
            text: text.clone(),
            timestamp: now.clone(),
        };
        let ghost stored_view = stored@;
        self.history.push(stored);
        proof {
            assert(views_of_stored(self.history@) =~= prior_history.push(stored_view));
        }
        MessageBody::Message { from: id, text }
    }

    /// Dispatches one delivered body: presence announcements feed the
    /// directory and — on first sight of a peer — trigger the newcomer
    /// handshake (a presence reply, plus a history push when this
    /// participant has chat history to share); chat texts land in the log
    /// and the history; departures empty the peer's directory entry; a
    /// history transfer is spliced in front of the log, followed by one
    /// summary entry when it brought anything.
    pub fn handle_event(&mut self, body: MessageBody, now: &String) -> (r: HandleOutcome)
        requires
            old(self).wf(),
            old(self)@.phase == RoomPhase::Active,
        ensures
            final(self).wf(),
            final(self)@.phase == RoomPhase::Active,
            final(self)@.self_id == old(self)@.self_id,
            final(self)@.self_name == old(self)@.self_name,
            (body@ matches MessageBodyView::AboutMe { from, name } ==> {
                let first = !old(self)@.directory.dom().contains(from);
                &&& final(self)@.directory == old(self)@.directory.insert(from, name)
                &&& final(self)@.history == old(self)@.history
                &&& r@.presence_changed
                &&& r@.log_changed == first
                &&& (first ==> final(self)@.log == old(self)@.log.push(
                    system_entry(joined_text(name), now@),
                ))
                &&& (!first ==> final(self)@.log == old(self)@.log && r@.outbound == Seq::<
                    MessageBodyView,
                >::empty())
                &&& (first && old(self)@.history.len() == 0 ==> r@.outbound == seq![
                    MessageBodyView::AboutMe {
                        from: old(self)@.self_id->0,
                        name: old(self)@.self_name,
                    },
                ])
                &&& (first && old(self)@.history.len() > 0 ==> r@.outbound == seq![
                    MessageBodyView::AboutMe {
                        from: old(self)@.self_id->0,
                        name: old(self)@.self_name,
                    },
                    MessageBodyView::MessageHistory { messages: old(self)@.history },
                ])
            }),
            (body@ matches MessageBodyView::Message { from, text } ==> {
                let sender = PeerDirectory::resolved_name(old(self)@.directory, from);
                let own = old(self)@.self_id == Some(from);
                &&& final(self)@.directory == old(self)@.directory
                &&& final(self)@.log == old(self)@.log.push(chat_entry(sender, text, now@, own))
                &&& final(self)@.history == old(self)@.history.push(
                    StoredMessageView { from, sender_name: sender, text, timestamp: now@ },
                )
                &&& r@.log_changed
                &&& !r@.presence_changed
                &&& r@.outbound == Seq::<MessageBodyView>::empty()
            }),
            (body@ matches MessageBodyView::Disconnect { from, name } ==> {
                &&& final(self)@.directory == old(self)@.directory.remove(from)
                &&& final(self)@.log == old(self)@.log.push(
                    system_entry(left_text(name), now@),
                )
                &&& final(self)@.history == old(self)@.history
                &&& r@.log_changed
                &&& r@.presence_changed
                &&& r@.outbound == Seq::<MessageBodyView>::empty()
            }),
            (body@ matches MessageBodyView::MessageHistory { messages } ==> {
                &&& final(self)@.directory == old(self)@.directory
                &&& final(self)@.history == old(self)@.history
                &&& final(self)@.log == replay_entries(messages, old(self)@.self_id) + old(
                    self,
                )@.log + (if messages.len() > 0 {
                    seq![system_entry(summary_text(messages.len()), now@)]
                } else {
                    Seq::<ChatMessageView>::empty()
                })
                &&& r@.log_changed
                &&& !r@.presence_changed
                &&& r@.outbound == Seq::<MessageBodyView>::empty()
            }),
    {
        match body {
            MessageBody::AboutMe { from, name } => {
                let first = self.directory.observe_about_me(&from, name.clone());
                let mut outbound: Vec<MessageBody> = Vec::new();
                let mut log_changed = false;
                if first {
                    self.log.append(make_system_entry(joined_message(&name), now.clone()));
                    log_changed = true;
                    let sid = match &self.self_id {
                        Some(id) => id.duplicate(),
                        None => unreached(),
                    };
                    outbound.push(
                        MessageBody::AboutMe { from: sid, name: self.self_name.clone() },
                    );
                    if self.history.len() > 0 {
                        outbound.push(
                            MessageBody::MessageHistory {
                                messages: duplicate_stored(&self.history),
                            },
                        );
                        proof {
                            assert(views_of_bodies(outbound@) =~= seq![
                                MessageBodyView::AboutMe {
                                    from: old(self)@.self_id->0,
                                    name: old(self)@.self_name,
                                },
                                MessageBodyView::MessageHistory {
                                    messages: old(self)@.history,
                                },
                            ]);
                        }
                    } else {
                        proof {
                            assert(views_of_bodies(outbound@) =~= seq![
                                MessageBodyView::AboutMe {
                                    from: old(self)@.self_id->0,
                                    name: old(self)@.self_name,
                                },
                            ]);
                        }
                    }
                } else {
                    proof {
                        assert(views_of_bodies(outbound@) =~= Seq::<MessageBodyView>::empty());
                    }
                }
                HandleOutcome { outbound, log_changed, presence_changed: true }
            },
            MessageBody::Message { from, text } => {
                let sender = self.directory.resolve(&from);
                let own = match &self.self_id {
                    Some(id) => bytes_eq(id.as_bytes(), from.as_bytes()),
                    None => unreached(),
                };
                self.log.append(
                    ChatMessage {
                        username: sender.clone(),
                        content: text.clone(),
                        timestamp: now.clone(),
                        is_own: own,
                        is_system: false,
                    },
                );
                let ghost prior_history = views_of_stored(self.history@);
                let stored = StoredMessage {
                    from,
                    sender_name: sender,
                    text,
                    timestamp: now.clone(),
                };
                let ghost stored_view = stored@;
                self.history.push(stored);
                let outbound: Vec<MessageBody> = Vec::new();
                proof {
                    assert(views_of_stored(self.history@) =~= prior_history.push(stored_view));
                    assert(views_of_bodies(outbound@) =~= Seq::<MessageBodyView>::empty());
                }
                HandleOutcome { outbound, log_changed: true, presence_changed: false }
            },
            MessageBody::Disconnect { from, name } => {
                self.directory.forget(&from);
                self.log.append(make_system_entry(left_message(&name), now.clone()));
                let outbound: Vec<MessageBody> = Vec::new();
                proof {
                    assert(views_of_bodies(outbound@) =~= Seq::<MessageBodyView>::empty());
                }
                HandleOutcome { outbound, log_changed: true, presence_changed: true }
            },
            MessageBody::MessageHistory { messages } => {
                let ghost ms = views_of_stored(messages@);
                let ghost sid = self@.self_id;
                let n = messages.len();
                let mut entries: Vec<ChatMessage> = Vec::new();
                let mut i: usize = 0;
                while i < n
                    invariant
                        i <= n,
                        n == messages@.len(),
                        ms == views_of_stored(messages@),
                        ms.len() == n,
                        sid == self@.self_id,
                        self@.self_id is Some,
                        views_of_entries(entries@) == replay_entries(ms, sid).take(i as int),
                    decreases n - i,
                {
                    let ghost prior = views_of_entries(entries@);
                    let m = &messages[i];
                    let own = match &self.self_id {
                        Some(id) => bytes_eq(id.as_bytes(), m.from.as_bytes()),
                        None => unreached(),
                    };
                    let entry = ChatMessage {
                        username: m.sender_name.clone(),
                        content: m.text.clone(),
                        timestamp: m.timestamp.clone(),
                        is_own: own,
                        is_system: false,
                    };
                    proof {
                        assert(entry@ == replay_entries(ms, sid)[i as int]);
                    }
                    entries.push(entry);
                    proof {
                        assert(views_of_entries(entries@) =~= prior.push(entry@));
                        assert(replay_entries(ms, sid).take(i + 1) =~= replay_entries(
                            ms,
                            sid,
                        ).take(i as int).push(replay_entries(ms, sid)[i as int]));
                    }
                    i = i + 1;
                }
                proof {
                    assert(replay_entries(ms, sid).take(n as int) =~= replay_entries(ms, sid));
                }
                self.log.bulk_insert_history(entries, true);
                if n > 0 {
                    self.log.append(
                        make_system_entry(summary_message(n as u64), now.clone()),
                    );
                }
                let outbound: Vec<MessageBody> = Vec::new();
                proof {
                    assert(views_of_bodies(outbound@) =~= Seq::<MessageBodyView>::empty());
                }
                HandleOutcome { outbound, log_changed: true, presence_changed: false }
            },
        }
    }

    /// A copy of the current log entries for the presentation layer.
    pub fn log_snapshot(&self) -> (r: Vec<ChatMessage>)
        ensures
            views_of_entries(r@) == self@.log,
    {
        self.log.snapshot()
    }

    /// The number of entries in the log.
    pub fn log_len(&self) -> (r: usize)
        ensures
            r == self@.log.len(),
    {
        self.log.len()
    }

    /// The names to show as present: every name the directory holds plus the
    /// local participant's own, sorted in display order with duplicates
    /// removed.
    pub fn presence_names(&self) -> (r: Vec<String>)
        requires
            self.wf(),
        ensures
            strictly_sorted_names(r@),
            forall|x: Seq<char>|
                #[trigger] lists_name(r@, x) <==> (map_has_name(self@.directory, x) || x
                    == self@.self_name),
    {
        let names = self.directory.names();
        let mut out: Vec<String> = Vec::new();
        let mut i: usize = 0;
        while i < names.len()
            invariant
                i <= names@.len(),
                strictly_sorted_names(out@),
                forall|x: Seq<char>|
                    #[trigger] lists_name(out@, x) <==> exists|j: int|
                        0 <= j < i && (#[trigger] names@[j])@ == x,
            decreases names@.len() - i,
        {
            let ghost prior = out@;
            insert_name(&mut out, names[i].clone());
            proof {
                assert forall|x: Seq<char>| #[trigger] lists_name(out@, x) implies exists|j: int|
                    0 <= j < i + 1 && (#[trigger] names@[j])@ == x by {
                    if lists_name(prior, x) {
                        let j = choose|j: int| 0 <= j < i && (#[trigger] names@[j])@ == x;
                        assert(0 <= j < i + 1 && names@[j]@ == x);
                    } else {
                        assert(names@[i as int]@ == x);
                    }
                };
                assert forall|x: Seq<char>|
                    (exists|j: int| 0 <= j < i + 1 && (#[trigger] names@[j])@ == x)
                    implies #[trigger] lists_name(out@, x) by {
                    let j = choose|j: int| 0 <= j < i + 1 && (#[trigger] names@[j])@ == x;
                    if j < i {
                        assert(lists_name(prior, x));
                    }
                };
            }
            i = i + 1;
        }
        insert_name(&mut out, self.self_name.clone());
        proof {
            assert forall|x: Seq<char>| #[trigger] lists_name(out@, x) implies (map_has_name(
                self@.directory,
                x,
            ) || x == self@.self_name) by {
                if x != self@.self_name {
                    let j = choose|j: int|
                        0 <= j < names@.len() && (#[trigger] names@[j])@ == x;
                    assert(lists_name(names@, x));
                }
            };
            assert forall|x: Seq<char>|
                (map_has_name(self@.directory, x) || x == self@.self_name)
                implies #[trigger] lists_name(out@, x) by {
                if map_has_name(self@.directory, x) {
                    assert(lists_name(names@, x));
                    let j = choose|j: int|
                        0 <= j < names@.len() && (#[trigger] names@[j])@ == x;
                }
            };
        }
        out
    }

    /// The durable record of the session as it stands: the log rendered as
    /// archive lines in order, the present names — own name included — as
    /// the participants, and the given identifier and timestamp on the
    /// record.
    pub fn session_record(&self, session_id: String, now: &String) -> (r:
        crate::save::ChatSession)
        requires
            self.wf(),
        ensures
            r@.session_id == session_id@,
            r@.created_at == now@,
            r@.last_updated == now@,
            r@.messages == archive_lines_of(self@.log),
            strictly_sorted_texts(r@.participants),
            forall|x: Seq<char>|
                #[trigger] lists_text(r@.participants, x) <==> (map_has_name(
                    self@.directory,
                    x,
                ) || x == self@.self_name),
    {
        let entries = self.log.snapshot();
        let mut lines: Vec<crate::save::ChatMessage> = Vec::new();
        let mut i: usize = 0;
        while i < entries.len()
            invariant
                i <= entries@.len(),
                views_of_entries(entries@) == self@.log,
                crate::save::views_of_lines(lines@) == archive_lines_of(self@.log).take(
                    i as int,
                ),
            decreases entries@.len() - i,
        {
            let ghost prior = crate::save::views_of_lines(lines@);
            let e = &entries[i];
            let line = crate::save::ChatMessage {
                sender: e.username.clone(),
                content: e.content.clone(),
                timestamp: e.timestamp.clone(),
                message_type: if e.is_system {
                    crate::save::MessageType::System
                } else {
                    crate::save::MessageType::Text
                },
            };
            proof {
                assert(e@ == self@.log[i as int]);
                assert(line@ == archive_lines_of(self@.log)[i as int]);
            }
            lines.push(line);
            proof {
                assert(crate::save::views_of_lines(lines@) =~= prior.push(line@));
                assert(archive_lines_of(self@.log).take(i + 1) =~= archive_lines_of(
                    self@.log,
                ).take(i as int).push(archive_lines_of(self@.log)[i as int]));
            }
            i = i + 1;
        }
        proof {
            assert(archive_lines_of(self@.log).take(entries@.len() as int) =~= archive_lines_of(
                self@.log,
            ));
        }
        let participants = self.presence_names();
        proof {
            assert forall|x: Seq<char>|
                #[trigger] lists_text(crate::text::views_of_strings(participants@), x) <==> (
                map_has_name(self@.directory, x) || x == self@.self_name) by {
                if lists_text(crate::text::views_of_strings(participants@), x) {
                    let j = choose|j: int|
                        0 <= j < crate::text::views_of_strings(participants@).len()
                            && #[trigger] crate::text::views_of_strings(participants@)[j] == x;
                    assert((participants@[j])@ == x);
                    assert(lists_name(participants@, x));
                }
                if lists_name(participants@, x) {
                    let j = choose|j: int|
                        0 <= j < participants@.len() && (#[trigger] participants@[j])@ == x;
                    assert(crate::text::views_of_strings(participants@)[j] == x);
                    assert(lists_text(crate::text::views_of_strings(participants@), x));
                }
            };
            assert(strictly_sorted_texts(crate::text::views_of_strings(participants@))) by {
                assert forall|a: int, b: int|
                    0 <= a < b < crate::text::views_of_strings(participants@).len()
                    implies name_le(
                    #[trigger] crate::text::views_of_strings(participants@)[a],
                    #[trigger] crate::text::views_of_strings(participants@)[b],
                ) && crate::text::views_of_strings(participants@)[a]
                    != crate::text::views_of_strings(participants@)[b] by {
                    assert(crate::text::views_of_strings(participants@)[a]
                        == (participants@[a])@);
                    assert(crate::text::views_of_strings(participants@)[b]
                        == (participants@[b])@);
                };
            };
        }
        crate::save::ChatSession {
            session_id,
            participants,
            messages: lines,
            created_at: now.clone(),
            last_updated: now.clone(),
        }
    }
}

/// Sets up a created room once the transport has handed back the local
/// identity and address: the session is active, the ticket carries the
/// topic and exactly the creator's own address, the ticket is surfaced to
/// the user as the one system entry in the fresh log — carrying the token
/// text itself — and the returned body is the creator's presence
/// announcement, ready to broadcast.
pub fn create_room(
    topic: TopicId,
    local: NodeAddress,
    self_id: PeerId,
    name: String,
    now: &String,
) -> (r: (RoomState, Ticket, MessageBody))
    ensures
        r.0.wf(),
        r.0@.phase == RoomPhase::Active,
        r.0@.self_id == Some(self_id@),
        r.0@.self_name == name@,
        r.0@.directory == Map::<Seq<u8>, Seq<char>>::empty(),
        r.0@.log == seq![
            system_entry(room_created_text(hex_of(spec_encode_ticket(r.1@))), now@),
        ],
        r.0@.history == Seq::<StoredMessageView>::empty(),
        r.1@.topic == topic@,
        r.1@.nodes == seq![local@],
        r.2@ == (MessageBodyView::AboutMe { from: self_id@, name: name@ }),
{
    let ticket = Ticket::new(topic, local);
    let mut state = RoomState::new();
    state.begin_create();
    state.activate(self_id, name);
    let token = ticket.encode();
    state.log.append(
        make_system_entry(create_room_created_message(token.as_str()), now.clone()),
    );
    proof {
        assert(state@.log =~= seq![
            system_entry(room_created_text(hex_of(spec_encode_ticket(ticket@))), now@),
        ]);
    }
    let hello = state.hello();
    (state, ticket, hello)
}

/// Sets up a joined room from a ticket token. A malformed token fails with
/// the ticket's own error before anything else happens — the caller has not
/// touched the transport yet at that point. On success the session is
/// active, the decoded ticket carries the addresses to seed connectivity
/// from, the token is surfaced to the user as the one system entry in the
/// fresh log, and the returned body is the joiner's presence announcement.
pub fn join_room(ticket_text: &str, self_id: PeerId, name: String, now: &String) -> (r: Result<
    (RoomState, Ticket, MessageBody),
    ParseError,
>)
    ensures
        r matches Err(e) ==> ((e == ParseError::BadToken) <==> !is_hex_seq(ticket_text@)),
        r is Ok ==> {
            let (state, ticket, hello) = r->Ok_0;
            &&& state.wf()
            &&& state@.phase == RoomPhase::Active
            &&& state@.self_id == Some(self_id@)
            &&& state@.self_name == name@
            &&& state@.directory == Map::<Seq<u8>, Seq<char>>::empty()
            &&& state@.log == seq![system_entry(room_joined_text(ticket_text@), now@)]
            &&& state@.history == Seq::<StoredMessageView>::empty()
            &&& is_hex_seq(ticket_text@)
            &&& unhex(ticket_text@) == spec_encode_ticket(ticket@)
            &&& ticket@.wf()
            &&& hello@ == (MessageBodyView::AboutMe { from: self_id@, name: name@ })
        },
        forall|t: TicketView|
            t.wf() && is_hex_seq(ticket_text@) && unhex(ticket_text@)
                == #[trigger] spec_encode_ticket(t) ==> r is Ok && (r->Ok_0).1@ == t,
{
    match Ticket::decode(ticket_text) {
        Err(e) => Err(e),
        Ok(ticket) => {
            let mut state = RoomState::new();
            state.begin_join();
            state.activate(self_id, name);
            state.log.append(
                make_system_entry(create_room_joined_message(ticket_text), now.clone()),
            );
            proof {
                assert(state@.log =~= seq![
                    system_entry(room_joined_text(ticket_text@), now@),
                ]);
            }
            let hello = state.hello();
            Ok((state, ticket, hello))
        },
    }
}

/// Whether a name list is sorted in display order without repeats.
pub open spec fn strictly_sorted_names(ns: Seq<String>) -> bool {
    forall|i: int, j: int|
        0 <= i < j < ns.len() ==> name_le((#[trigger] ns[i])@, (#[trigger] ns[j])@) && ns[i]@
            != ns[j]@
}

/// Puts `s` where it belongs in a sorted, duplicate-free name list; a name
/// that is already present is left alone.
fn insert_name(out: &mut Vec<String>, s: String)
    requires
        strictly_sorted_names(old(out)@),
    ensures
        strictly_sorted_names(final(out)@),
        forall|x: Seq<char>|
            #[trigger] lists_name(final(out)@, x) <==> (lists_name(old(out)@, x) || x == s@),
{
    let ghost sv = s@;
    let mut i: usize = 0;
    while i < out.len() && string_le(&out[i], &s)
        invariant
            i <= out@.len(),
            out@ == old(out)@,
            sv == s@,
            strictly_sorted_names(out@),
            forall|j: int|
                0 <= j < i ==> name_le((#[trigger] out@[j])@, sv) && out@[j]@ != sv,
        decreases out@.len() - i,
    {
        if out[i] == s {
            proof {
                assert(out@[i as int]@ == sv);
                assert(lists_name(out@, sv));
            }
            return;
        }
        proof {
            lemma_name_total(out@[i as int]@, sv);
        }
        i = i + 1;
    }
    let ghost before = out@;
    proof {
        if i < out@.len() {
            lemma_name_total(out@[i as int]@, sv);
        }
    }
    out.insert(i, s);
    proof {
        assert(out@ == before.insert(i as int, s));
        assert(strictly_sorted_names(out@)) by {
            assert forall|a: int, b: int| 0 <= a < b < out@.len() implies name_le(
                (#[trigger] out@[a])@,
                (#[trigger] out@[b])@,
            ) && out@[a]@ != out@[b]@ by {
                let av = out@[a]@;
                let bv = out@[b]@;
                if a < i && b < i {
                    assert(out@[a] == before[a] && out@[b] == before[b]);
                } else if a < i && b == i {
                    assert(out@[a] == before[a]);
                } else if a < i && b > i {
                    assert(out@[a] == before[a] && out@[b] == before[b - 1]);
                } else if a == i && b > i {
                    assert(out@[b] == before[b - 1]);
                    assert(!name_le(before[i as int]@, sv));
                    lemma_name_total(sv, before[i as int]@);
                    if b - 1 > i {
                        lemma_name_trans(sv, before[i as int]@, before[b - 1]@);
                        if sv == before[b - 1]@ {
                            assert(name_le(before[i as int]@, before[b - 1]@));
                        }
                    }
                } else {
                    assert(out@[a] == before[a - 1] && out@[b] == before[b - 1]);
                }
            };
        };
        assert forall|x: Seq<char>| #[trigger] lists_name(out@, x) implies (lists_name(
            before,
            x,
        ) || x == sv) by {
            let k = choose|k: int| 0 <= k < out@.len() && (#[trigger] out@[k])@ == x;
            if k < i {
                assert(before[k]@ == x);
            } else if k > i {
                assert(before[k - 1]@ == x);
            }
        };
        assert forall|x: Seq<char>| (lists_name(before, x) || x == sv)
            implies #[trigger] lists_name(out@, x) by {
            if x == sv {
                assert(out@[i as int]@ == x);
            } else {
                let k = choose|k: int| 0 <= k < before.len() && (#[trigger] before[k])@ == x;
                if k < i {
                    assert(out@[k]@ == x);
                } else {
                    assert(out@[k + 1]@ == x);
                }
            }
        };
    }
}

} // verus!
