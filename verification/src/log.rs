//! The in-memory conversation log: an ordered list of displayable entries,
//! append-only during a session except for one bulk splice used when history
//! is replayed to a newcomer. The presentation layer only ever gets copies.
use vstd::prelude::*;

verus! {

use crate::ident::bytes_eq;

/// One displayable conversation entry.
#[derive(Debug)]
pub struct ChatMessage {
    pub username: String,
    pub content: String,
    pub timestamp: String,
    pub is_own: bool,
    pub is_system: bool,
}

/// The mathematical value of a [`ChatMessage`].
pub ghost struct ChatMessageView {
    pub username: Seq<char>,
    pub content: Seq<char>,
    pub timestamp: Seq<char>,
    pub is_own: bool,
    pub is_system: bool,
}

impl View for ChatMessage {
    type V = ChatMessageView;

    open spec fn view(&self) -> ChatMessageView {
        ChatMessageView {
            username: self.username@,
            content: self.content@,
            timestamp: self.timestamp@,
            is_own: self.is_own,
            is_system: self.is_system,
        }
    }
}

impl ChatMessage {
    /// A copy of this entry.
    pub fn duplicate(&self) -> (r: ChatMessage)
        ensures
            r@ == self@,
    {
        ChatMessage {
            username: self.username.clone(),
            content: self.content.clone(),
            timestamp: self.timestamp.clone(),
            is_own: self.is_own,
            is_system: self.is_system,
        }
    }
}

impl PartialEq for ChatMessage {
    fn eq(&self, other: &ChatMessage) -> (r: bool) {
        self.username == other.username && self.content == other.content && self.timestamp
            == other.timestamp && self.is_own == other.is_own && self.is_system
            == other.is_system
    }
}

impl vstd::std_specs::cmp::PartialEqSpecImpl for ChatMessage {
    open spec fn obeys_eq_spec() -> bool {
        true
    }

    open spec fn eq_spec(&self, other: &ChatMessage) -> bool {
        self@ == other@
    }
}

impl Eq for ChatMessage {}

/// The views of a list of entries, in order.
pub open spec fn views_of_entries(s: Seq<ChatMessage>) -> Seq<ChatMessageView> {
    s.map_values(|m: ChatMessage| m@)
}

/// Copies a list of entries.
pub fn duplicate_entries(entries: &Vec<ChatMessage>) -> (r: Vec<ChatMessage>)
    ensures
        views_of_entries(r@) == views_of_entries(entries@),
{
    let mut r: Vec<ChatMessage> = Vec::new();
    let mut i: usize = 0;
    while i < entries.len()
        invariant
            i <= entries@.len(),
            views_of_entries(r@) == views_of_entries(entries@).take(i as int),
        decreases entries@.len() - i,
    {
        let ghost prior = views_of_entries(r@);
        let copy = entries[i].duplicate();
        proof {
            assert(copy@ == views_of_entries(entries@)[i as int]);
        }
        r.push(copy);
        proof {
            assert(views_of_entries(r@) =~= prior.push(copy@));
            assert(views_of_entries(entries@).take(i + 1) =~= views_of_entries(entries@).take(
                i as int,
            ).push(views_of_entries(entries@)[i as int]));
        }
        i = i + 1;
    }
    proof {
        assert(views_of_entries(entries@).take(entries@.len() as int) =~= views_of_entries(
            entries@,
        ));
    }
    r
}

/// The ordered list of displayable entries for one session.
#[derive(Debug)]
pub struct SessionLog {
    entries: Vec<ChatMessage>,
}

impl View for SessionLog {
    type V = Seq<ChatMessageView>;

    closed spec fn view(&self) -> Seq<ChatMessageView> {
        views_of_entries(self.entries@)
    }
}

impl SessionLog {
    /// An empty log.
    pub fn new() -> (r: SessionLog)
        ensures
            r@ == Seq::<ChatMessageView>::empty(),
    {
        let r = SessionLog { entries: Vec::new() };
        proof {
            assert(r@ =~= Seq::<ChatMessageView>::empty());
        }
        r
    }

    /// The number of entries.
    pub fn len(&self) -> (r: usize)
        ensures
            r == self@.len(),
    {
        self.entries.len()
    }

    /// Appends one entry at the end.
    pub fn append(&mut self, entry: ChatMessage)
        ensures
            final(self)@ == old(self)@.push(entry@),
    {
        let ghost prior = self@;
        let ghost ev = entry@;
        self.entries.push(entry);
        proof {
            assert(final(self)@ =~= prior.push(ev));
        }
    }

    /// Empties the log.
    pub fn clear(&mut self)
        ensures
            final(self)@ == Seq::<ChatMessageView>::empty(),
    {
        self.entries.clear();
        proof {
            assert(final(self)@ =~= Seq::<ChatMessageView>::empty());
        }
    }

    /// A copy of the current entries; never a live reference, so the
    /// presentation layer cannot mutate the authoritative log.
    pub fn snapshot(&self) -> (r: Vec<ChatMessage>)
        ensures
            views_of_entries(r@) == self@,
    {
        duplicate_entries(&self.entries)
    }

    /// Splices previously missed history into the log: the new entries keep
    /// their relative order and land as one run, before the current contents
    /// when `at_front` is set and after them otherwise.
    pub fn bulk_insert_history(&mut self, entries: Vec<ChatMessage>, at_front: bool)
        ensures
            at_front ==> final(self)@ == views_of_entries(entries@) + old(self)@,
            !at_front ==> final(self)@ == old(self)@ + views_of_entries(entries@),
    {
        let ghost prior = self@;
        let ghost incoming = views_of_entries(entries@);
        if at_front {
            let mut rest = entries;
            core::mem::swap(&mut self.entries, &mut rest);
            self.entries.append(&mut rest);
        } else {
            let mut incoming_vec = entries;
            self.entries.append(&mut incoming_vec);
        }
        proof {
            if at_front {
                assert(final(self)@ =~= incoming + prior);
            } else {
                assert(final(self)@ =~= prior + incoming);
            }
        }
    }
}

} // verus!
