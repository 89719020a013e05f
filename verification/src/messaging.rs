//! The wire-level unit broadcast over a room: a discriminated message body
//! plus a random nonce, with a byte codec whose contracts pin down exactly
//! which byte strings are encodings and of which envelope.
use vstd::prelude::*;

verus! {

use crate::errors::DecodeError;
use crate::ident::{PeerId, bytes_eq};
use crate::rng::random_bytes;
use crate::wire::{
    piece_at, spec_string_block, write_bytes, write_string, write_u64, read_exact, read_string,
    read_u64, lemma_piece_split, lemma_piece_join, lemma_piece_first, lemma_le_at,
};
use vstd::bytes::{spec_u64_to_le_bytes, lemma_auto_spec_u64_to_from_le_bytes};
use vstd::utf8::encode_utf8;

/// Wire discriminant of a presence announcement.
pub const TAG_ABOUT_ME: u8 = 1;

/// Wire discriminant of a chat text message.
pub const TAG_CHAT: u8 = 2;

/// Wire discriminant of a graceful departure announcement.
pub const TAG_DISCONNECT: u8 = 3;

/// Wire discriminant of a bulk history transfer.
pub const TAG_HISTORY: u8 = 4;

/// A durable, directory-independent snapshot of one chat message: it carries
/// the sender's display name at the time of sending, since the peer
/// directory is volatile.
#[derive(Debug)]
pub struct StoredMessage {
    pub from: PeerId,
    pub sender_name: String,
    pub text: String,
    pub timestamp: String,
}

/// The mathematical value of a [`StoredMessage`].
pub ghost struct StoredMessageView {
    pub from: Seq<u8>,
    pub sender_name: Seq<char>,
    pub text: Seq<char>,
    pub timestamp: Seq<char>,
}

impl View for StoredMessage {
    type V = StoredMessageView;

    open spec fn view(&self) -> StoredMessageView {
        StoredMessageView {
            from: self.from@,
            sender_name: self.sender_name@,
            text: self.text@,
            timestamp: self.timestamp@,
        }
    }
}

impl StoredMessageView {
    /// The identity has its fixed width and each text fits a length prefix.
    pub open spec fn wf(self) -> bool {
        &&& self.from.len() == crate::ID_LEN
        &&& encode_utf8(self.sender_name).len() <= u64::MAX
        &&& encode_utf8(self.text).len() <= u64::MAX
        &&& encode_utf8(self.timestamp).len() <= u64::MAX
    }
}

impl StoredMessage {
    /// A copy of this snapshot.
    pub fn duplicate(&self) -> (r: StoredMessage)
        ensures
            r@ == self@,
    {
        StoredMessage {
            from: self.from.duplicate(),
            sender_name: self.sender_name.clone(),
            text: self.text.clone(),
            timestamp: self.timestamp.clone(),
        }
    }
}

impl PartialEq for StoredMessage {
    fn eq(&self, other: &StoredMessage) -> (r: bool) {
        bytes_eq(self.from.as_bytes(), other.from.as_bytes())
            && self.sender_name == other.sender_name && self.text == other.text
            && self.timestamp == other.timestamp
    }
}

impl vstd::std_specs::cmp::PartialEqSpecImpl for StoredMessage {
    open spec fn obeys_eq_spec() -> bool {
        true
    }

    open spec fn eq_spec(&self, other: &StoredMessage) -> bool {
        self@ == other@
    }
}

impl Eq for StoredMessage {}

/// The discriminated body of an envelope.
#[derive(Debug)]
pub enum MessageBody {
    /// A presence announcement: `from` is (now) known as `name`.
    AboutMe { from: PeerId, name: String },
    /// A chat text message.
    Message { from: PeerId, text: String },
    /// A graceful departure announcement.
    Disconnect { from: PeerId, name: String },
    /// A bulk transfer of previously exchanged chat messages.
    MessageHistory { messages: Vec<StoredMessage> },
}

/// The mathematical value of a [`MessageBody`].
pub ghost enum MessageBodyView {
    AboutMe { from: Seq<u8>, name: Seq<char> },
    Message { from: Seq<u8>, text: Seq<char> },
    Disconnect { from: Seq<u8>, name: Seq<char> },
    MessageHistory { messages: Seq<StoredMessageView> },
}

/// The views of a sequence of stored messages, in order.
pub open spec fn views_of_stored(s: Seq<StoredMessage>) -> Seq<StoredMessageView> {
    s.map_values(|m: StoredMessage| m@)
}

impl View for MessageBody {
    type V = MessageBodyView;

    open spec fn view(&self) -> MessageBodyView {
        match self {
            MessageBody::AboutMe { from, name } => MessageBodyView::AboutMe {
                from: from@,
                name: name@,
            },
            MessageBody::Message { from, text } => MessageBodyView::Message {
                from: from@,
                text: text@,
            },
            MessageBody::Disconnect { from, name } => MessageBodyView::Disconnect {
                from: from@,
                name: name@,
            },
            MessageBody::MessageHistory { messages } => MessageBodyView::MessageHistory {
                messages: views_of_stored(messages@),
            },
        }
    }
}

impl MessageBodyView {
    /// Identities have their fixed width and every text fits a length prefix.
    pub open spec fn wf(self) -> bool {
        match self {
            MessageBodyView::AboutMe { from, name } => from.len() == crate::ID_LEN
                && encode_utf8(name).len() <= u64::MAX,
            MessageBodyView::Message { from, text } => from.len() == crate::ID_LEN
                && encode_utf8(text).len() <= u64::MAX,
            MessageBodyView::Disconnect { from, name } => from.len() == crate::ID_LEN
                && encode_utf8(name).len() <= u64::MAX,
            MessageBodyView::MessageHistory { messages } => messages.len() <= u64::MAX
                && (forall|i: int| 0 <= i < messages.len() ==> (#[trigger] messages[i]).wf()),
        }
    }
}

/// The encoding of one stored message: the fixed-width identity, then the
/// three texts as length-prefixed UTF-8 blocks.
pub open spec fn spec_encode_stored(m: StoredMessageView) -> Seq<u8> {
    m.from + spec_string_block(m.sender_name) + spec_string_block(m.text) + spec_string_block(
        m.timestamp,
    )
}

/// The encodings of a run of stored messages, one after the other.
pub open spec fn spec_encode_stored_seq(ms: Seq<StoredMessageView>) -> Seq<u8>
    decreases ms.len(),
{
    if ms.len() == 0 {
        Seq::empty()
    } else {
        spec_encode_stored(ms[0]) + spec_encode_stored_seq(ms.drop_first())
    }
}

/// The encoding of a body: one discriminant byte, then the variant's fields.
pub open spec fn spec_encode_body(b: MessageBodyView) -> Seq<u8> {
    match b {
        MessageBodyView::AboutMe { from, name } => seq![TAG_ABOUT_ME] + from + spec_string_block(
            name,
        ),
        MessageBodyView::Message { from, text } => seq![TAG_CHAT] + from + spec_string_block(text),
        MessageBodyView::Disconnect { from, name } => seq![TAG_DISCONNECT] + from
            + spec_string_block(name),
        MessageBodyView::MessageHistory { messages } => seq![TAG_HISTORY] + spec_u64_to_le_bytes(
            messages.len() as u64,
        ) + spec_encode_stored_seq(messages),
    }
}

/// The wire-level unit broadcast over the room: a body plus a random nonce,
/// so that byte-identical payloads sent twice stay distinguishable.
#[derive(Debug)]
pub struct Message {
    body: MessageBody,
    nonce: Vec<u8>,
}

/// The mathematical value of a [`Message`].
pub ghost struct MessageView {
    pub body: MessageBodyView,
    pub nonce: Seq<u8>,
}

impl View for Message {
    type V = MessageView;

    closed spec fn view(&self) -> MessageView {
        MessageView { body: self.body@, nonce: self.nonce@ }
    }
}

impl MessageView {
    /// The nonce has its fixed width and the body is well formed.
    pub open spec fn wf(self) -> bool {
        self.nonce.len() == crate::NONCE_LEN && self.body.wf()
    }
}

/// The encoding of an envelope: the raw nonce bytes, then the body.
pub open spec fn spec_encode_message(m: MessageView) -> Seq<u8> {
    m.nonce + spec_encode_body(m.body)
}

/// Appending one stored message to a run appends its encoding.
pub proof fn lemma_encode_stored_seq_push(vs: Seq<StoredMessageView>, x: StoredMessageView)
    ensures
        spec_encode_stored_seq(vs.push(x)) == spec_encode_stored_seq(vs) + spec_encode_stored(x),
    decreases vs.len(),
{
    if vs.len() == 0 {
        assert(vs.push(x)[0] == x);
        assert(vs.push(x).drop_first() =~= Seq::<StoredMessageView>::empty());
        assert(spec_encode_stored_seq(Seq::<StoredMessageView>::empty()) == Seq::<u8>::empty());
        assert(spec_encode_stored_seq(vs.push(x)) == spec_encode_stored(x) + Seq::<u8>::empty());
        assert(spec_encode_stored_seq(vs) == Seq::<u8>::empty());
        assert(spec_encode_stored_seq(vs.push(x)) =~= spec_encode_stored_seq(vs)
            + spec_encode_stored(x));
    } else {
        let head = spec_encode_stored(vs[0]);
        assert(vs.push(x)[0] == vs[0]);
        assert(vs.push(x).drop_first() =~= vs.drop_first().push(x));
        lemma_encode_stored_seq_push(vs.drop_first(), x);
        assert(spec_encode_stored_seq(vs.push(x)) == head + spec_encode_stored_seq(
            vs.drop_first().push(x),
        ));
        assert(spec_encode_stored_seq(vs.push(x)) == head + (spec_encode_stored_seq(
            vs.drop_first(),
        ) + spec_encode_stored(x)));
        assert(spec_encode_stored_seq(vs) == head + spec_encode_stored_seq(vs.drop_first()));
        assert(spec_encode_stored_seq(vs.push(x)) =~= spec_encode_stored_seq(vs)
            + spec_encode_stored(x));
    }
}

/// Appends the encoding of one stored message.
fn write_stored(out: &mut Vec<u8>, m: &StoredMessage)
    ensures
        final(out)@ == old(out)@ + spec_encode_stored(m@),
        m@.wf(),
{
    proof {
        use_type_invariant(&m.from);
    }
    write_bytes(out, m.from.as_bytes());
    write_string(out, &m.sender_name);
    write_string(out, &m.text);
    write_string(out, &m.timestamp);
    proof {
        assert(final(out)@ =~= old(out)@ + spec_encode_stored(m@));
    }
}

/// Appends the encoding of a body.
fn write_body(out: &mut Vec<u8>, b: &MessageBody)
    ensures
        final(out)@ == old(out)@ + spec_encode_body(b@),
        b@.wf(),
{
    match b {
        MessageBody::AboutMe { from, name } => {
            proof {
                use_type_invariant(from);
            }
            out.push(TAG_ABOUT_ME);
            write_bytes(out, from.as_bytes());
            write_string(out, name);
            proof {
                assert(final(out)@ =~= old(out)@ + spec_encode_body(b@));
            }
        },
        MessageBody::Message { from, text } => {
            proof {
                use_type_invariant(from);
            }
            out.push(TAG_CHAT);
            write_bytes(out, from.as_bytes());
            write_string(out, text);
            proof {
                assert(final(out)@ =~= old(out)@ + spec_encode_body(b@));
            }
        },
        MessageBody::Disconnect { from, name } => {
            proof {
                use_type_invariant(from);
            }
            out.push(TAG_DISCONNECT);
            write_bytes(out, from.as_bytes());
            write_string(out, name);
            proof {
                assert(final(out)@ =~= old(out)@ + spec_encode_body(b@));
            }
        },
        MessageBody::MessageHistory { messages } => {
            out.push(TAG_HISTORY);
            write_u64(out, messages.len() as u64);
            let ghost base = out@;
            let ghost all = views_of_stored(messages@);
            let mut i: usize = 0;
            while i < messages.len()
                invariant
                    i <= messages@.len(),
                    all == views_of_stored(messages@),
                    all.len() == messages@.len(),
                    out@ == base + spec_encode_stored_seq(all.take(i as int)),
                    forall|j: int| 0 <= j < i ==> (#[trigger] all[j]).wf(),
                decreases messages@.len() - i,
            {
                write_stored(out, &messages[i]);
                proof {
                    assert(all.take(i + 1) =~= all.take(i as int).push(all[i as int]));
                    lemma_encode_stored_seq_push(all.take(i as int), all[i as int]);
                    assert(out@ =~= base + spec_encode_stored_seq(all.take(i + 1)));
                }
                i = i + 1;
            }
            proof {
                assert(all.take(all.len() as int) =~= all);
                assert(final(out)@ =~= old(out)@ + spec_encode_body(b@));
            }
        },
    }
}

/// Copies a run of stored messages.
pub fn duplicate_stored(v: &Vec<StoredMessage>) -> (r: Vec<StoredMessage>)
    ensures
        views_of_stored(r@) == views_of_stored(v@),
{
    let mut r: Vec<StoredMessage> = Vec::new();
    let mut i: usize = 0;
    while i < v.len()
        invariant
            i <= v@.len(),
            views_of_stored(r@) == views_of_stored(v@).take(i as int),
        decreases v@.len() - i,
    {
        let ghost prior = views_of_stored(r@);
        let copy = v[i].duplicate();
        proof {
            assert(copy@ == views_of_stored(v@)[i as int]);
        }
        r.push(copy);
        proof {
            assert(views_of_stored(r@) =~= prior.push(copy@));
            assert(views_of_stored(v@).take(i + 1) =~= views_of_stored(v@).take(i as int).push(
                views_of_stored(v@)[i as int],
            ));
        }
        i = i + 1;
    }
    proof {
        assert(views_of_stored(v@).take(v@.len() as int) =~= views_of_stored(v@));
    }
    r
}

/// Every stored message in the run is well formed.
pub open spec fn stored_views_wf(vs: Seq<StoredMessageView>) -> bool {
    forall|i: int| 0 <= i < vs.len() ==> (#[trigger] vs[i]).wf()
}

/// Encoding a concatenation of runs concatenates their encodings.
pub proof fn lemma_encode_stored_seq_concat(a: Seq<StoredMessageView>, b: Seq<StoredMessageView>)
    ensures
        spec_encode_stored_seq(a + b) == spec_encode_stored_seq(a) + spec_encode_stored_seq(b),
    decreases a.len(),
{
    if a.len() == 0 {
        assert(a + b =~= b);
        assert(spec_encode_stored_seq(a) + spec_encode_stored_seq(b) =~= spec_encode_stored_seq(
            b,
        ));
    } else {
        let head = spec_encode_stored(a[0]);
        assert((a + b)[0] == a[0]);
        assert((a + b).len() > 0);
        assert((a + b).drop_first() =~= a.drop_first() + b);
        lemma_encode_stored_seq_concat(a.drop_first(), b);
        assert(spec_encode_stored_seq(a + b) == head + (spec_encode_stored_seq(a.drop_first())
            + spec_encode_stored_seq(b)));
        assert(spec_encode_stored_seq(a) == head + spec_encode_stored_seq(a.drop_first()));
        assert(spec_encode_stored_seq(a + b) =~= spec_encode_stored_seq(a)
            + spec_encode_stored_seq(b));
    }
}

/// Reads a fixed-width identity followed by one length-prefixed text.
fn read_id_text(buf: &Vec<u8>, pos: usize) -> (r: Option<(PeerId, String, usize)>)
    ensures
        match r {
            Some(p) => {
                &&& piece_at(buf@, pos as int, p.0@ + spec_string_block(p.1@))
                &&& p.0.wf()
                &&& encode_utf8(p.1@).len() <= u64::MAX
                &&& p.2 == pos + crate::ID_LEN + 8 + encode_utf8(p.1@).len()
            },
            None => true,
        },
        forall|f: Seq<u8>, t: Seq<char>|
            f.len() == crate::ID_LEN && encode_utf8(t).len() <= u64::MAX && #[trigger] piece_at(
                buf@,
                pos as int,
                f + spec_string_block(t),
            ) ==> {
                &&& r is Some
                &&& (r->0).0@ == f
                &&& (r->0).1@ == t
                &&& (r->0).2 == pos + crate::ID_LEN + 8 + encode_utf8(t).len()
            },
{
    match read_exact(buf, pos, crate::ID_LEN) {
        None => {
            proof {
                assert forall|f: Seq<u8>, t: Seq<char>|
                    f.len() == crate::ID_LEN && encode_utf8(t).len() <= u64::MAX
                        && #[trigger] piece_at(buf@, pos as int, f + spec_string_block(t))
                    implies false by {
                    lemma_piece_split(buf@, pos as int, f, spec_string_block(t));
                };
            }
            None
        },
        Some((idb, p1)) => {
            let id = PeerId::from_bytes(idb).unwrap();
            match read_string(buf, p1) {
                None => {
                    proof {
                        assert forall|f: Seq<u8>, t: Seq<char>|
                            f.len() == crate::ID_LEN && encode_utf8(t).len() <= u64::MAX
                                && #[trigger] piece_at(buf@, pos as int, f + spec_string_block(t))
                            implies false by {
                            lemma_piece_split(buf@, pos as int, f, spec_string_block(t));
                        };
                    }
                    None
                },
                Some((s, p2)) => {
                    proof {
                        lemma_auto_spec_u64_to_from_le_bytes();
                        assert(piece_at(buf@, pos as int, id@));
                        lemma_piece_join(buf@, pos as int, id@, spec_string_block(s@));
                        assert forall|f: Seq<u8>, t: Seq<char>|
                            f.len() == crate::ID_LEN && encode_utf8(t).len() <= u64::MAX
                                && #[trigger] piece_at(buf@, pos as int, f + spec_string_block(t))
                            implies (id@ == f && s@ == t && p2 == pos + crate::ID_LEN + 8
                                + encode_utf8(t).len()) by {
                            lemma_piece_split(buf@, pos as int, f, spec_string_block(t));
                        };
                    }
                    Some((id, s, p2))
                },
            }
        },
    }
}

/// Reads the encoding of one stored message.
#[verifier::spinoff_prover]
fn read_stored(buf: &Vec<u8>, pos: usize) -> (r: Option<(StoredMessage, usize)>)
    ensures
        match r {
            Some(p) => {
                &&& piece_at(buf@, pos as int, spec_encode_stored(p.0@))
                &&& p.0@.wf()
                &&& p.1 == pos + spec_encode_stored(p.0@).len()
            },
            None => true,
        },
        forall|v: StoredMessageView|
            v.wf() && #[trigger] piece_at(buf@, pos as int, spec_encode_stored(v)) ==> {
                &&& r is Some
                &&& (r->0).0@ == v
                &&& (r->0).1 == pos + spec_encode_stored(v).len()
            },
{
    proof {
        lemma_auto_spec_u64_to_from_le_bytes();
    }
    match read_id_text(buf, pos) {
        None => {
            proof {
                assert forall|v: StoredMessageView|
                    v.wf() && #[trigger] piece_at(buf@, pos as int, spec_encode_stored(v))
                    implies false by {
                    lemma_piece_split(
                        buf@,
                        pos as int,
                        v.from + spec_string_block(v.sender_name) + spec_string_block(v.text),
                        spec_string_block(v.timestamp),
                    );
                    lemma_piece_split(
                        buf@,
                        pos as int,
                        v.from + spec_string_block(v.sender_name),
                        spec_string_block(v.text),
                    );
                };
            }
            None
        },
        Some((id, sender_name, p1)) => {
            match read_string(buf, p1) {
                None => {
                    proof {
                        assert forall|v: StoredMessageView|
                            v.wf() && #[trigger] piece_at(buf@, pos as int, spec_encode_stored(v))
                            implies false by {
                            lemma_piece_split(
                                buf@,
                                pos as int,
                                v.from + spec_string_block(v.sender_name) + spec_string_block(
                                    v.text,
                                ),
                                spec_string_block(v.timestamp),
                            );
                            lemma_piece_split(
                                buf@,
                                pos as int,
                                v.from + spec_string_block(v.sender_name),
                                spec_string_block(v.text),
                            );
                        };
                    }
                    None
                },
                Some((text, p2)) => {
                    match read_string(buf, p2) {
                        None => {
                            proof {
                                assert forall|v: StoredMessageView|
                                    v.wf() && #[trigger] piece_at(
                                        buf@,
                                        pos as int,
                                        spec_encode_stored(v),
                                    )
                                    implies false by {
                                    lemma_piece_split(
                                        buf@,
                                        pos as int,
                                        v.from + spec_string_block(v.sender_name)
                                            + spec_string_block(v.text),
                                        spec_string_block(v.timestamp),
                                    );
                                    lemma_piece_split(
                                        buf@,
                                        pos as int,
                                        v.from + spec_string_block(v.sender_name),
                                        spec_string_block(v.text),
                                    );
                                };
                            }
                            None
                        },
                        Some((timestamp, p3)) => {
                            let m = StoredMessage { from: id, sender_name, text, timestamp };
                            proof {
                                lemma_piece_join(
                                    buf@,
                                    pos as int,
                                    m@.from + spec_string_block(m@.sender_name),
                                    spec_string_block(m@.text),
                                );
                                lemma_piece_join(
                                    buf@,
                                    pos as int,
                                    m@.from + spec_string_block(m@.sender_name)
                                        + spec_string_block(m@.text),
                                    spec_string_block(m@.timestamp),
                                );
                                assert forall|v: StoredMessageView|
                                    v.wf() && #[trigger] piece_at(
                                        buf@,
                                        pos as int,
                                        spec_encode_stored(v),
                                    )
                                    implies (m@ == v && p3 == pos + spec_encode_stored(v).len())
                                    by {
                                    lemma_piece_split(
                                        buf@,
                                        pos as int,
                                        v.from + spec_string_block(v.sender_name)
                                            + spec_string_block(v.text),
                                        spec_string_block(v.timestamp),
                                    );
                                    lemma_piece_split(
                                        buf@,
                                        pos as int,
                                        v.from + spec_string_block(v.sender_name),
                                        spec_string_block(v.text),
                                    );
                                };
                            }
                            Some((m, p3))
                        },
                    }
                },
            }
        },
    }
}

/// Reads a message count followed by that many stored messages.
#[verifier::spinoff_prover]
fn read_history(buf: &Vec<u8>, pos: usize) -> (r: Option<(Vec<StoredMessage>, usize)>)
    ensures
        match r {
            Some(p) => {
                &&& piece_at(
                    buf@,
                    pos as int,
                    spec_u64_to_le_bytes(views_of_stored(p.0@).len() as u64)
                        + spec_encode_stored_seq(views_of_stored(p.0@)),
                )
                &&& stored_views_wf(views_of_stored(p.0@))
                &&& p.0@.len() <= u64::MAX
                &&& p.1 == pos + 8 + spec_encode_stored_seq(views_of_stored(p.0@)).len()
            },
            None => true,
        },
        forall|vs: Seq<StoredMessageView>|
            vs.len() <= u64::MAX && stored_views_wf(vs) && #[trigger] piece_at(
                buf@,
                pos as int,
                spec_u64_to_le_bytes(vs.len() as u64) + spec_encode_stored_seq(vs),
            ) ==> {
                &&& r is Some
                &&& views_of_stored((r->0).0@) == vs
                &&& (r->0).1 == pos + 8 + spec_encode_stored_seq(vs).len()
            },
{
    proof {
        lemma_auto_spec_u64_to_from_le_bytes();
    }
    match read_u64(buf, pos) {
        None => {
            proof {
                assert forall|vs: Seq<StoredMessageView>|
                    vs.len() <= u64::MAX && stored_views_wf(vs) && #[trigger] piece_at(
                        buf@,
                        pos as int,
                        spec_u64_to_le_bytes(vs.len() as u64) + spec_encode_stored_seq(vs),
                    )
                    implies false by {
                    lemma_piece_split(
                        buf@,
                        pos as int,
                        spec_u64_to_le_bytes(vs.len() as u64),
                        spec_encode_stored_seq(vs),
                    );
                };
            }
            None
        },
        Some((count, start)) => {
            let mut items: Vec<StoredMessage> = Vec::new();
            let mut p = start;
            let mut i: u64 = 0;
            proof {
                assert(views_of_stored(items@) =~= Seq::<StoredMessageView>::empty());
                assert(spec_encode_stored_seq(views_of_stored(items@)) == Seq::<u8>::empty());
                assert(piece_at(buf@, start as int, Seq::<u8>::empty())) by {
                    assert(buf@.subrange(start as int, start as int) =~= Seq::<u8>::empty());
                };
                assert forall|vs: Seq<StoredMessageView>|
                    vs.len() <= u64::MAX && stored_views_wf(vs) && #[trigger] piece_at(
                        buf@,
                        pos as int,
                        spec_u64_to_le_bytes(vs.len() as u64) + spec_encode_stored_seq(vs),
                    )
                    implies vs.len() == count && i <= vs.len() && views_of_stored(items@)
                    == vs.take(i as int) by {
                    lemma_piece_split(
                        buf@,
                        pos as int,
                        spec_u64_to_le_bytes(vs.len() as u64),
                        spec_encode_stored_seq(vs),
                    );
                    lemma_le_at(buf@, pos as int, count, vs.len() as u64);
                    assert(views_of_stored(items@) =~= vs.take(0));
                };
            }
            while i < count
                invariant
                    i <= count,
                    start <= p <= buf@.len(),
                    pos + 8 == start,
                    piece_at(buf@, pos as int, spec_u64_to_le_bytes(count)),
                    views_of_stored(items@).len() == i,
                    stored_views_wf(views_of_stored(items@)),
                    piece_at(
                        buf@,
                        start as int,
                        spec_encode_stored_seq(views_of_stored(items@)),
                    ),
                    p == start + spec_encode_stored_seq(views_of_stored(items@)).len(),
                    forall|vs: Seq<StoredMessageView>|
                        vs.len() <= u64::MAX && stored_views_wf(vs) && #[trigger] piece_at(
                            buf@,
                            pos as int,
                            spec_u64_to_le_bytes(vs.len() as u64) + spec_encode_stored_seq(vs),
                        ) ==> vs.len() == count && i <= vs.len() && views_of_stored(items@)
                            == vs.take(i as int),
                decreases count - i,
            {
                let ghost prior = views_of_stored(items@);
                match read_stored(buf, p) {
                    None => {
                        proof {
                            assert forall|vs: Seq<StoredMessageView>|
                                vs.len() <= u64::MAX && stored_views_wf(vs) && #[trigger] piece_at(
                                    buf@,
                                    pos as int,
                                    spec_u64_to_le_bytes(vs.len() as u64)
                                        + spec_encode_stored_seq(vs),
                                )
                                implies false by {
                                lemma_auto_spec_u64_to_from_le_bytes();
                                lemma_piece_split(
                                    buf@,
                                    pos as int,
                                    spec_u64_to_le_bytes(vs.len() as u64),
                                    spec_encode_stored_seq(vs),
                                );
                                lemma_le_at(buf@, pos as int, count, vs.len() as u64);
                                lemma_history_element_piece(buf@, start as int, vs, i as int);
                            };
                        }
                        return None;
                    },
                    Some((m, p_next)) => {
                        proof {
                            lemma_piece_join(
                                buf@,
                                start as int,
                                spec_encode_stored_seq(prior),
                                spec_encode_stored(m@),
                            );
                            lemma_encode_stored_seq_push(prior, m@);
                            assert(views_of_stored(items@.push(m)) =~= prior.push(m@));
                        }
                        items.push(m);
                        p = p_next;
                        proof {
                            assert forall|vs: Seq<StoredMessageView>|
                                vs.len() <= u64::MAX && stored_views_wf(vs) && #[trigger] piece_at(
                                    buf@,
                                    pos as int,
                                    spec_u64_to_le_bytes(vs.len() as u64)
                                        + spec_encode_stored_seq(vs),
                                )
                                implies vs.len() == count && i + 1 <= vs.len()
                                    && views_of_stored(items@) == vs.take(i + 1) by {
                                lemma_auto_spec_u64_to_from_le_bytes();
                                lemma_piece_split(
                                    buf@,
                                    pos as int,
                                    spec_u64_to_le_bytes(vs.len() as u64),
                                    spec_encode_stored_seq(vs),
                                );
                                lemma_le_at(buf@, pos as int, count, vs.len() as u64);
                                lemma_history_element_piece(buf@, start as int, vs, i as int);
                                assert(vs.take(i + 1) =~= vs.take(i as int).push(vs[i as int]));
                            };
                        }
                        i = i + 1;
                    },
                }
            }
            proof {
                assert forall|vs: Seq<StoredMessageView>|
                    vs.len() <= u64::MAX && stored_views_wf(vs) && #[trigger] piece_at(
                        buf@,
                        pos as int,
                        spec_u64_to_le_bytes(vs.len() as u64) + spec_encode_stored_seq(vs),
                    )
                    implies (views_of_stored(items@) == vs && p == pos + 8
                        + spec_encode_stored_seq(vs).len()) by {
                    assert(vs.take(vs.len() as int) =~= vs);
                };
                lemma_le_at(
                    buf@,
                    pos as int,
                    count,
                    views_of_stored(items@).len() as u64,
                );
                lemma_piece_join(
                    buf@,
                    pos as int,
                    spec_u64_to_le_bytes(views_of_stored(items@).len() as u64),
                    spec_encode_stored_seq(views_of_stored(items@)),
                );
            }
            Some((items, p))
        },
    }
}

/// Inside a run's encoding, the element after a parsed prefix sits at the
/// prefix's end.
proof fn lemma_history_element_piece(
    w: Seq<u8>,
    start: int,
    vs: Seq<StoredMessageView>,
    i: int,
)
    requires
        0 <= i < vs.len(),
        piece_at(w, start, spec_encode_stored_seq(vs)),
    ensures
        piece_at(
            w,
            start + spec_encode_stored_seq(vs.take(i)).len(),
            spec_encode_stored(vs[i]),
        ),
        spec_encode_stored_seq(vs.take(i + 1)).len() == spec_encode_stored_seq(vs.take(i)).len()
            + spec_encode_stored(vs[i]).len(),
{
    assert(vs =~= vs.take(i) + (vs.skip(i)));
    lemma_encode_stored_seq_concat(vs.take(i), vs.skip(i));
    lemma_piece_split(w, start, spec_encode_stored_seq(vs.take(i)), spec_encode_stored_seq(
        vs.skip(i),
    ));
    assert(vs.skip(i).len() > 0);
    assert(vs.skip(i)[0] == vs[i]);
    assert(spec_encode_stored_seq(vs.skip(i)) == spec_encode_stored(vs[i])
        + spec_encode_stored_seq(vs.skip(i).drop_first()));
    lemma_piece_split(
        w,
        start + spec_encode_stored_seq(vs.take(i)).len(),
        spec_encode_stored(vs[i]),
        spec_encode_stored_seq(vs.skip(i).drop_first()),
    );
    assert(vs.take(i + 1) =~= vs.take(i).push(vs[i]));
    lemma_encode_stored_seq_push(vs.take(i), vs[i]);
}

/// Reads the encoding of a body: the discriminant byte, then the variant's
/// fields.
#[verifier::spinoff_prover]
fn read_body(buf: &Vec<u8>, pos: usize) -> (r: Option<(MessageBody, usize)>)
    ensures
        match r {
            Some(p) => {
                &&& piece_at(buf@, pos as int, spec_encode_body(p.0@))
                &&& p.0@.wf()
                &&& p.1 == pos + spec_encode_body(p.0@).len()
            },
            None => true,
        },
        forall|v: MessageBodyView|
            v.wf() && #[trigger] piece_at(buf@, pos as int, spec_encode_body(v)) ==> {
                &&& r is Some
                &&& (r->0).0@ == v
                &&& (r->0).1 == pos + spec_encode_body(v).len()
            },
{
    proof {
        lemma_auto_spec_u64_to_from_le_bytes();
    }
    if pos >= buf.len() {
        return None;
    }
    let tag = buf[pos];
    proof {
        assert forall|v: MessageBodyView|
            v.wf() && #[trigger] piece_at(buf@, pos as int, spec_encode_body(v))
            implies buf@[pos as int] == spec_encode_body(v)[0] by {
            lemma_piece_first(buf@, pos as int, spec_encode_body(v));
        };
    }
    if tag == TAG_ABOUT_ME {
        match read_id_text(buf, pos + 1) {
            None => {
                proof {
                    assert forall|v: MessageBodyView|
                        v.wf() && #[trigger] piece_at(buf@, pos as int, spec_encode_body(v))
                        implies false by {
                        if let MessageBodyView::AboutMe { from, name } = v {
                            assert(spec_encode_body(v) =~= seq![TAG_ABOUT_ME] + (from
                                + spec_string_block(name)));
                            lemma_piece_split(
                                buf@,
                                pos as int,
                                seq![TAG_ABOUT_ME],
                                from + spec_string_block(name),
                            );
                        }
                    };
                }
                None
            },
            Some((from, name, end)) => {
                let body = MessageBody::AboutMe { from, name };
                proof {
                    assert(piece_at(buf@, pos as int, seq![TAG_ABOUT_ME])) by {
                        assert(buf@.subrange(pos as int, pos + 1) =~= seq![TAG_ABOUT_ME]);
                    };
                    lemma_piece_join(
                        buf@,
                        pos as int,
                        seq![TAG_ABOUT_ME],
                        body@->AboutMe_from + spec_string_block(body@->AboutMe_name),
                    );
                    assert(spec_encode_body(body@) =~= seq![TAG_ABOUT_ME] + (body@->AboutMe_from
                        + spec_string_block(body@->AboutMe_name)));
                    assert forall|v: MessageBodyView|
                        v.wf() && #[trigger] piece_at(buf@, pos as int, spec_encode_body(v))
                        implies (body@ == v && end == pos + spec_encode_body(v).len()) by {
                        if let MessageBodyView::AboutMe { from: f, name: t } = v {
                            assert(spec_encode_body(v) =~= seq![TAG_ABOUT_ME] + (f
                                + spec_string_block(t)));
                            lemma_piece_split(
                                buf@,
                                pos as int,
                                seq![TAG_ABOUT_ME],
                                f + spec_string_block(t),
                            );
                        }
                    };
                }
                Some((body, end))
            },
        }
    } else if tag == TAG_CHAT {
        match read_id_text(buf, pos + 1) {
            None => {
                proof {
                    assert forall|v: MessageBodyView|
                        v.wf() && #[trigger] piece_at(buf@, pos as int, spec_encode_body(v))
                        implies false by {
                        if let MessageBodyView::Message { from, text } = v {
                            assert(spec_encode_body(v) =~= seq![TAG_CHAT] + (from
                                + spec_string_block(text)));
                            lemma_piece_split(
                                buf@,
                                pos as int,
                                seq![TAG_CHAT],
                                from + spec_string_block(text),
                            );
                        }
                    };
                }
                None
            },
            Some((from, text, end)) => {
                let body = MessageBody::Message { from, text };
                proof {
                    assert(piece_at(buf@, pos as int, seq![TAG_CHAT])) by {
                        assert(buf@.subrange(pos as int, pos + 1) =~= seq![TAG_CHAT]);
                    };
                    lemma_piece_join(
                        buf@,
                        pos as int,
                        seq![TAG_CHAT],
                        body@->Message_from + spec_string_block(body@->Message_text),
                    );
                    assert(spec_encode_body(body@) =~= seq![TAG_CHAT] + (body@->Message_from
                        + spec_string_block(body@->Message_text)));
                    assert forall|v: MessageBodyView|
                        v.wf() && #[trigger] piece_at(buf@, pos as int, spec_encode_body(v))
                        implies (body@ == v && end == pos + spec_encode_body(v).len()) by {
                        if let MessageBodyView::Message { from: f, text: t } = v {
                            assert(spec_encode_body(v) =~= seq![TAG_CHAT] + (f
                                + spec_string_block(t)));
                            lemma_piece_split(
                                buf@,
                                pos as int,
                                seq![TAG_CHAT],
                                f + spec_string_block(t),
                            );
                        }
                    };
                }
                Some((body, end))
            },
        }
    } else if tag == TAG_DISCONNECT {
        match read_id_text(buf, pos + 1) {
            None => {
                proof {
                    assert forall|v: MessageBodyView|
                        v.wf() && #[trigger] piece_at(buf@, pos as int, spec_encode_body(v))
                        implies false by {
                        if let MessageBodyView::Disconnect { from, name } = v {
                            assert(spec_encode_body(v) =~= seq![TAG_DISCONNECT] + (from
                                + spec_string_block(name)));
                            lemma_piece_split(
                                buf@,
                                pos as int,
                                seq![TAG_DISCONNECT],
                                from + spec_string_block(name),
                            );
                        }
                    };
                }
                None
            },
            Some((from, name, end)) => {
                let body = MessageBody::Disconnect { from, name };
                proof {
                    assert(piece_at(buf@, pos as int, seq![TAG_DISCONNECT])) by {
                        assert(buf@.subrange(pos as int, pos + 1) =~= seq![TAG_DISCONNECT]);
                    };
                    lemma_piece_join(
                        buf@,
                        pos as int,
                        seq![TAG_DISCONNECT],
                        body@->Disconnect_from + spec_string_block(body@->Disconnect_name),
                    );
                    assert(spec_encode_body(body@) =~= seq![TAG_DISCONNECT] + (
                    body@->Disconnect_from + spec_string_block(body@->Disconnect_name)));
                    assert forall|v: MessageBodyView|
                        v.wf() && #[trigger] piece_at(buf@, pos as int, spec_encode_body(v))
                        implies (body@ == v && end == pos + spec_encode_body(v).len()) by {
                        if let MessageBodyView::Disconnect { from: f, name: t } = v {
                            assert(spec_encode_body(v) =~= seq![TAG_DISCONNECT] + (f
                                + spec_string_block(t)));
                            lemma_piece_split(
                                buf@,
                                pos as int,
                                seq![TAG_DISCONNECT],
                                f + spec_string_block(t),
                            );
                        }
                    };
                }
                Some((body, end))
            },
        }
    } else if tag == TAG_HISTORY {
        match read_history(buf, pos + 1) {
            None => {
                proof {
                    assert forall|v: MessageBodyView|
                        v.wf() && #[trigger] piece_at(buf@, pos as int, spec_encode_body(v))
                        implies false by {
                        if let MessageBodyView::MessageHistory { messages } = v {
                            assert(spec_encode_body(v) =~= seq![TAG_HISTORY] + (
                            spec_u64_to_le_bytes(messages.len() as u64) + spec_encode_stored_seq(
                                messages,
                            )));
                            lemma_piece_split(
                                buf@,
                                pos as int,
                                seq![TAG_HISTORY],
                                spec_u64_to_le_bytes(messages.len() as u64)
                                    + spec_encode_stored_seq(messages),
                            );
                        }
                    };
                }
                None
            },
            Some((messages, end)) => {
                let body = MessageBody::MessageHistory { messages };
                proof {
                    assert(piece_at(buf@, pos as int, seq![TAG_HISTORY])) by {
                        assert(buf@.subrange(pos as int, pos + 1) =~= seq![TAG_HISTORY]);
                    };
                    let ms = body@->MessageHistory_messages;
                    lemma_piece_join(
                        buf@,
                        pos as int,
                        seq![TAG_HISTORY],
                        spec_u64_to_le_bytes(ms.len() as u64) + spec_encode_stored_seq(ms),
                    );
                    assert(spec_encode_body(body@) =~= seq![TAG_HISTORY] + (spec_u64_to_le_bytes(
                        ms.len() as u64,
                    ) + spec_encode_stored_seq(ms)));
                    assert forall|v: MessageBodyView|
                        v.wf() && #[trigger] piece_at(buf@, pos as int, spec_encode_body(v))
                        implies (body@ == v && end == pos + spec_encode_body(v).len()) by {
                        if let MessageBodyView::MessageHistory { messages: vs } = v {
                            assert(spec_encode_body(v) =~= seq![TAG_HISTORY] + (
                            spec_u64_to_le_bytes(vs.len() as u64) + spec_encode_stored_seq(vs)));
                            lemma_piece_split(
                                buf@,
                                pos as int,
                                seq![TAG_HISTORY],
                                spec_u64_to_le_bytes(vs.len() as u64) + spec_encode_stored_seq(
                                    vs,
                                ),
                            );
                        }
                    };
                }
                Some((body, end))
            },
        }
    } else {
        None
    }
}

impl Message {
    /// Attaches a fresh random nonce to `body`.
    pub fn new(body: MessageBody) -> (r: Message)
        ensures
            r@.body == body@,
            r@.nonce.len() == crate::NONCE_LEN,
    {
        Message { body, nonce: random_bytes(crate::NONCE_LEN) }
    }

    /// The body carried by this envelope.
    pub fn body(&self) -> (r: &MessageBody)
        ensures
            r@ == self@.body,
    {
        &self.body
    }

    /// Gives up the envelope and hands back its body.
    pub fn into_body(self) -> (r: MessageBody)
        ensures
            r@ == self@.body,
    {
        self.body
    }

    /// The nonce attached to this envelope.
    pub fn nonce(&self) -> (r: &Vec<u8>)
        ensures
            r@ == self@.nonce,
            r@.len() == crate::NONCE_LEN,
    {
        proof {
            use_type_invariant(self);
        }
        &self.nonce
    }

    #[verifier::type_invariant]
    spec fn inv(&self) -> bool {
        self.nonce@.len() == crate::NONCE_LEN
    }

    /// Deserializes an envelope. It succeeds exactly on the byte strings
    /// that encode a well-formed envelope, and the second clause of the
    /// contract is the round-trip law: for every well-formed envelope value
    /// `v`, decoding `spec_encode_message(v)` — which is what
    /// [`Message::to_vec`] returns — gives back exactly `v`.
    #[verifier::spinoff_prover]
    pub fn from_bytes(bytes: &Vec<u8>) -> (r: Result<Message, DecodeError>)
        ensures
            r is Ok ==> bytes@ == spec_encode_message(r->Ok_0@) && r->Ok_0@.wf(),
            r is Err ==> r->Err_0 == DecodeError::Malformed,
            forall|v: MessageView|
                v.wf() && bytes@ == #[trigger] spec_encode_message(v) ==> r is Ok && r->Ok_0@
                    == v,
    {
        proof {
            assert forall|v: MessageView| v.wf() && bytes@ == #[trigger] spec_encode_message(v)
                implies piece_at(bytes@, 0, v.nonce + spec_encode_body(v.body)) by {
                assert(bytes@.subrange(0, bytes@.len() as int) =~= bytes@);
            };
        }
        match read_exact(bytes, 0, crate::NONCE_LEN) {
            None => {
                proof {
                    assert forall|v: MessageView|
                        v.wf() && bytes@ == #[trigger] spec_encode_message(v)
                        implies false by {
                        lemma_piece_split(bytes@, 0, v.nonce, spec_encode_body(v.body));
                    };
                }
                Err(DecodeError::Malformed)
            },
            Some((nonce, p1)) => {
                match read_body(bytes, p1) {
                    None => {
                        proof {
                            assert forall|v: MessageView|
                                v.wf() && bytes@ == #[trigger] spec_encode_message(v)
                                implies false by {
                                lemma_piece_split(bytes@, 0, v.nonce, spec_encode_body(v.body));
                            };
                        }
                        Err(DecodeError::Malformed)
                    },
                    Some((body, end)) => {
                        if end == bytes.len() {
                            let m = Message { body, nonce };
                            proof {
                                assert(bytes@ =~= spec_encode_message(m@));
                                assert forall|v: MessageView|
                                    v.wf() && bytes@ == #[trigger] spec_encode_message(v)
                                    implies m@ == v by {
                                    lemma_piece_split(
                                        bytes@,
                                        0,
                                        v.nonce,
                                        spec_encode_body(v.body),
                                    );
                                };
                            }
                            Ok(m)
                        } else {
                            proof {
                                assert forall|v: MessageView|
                                    v.wf() && bytes@ == #[trigger] spec_encode_message(v)
                                    implies false by {
                                    lemma_piece_split(
                                        bytes@,
                                        0,
                                        v.nonce,
                                        spec_encode_body(v.body),
                                    );
                                };
                            }
                            Err(DecodeError::Malformed)
                        }
                    },
                }
            },
        }
    }

    /// Serializes this envelope. Every envelope the library can hold has
    /// exactly one encoding, the one this returns.
    pub fn to_vec(&self) -> (r: Vec<u8>)
        ensures
            r@ == spec_encode_message(self@),
            self@.wf(),
    {
        proof {
            use_type_invariant(self);
        }
        let mut out: Vec<u8> = Vec::new();
        write_bytes(&mut out, &self.nonce);
        write_body(&mut out, &self.body);
        proof {
            assert(out@ =~= spec_encode_message(self@));
        }
        out
    }
}

} // verus!
