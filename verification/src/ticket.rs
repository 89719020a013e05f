//! The room ticket: a copy-pasteable text token that losslessly round-trips
//! a room's address — its topic identifier plus a list of reachable node
//! addresses. The token is the hex spelling of a byte encoding; decoding is
//! the exact inverse of encoding.
use vstd::prelude::*;

verus! {

use crate::errors::ParseError;
use crate::ident::{NodeAddress, TopicId, bytes_eq};
use crate::wire::{
    piece_at, spec_block, write_bytes, write_block, write_u64, read_exact, read_block, read_u64,
    lemma_piece_split, lemma_piece_join, lemma_le_at,
};
use vstd::bytes::{spec_u64_to_le_bytes, lemma_auto_spec_u64_to_from_le_bytes};

/// The lowercase hex digit for a value below sixteen.
pub open spec fn hex_digit_char(d: u8) -> char {
    match d {
        0 => '0',
        1 => '1',
        2 => '2',
        3 => '3',
        4 => '4',
        5 => '5',
        6 => '6',
        7 => '7',
        8 => '8',
        9 => '9',
        10 => 'a',
        11 => 'b',
        12 => 'c',
        13 => 'd',
        14 => 'e',
        _ => 'f',
    }
}

/// The lowercase hex spelling of a byte run: two digits per byte, high
/// nibble first.
pub open spec fn hex_of(bytes: Seq<u8>) -> Seq<char> {
    Seq::new(
        2 * bytes.len(),
        |i: int|
            if i % 2 == 0 {
                hex_digit_char(bytes[i / 2] / 16)
            } else {
                hex_digit_char((bytes[i / 2] % 16) as u8)
            },
    )
}

/// Whether `c` is a hex digit in either case.
pub open spec fn is_hex_digit(c: char) -> bool {
    ('0' <= c && c <= '9') || ('a' <= c && c <= 'f') || ('A' <= c && c <= 'F')
}

/// The value of a hex digit.
pub open spec fn hex_val(c: char) -> u8 {
    if '0' <= c && c <= '9' {
        (c as u8 - '0' as u8) as u8
    } else if 'a' <= c && c <= 'f' {
        (c as u8 - 'a' as u8 + 10) as u8
    } else {
        (c as u8 - 'A' as u8 + 10) as u8
    }
}

/// Whether a text is a well-formed hex spelling: even length, digits only.
pub open spec fn is_hex_seq(s: Seq<char>) -> bool {
    s.len() % 2 == 0 && (forall|i: int| 0 <= i < s.len() ==> is_hex_digit(#[trigger] s[i]))
}

/// The bytes a hex spelling spells.
pub open spec fn unhex(s: Seq<char>) -> Seq<u8> {
    Seq::new(
        s.len() / 2,
        |i: int| (16 * hex_val(s[2 * i]) + hex_val(s[2 * i + 1])) as u8,
    )
}

/// The hex spelling of any byte run is well formed and spells those bytes
/// back.
pub proof fn lemma_hex_round_trip(bytes: Seq<u8>)
    ensures
        is_hex_seq(hex_of(bytes)),
        unhex(hex_of(bytes)) == bytes,
{
    let h = hex_of(bytes);
    assert forall|i: int| 0 <= i < h.len() implies is_hex_digit(#[trigger] h[i]) by {
        if i % 2 == 0 {
            assert(bytes[i / 2] / 16 < 16);
        }
    };
    assert(unhex(h) =~= bytes) by {
        assert forall|i: int| 0 <= i < bytes.len() implies unhex(h)[i] == bytes[i] by {
            let b = bytes[i];
            assert((2 * i) % 2 == 0 && (2 * i + 1) % 2 == 1);
            assert((2 * i) / 2 == i && (2 * i + 1) / 2 == i);
            assert(h[2 * i] == hex_digit_char(b / 16));
            assert(h[2 * i + 1] == hex_digit_char((b % 16) as u8));
            assert(hex_val(hex_digit_char(b / 16)) == b / 16);
            assert(hex_val(hex_digit_char((b % 16) as u8)) == b % 16);
            assert(16 * (b / 16) + b % 16 == b);
        };
    };
}

/// Relies on hex::encode: it spells each byte as two lowercase digits, high
/// nibble first.
#[verifier::external_body]
pub(crate) fn hex_encode_bytes(b: &Vec<u8>) -> (r: String)
    ensures
        r@ == hex_of(b@),
{
    hex::encode(b.as_slice())
}

/// Relies on hex::decode: it succeeds exactly on even-length runs of hex
/// digits of either case, and returns the bytes they spell. (It inspects
/// the text's UTF-8 bytes; a text whose characters are all hex digits is
/// ASCII, so its bytes and characters agree, and any other text fails
/// whichever way it is counted.)
#[verifier::external_body]
pub(crate) fn hex_decode_token(s: &str) -> (r: Option<Vec<u8>>)
    ensures
        r is Some <==> is_hex_seq(s@),
        r is Some ==> r->0@ == unhex(s@),
{
    match hex::decode(s) {
        Ok(v) => Some(v),
        Err(_) => None,
    }
}

/// The views of a list of node addresses, in order.
pub open spec fn views_of_nodes(ns: Seq<NodeAddress>) -> Seq<Seq<u8>> {
    ns.map_values(|n: NodeAddress| n@)
}

/// A room's portable address capsule: its topic plus the addresses to seed
/// connectivity from. Built once when a room is created or parsed once from
/// untrusted text when a room is joined; immutable thereafter.
#[derive(Debug)]
pub struct Ticket {
    pub topic: TopicId,
    pub nodes: Vec<NodeAddress>,
}

/// The mathematical value of a [`Ticket`].
pub ghost struct TicketView {
    pub topic: Seq<u8>,
    pub nodes: Seq<Seq<u8>>,
}

impl View for Ticket {
    type V = TicketView;

    open spec fn view(&self) -> TicketView {
        TicketView { topic: self.topic@, nodes: views_of_nodes(self.nodes@) }
    }
}

impl TicketView {
    /// The topic has its fixed width and the address list fits its prefixes.
    pub open spec fn wf(self) -> bool {
        &&& self.topic.len() == crate::ID_LEN
        &&& self.nodes.len() <= u64::MAX
        &&& forall|i: int| 0 <= i < self.nodes.len() ==> (#[trigger] self.nodes[i]).len()
            <= u64::MAX
    }
}

/// The encodings of a list of addresses: one length-prefixed block each.
pub open spec fn spec_encode_nodes(ns: Seq<Seq<u8>>) -> Seq<u8>
    decreases ns.len(),
{
    if ns.len() == 0 {
        Seq::empty()
    } else {
        spec_block(ns[0]) + spec_encode_nodes(ns.drop_first())
    }
}

/// The byte encoding of a ticket: the raw topic, an address count, then the
/// addresses.
pub open spec fn spec_encode_ticket(t: TicketView) -> Seq<u8> {
    t.topic + spec_u64_to_le_bytes(t.nodes.len() as u64) + spec_encode_nodes(t.nodes)
}

/// Appending one address to a list appends its block.
pub proof fn lemma_encode_nodes_push(ns: Seq<Seq<u8>>, x: Seq<u8>)
    ensures
        spec_encode_nodes(ns.push(x)) == spec_encode_nodes(ns) + spec_block(x),
    decreases ns.len(),
{
    if ns.len() == 0 {
        assert(ns.push(x)[0] == x);
        assert(ns.push(x).drop_first() =~= Seq::<Seq<u8>>::empty());
        assert(spec_encode_nodes(Seq::<Seq<u8>>::empty()) == Seq::<u8>::empty());
        assert(spec_encode_nodes(ns.push(x)) == spec_block(x) + Seq::<u8>::empty());
        assert(spec_encode_nodes(ns) == Seq::<u8>::empty());
        assert(spec_encode_nodes(ns.push(x)) =~= spec_encode_nodes(ns) + spec_block(x));
    } else {
        let head = spec_block(ns[0]);
        assert(ns.push(x)[0] == ns[0]);
        assert(ns.push(x).drop_first() =~= ns.drop_first().push(x));
        lemma_encode_nodes_push(ns.drop_first(), x);
        assert(spec_encode_nodes(ns.push(x)) == head + (spec_encode_nodes(ns.drop_first())
            + spec_block(x)));
        assert(spec_encode_nodes(ns) == head + spec_encode_nodes(ns.drop_first()));
        assert(spec_encode_nodes(ns.push(x)) =~= spec_encode_nodes(ns) + spec_block(x));
    }
}

/// Encoding a concatenation of lists concatenates their encodings.
pub proof fn lemma_encode_nodes_concat(a: Seq<Seq<u8>>, b: Seq<Seq<u8>>)
    ensures
        spec_encode_nodes(a + b) == spec_encode_nodes(a) + spec_encode_nodes(b),
    decreases a.len(),
{
    if a.len() == 0 {
        assert(a + b =~= b);
        assert(spec_encode_nodes(a) + spec_encode_nodes(b) =~= spec_encode_nodes(b));
    } else {
        let head = spec_block(a[0]);
        assert((a + b)[0] == a[0]);
        assert((a + b).len() > 0);
        assert((a + b).drop_first() =~= a.drop_first() + b);
        lemma_encode_nodes_concat(a.drop_first(), b);
        assert(spec_encode_nodes(a + b) == head + (spec_encode_nodes(a.drop_first())
            + spec_encode_nodes(b)));
        assert(spec_encode_nodes(a) == head + spec_encode_nodes(a.drop_first()));
        assert(spec_encode_nodes(a + b) =~= spec_encode_nodes(a) + spec_encode_nodes(b));
    }
}

/// Inside a list's encoding, the block after a parsed prefix sits at the
/// prefix's end.
proof fn lemma_nodes_element_piece(w: Seq<u8>, start: int, ns: Seq<Seq<u8>>, i: int)
    requires
        0 <= i < ns.len(),
        piece_at(w, start, spec_encode_nodes(ns)),
    ensures
        piece_at(w, start + spec_encode_nodes(ns.take(i)).len(), spec_block(ns[i])),
        spec_encode_nodes(ns.take(i + 1)).len() == spec_encode_nodes(ns.take(i)).len()
            + spec_block(ns[i]).len(),
{
    assert(ns =~= ns.take(i) + (ns.skip(i)));
    lemma_encode_nodes_concat(ns.take(i), ns.skip(i));
    lemma_piece_split(w, start, spec_encode_nodes(ns.take(i)), spec_encode_nodes(ns.skip(i)));
    assert(ns.skip(i).len() > 0);
    assert(ns.skip(i)[0] == ns[i]);
    assert(spec_encode_nodes(ns.skip(i)) == spec_block(ns[i]) + spec_encode_nodes(
        ns.skip(i).drop_first(),
    ));
    lemma_piece_split(
        w,
        start + spec_encode_nodes(ns.take(i)).len(),
        spec_block(ns[i]),
        spec_encode_nodes(ns.skip(i).drop_first()),
    );
    assert(ns.take(i + 1) =~= ns.take(i).push(ns[i]));
    lemma_encode_nodes_push(ns.take(i), ns[i]);
}

/// Parses the byte encoding of a ticket, demanding that every byte is used.
#[verifier::spinoff_prover]
fn parse_ticket_bytes(buf: &Vec<u8>) -> (r: Option<Ticket>)
    ensures
        match r {
            Some(t) => buf@ == spec_encode_ticket(t@) && t@.wf(),
            None => true,
        },
        forall|t: TicketView|
            t.wf() && buf@ == #[trigger] spec_encode_ticket(t) ==> r is Some && r->0@ == t,
{
    proof {
        lemma_auto_spec_u64_to_from_le_bytes();
        assert forall|t: TicketView| t.wf() && buf@ == #[trigger] spec_encode_ticket(t)
            implies piece_at(buf@, 0, t.topic + spec_u64_to_le_bytes(t.nodes.len() as u64)
                + spec_encode_nodes(t.nodes)) by {
            assert(buf@.subrange(0, buf@.len() as int) =~= buf@);
        };
    }
    let n = buf.len();
    match read_exact(buf, 0, crate::ID_LEN) {
        None => {
            proof {
                assert forall|t: TicketView| t.wf() && buf@ == #[trigger] spec_encode_ticket(t)
                    implies false by {
                    lemma_piece_split(
                        buf@,
                        0,
                        t.topic + spec_u64_to_le_bytes(t.nodes.len() as u64),
                        spec_encode_nodes(t.nodes),
                    );
                    lemma_piece_split(
                        buf@,
                        0,
                        t.topic,
                        spec_u64_to_le_bytes(t.nodes.len() as u64),
                    );
                };
            }
            None
        },
        Some((topic_bytes, p1)) => {
            let topic = TopicId::from_bytes(topic_bytes).unwrap();
            match read_u64(buf, p1) {
                None => {
                    proof {
                        assert forall|t: TicketView|
                            t.wf() && buf@ == #[trigger] spec_encode_ticket(t)
                            implies false by {
                            lemma_piece_split(
                                buf@,
                                0,
                                t.topic + spec_u64_to_le_bytes(t.nodes.len() as u64),
                                spec_encode_nodes(t.nodes),
                            );
                            lemma_piece_split(
                                buf@,
                                0,
                                t.topic,
                                spec_u64_to_le_bytes(t.nodes.len() as u64),
                            );
                        };
                    }
                    None
                },
                Some((count, start)) => {
                    proof {
                        assert forall|t: TicketView|
                            t.wf() && buf@ == #[trigger] spec_encode_ticket(t)
                            implies (count == t.nodes.len() && buf@.subrange(
                                0,
                                crate::ID_LEN as int,
                            ) == t.topic && piece_at(
                                buf@,
                                start as int,
                                spec_encode_nodes(t.nodes),
                            )) by {
                            lemma_piece_split(
                                buf@,
                                0,
                                t.topic + spec_u64_to_le_bytes(t.nodes.len() as u64),
                                spec_encode_nodes(t.nodes),
                            );
                            lemma_piece_split(
                                buf@,
                                0,
                                t.topic,
                                spec_u64_to_le_bytes(t.nodes.len() as u64),
                            );
                            lemma_le_at(buf@, p1 as int, count, t.nodes.len() as u64);
                        };
                    }
                    let mut nodes: Vec<NodeAddress> = Vec::new();
                    let mut p = start;
                    let mut i: u64 = 0;
                    proof {
                        assert(views_of_nodes(nodes@) =~= Seq::<Seq<u8>>::empty());
                        assert(spec_encode_nodes(views_of_nodes(nodes@)) == Seq::<u8>::empty());
                        assert(piece_at(buf@, start as int, Seq::<u8>::empty())) by {
                            assert(buf@.subrange(start as int, start as int)
                                =~= Seq::<u8>::empty());
                        };
                    }
                    while i < count
                        invariant
                            i <= count,
                            start <= p <= buf@.len(),
                            views_of_nodes(nodes@).len() == i,
                            forall|j: int| 0 <= j < i ==> (#[trigger] views_of_nodes(
                                nodes@,
                            )[j]).len() <= u64::MAX,
                            piece_at(
                                buf@,
                                start as int,
                                spec_encode_nodes(views_of_nodes(nodes@)),
                            ),
                            p == start + spec_encode_nodes(views_of_nodes(nodes@)).len(),
                            forall|ns: Seq<Seq<u8>>|
                                ns.len() == count && (forall|j: int|
                                    0 <= j < ns.len() ==> (#[trigger] ns[j]).len() <= u64::MAX)
                                    && #[trigger] piece_at(
                                    buf@,
                                    start as int,
                                    spec_encode_nodes(ns),
                                ) ==> views_of_nodes(nodes@) == ns.take(i as int),
                            forall|t: TicketView|
                                t.wf() && buf@ == #[trigger] spec_encode_ticket(t) ==> count
                                    == t.nodes.len() && piece_at(
                                    buf@,
                                    start as int,
                                    spec_encode_nodes(t.nodes),
                                ),
                        decreases count - i,
                    {
                        let ghost prior = views_of_nodes(nodes@);
                        match read_block(buf, p) {
                            None => {
                                proof {
                                    assert forall|t: TicketView|
                                        t.wf() && buf@ == #[trigger] spec_encode_ticket(t)
                                        implies false by {
                                        lemma_auto_spec_u64_to_from_le_bytes();
                                        let ns = t.nodes;
                                        lemma_nodes_element_piece(
                                            buf@,
                                            start as int,
                                            ns,
                                            i as int,
                                        );
                                        assert(views_of_nodes(nodes@) == ns.take(i as int));
                                        assert(piece_at(
                                            buf@,
                                            p as int,
                                            spec_block(ns[i as int]),
                                        ));
                                        assert(ns[i as int].len() <= u64::MAX);
                                    };
                                }
                                return None;
                            },
                            Some((addr_bytes, p_next)) => {
                                let addr = NodeAddress::from_bytes(addr_bytes);
                                proof {
                                    lemma_auto_spec_u64_to_from_le_bytes();
                                    lemma_piece_join(
                                        buf@,
                                        start as int,
                                        spec_encode_nodes(prior),
                                        spec_block(addr@),
                                    );
                                    lemma_encode_nodes_push(prior, addr@);
                                    assert(views_of_nodes(nodes@.push(addr)) =~= prior.push(
                                        addr@,
                                    ));
                                }
                                nodes.push(addr);
                                p = p_next;
                                proof {
                                    assert forall|ns: Seq<Seq<u8>>|
                                        ns.len() == count && (forall|j: int|
                                            0 <= j < ns.len() ==> (#[trigger] ns[j]).len()
                                                <= u64::MAX) && #[trigger] piece_at(
                                            buf@,
                                            start as int,
                                            spec_encode_nodes(ns),
                                        )
                                        implies views_of_nodes(nodes@) == ns.take(i + 1) by {
                                        lemma_auto_spec_u64_to_from_le_bytes();
                                        assert(prior == ns.take(i as int));
                                        lemma_nodes_element_piece(
                                            buf@,
                                            start as int,
                                            ns,
                                            i as int,
                                        );
                                        assert(piece_at(
                                            buf@,
                                            (p_next - 8 - addr_bytes@.len()) as int,
                                            spec_block(ns[i as int]),
                                        ));
                                        assert(ns.take(i + 1) =~= ns.take(i as int).push(
                                            ns[i as int],
                                        ));
                                    };
                                }
                                i = i + 1;
                            },
                        }
                    }
                    if p == n {
                        let t = Ticket { topic, nodes };
                        proof {
                            lemma_auto_spec_u64_to_from_le_bytes();
                            assert(t@.nodes.len() == count);
                            assert(buf@ =~= spec_encode_ticket(t@));
                            assert forall|v: TicketView|
                                v.wf() && buf@ == #[trigger] spec_encode_ticket(v)
                                implies t@ == v by {
                                assert(v.nodes.take(v.nodes.len() as int) =~= v.nodes);
                            };
                        }
                        Some(t)
                    } else {
                        proof {
                            lemma_auto_spec_u64_to_from_le_bytes();
                            assert forall|t: TicketView|
                                t.wf() && buf@ == #[trigger] spec_encode_ticket(t)
                                implies false by {
                                assert(t.nodes.take(t.nodes.len() as int) =~= t.nodes);
                            };
                        }
                        None
                    }
                },
            }
        },
    }
}

impl Ticket {
    /// The capsule a freshly created room hands out: it carries exactly the
    /// creator's own address and nothing else.
    pub fn new(topic: TopicId, local: NodeAddress) -> (r: Ticket)
        ensures
            r@.topic == topic@,
            r@.nodes == seq![local@],
            r@.wf(),
    {
        let mut nodes: Vec<NodeAddress> = Vec::new();
        // The address width is a machine length; reading it makes that bound
        // available to the well-formedness proof.
        let width = local.as_bytes().len();
        proof {
            assert(local@.len() == width);
        }
        nodes.push(local);
        proof {
            use_type_invariant(&topic);
            assert(views_of_nodes(nodes@) =~= seq![nodes@[0]@]);
        }
        Ticket { topic, nodes }
    }

    /// A copy of this ticket.
    pub fn duplicate(&self) -> (r: Ticket)
        ensures
            r@ == self@,
    {
        let mut nodes: Vec<NodeAddress> = Vec::new();
        let mut i: usize = 0;
        while i < self.nodes.len()
            invariant
                i <= self.nodes@.len(),
                views_of_nodes(nodes@) == views_of_nodes(self.nodes@).take(i as int),
            decreases self.nodes@.len() - i,
        {
            let ghost prior = views_of_nodes(nodes@);
            let copy = self.nodes[i].duplicate();
            proof {
                assert(copy@ == views_of_nodes(self.nodes@)[i as int]);
            }
            nodes.push(copy);
            proof {
                assert(views_of_nodes(nodes@) =~= prior.push(copy@));
                assert(views_of_nodes(self.nodes@).take(i + 1) =~= views_of_nodes(
                    self.nodes@,
                ).take(i as int).push(views_of_nodes(self.nodes@)[i as int]));
            }
            i = i + 1;
        }
        proof {
            assert(views_of_nodes(self.nodes@).take(self.nodes@.len() as int) =~= views_of_nodes(
                self.nodes@,
            ));
        }
        Ticket { topic: self.topic.duplicate(), nodes }
    }

    /// Serializes this ticket into its token text: the hex spelling of its
    /// byte encoding.
    pub fn encode(&self) -> (r: String)
        ensures
            r@ == hex_of(spec_encode_ticket(self@)),
            self@.wf(),
    {
        proof {
            use_type_invariant(&self.topic);
        }
        let mut out: Vec<u8> = Vec::new();
        write_bytes(&mut out, self.topic.as_bytes());
        write_u64(&mut out, self.nodes.len() as u64);
        let ghost base = out@;
        let ghost all = views_of_nodes(self.nodes@);
        let mut i: usize = 0;
        while i < self.nodes.len()
            invariant
                i <= self.nodes@.len(),
                all == views_of_nodes(self.nodes@),
                all.len() == self.nodes@.len(),
                out@ == base + spec_encode_nodes(all.take(i as int)),
                forall|j: int| 0 <= j < i ==> (#[trigger] all[j]).len() <= u64::MAX,
            decreases self.nodes@.len() - i,
        {
            write_block(&mut out, self.nodes[i].as_bytes());
            proof {
                assert(all.take(i + 1) =~= all.take(i as int).push(all[i as int]));
                lemma_encode_nodes_push(all.take(i as int), all[i as int]);
                assert(out@ =~= base + spec_encode_nodes(all.take(i + 1)));
            }
            i = i + 1;
        }
        proof {
            assert(all.take(all.len() as int) =~= all);
            assert(out@ =~= spec_encode_ticket(self@));
        }
        hex_encode_bytes(&out)
    }

    /// Parses a token text. It succeeds exactly on the tokens that spell a
    /// well-formed ticket, and the last clause of the contract is the
    /// round-trip law: for every well-formed ticket value `t`, decoding the
    /// spelling of its encoding — which is what [`Ticket::encode`]
    /// returns — gives back exactly `t` (see [`lemma_hex_round_trip`]).
    /// A text that is not hex fails with [`ParseError::BadToken`]; hex whose
    /// payload is not a ticket encoding fails with [`ParseError::BadPayload`].
    pub fn decode(s: &str) -> (r: Result<Ticket, ParseError>)
        ensures
            r is Ok ==> is_hex_seq(s@) && unhex(s@) == spec_encode_ticket(r->Ok_0@)
                && r->Ok_0@.wf(),
            r == Err::<Ticket, ParseError>(ParseError::BadToken) <==> !is_hex_seq(s@),
            forall|t: TicketView|
                t.wf() && is_hex_seq(s@) && unhex(s@) == #[trigger] spec_encode_ticket(t)
                    ==> r is Ok && r->Ok_0@ == t,
    {
        match hex_decode_token(s) {
            None => Err(ParseError::BadToken),
            Some(bytes) => {
                match parse_ticket_bytes(&bytes) {
                    None => Err(ParseError::BadPayload),
                    Some(t) => Ok(t),
                }
            },
        }
    }
}

impl PartialEq for Ticket {
    fn eq(&self, other: &Ticket) -> (r: bool) {
        if !bytes_eq(self.topic.as_bytes(), other.topic.as_bytes()) {
            return false;
        }
        if self.nodes.len() != other.nodes.len() {
            proof {
                assert(self@.nodes.len() != other@.nodes.len());
            }
            return false;
        }
        let mut i: usize = 0;
        while i < self.nodes.len()
            invariant
                i <= self.nodes@.len(),
                self.nodes@.len() == other.nodes@.len(),
                self@.topic == other@.topic,
                forall|j: int| 0 <= j < i ==> #[trigger] self@.nodes[j] == other@.nodes[j],
            decreases self.nodes@.len() - i,
        {
            if !bytes_eq(self.nodes[i].as_bytes(), other.nodes[i].as_bytes()) {
                proof {
                    assert(self@.nodes[i as int] == self.nodes@[i as int]@);
                    assert(other@.nodes[i as int] == other.nodes@[i as int]@);
                }
                return false;
            }
            proof {
                assert(self@.nodes[i as int] == self.nodes@[i as int]@);
                assert(other@.nodes[i as int] == other.nodes@[i as int]@);
            }
            i = i + 1;
        }
        proof {
            assert(self@.nodes =~= other@.nodes);
        }
        true
    }
}

impl vstd::std_specs::cmp::PartialEqSpecImpl for Ticket {
    open spec fn obeys_eq_spec() -> bool {
        true
    }

    open spec fn eq_spec(&self, other: &Ticket) -> bool {
        self@ == other@
    }
}

impl Eq for Ticket {}

} // verus!
