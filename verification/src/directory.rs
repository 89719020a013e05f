//! The peer-presence directory: a live mapping from peer identity to display
//! name, mutated only by presence messages. Its mathematical value is a map
//! from identity bytes to name text.
use vstd::prelude::*;

verus! {

use crate::ident::PeerId;
use crate::ticket::hex_of;

/// The map a run of directory entries stands for: later entries win.
pub open spec fn entries_map(s: Seq<(PeerId, String)>) -> Map<Seq<u8>, Seq<char>>
    decreases s.len(),
{
    if s.len() == 0 {
        Map::empty()
    } else {
        entries_map(s.drop_last()).insert(s.last().0@, s.last().1@)
    }
}

/// No two entries name the same identity.
pub open spec fn entries_unique(s: Seq<(PeerId, String)>) -> bool {
    forall|i: int, j: int| 0 <= i < j < s.len() ==> (#[trigger] s[i]).0@ != (#[trigger] s[j]).0@
}

/// A key is in the map exactly when some entry names it.
proof fn lemma_entries_map_dom(s: Seq<(PeerId, String)>, k: Seq<u8>)
    ensures
        entries_map(s).dom().contains(k) <==> exists|i: int|
            0 <= i < s.len() && (#[trigger] s[i]).0@ == k,
    decreases s.len(),
{
    if s.len() > 0 {
        lemma_entries_map_dom(s.drop_last(), k);
        if s.last().0@ == k {
            assert(s[s.len() - 1].0@ == k);
        } else if entries_map(s).dom().contains(k) {
            let i = choose|i: int| 0 <= i < s.drop_last().len() && (#[trigger] s.drop_last()[i]).0@
                == k;
            assert(s[i].0@ == k);
        } else {
            assert forall|i: int| 0 <= i < s.len() implies (#[trigger] s[i]).0@ != k by {
                if i < s.len() - 1 {
                    assert(s.drop_last()[i] == s[i]);
                }
            };
        }
    }
}

/// With unique keys, the map sends each entry's key to its name.
proof fn lemma_entries_map_index(s: Seq<(PeerId, String)>, i: int)
    requires
        entries_unique(s),
        0 <= i < s.len(),
    ensures
        entries_map(s).dom().contains(s[i].0@),
        entries_map(s)[s[i].0@] == s[i].1@,
    decreases s.len(),
{
    if i == s.len() - 1 {
        assert(s.last() == s[i]);
    } else {
        assert(entries_unique(s.drop_last())) by {
            assert forall|a: int, b: int| 0 <= a < b < s.drop_last().len() implies (
            #[trigger] s.drop_last()[a]).0@ != (#[trigger] s.drop_last()[b]).0@ by {
                assert(s.drop_last()[a] == s[a] && s.drop_last()[b] == s[b]);
            };
        };
        lemma_entries_map_index(s.drop_last(), i);
        assert(s.drop_last()[i] == s[i]);
        assert(s[i].0@ != s[s.len() - 1].0@);
    }
}

/// Removing an entry removes exactly its key.
proof fn lemma_entries_map_remove(s: Seq<(PeerId, String)>, i: int)
    requires
        entries_unique(s),
        0 <= i < s.len(),
    ensures
        entries_map(s.remove(i)) == entries_map(s).remove(s[i].0@),
    decreases s.len(),
{
    if i == s.len() - 1 {
        assert(s.remove(i) =~= s.drop_last());
        assert(entries_map(s) == entries_map(s.drop_last()).insert(s.last().0@, s.last().1@));
        lemma_entries_map_dom(s.drop_last(), s[i].0@);
        assert forall|a: int| 0 <= a < s.drop_last().len() implies (
        #[trigger] s.drop_last()[a]).0@ != s[i].0@ by {
            assert(s.drop_last()[a] == s[a]);
        };
        assert(!entries_map(s.drop_last()).dom().contains(s[i].0@));
        assert(entries_map(s.remove(i)) =~= entries_map(s).remove(s[i].0@));
    } else {
        assert(entries_unique(s.drop_last())) by {
            assert forall|a: int, b: int| 0 <= a < b < s.drop_last().len() implies (
            #[trigger] s.drop_last()[a]).0@ != (#[trigger] s.drop_last()[b]).0@ by {
                assert(s.drop_last()[a] == s[a] && s.drop_last()[b] == s[b]);
            };
        };
        lemma_entries_map_remove(s.drop_last(), i);
        assert(s.remove(i).drop_last() =~= s.drop_last().remove(i));
        assert(s.remove(i).last() == s.last());
        assert(entries_map(s.remove(i)) == entries_map(s.drop_last().remove(i)).insert(
            s.last().0@,
            s.last().1@,
        ));
        assert(s.drop_last()[i] == s[i]);
        assert(s[i].0@ != s.last().0@);
        assert(entries_map(s.remove(i)) =~= entries_map(s).remove(s[i].0@));
    }
}

/// Whether some string in the list reads `x`.
pub open spec fn lists_name(ns: Seq<String>, x: Seq<char>) -> bool {
    exists|i: int| 0 <= i < ns.len() && (#[trigger] ns[i])@ == x
}

/// Whether some peer in the map carries the name `x`.
pub open spec fn map_has_name(m: Map<Seq<u8>, Seq<char>>, x: Seq<char>) -> bool {
    exists|k: Seq<u8>| #[trigger] m.dom().contains(k) && m[k] == x
}

/// The in-memory peer directory. It holds an entry for every peer whose
/// presence has been observed and not yet followed by a departure; the local
/// participant's own name is tracked separately by the room state.
#[derive(Debug)]
pub struct PeerDirectory {
    entries: Vec<(PeerId, String)>,
}

impl View for PeerDirectory {
    type V = Map<Seq<u8>, Seq<char>>;

    closed spec fn view(&self) -> Map<Seq<u8>, Seq<char>> {
        entries_map(self.entries@)
    }
}

impl PeerDirectory {
    /// Well-formedness: no two entries name the same identity. Constructors
    /// establish it and every method preserves it.
    pub closed spec fn wf(&self) -> bool {
        entries_unique(self.entries@)
    }

    /// An empty directory.
    pub fn new() -> (r: PeerDirectory)
        ensures
            r@ == Map::<Seq<u8>, Seq<char>>::empty(),
            r.wf(),
    {
        PeerDirectory { entries: Vec::new() }
    }

    /// The index of the entry naming `id`, if any.
    fn find(&self, id: &PeerId) -> (r: Option<usize>)
        ensures
            match r {
                Some(i) => i < self.entries@.len() && self.entries@[i as int].0@ == id@,
                None => forall|i: int|
                    0 <= i < self.entries@.len() ==> (#[trigger] self.entries@[i]).0@ != id@,
            },
    {
        let mut i: usize = 0;
        while i < self.entries.len()
            invariant
                i <= self.entries@.len(),
                forall|j: int| 0 <= j < i ==> (#[trigger] self.entries@[j]).0@ != id@,
            decreases self.entries@.len() - i,
        {
            if crate::ident::bytes_eq(self.entries[i].0.as_bytes(), id.as_bytes()) {
                return Some(i);
            }
            i = i + 1;
        }
        None
    }

    /// Records that `id` announced itself as `name`, overwriting any earlier
    /// name, and reports whether this was the first observation of `id`.
    /// Observing the same announcement again changes nothing further and no
    /// longer counts as first.
    pub fn observe_about_me(&mut self, id: &PeerId, name: String) -> (first: bool)
        requires
            old(self).wf(),
        ensures
            final(self).wf(),
            final(self)@ == old(self)@.insert(id@, name@),
            first == !old(self)@.dom().contains(id@),
    {
        proof {
            lemma_entries_map_dom(self.entries@, id@);
        }
        let found = self.find(id);
        match found {
            Some(i) => {
                proof {
                    lemma_entries_map_remove(self.entries@, i as int);
                }
                let ghost before = self.entries@;
                self.entries.remove(i);
                proof {
                    assert(entries_unique(self.entries@)) by {
                        assert forall|a: int, b: int|
                            0 <= a < b < self.entries@.len() implies (
                        #[trigger] self.entries@[a]).0@ != (#[trigger] self.entries@[b]).0@ by {
                            assert(self.entries@[a] == before.remove(i as int)[a]);
                            assert(self.entries@[b] == before.remove(i as int)[b]);
                        };
                    };
                    assert forall|a: int| 0 <= a < self.entries@.len() implies (
                    #[trigger] self.entries@[a]).0@ != id@ by {
                        if a < i {
                            assert(self.entries@[a] == before[a]);
                        } else {
                            assert(self.entries@[a] == before[a + 1]);
                        }
                    };
                }
                let ghost mid = self.entries@;
                self.entries.push((id.duplicate(), name));
                proof {
                    assert(self.entries@.drop_last() =~= mid);
                    assert(entries_map(self.entries@) =~= old(self)@.insert(id@, name@));
                }
                false
            },
            None => {
                let ghost mid = self.entries@;
                self.entries.push((id.duplicate(), name));
                proof {
                    assert(self.entries@.drop_last() =~= mid);
                }
                true
            },
        }
    }

    /// Forgets `id`; nothing changes when it was absent.
    pub fn forget(&mut self, id: &PeerId)
        requires
            old(self).wf(),
        ensures
            final(self).wf(),
            final(self)@ == old(self)@.remove(id@),
    {
        proof {
            lemma_entries_map_dom(self.entries@, id@);
        }
        let found = self.find(id);
        match found {
            Some(i) => {
                proof {
                    lemma_entries_map_remove(self.entries@, i as int);
                }
                let ghost before = self.entries@;
                self.entries.remove(i);
                proof {
                    assert(entries_unique(self.entries@)) by {
                        assert forall|a: int, b: int|
                            0 <= a < b < self.entries@.len() implies (
                        #[trigger] self.entries@[a]).0@ != (#[trigger] self.entries@[b]).0@ by {
                            assert(self.entries@[a] == before.remove(i as int)[a]);
                            assert(self.entries@[b] == before.remove(i as int)[b]);
                        };
                    };
                }
            },
            None => {
                proof {
                    assert(old(self)@.remove(id@) =~= old(self)@);
                }
            },
        }
    }

    /// The short deterministic fallback name for an unknown identity: a
    /// `User-` prefix followed by the hex spelling of the identity's first
    /// four bytes.
    pub open spec fn short_name(id: Seq<u8>) -> Seq<char> {
        "User-"@ + hex_of(id.take(4))
    }

    /// The display name a peer resolves to: its stored name, or the short
    /// fallback when it is unknown.
    pub open spec fn resolved_name(m: Map<Seq<u8>, Seq<char>>, id: Seq<u8>) -> Seq<char> {
        if m.dom().contains(id) {
            m[id]
        } else {
            PeerDirectory::short_name(id)
        }
    }

    /// Resolves `id` to a display name; never fails.
    pub fn resolve(&self, id: &PeerId) -> (r: String)
        requires
            self.wf(),
        ensures
            r@ == PeerDirectory::resolved_name(self@, id@),
    {
        proof {
            lemma_entries_map_dom(self.entries@, id@);
        }
        let found = self.find(id);
        match found {
            Some(i) => {
                proof {
                    lemma_entries_map_index(self.entries@, i as int);
                }
                self.entries[i].1.clone()
            },
            None => Self::fallback_name(id),
        }
    }

    /// Builds the short fallback name for `id`.
    pub fn fallback_name(id: &PeerId) -> (r: String)
        ensures
            r@ == PeerDirectory::short_name(id@),
    {
        proof {
            use_type_invariant(id);
        }
        let bytes = id.as_bytes();
        let mut prefix: Vec<u8> = Vec::new();
        let mut i: usize = 0;
        while i < 4
            invariant
                i <= 4,
                id@.len() == crate::ID_LEN,
                bytes@ == id@,
                prefix@ == id@.take(i as int),
            decreases 4 - i,
        {
            prefix.push(bytes[i]);
            proof {
                assert(prefix@ =~= id@.take(i + 1));
            }
            i = i + 1;
        }
        let mut r = String::from_str("User-");
        let hex = crate::ticket::hex_encode_bytes(&prefix);
        r.append(hex.as_str());
        r
    }

    /// The names currently stored, one per entry.
    pub fn names(&self) -> (r: Vec<String>)
        requires
            self.wf(),
        ensures
            forall|x: Seq<char>| #[trigger] lists_name(r@, x) <==> map_has_name(self@, x),
    {
        let mut r: Vec<String> = Vec::new();
        let mut i: usize = 0;
        while i < self.entries.len()
            invariant
                i <= self.entries@.len(),
                entries_unique(self.entries@),
                r@.len() == i,
                forall|j: int| 0 <= j < i ==> (#[trigger] r@[j])@ == self.entries@[j].1@,
            decreases self.entries@.len() - i,
        {
            r.push(self.entries[i].1.clone());
            i = i + 1;
        }
        proof {
            assert forall|x: Seq<char>| #[trigger] lists_name(r@, x) implies map_has_name(
                self@,
                x,
            ) by {
                let i = choose|i: int| 0 <= i < r@.len() && (#[trigger] r@[i])@ == x;
                lemma_entries_map_index(self.entries@, i);
                assert(self@.dom().contains(self.entries@[i].0@) && self@[self.entries@[i].0@]
                    == x);
            };
            assert forall|x: Seq<char>| #[trigger] map_has_name(self@, x) implies lists_name(
                r@,
                x,
            ) by {
                let k = choose|k: Seq<u8>| #[trigger] self@.dom().contains(k) && self@[k] == x;
                lemma_entries_map_dom(self.entries@, k);
                let i = choose|i: int|
                    0 <= i < self.entries@.len() && (#[trigger] self.entries@[i]).0@ == k;
                lemma_entries_map_index(self.entries@, i);
                assert((r@[i])@ == x);
            };
        }
        r
    }

    /// Empties the directory.
    pub fn clear(&mut self)
        ensures
            final(self).wf(),
            final(self)@ == Map::<Seq<u8>, Seq<char>>::empty(),
    {
        self.entries.clear();
    }

    /// The number of peers currently present.
    pub fn len(&self) -> (r: usize)
        ensures
            r == self.spec_len(),
    {
        self.entries.len()
    }

    /// The number of entries; with unique keys this is the size of the map.
    pub closed spec fn spec_len(&self) -> nat {
        self.entries@.len()
    }
}

/// Observing the same announcement twice is idempotent: the second
/// observation leaves the directory — and so every later resolution — as the
/// first left it, and the identity is no longer new.
pub proof fn lemma_observe_idempotent(m: Map<Seq<u8>, Seq<char>>, id: Seq<u8>, name: Seq<char>)
    ensures
        m.insert(id, name).insert(id, name) == m.insert(id, name),
        m.insert(id, name).dom().contains(id),
        PeerDirectory::resolved_name(m.insert(id, name).insert(id, name), id)
            == PeerDirectory::resolved_name(m.insert(id, name), id),
{
    assert(m.insert(id, name).insert(id, name) =~= m.insert(id, name));
}

} // verus!
