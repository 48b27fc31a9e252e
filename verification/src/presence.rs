//! The presence directory: which name each peer last announced.

use vstd::prelude::*;
use crate::identity::{short_form, PeerId};

verus! {

/// The name to show for `peer`: the one it last announced, or its short form
/// while it has announced none.
pub open spec fn display_name_of(names: Map<Seq<u8>, Seq<char>>, peer: Seq<u8>) -> Seq<char> {
    if names.contains_key(peer) {
        names[peer]
    } else {
        short_form(peer)
    }
}

/// Names by peer, built from the announcements received. Entries are added
/// and overwritten, never removed.
pub struct Directory {
    entries: Vec<(PeerId, String)>,
}

impl Directory {
    /// No peer is listed twice.
    #[verifier::type_invariant]
    spec fn distinct(&self) -> bool {
        forall|i: int, j: int|
            0 <= i < j < self.entries@.len() ==> self.entries@[i].0@ != self.entries@[j].0@
    }

    /// Whether the entry at `i` is the one of `peer`.
    spec fn holds_at(&self, peer: Seq<u8>, i: int) -> bool {
        0 <= i < self.entries@.len() && self.entries@[i].0@ == peer
    }

    /// Where `peer` is listed, if it is.
    spec fn place_of(&self, peer: Seq<u8>) -> int {
        choose|i: int| self.holds_at(peer, i)
    }

    /// The directory as a map from a peer's bytes to its name.
    pub closed spec fn view(&self) -> Map<Seq<u8>, Seq<char>> {
        Map::new(
            |peer: Seq<u8>| exists|i: int| self.holds_at(peer, i),
            |peer: Seq<u8>| self.entries@[self.place_of(peer)].1@,
        )
    }

    /// A directory that knows no peer.
    pub fn new() -> (names: Directory)
        ensures
            names@ == Map::<Seq<u8>, Seq<char>>::empty(),
    {
        let names = Directory { entries: Vec::new() };
        assert(names@ =~= Map::<Seq<u8>, Seq<char>>::empty());
        names
    }

    /// The place of `peer` among the entries, or their number if it has none.
    fn find(&self, peer: &PeerId) -> (at: usize)
        ensures
            at <= self.entries@.len(),
            at < self.entries@.len() ==> self.entries@[at as int].0@ == peer@,
            at == self.entries@.len() ==> !self@.contains_key(peer@),
            at == self.entries@.len() ==> forall|k: int|
                0 <= k < self.entries@.len() ==> self.entries@[k].0@ != peer@,
            at < self.entries@.len() ==> self@.contains_key(peer@) && self@[peer@]
                == self.entries@[at as int].1@,
    {
        proof {
            use_type_invariant(self);
        }
        let mut i: usize = 0;
        while i < self.entries.len()
            invariant
                i <= self.entries@.len(),
                forall|k: int| 0 <= k < i ==> self.entries@[k].0@ != peer@,
            decreases self.entries@.len() - i,
        {
            if self.entries[i].0 == *peer {
                proof {
                    use_type_invariant(self);
                    assert(self.holds_at(peer@, i as int));
                    let p = self.place_of(peer@);
                    assert(self.holds_at(peer@, p));
                    assert(p == i);
                }
                return i;
            }
            i += 1;
        }
        proof {
            assert forall|k: int| !self.holds_at(peer@, k) by {}
        }
        i
    }

    /// Records that `from` now goes by `name`, in place of any earlier name.
    pub fn observe_about_me(&mut self, from: PeerId, name: String)
        ensures
            final(self)@ == old(self)@.insert(from@, name@),
    {
        proof {
            use_type_invariant(&*self);
        }
        let at = self.find(&from);
        let mut entries: Vec<(PeerId, String)> = Vec::new();
        core::mem::swap(&mut self.entries, &mut entries);
        if at < entries.len() {
            entries.set(at, (from, name));
        } else {
            entries.push((from, name));
        }
        assert forall|i: int, j: int| 0 <= i < j < entries@.len() implies entries@[i].0@
            != entries@[j].0@ by {
            assert(old(self).entries@[i].0@ == entries@[i].0@);
            if j < old(self).entries@.len() {
                assert(old(self).entries@[j].0@ == entries@[j].0@);
            }
        }
        core::mem::swap(&mut self.entries, &mut entries);
        proof {
            let before = *old(self);
            let after = *final(self);
            assert forall|peer: Seq<u8>| after@.contains_key(peer) <==> (peer == from@
                || before@.contains_key(peer)) by {
                if after@.contains_key(peer) {
                    let i = choose|i: int| after.holds_at(peer, i);
                    if i != at {
                        assert(before.holds_at(peer, i));
                    }
                }
                if peer == from@ {
                    assert(after.holds_at(peer, at as int));
                }
                if before@.contains_key(peer) {
                    let i = choose|i: int| before.holds_at(peer, i);
                    if i != at {
                        assert(after.holds_at(peer, i));
                    } else {
                        assert(after.holds_at(from@, at as int));
                    }
                }
            }
            assert forall|peer: Seq<u8>| after@.contains_key(peer) implies after@[peer]
                == before@.insert(from@, name@)[peer] by {
                let i = after.place_of(peer);
                assert(after.holds_at(peer, i));
                if peer == from@ {
                    assert(after.holds_at(peer, at as int));
                    assert(i == at);
                } else {
                    assert(before.holds_at(peer, i));
                    let j = before.place_of(peer);
                    assert(before.holds_at(peer, j));
                    assert(i == j);
                }
            }
            assert(after@ =~= before@.insert(from@, name@));
        }
    }

    /// The name to show for `peer`.
    pub fn display_name(&self, peer: &PeerId) -> (name: String)
        ensures
            name@ == display_name_of(self@, peer@),
    {
        let at = self.find(peer);
        if at < self.entries.len() {
            self.entries[at].1.clone()
        } else {
            peer.fmt_short()
        }
    }
}

/// The last announcement wins: after two announcements of one peer, the
/// second name is shown.
pub proof fn lemma_last_write_wins(
    names: Map<Seq<u8>, Seq<char>>,
    peer: Seq<u8>,
    first: Seq<char>,
    second: Seq<char>,
)
    ensures
        display_name_of(names.insert(peer, first).insert(peer, second), peer) == second,
        names.insert(peer, first).insert(peer, second) == names.insert(peer, second),
{
    assert(names.insert(peer, first).insert(peer, second) =~= names.insert(peer, second));
}

/// Announcing the same name again changes nothing.
pub proof fn lemma_observe_idempotent(
    names: Map<Seq<u8>, Seq<char>>,
    peer: Seq<u8>,
    name: Seq<char>,
)
    ensures
        names.insert(peer, name).insert(peer, name) == names.insert(peer, name),
{
    assert(names.insert(peer, name).insert(peer, name) =~= names.insert(peer, name));
}

/// A peer that has announced no name is shown by its short form; an
/// announcement of another peer does not change that.
pub proof fn lemma_unknown_peer_falls_back(
    names: Map<Seq<u8>, Seq<char>>,
    peer: Seq<u8>,
    other: Seq<u8>,
    name: Seq<char>,
)
    requires
        !names.contains_key(peer),
        other != peer,
    ensures
        display_name_of(names, peer) == short_form(peer),
        display_name_of(Map::<Seq<u8>, Seq<char>>::empty(), peer) == short_form(peer),
        display_name_of(names.insert(other, name), peer) == short_form(peer),
{
}

/// An announcement leaves every other peer's name as it was, and removes none.
pub proof fn lemma_observe_keeps_others(
    names: Map<Seq<u8>, Seq<char>>,
    peer: Seq<u8>,
    name: Seq<char>,
    other: Seq<u8>,
)
    requires
        other != peer,
    ensures
        names.contains_key(other) ==> names.insert(peer, name).contains_key(other),
        display_name_of(names.insert(peer, name), other) == display_name_of(names, other),
{
}

} // verus!
