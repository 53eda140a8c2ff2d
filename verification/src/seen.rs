//! The record of what was announced to a subscriber.

use vstd::prelude::*;

verus! {

/// The identifiers that a list of texts holds, as a set.
pub open spec fn id_set(ids: Seq<String>) -> Set<Seq<char>> {
    Set::new(|id: Seq<char>| exists|i: int| 0 <= i < ids.len() && #[trigger] ids[i]@ == id)
}

/// The identifiers already announced to one subscriber.
///
/// The set only grows: an identifier that was marked stays marked.
#[derive(Clone, Debug)]
pub struct SeenSet {
    ids: Vec<String>,
}

impl View for SeenSet {
    type V = Set<Seq<char>>;

    closed spec fn view(&self) -> Set<Seq<char>> {
        id_set(self.ids@)
    }
}

impl SeenSet {
    /// The record of a subscriber to whom nothing was announced yet.
    pub fn new() -> (seen: SeenSet)
        ensures
            seen@ == Set::<Seq<char>>::empty(),
    {
        let seen = SeenSet { ids: Vec::new() };
        assert(seen@ =~= Set::<Seq<char>>::empty());
        seen
    }

    /// The record that holds exactly the given identifiers.
    pub fn from_ids(ids: Vec<String>) -> (seen: SeenSet)
        ensures
            seen@ == id_set(ids@),
    {
        SeenSet { ids }
    }

    /// Whether nothing was ever recorded.
    pub fn is_empty(&self) -> (empty: bool)
        ensures
            empty == (self@ == Set::<Seq<char>>::empty()),
    {
        let empty = self.ids.len() == 0;
        proof {
            if empty {
                assert(self@ =~= Set::<Seq<char>>::empty());
            } else {
                assert(self@.contains(self.ids@[0]@));
            }
        }
        empty
    }

    /// Whether `id` was announced before.
    pub fn contains(&self, id: &String) -> (found: bool)
        ensures
            found == self@.contains(id@),
    {
        let mut i: usize = 0;
        while i < self.ids.len()
            invariant
                i <= self.ids.len(),
                forall|j: int| 0 <= j < i ==> self.ids@[j]@ != id@,
            decreases self.ids.len() - i,
        {
            if self.ids[i] == *id {
                return true;
            }
            i += 1;
        }
        false
    }

    /// Records `id`. Recording an identifier again changes nothing.
    pub fn mark_seen(&mut self, id: &String)
        ensures
            final(self)@ == old(self)@.insert(id@),
    {
        if !self.contains(id) {
            let copy = id.clone();
            proof {
                lemma_id_set_push(self.ids@, copy);
            }
            self.ids.push(copy);
        } else {
            assert(self@ =~= old(self)@.insert(id@));
        }
    }

    /// Records every identifier of `ids`.
    pub fn mark_all(&mut self, ids: &Vec<String>)
        ensures
            final(self)@ == old(self)@.union(id_set(ids@)),
    {
        let mut i: usize = 0;
        assert(self@ =~= old(self)@.union(id_set(ids@.take(0))));
        while i < ids.len()
            invariant
                i <= ids.len(),
                self@ == old(self)@.union(id_set(ids@.take(i as int))),
            decreases ids.len() - i,
        {
            self.mark_seen(&ids[i]);
            proof {
                lemma_id_set_push(ids@.take(i as int), ids@[i as int]);
                assert(ids@.take(i + 1) =~= ids@.take(i as int).push(ids@[i as int]));
                assert(self@ =~= old(self)@.union(id_set(ids@.take(i + 1))));
            }
            i += 1;
        }
        assert(ids@.take(ids@.len() as int) =~= ids@);
    }
}

/// Appending one text to a list adds its identifier to the set.
pub proof fn lemma_id_set_push(ids: Seq<String>, id: String)
    ensures
        id_set(ids.push(id)) == id_set(ids).insert(id@),
{
    let longer = ids.push(id);
    assert forall|x: Seq<char>| #[trigger]
        id_set(longer).contains(x) == id_set(ids).insert(id@).contains(x) by {
        if id_set(longer).contains(x) {
            let j = choose|j: int| 0 <= j < longer.len() && longer[j]@ == x;
            if j < ids.len() {
                assert(ids[j]@ == x);
            }
        }
        if id_set(ids).contains(x) {
            let j = choose|j: int| 0 <= j < ids.len() && ids[j]@ == x;
            assert(longer[j]@ == x);
        }
        if x == id@ {
            assert(longer[ids.len() as int]@ == x);
        }
    }
    assert(id_set(longer) =~= id_set(ids).insert(id@));
}

} // verus!
