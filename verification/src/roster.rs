//! The identifiers of the links that a component currently holds.

use vstd::prelude::*;
use crate::text::{first_index, lemma_first_index, lemma_first_index_found, lemma_without, texts, without};

verus! {

/// A set of textual identifiers kept in the order in which they joined.
pub struct Roster {
    names: Vec<String>,
}

impl View for Roster {
    type V = Seq<Seq<char>>;

    closed spec fn view(&self) -> Seq<Seq<char>> {
        texts(self.names@)
    }
}

impl Roster {
    /// No identifier is listed twice.
    pub open spec fn wf(&self) -> bool {
        self@.no_duplicates()
    }

    /// A roster without members.
    pub fn new() -> (r: Self)
        ensures
            r@ == Seq::<Seq<char>>::empty(),
            r.wf(),
    {
        let r = Roster { names: Vec::new() };
        assert(r@ =~= Seq::<Seq<char>>::empty());
        r
    }

    /// The number of members.
    pub fn len(&self) -> (n: usize)
        ensures
            n == self@.len(),
    {
        self.names.len()
    }

    /// Whether there is no member.
    pub fn is_empty(&self) -> (b: bool)
        ensures
            b == (self@.len() == 0),
    {
        self.names.len() == 0
    }

    /// The member that joined `i`-th among those present.
    pub fn name(&self, i: usize) -> (s: &String)
        requires
            i < self@.len(),
        ensures
            s@ == self@[i as int],
    {
        &self.names[i]
    }

    /// Where `name` stands in the roster, if it is a member.
    pub fn position(&self, name: &String) -> (r: Option<usize>)
        ensures
            match r {
                Some(i) => i < self@.len() && i == first_index(self@, name@),
                None => first_index(self@, name@) == self@.len(),
            },
    {
        let n = self.names.len();
        let mut i: usize = 0;
        while i < n
            invariant
                i <= n,
                n == self@.len(),
                forall|j: int| 0 <= j < i ==> self@[j] != name@,
            decreases n - i,
        {
            if self.names[i] == *name {
                proof {
                    lemma_first_index(self@, name@, i as int);
                }
                return Some(i);
            }
            i += 1;
        }
        proof {
            lemma_first_index(self@, name@, n as int);
        }
        None
    }

    /// Whether `name` is a member.
    pub fn contains(&self, name: &String) -> (b: bool)
        ensures
            b == self@.contains(name@),
    {
        proof {
            lemma_first_index_found(self@, name@);
        }
        self.position(name).is_some()
    }

    /// Lets `name` join at the end unless it is a member already; says whether
    /// it joined.
    pub fn insert(&mut self, name: String) -> (added: bool)
        requires
            old(self).wf(),
        ensures
            final(self).wf(),
            added == !old(self)@.contains(name@),
            final(self)@ == if added {
                old(self)@.push(name@)
            } else {
                old(self)@
            },
    {
        if self.contains(&name) {
            false
        } else {
            let ghost before = self@;
            self.names.push(name);
            assert(self@ =~= before.push(name@));
            true
        }
    }

    /// Takes `name` out; says whether it was a member.
    pub fn remove(&mut self, name: &String) -> (removed: bool)
        requires
            old(self).wf(),
        ensures
            final(self).wf(),
            removed == old(self)@.contains(name@),
            final(self)@ == without(old(self)@, name@),
    {
        proof {
            lemma_first_index_found(self@, name@);
            lemma_without(self@, name@);
        }
        match self.position(name) {
            Some(i) => {
                let ghost before = self@;
                self.names.remove(i);
                assert(self@ =~= before.remove(i as int));
                true
            },
            None => false,
        }
    }

    /// Takes every member out.
    pub fn clear(&mut self)
        ensures
            final(self)@ == Seq::<Seq<char>>::empty(),
            final(self).wf(),
    {
        self.names = Vec::new();
        assert(self@ =~= Seq::<Seq<char>>::empty());
    }

    /// The members as they are kept, in the order in which they joined.
    pub fn as_vec(&self) -> (v: &Vec<String>)
        ensures
            texts(v@) == self@,
    {
        &self.names
    }

    /// A copy of the members, in the order in which they joined.
    pub fn names(&self) -> (v: Vec<String>)
        ensures
            texts(v@) == self@,
    {
        let n = self.names.len();
        let mut v: Vec<String> = Vec::new();
        let mut i: usize = 0;
        while i < n
            invariant
                i <= n,
                n == self.names@.len(),
                texts(v@) == self@.take(i as int),
            decreases n - i,
        {
            let ghost before = v@;
            v.push(self.names[i].clone());
            assert(texts(v@) =~= texts(before).push(self@[i as int]));
            assert(self@.take(i + 1) =~= self@.take(i as int).push(self@[i as int]));
            i += 1;
        }
        assert(self@.take(n as int) =~= self@);
        v
    }
}

} // verus!
