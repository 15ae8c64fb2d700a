//! The variable environment: a mapping from variable names to booleans,
//! scoped to one branch of the enumeration.

use vstd::prelude::*;

verus! {

/// The mathematical value of a sequence of entries: a map in which a later
/// entry for the same name overrides an earlier one.
pub open spec fn entries_map(s: Seq<(String, bool)>) -> Map<Seq<char>, bool>
    decreases s.len(),
{
    if s.len() == 0 {
        Map::empty()
    } else {
        entries_map(s.drop_last()).insert(s.last().0@, s.last().1)
    }
}

/// A mapping from variable names to boolean values.
pub struct Env {
    entries: Vec<(String, bool)>,
}

impl View for Env {
    type V = Map<Seq<char>, bool>;

    closed spec fn view(&self) -> Map<Seq<char>, bool> {
        entries_map(self.entries@)
    }
}

impl Env {
    /// An environment with no bindings.
    pub fn new() -> (r: Env)
        ensures
            r@ == Map::<Seq<char>, bool>::empty(),
    {
        Env { entries: Vec::new() }
    }

    /// The value bound to `name`, if any.
    pub fn get(&self, name: &String) -> (r: Option<bool>)
        ensures
            r == if self@.contains_key(name@) {
                Some(self@[name@])
            } else {
                None::<bool>
            },
    {
        proof {
            assert(self.entries@.take(self.entries@.len() as int) =~= self.entries@);
        }
        let mut i = self.entries.len();
        while i > 0
            invariant
                i <= self.entries.len(),
                self@.contains_key(name@) == entries_map(self.entries@.take(i as int)).contains_key(
                    name@,
                ),
                entries_map(self.entries@.take(i as int)).contains_key(name@) ==> self@[name@]
                    == entries_map(self.entries@.take(i as int))[name@],
            decreases i,
        {
            i = i - 1;
            proof {
                assert(self.entries@.take(i + 1).drop_last() =~= self.entries@.take(i as int));
                assert(self.entries@.take(i + 1).last() == self.entries@[i as int]);
            }
            if self.entries[i].0 == *name {
                return Some(self.entries[i].1);
            }
        }
        proof {
            assert(self.entries@.take(0) =~= Seq::<(String, bool)>::empty());
        }
        None
    }

    /// Binds `name` to `val`, replacing any earlier binding of the same name.
    pub fn set(&mut self, name: String, val: bool)
        ensures
            final(self)@ == old(self)@.insert(name@, val),
    {
        let ghost before = self.entries@;
        let ghost n = name@;
        self.entries.push((name, val));
        proof {
            assert(self.entries@.drop_last() =~= before);
        }
    }

    /// A copy of this environment, with the same bindings; each branch of the
    /// enumeration mutates its own copy.
    pub fn duplicate(&self) -> (r: Env)
        ensures
            r@ == self@,
    {
        let mut entries: Vec<(String, bool)> = Vec::new();
        let mut i: usize = 0;
        while i < self.entries.len()
            invariant
                i <= self.entries.len(),
                entries@ =~= self.entries@.take(i as int),
            decreases self.entries.len() - i,
        {
            entries.push((self.entries[i].0.clone(), self.entries[i].1));
            proof {
                assert(self.entries@.take(i + 1) =~= self.entries@.take(i as int).push(
                    self.entries@[i as int],
                ));
            }
            i = i + 1;
        }
        proof {
            assert(self.entries@.take(self.entries@.len() as int) =~= self.entries@);
        }
        Env { entries }
    }
}

} // verus!
