//! Collector of the paths that generated code has to import.

use vstd::prelude::*;
use crate::text::str_eq;

verus! {

pub struct Imports {
    names: Vec<String>,
}

impl View for Imports {
    type V = Set<Seq<char>>;

    closed spec fn view(&self) -> Set<Seq<char>> {
        Set::new(|s: Seq<char>| exists|i: int| 0 <= i < self.names@.len() && self.names@[i]@ == s)
    }
}

impl Imports {
    pub fn new() -> (r: Imports)
        ensures
            r@ == Set::<Seq<char>>::empty(),
    {
        let r = Imports { names: Vec::new() };
        assert(r@ =~= Set::<Seq<char>>::empty());
        r
    }

    pub fn contains(&self, name: &str) -> (r: bool)
        ensures
            r == self@.contains(name@),
    {
        let mut i: usize = 0;
        while i < self.names.len()
            invariant
                i <= self.names@.len(),
                forall|j: int| 0 <= j < i ==> self.names@[j]@ != name@,
            decreases self.names@.len() - i,
        {
            if str_eq(self.names[i].as_str(), name) {
                assert(self.names@[i as int]@ == name@);
                return true;
            }
            i += 1;
        }
        false
    }

    /// Records `name`; a path already recorded is kept once.
    pub fn add(&mut self, name: &str)
        ensures
            final(self)@ == old(self)@.insert(name@),
    {
        if !self.contains(name) {
            let ghost before = self.names@;
            self.names.push(String::from_str(name));
            assert forall|s: Seq<char>| #[trigger] self@.contains(s) == old(self)@.insert(name@).contains(s) by {
                if old(self)@.contains(s) {
                    let j = choose|j: int| 0 <= j < before.len() && before[j]@ == s;
                    assert(self.names@[j]@ == s);
                }
                if s == name@ {
                    assert(self.names@[before.len() as int]@ == s);
                }
            }
        }
        assert(self@ =~= old(self)@.insert(name@));
    }

    spec fn listed(v: Seq<String>, n: int, s: Seq<char>) -> bool {
        exists|j: int| 0 <= j < n && v[j]@ == s
    }

    /// The recorded paths, each once.
    pub fn names(&self) -> (r: Vec<String>)
        ensures
            forall|s: Seq<char>| self@.contains(s) <==> exists|i: int| 0 <= i < r@.len() && r@[i]@ == s,
            forall|i: int, j: int| 0 <= i < j < r@.len() ==> r@[i]@ != r@[j]@,
    {
        let mut r: Vec<String> = Vec::new();
        let mut i: usize = 0;
        while i < self.names.len()
            invariant
                i <= self.names@.len(),
                forall|s: Seq<char>| #[trigger] Self::listed(self.names@, i as int, s) <==> Self::listed(r@, r@.len() as int, s),
                forall|a: int, b: int| 0 <= a < b < r@.len() ==> r@[a]@ != r@[b]@,
            decreases self.names@.len() - i,
        {
            let name = self.names[i].as_str();
            let mut k: usize = 0;
            let mut seen = false;
            while k < r.len()
                invariant
                    k <= r@.len(),
                    seen == exists|m: int| 0 <= m < k && r@[m]@ == name@,
                decreases r@.len() - k,
            {
                if str_eq(r[k].as_str(), name) {
                    seen = true;
                }
                k += 1;
            }
            let ghost prev = r@;
            if !seen {
                r.push(String::from_str(name));
            }
            assert forall|s: Seq<char>| #[trigger] Self::listed(self.names@, i + 1, s) <==> Self::listed(r@, r@.len() as int, s) by {
                if exists|j: int| 0 <= j < i + 1 && self.names@[j]@ == s {
                    let j = choose|j: int| 0 <= j < i + 1 && self.names@[j]@ == s;
                    if j < i {
                        assert(Self::listed(self.names@, i as int, s));
                        assert(Self::listed(prev, prev.len() as int, s));
                        let k = choose|k: int| 0 <= k < prev.len() && prev[k]@ == s;
                        assert(r@[k]@ == s);
                    } else if seen {
                        let m = choose|m: int| 0 <= m < prev.len() && prev[m]@ == name@;
                        assert(r@[m]@ == s);
                    } else {
                        assert(r@[prev.len() as int]@ == s);
                    }
                }
                if exists|k: int| 0 <= k < r@.len() && r@[k]@ == s {
                    let k = choose|k: int| 0 <= k < r@.len() && r@[k]@ == s;
                    if k < prev.len() {
                        assert(prev[k]@ == s);
                        assert(Self::listed(prev, prev.len() as int, s));
                        assert(Self::listed(self.names@, i as int, s));
                        let j = choose|j: int| 0 <= j < i && self.names@[j]@ == s;
                        assert(self.names@[j]@ == s);
                    } else {
                        assert(self.names@[i as int]@ == s);
                    }
                }
            }
            i += 1;
        }
        assert forall|s: Seq<char>| self@.contains(s) <==> exists|i: int| 0 <= i < r@.len() && r@[i]@ == s by {
            assert(Self::listed(self.names@, self.names@.len() as int, s) <==> Self::listed(r@, r@.len() as int, s));
        }
        r
    }
}

} // verus!
