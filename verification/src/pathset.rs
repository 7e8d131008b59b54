//! Ordered sets of strings (file paths, component names), kept as vectors in
//! strictly increasing text order.
use vstd::prelude::*;

use crate::text::{lemma_text_lt_irreflexive, lemma_text_lt_transitive, lemma_text_lt_trichotomy, str_lt, text_lt, views};

verus! {

/// The strings are in strictly increasing order.
pub open spec fn strictly_sorted(s: Seq<Seq<char>>) -> bool {
    forall|i: int, j: int| 0 <= i < j < s.len() ==> text_lt(#[trigger] s[i], #[trigger] s[j])
}

/// An ordered set of strings.
#[derive(Debug, Clone, PartialEq, Eq, Default)]
pub struct PathSet {
    pub items: Vec<String>,
}

impl PathSet {
    /// The members, in increasing order.
    pub open spec fn members(&self) -> Seq<Seq<char>> {
        views(self.items@)
    }

    /// Members are strictly increasing, hence distinct.
    pub open spec fn wf(&self) -> bool {
        strictly_sorted(self.members())
    }

    pub open spec fn has(&self, p: Seq<char>) -> bool {
        self.members().contains(p)
    }

    pub fn new() -> (r: Self)
        ensures
            r.wf(),
            r.members().len() == 0,
    {
        PathSet { items: Vec::new() }
    }

    pub fn len(&self) -> (n: usize)
        ensures
            n == self.members().len(),
    {
        self.items.len()
    }

    /// Position of the first member not below `p`, and whether it is `p`.
    fn position(&self, p: &str) -> (r: (usize, bool))
        requires
            self.wf(),
        ensures
            r.0 <= self.members().len(),
            forall|i: int| 0 <= i < r.0 ==> text_lt(#[trigger] self.members()[i], p@),
            r.0 < self.members().len() ==> !text_lt(self.members()[r.0 as int], p@),
            r.1 <==> (r.0 < self.members().len() && self.members()[r.0 as int] == p@),
            r.1 <==> self.has(p@),
    {
        let mut i: usize = 0;
        while i < self.items.len()
            invariant
                self.wf(),
                i <= self.members().len(),
                forall|k: int| 0 <= k < i ==> text_lt(#[trigger] self.members()[k], p@),
            decreases self.members().len() - i,
        {
            if !str_lt(self.items[i].as_str(), p) {
                proof {
                    assert(self.members()[i as int] == self.items@[i as int]@);
                }
                let found = str_eq(self.items[i].as_str(), p);
                proof {
                    if !found {
                        assert forall|k: int| 0 <= k < self.members().len() implies self.members()[k]
                            != p@ by {
                            if k < i {
                                lemma_text_lt_irreflexive(p@);
                            } else if k > i {
                                lemma_text_lt_trichotomy(self.members()[i as int], p@);
                                lemma_text_lt_transitive(p@, self.members()[i as int], self.members()[k]);
                                lemma_text_lt_irreflexive(p@);
                            }
                        }
                    }
                }
                return (i, found);
            }
            i += 1;
        }
        proof {
            assert forall|k: int| 0 <= k < self.members().len() implies self.members()[k] != p@ by {
                lemma_text_lt_irreflexive(p@);
            }
        }
        (i, false)
    }

    /// Whether `p` is a member.
    pub fn contains(&self, p: &str) -> (b: bool)
        requires
            self.wf(),
        ensures
            b == self.has(p@),
    {
        self.position(p).1
    }

    /// Adds `p`; returns whether it was new.
    pub fn insert(&mut self, p: &str) -> (added: bool)
        requires
            old(self).wf(),
        ensures
            final(self).wf(),
            added == !old(self).has(p@),
            final(self).members().to_set() == old(self).members().to_set().insert(p@),
    {
        let (i, found) = self.position(p);
        if found {
            return false;
        }
        let ghost before = self.members();
        self.items.insert(i, p.to_owned());
        proof {
            assert(self.members() =~= before.insert(i as int, p@));
            assert forall|a: int, b: int| 0 <= a < b < self.members().len() implies text_lt(
                #[trigger] self.members()[a],
                #[trigger] self.members()[b],
            ) by {
                if a < i && b == i {
                } else if a < i && b > i {
                } else if a == i && b > i {
                    lemma_text_lt_trichotomy(before[i as int], p@);
                    if b - 1 > i {
                        lemma_text_lt_transitive(p@, before[i as int], before[b - 1]);
                    }
                }
            }
            assert forall|x: Seq<char>| #[trigger] self.members().to_set().contains(x) <==> before.to_set().insert(p@).contains(x) by {
                if before.contains(x) {
                    let k = choose|k: int| 0 <= k < before.len() && before[k] == x;
                    if k < i {
                        assert(self.members()[k] == x);
                    } else {
                        assert(self.members()[k + 1] == x);
                    }
                }
                if x == p@ {
                    assert(self.members()[i as int] == p@);
                }
                if self.members().contains(x) {
                    let k = choose|k: int| 0 <= k < self.members().len() && self.members()[k] == x;
                    if k < i {
                        assert(before[k] == x);
                    } else if k > i {
                        assert(before[k - 1] == x);
                    }
                }
            }
            assert(self.members().to_set() =~= before.to_set().insert(p@));
        }
        true
    }

    /// Removes `p` if present.
    pub fn remove(&mut self, p: &str)
        requires
            old(self).wf(),
        ensures
            final(self).wf(),
            final(self).members().to_set() == old(self).members().to_set().remove(p@),
    {
        let (i, found) = self.position(p);
        let ghost before = self.members();
        if found {
            self.items.remove(i);
            proof {
                assert(self.members() =~= before.remove(i as int));
                assert forall|x: Seq<char>| #[trigger] self.members().to_set().contains(x) <==> before.to_set().remove(p@).contains(x) by {
                    if before.contains(x) && x != p@ {
                        let k = choose|k: int| 0 <= k < before.len() && before[k] == x;
                        if k < i {
                            assert(self.members()[k] == x);
                        } else {
                            assert(self.members()[k - 1] == x);
                        }
                    }
                    if self.members().contains(x) {
                        let k = choose|k: int| 0 <= k < self.members().len() && self.members()[k] == x;
                        if k < i {
                            assert(before[k] == x);
                            lemma_text_lt_irreflexive(p@);
                        } else {
                            assert(before[k + 1] == x);
                            lemma_text_lt_irreflexive(p@);
                        }
                    }
                }
                assert(self.members().to_set() =~= before.to_set().remove(p@));
            }
        } else {
            proof {
                assert(self.members().to_set() =~= before.to_set().remove(p@));
            }
        }
    }
}

/// Whether two strings are equal.
pub fn str_eq(a: &str, b: &str) -> (r: bool)
    ensures
        r == (a@ == b@),
{
    let x = crate::text::chars_of(a);
    let y = crate::text::chars_of(b);
    if x.len() != y.len() {
        return false;
    }
    let mut i: usize = 0;
    while i < x.len()
        invariant
            x@ == a@,
            y@ == b@,
            x@.len() == y@.len(),
            i <= x@.len(),
            forall|k: int| 0 <= k < i ==> x@[k] == y@[k],
        decreases x@.len() - i,
    {
        if x[i] != y[i] {
            proof {
                assert(x@[i as int] != y@[i as int]);
            }
            return false;
        }
        i += 1;
    }
    proof {
        assert(x@ =~= y@);
    }
    true
}

} // verus!
