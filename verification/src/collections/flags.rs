//! A set of IMAP flags, kept in increasing order as a `BTreeSet<String>`
//! keeps its items.
use vstd::prelude::*;

use crate::text::{chars_of, lex_lt, lemma_lex_lt_irreflexive, lemma_lex_lt_transitive, seq_compare};

verus! {

/// Whether the characters of a list of strings are strictly increasing.
pub open spec fn sorted_strings(s: Seq<String>) -> bool {
    forall|i: int, j: int| 0 <= i < j < s.len() ==> lex_lt(#[trigger] s[i]@, #[trigger] s[j]@)
}

/// The characters of each string of a list, as a set.
pub open spec fn string_set(s: Seq<String>) -> Set<Seq<char>> {
    Set::new(|k: Seq<char>| exists|i: int| 0 <= i < s.len() && #[trigger] s[i]@ == k)
}

/// A set of flags.
#[derive(Debug)]
pub struct Flags {
    items: Vec<String>,
}

impl View for Flags {
    type V = Set<Seq<char>>;

    closed spec fn view(&self) -> Set<Seq<char>> {
        string_set(self.items@)
    }
}

/// Where a flag is, or where it would go.
enum Slot {
    Found(usize),
    Missing(usize),
}

impl Flags {
    #[verifier::type_invariant]
    closed spec fn inv(&self) -> bool {
        sorted_strings(self.items@)
    }

    /// The empty set.
    pub fn new() -> (r: Self)
        ensures
            r@ == Set::<Seq<char>>::empty(),
    {
        let r = Flags { items: Vec::new() };
        assert(r@ =~= Set::<Seq<char>>::empty());
        r
    }

    /// The set of the given flags.
    pub fn from_vec(v: Vec<String>) -> (r: Self)
        ensures
            r@ == string_set(v@),
    {
        let mut r = Flags::new();
        let mut i: usize = 0;
        while i < v.len()
            invariant
                i <= v@.len(),
                r@ == string_set(v@.take(i as int)),
            decreases v@.len() - i,
        {
            r.insert(v[i].clone());
            proof {
                let a = v@.take(i as int);
                let b = v@.take(i + 1);
                assert forall|k: Seq<char>| string_set(b).contains(k) <==> string_set(a).insert(v@[i as int]@).contains(k) by {
                    if string_set(a).contains(k) {
                        let j = choose|j: int| 0 <= j < a.len() && #[trigger] a[j]@ == k;
                        assert(b[j]@ == k);
                    }
                    if k == v@[i as int]@ {
                        assert(b[i as int]@ == k);
                    }
                    if string_set(b).contains(k) {
                        let j = choose|j: int| 0 <= j < b.len() && #[trigger] b[j]@ == k;
                        if j < i {
                            assert(a[j]@ == k);
                        }
                    }
                }
                assert(string_set(b) =~= string_set(a).insert(v@[i as int]@));
            }
            i = i + 1;
        }
        proof {
            assert(v@.take(v@.len() as int) == v@);
        }
        r
    }

    /// Locates a flag.
    fn find(&self, name: &Vec<char>) -> (r: Slot)
        ensures
            match r {
                Slot::Found(i) => i < self.items@.len() && self.items@[i as int]@ == name@,
                Slot::Missing(i) => i <= self.items@.len()
                    && (forall|j: int| 0 <= j < i ==> lex_lt(#[trigger] self.items@[j]@, name@))
                    && (forall|j: int| i <= j < self.items@.len() ==> lex_lt(name@, #[trigger] self.items@[j]@)),
            },
    {
        proof {
            use_type_invariant(self);
        }
        let mut i: usize = 0;
        while i < self.items.len()
            invariant
                i <= self.items@.len(),
                sorted_strings(self.items@),
                forall|j: int| 0 <= j < i ==> lex_lt(#[trigger] self.items@[j]@, name@),
            decreases self.items@.len() - i,
        {
            let key = chars_of(self.items[i].as_str());
            let c = seq_compare(&key, name);
            if c == 0 {
                return Slot::Found(i);
            }
            if c > 0 {
                assert forall|j: int| i <= j < self.items@.len() implies lex_lt(name@, #[trigger] self.items@[j]@) by {
                    if j > i {
                        lemma_lex_lt_transitive(name@, self.items@[i as int]@, self.items@[j]@);
                    }
                }
                return Slot::Missing(i);
            }
            i = i + 1;
        }
        Slot::Missing(i)
    }

    /// Whether the set holds `flag`.
    pub fn contains(&self, flag: &str) -> (r: bool)
        ensures
            r == self@.contains(flag@),
    {
        proof {
            use_type_invariant(self);
        }
        let key = chars_of(flag);
        match self.find(&key) {
            Slot::Found(i) => {
                assert(self.items@[i as int]@ == flag@);
                true
            },
            Slot::Missing(i) => {
                proof {
                    if self@.contains(flag@) {
                        let j = choose|j: int| 0 <= j < self.items@.len() && #[trigger] self.items@[j]@ == flag@;
                        lemma_lex_lt_irreflexive(flag@);
                        if j < i {
                            assert(lex_lt(self.items@[j]@, flag@));
                        } else {
                            assert(lex_lt(flag@, self.items@[j]@));
                        }
                    }
                }
                false
            },
        }
    }

    /// Adds a flag.
    pub fn insert(&mut self, flag: String)
        ensures
            final(self)@ == old(self)@.insert(flag@),
    {
        proof {
            use_type_invariant(&*self);
        }
        let key = chars_of(flag.as_str());
        match self.find(&key) {
            Slot::Found(_) => {
                assert(old(self)@.insert(flag@) =~= old(self)@);
            },
            Slot::Missing(i) => {
                let mut items: Vec<String> = Vec::new();
                std::mem::swap(&mut items, &mut self.items);
                let ghost old_items = items@;
                let ghost k = flag@;
                items.insert(i, flag);
                proof {
                    let ne = items@;
                    assert forall|a: int, b: int| 0 <= a < b < ne.len() implies lex_lt(#[trigger] ne[a]@, #[trigger] ne[b]@) by {
                        if b < i {
                        } else if b == i {
                        } else if a < i {
                            assert(ne[b]@ == old_items[b - 1]@);
                            lemma_lex_lt_transitive(ne[a]@, k, ne[b]@);
                        } else if a == i {
                            assert(ne[b]@ == old_items[b - 1]@);
                        } else {
                            assert(ne[a]@ == old_items[a - 1]@);
                            assert(ne[b]@ == old_items[b - 1]@);
                        }
                    }
                    assert forall|x: Seq<char>| string_set(ne).contains(x) <==> string_set(old_items).insert(k).contains(x) by {
                        if string_set(ne).contains(x) {
                            let j = choose|j: int| 0 <= j < ne.len() && #[trigger] ne[j]@ == x;
                            if j < i {
                                assert(old_items[j]@ == x);
                            } else if j > i {
                                assert(old_items[j - 1]@ == x);
                            }
                        }
                        if string_set(old_items).contains(x) {
                            let j = choose|j: int| 0 <= j < old_items.len() && #[trigger] old_items[j]@ == x;
                            if j < i {
                                assert(ne[j]@ == x);
                            } else {
                                assert(ne[j + 1]@ == x);
                            }
                        }
                        if x == k {
                            assert(ne[i as int]@ == x);
                        }
                    }
                    assert(string_set(ne) =~= string_set(old_items).insert(k));
                }
                self.items = items;
            },
        }
    }

    /// Removes a flag.
    pub fn remove(&mut self, flag: &str)
        ensures
            final(self)@ == old(self)@.remove(flag@),
    {
        proof {
            use_type_invariant(&*self);
        }
        let key = chars_of(flag);
        match self.find(&key) {
            Slot::Found(i) => {
                let mut items: Vec<String> = Vec::new();
                std::mem::swap(&mut items, &mut self.items);
                let ghost old_items = items@;
                let ghost k = flag@;
                items.remove(i);
                proof {
                    let ne = items@;
                    assert forall|a: int, b: int| 0 <= a < b < ne.len() implies lex_lt(#[trigger] ne[a]@, #[trigger] ne[b]@) by {
                        if b < i {
                        } else if a < i {
                            assert(ne[b]@ == old_items[b + 1]@);
                        } else {
                            assert(ne[a]@ == old_items[a + 1]@);
                            assert(ne[b]@ == old_items[b + 1]@);
                        }
                    }
                    assert forall|x: Seq<char>| string_set(ne).contains(x) <==> string_set(old_items).remove(k).contains(x) by {
                        if string_set(ne).contains(x) {
                            let j = choose|j: int| 0 <= j < ne.len() && #[trigger] ne[j]@ == x;
                            if j < i {
                                assert(old_items[j]@ == x);
                                assert(lex_lt(old_items[j]@, old_items[i as int]@));
                                lemma_lex_lt_irreflexive(x);
                            } else {
                                assert(old_items[j + 1]@ == x);
                                assert(lex_lt(old_items[i as int]@, old_items[j + 1]@));
                                lemma_lex_lt_irreflexive(x);
                            }
                        }
                        if string_set(old_items).contains(x) && x != k {
                            let j = choose|j: int| 0 <= j < old_items.len() && #[trigger] old_items[j]@ == x;
                            if j < i {
                                assert(ne[j]@ == x);
                            } else {
                                assert(j != i);
                                assert(ne[j - 1]@ == x);
                            }
                        }
                    }
                    assert(string_set(ne) =~= string_set(old_items).remove(k));
                }
                self.items = items;
            },
            Slot::Missing(i) => {
                proof {
                    if old(self)@.contains(flag@) {
                        let j = choose|j: int| 0 <= j < self.items@.len() && #[trigger] self.items@[j]@ == flag@;
                        lemma_lex_lt_irreflexive(flag@);
                        if j < i {
                            assert(lex_lt(self.items@[j]@, flag@));
                        } else {
                            assert(lex_lt(flag@, self.items@[j]@));
                        }
                    }
                    assert(old(self)@.remove(flag@) =~= old(self)@);
                }
            },
        }
    }

    /// The flags in increasing order.
    pub fn to_vec(&self) -> (r: Vec<String>)
        ensures
            sorted_strings(r@),
            string_set(r@) == self@,
    {
        proof {
            use_type_invariant(self);
        }
        self.items.clone()
    }

    /// The number of flags.
    pub fn len(&self) -> (r: usize)
        ensures
            self@.finite(),
            r == self@.len(),
    {
        proof {
            use_type_invariant(self);
            lemma_sorted_set_len(self.items@);
        }
        self.items.len()
    }

    /// A copy of the set.
    pub fn duplicate(&self) -> (r: Self)
        ensures
            r@ == self@,
    {
        proof {
            use_type_invariant(self);
        }
        Flags { items: self.items.clone() }
    }

    /// The flags of either set (`BTreeSet::append`).
    pub fn union(&self, other: &Self) -> (r: Self)
        ensures
            r@ == self@.union(other@),
    {
        let v = other.to_vec();
        let mut r = self.duplicate();
        let mut i: usize = 0;
        while i < v.len()
            invariant
                i <= v@.len(),
                string_set(v@) == other@,
                r@ == self@.union(string_set(v@.take(i as int))),
            decreases v@.len() - i,
        {
            r.insert(v[i].clone());
            proof {
                let a = v@.take(i as int);
                let b = v@.take(i + 1);
                assert forall|k: Seq<char>| string_set(b).contains(k) <==> string_set(a).insert(v@[i as int]@).contains(k) by {
                    if string_set(a).contains(k) {
                        let j = choose|j: int| 0 <= j < a.len() && #[trigger] a[j]@ == k;
                        assert(b[j]@ == k);
                    }
                    if k == v@[i as int]@ {
                        assert(b[i as int]@ == k);
                    }
                    if string_set(b).contains(k) {
                        let j = choose|j: int| 0 <= j < b.len() && #[trigger] b[j]@ == k;
                        if j < i {
                            assert(a[j]@ == k);
                        }
                    }
                }
                assert(string_set(b) =~= string_set(a).insert(v@[i as int]@));
                assert(r@ =~= self@.union(string_set(b)));
            }
            i = i + 1;
        }
        proof {
            assert(v@.take(v@.len() as int) == v@);
        }
        r
    }

    /// The flags of `self` that `other` lacks.
    pub fn difference(&self, other: &Self) -> (r: Self)
        ensures
            r@ == self@.difference(other@),
    {
        let v = other.to_vec();
        let mut r = self.duplicate();
        let mut i: usize = 0;
        while i < v.len()
            invariant
                i <= v@.len(),
                string_set(v@) == other@,
                r@ == self@.difference(string_set(v@.take(i as int))),
            decreases v@.len() - i,
        {
            r.remove(v[i].as_str());
            proof {
                let a = v@.take(i as int);
                let b = v@.take(i + 1);
                assert forall|k: Seq<char>| string_set(b).contains(k) <==> string_set(a).insert(v@[i as int]@).contains(k) by {
                    if string_set(a).contains(k) {
                        let j = choose|j: int| 0 <= j < a.len() && #[trigger] a[j]@ == k;
                        assert(b[j]@ == k);
                    }
                    if k == v@[i as int]@ {
                        assert(b[i as int]@ == k);
                    }
                    if string_set(b).contains(k) {
                        let j = choose|j: int| 0 <= j < b.len() && #[trigger] b[j]@ == k;
                        if j < i {
                            assert(a[j]@ == k);
                        }
                    }
                }
                assert(string_set(b) =~= string_set(a).insert(v@[i as int]@));
                assert(r@ =~= self@.difference(string_set(b)));
            }
            i = i + 1;
        }
        proof {
            assert(v@.take(v@.len() as int) == v@);
        }
        r
    }
}

impl Clone for Flags {
    fn clone(&self) -> (r: Self)
        ensures
            r@ == self@,
    {
        self.duplicate()
    }
}

/// A strictly sorted list has as many strings as its set has members.
proof fn lemma_sorted_set_len(s: Seq<String>)
    requires
        sorted_strings(s),
    ensures
        string_set(s).finite(),
        string_set(s).len() == s.len(),
{
    let keys = s.map_values(|x: String| x@);
    assert(keys.no_duplicates()) by {
        assert forall|i: int, j: int| 0 <= i < keys.len() && 0 <= j < keys.len() && i != j implies keys[i] != keys[j] by {
            lemma_lex_lt_irreflexive(s[i]@);
            if i < j {
                assert(lex_lt(s[i]@, s[j]@));
            } else {
                assert(lex_lt(s[j]@, s[i]@));
            }
        }
    }
    keys.unique_seq_to_set();
    assert forall|k: Seq<char>| keys.to_set().contains(k) <==> string_set(s).contains(k) by {
        if string_set(s).contains(k) {
            let i = choose|i: int| 0 <= i < s.len() && #[trigger] s[i]@ == k;
            assert(keys[i] == k);
        }
        if keys.to_set().contains(k) {
            let i = choose|i: int| 0 <= i < keys.len() && keys[i] == k;
            assert(s[i]@ == k);
        }
    }
    assert(keys.to_set() =~= string_set(s));
    vstd::seq_lib::seq_to_set_is_finite(keys);
}

} // verus!
