//! An ordered set of names.

use vstd::prelude::*;
use vstd::utf8::{encode_utf8, encode_utf8_decode_utf8};

verus! {

/// Whether `a` and `b` agree before position `k` and `a` is the smaller one there: it ends, or its
/// byte is smaller.
pub open spec fn smaller_at(a: Seq<u8>, b: Seq<u8>, k: int) -> bool {
    &&& 0 <= k <= a.len()
    &&& k < b.len()
    &&& forall|i: int| 0 <= i < k ==> a[i] == b[i]
    &&& k < a.len() ==> a[k] < b[k]
}

/// The lexicographic order of byte strings.
pub open spec fn bytes_less(a: Seq<u8>, b: Seq<u8>) -> bool {
    exists|k: int| smaller_at(a, b, k)
}

/// The order of names: by their UTF-8 bytes.
pub open spec fn name_less(a: Seq<char>, b: Seq<char>) -> bool {
    bytes_less(encode_utf8(a), encode_utf8(b))
}

/// No name comes before itself.
pub proof fn name_less_irreflexive(a: Seq<char>)
    ensures
        !name_less(a, a),
{
}

/// The order of names is transitive.
pub proof fn name_less_transitive(a: Seq<char>, b: Seq<char>, c: Seq<char>)
    requires
        name_less(a, b),
        name_less(b, c),
    ensures
        name_less(a, c),
{
    let (x, y, z) = (encode_utf8(a), encode_utf8(b), encode_utf8(c));
    let j = choose|k: int| smaller_at(x, y, k);
    let k = choose|k: int| smaller_at(y, z, k);
    assert(smaller_at(x, z, if j < k { j } else { k }));
}

/// How two names stand to each other.
enum NameOrder {
    Before,
    Same,
    After,
}

/// Compares two names by their bytes.
fn name_order(a: &str, b: &str) -> (order: NameOrder)
    ensures
        match order {
            NameOrder::Before => name_less(a@, b@),
            NameOrder::Same => a@ == b@,
            NameOrder::After => name_less(b@, a@),
        },
{
    let x = a.as_bytes();
    let y = b.as_bytes();
    let mut i: usize = 0;
    while i < x.len() && i < y.len()
        invariant
            i <= x@.len(),
            i <= y@.len(),
            x@ == encode_utf8(a@),
            y@ == encode_utf8(b@),
            forall|j: int| 0 <= j < i ==> x@[j] == y@[j],
        decreases x@.len() - i,
    {
        if x[i] < y[i] {
            assert(smaller_at(x@, y@, i as int));
            return NameOrder::Before;
        }
        if y[i] < x[i] {
            assert(smaller_at(y@, x@, i as int));
            return NameOrder::After;
        }
        i += 1;
    }
    if i < y.len() {
        assert(smaller_at(x@, y@, i as int));
        NameOrder::Before
    } else if i < x.len() {
        assert(smaller_at(y@, x@, i as int));
        NameOrder::After
    } else {
        assert(x@ =~= y@);
        proof {
            encode_utf8_decode_utf8(a@);
            encode_utf8_decode_utf8(b@);
        }
        NameOrder::Same
    }
}

/// A set of names that are kept in order, each of them once.
#[derive(Debug)]
pub struct NameSet {
    names: Vec<String>,
}

impl NameSet {
    /// The names in their order.
    pub closed spec fn ordered(&self) -> Seq<Seq<char>> {
        self.names@.map_values(|name: String| name@)
    }

    #[verifier::type_invariant]
    spec fn increasing(&self) -> bool {
        names_increasing(self.names@)
    }

    /// The set without names.
    pub fn new() -> (set: Self)
        ensures
            set.ordered() == Seq::<Seq<char>>::empty(),
    {
        let set = NameSet { names: Vec::new() };
        assert(set.ordered() =~= Seq::<Seq<char>>::empty());
        set
    }

    /// The names, in the order of their bytes and each of them once.
    pub fn as_slice(&self) -> (names: &[String])
        ensures
            names@.map_values(|name: String| name@) == self.ordered(),
            forall|i: int, j: int|
                0 <= i < j < names@.len() ==> name_less(#[trigger] names@[i]@, #[trigger] names@[j]@),
    {
        proof {
            use_type_invariant(self);
        }
        self.names.as_slice()
    }

    /// Adds a name, and says whether it was not there before.
    pub fn insert(&mut self, name: String) -> (added: bool)
        ensures
            final(self)@ == old(self)@.insert(name@),
            added == !old(self)@.contains(name@),
    {
        proof {
            use_type_invariant(&*self);
        }
        let mut i: usize = 0;
        while i < self.names.len()
            invariant
                i <= self.names@.len(),
                self.names@ == old(self).names@,
                names_increasing(self.names@),
                forall|j: int| 0 <= j < i ==> name_less(#[trigger] self.names@[j]@, name@),
            ensures
                i <= self.names@.len(),
                forall|j: int| 0 <= j < i ==> name_less(#[trigger] self.names@[j]@, name@),
                i < self.names@.len() ==> name_less(name@, self.names@[i as int]@),
            decreases self.names@.len() - i,
        {
            match name_order(self.names[i].as_str(), name.as_str()) {
                NameOrder::Same => {
                    proof {
                        assert(self.ordered()[i as int] == name@);
                        assert(self@ =~= old(self)@.insert(name@));
                    }
                    return false;
                },
                NameOrder::After => {
                    break;
                },
                NameOrder::Before => {},
            }
            i += 1;
        }
        let ghost before = self.names@;
        proof {
            assert forall|j: int| 0 <= j < before.len() implies before[j]@ != name@ by {
                name_less_irreflexive(name@);
                if i <= j && j != i {
                    name_less_transitive(name@, before[i as int]@, before[j]@);
                }
            }
        }
        let mut names: Vec<String> = Vec::new();
        std::mem::swap(&mut names, &mut self.names);
        names.insert(i, name);
        proof {
            assert forall|j: int, k: int| 0 <= j < k < names@.len() implies name_less(
                #[trigger] names@[j]@,
                #[trigger] names@[k]@,
            ) by {
                if k > i && j <= i {
                    if j < i {
                        assert(name_less(before[j]@, before[k - 1]@));
                    } else if k - 1 > i {
                        name_less_transitive(name@, before[i as int]@, before[k - 1]@);
                    }
                }
            }
        }
        self.names = names;
        proof {
            assert(self.names@ == before.insert(i as int, name));
            assert(self.ordered() =~= old(self).ordered().insert(i as int, name@));
            lemma_insert_to_set(old(self).ordered(), i as int, name@);
        }
        true
    }
}

/// Whether names come one after the other in the order of names.
spec fn names_increasing(names: Seq<String>) -> bool {
    forall|i: int, j: int|
        0 <= i < j < names.len() ==> name_less(#[trigger] names[i]@, #[trigger] names[j]@)
}

proof fn lemma_insert_to_set(s: Seq<Seq<char>>, i: int, x: Seq<char>)
    requires
        0 <= i <= s.len(),
    ensures
        s.insert(i, x).to_set() == s.to_set().insert(x),
{
    let t = s.insert(i, x);
    assert forall|y: Seq<char>| t.to_set().contains(y) <==> s.to_set().insert(x).contains(y) by {
        if s.contains(y) {
            let k = s.index_of(y);
            assert(t[if k < i { k } else { k + 1 }] == y);
        }
        assert(t[i] == x);
        if t.contains(y) {
            let k = t.index_of(y);
            if k < i {
                assert(s[k] == y);
            } else if k > i {
                assert(s[k - 1] == y);
            }
        }
    }
    assert(t.to_set() =~= s.to_set().insert(x));
}

impl View for NameSet {
    type V = Set<Seq<char>>;

    /// The names in the set.
    open spec fn view(&self) -> Set<Seq<char>> {
        self.ordered().to_set()
    }
}

impl Clone for NameSet {
    fn clone(&self) -> (copy: Self)
        ensures
            copy.ordered() == self.ordered(),
    {
        proof {
            use_type_invariant(&*self);
        }
        let names = self.names.clone();
        assert(names@ =~= self.names@);
        NameSet { names }
    }
}

} // verus!
