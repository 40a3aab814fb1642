use vstd::prelude::*;
use crate::collection::{ids_of, lemma_position_of, position_of, CollectionWithId, Id, Idx, IdxSet};
use crate::error::Error;

verus! {

/// Indices reached from the indices of `s` through `table`: the union of
/// `table[x]` over every `x` of `s` that has an entry.
pub open spec fn image<Y>(table: Seq<IdxSet<Y>>, s: Set<usize>) -> Set<usize> {
    Set::new(|y: usize| exists|x: usize| s.contains(x) && x < table.len() && table[x as int]@.contains(y))
}

/// The positions designated by the first `k` indices of `items`.
pub open spec fn positions<T>(items: Seq<Idx<T>>, k: int) -> Set<usize> {
    Set::new(|x: usize| exists|j: int| 0 <= j < k && items[j].pos() == x)
}

/// Adds every index of `s` to `acc`.
fn union_into<T>(acc: &mut IdxSet<T>, s: &IdxSet<T>)
    ensures
        final(acc)@ == old(acc)@.union(s@),
{
    let items = s.to_vec();
    let mut k: usize = 0;
    while k < items.len()
        invariant
            0 <= k <= items@.len(),
            items@.len() == s@.len(),
            forall|j: int| 0 <= j < items@.len() ==> s@.contains(#[trigger] items@[j].pos()),
            forall|x: usize| s@.contains(x) ==> exists|j: int| 0 <= j < items@.len() && items@[j].pos() == x,
            acc@ == old(acc)@.union(positions(items@, k as int)),
        decreases items@.len() - k,
    {
        let ghost before = acc@;
        acc.insert(items[k]);
        proof {
            assert(positions(items@, k + 1) =~= positions(items@, k as int).insert(items@[k as int].pos())) by {
                assert forall|x: usize| #[trigger] positions(items@, k + 1).contains(x)
                    <==> positions(items@, k as int).contains(x) || x == items@[k as int].pos() by {
                    if x == items@[k as int].pos() {
                        assert(items@[k as int].pos() == x);
                    }
                    if positions(items@, k as int).contains(x) {
                        let j = choose|j: int| 0 <= j < k && items@[j].pos() == x;
                        assert(0 <= j < k + 1 && items@[j].pos() == x);
                    }
                }
            }
            assert(acc@ =~= old(acc)@.union(positions(items@, k + 1)));
        }
        k = k + 1;
    }
    proof {
        assert(acc@ =~= old(acc)@.union(s@)) by {
            assert forall|x: usize| s@.contains(x) implies #[trigger] positions(items@, k as int).contains(x) by {
                let j = choose|j: int| 0 <= j < items@.len() && items@[j].pos() == x;
                assert(items@[j].pos() == x);
            }
        }
    }
}

/// The union of `table[x]` over the indices `x` of `from` that have an entry.
fn image_of<X, Y>(table: &Vec<IdxSet<Y>>, from: &IdxSet<X>) -> (r: IdxSet<Y>)
    ensures
        r@ == image(table@, from@),
{
    let items = from.to_vec();
    let mut acc: IdxSet<Y> = IdxSet::new();
    let mut k: usize = 0;
    while k < items.len()
        invariant
            0 <= k <= items@.len(),
            forall|j: int| 0 <= j < items@.len() ==> from@.contains(#[trigger] items@[j].pos()),
            forall|x: usize| from@.contains(x) ==> exists|j: int| 0 <= j < items@.len() && items@[j].pos() == x,
            acc@ == Set::new(|y: usize| exists|j: int| 0 <= j < k && items@[j].pos() < table@.len()
                && table@[items@[j].pos() as int]@.contains(y)),
        decreases items@.len() - k,
    {
        let x = items[k].get();
        if x < table.len() {
            union_into(&mut acc, &table[x]);
        }
        proof {
            assert(acc@ =~= Set::new(|y: usize| exists|j: int| 0 <= j < k + 1 && items@[j].pos() < table@.len()
                && table@[items@[j].pos() as int]@.contains(y))) by {
                assert forall|y: usize| (exists|j: int| 0 <= j < k + 1 && items@[j].pos() < table@.len()
                    && table@[items@[j].pos() as int]@.contains(y)) implies acc@.contains(y) by {
                    let j = choose|j: int| 0 <= j < k + 1 && items@[j].pos() < table@.len()
                        && table@[items@[j].pos() as int]@.contains(y);
                    if j < k {
                        assert(exists|j: int| 0 <= j < k && items@[j].pos() < table@.len()
                            && table@[items@[j].pos() as int]@.contains(y));
                    }
                }
            }
        }
        k = k + 1;
    }
    proof {
        assert(acc@ =~= image(table@, from@)) by {
            assert forall|y: usize| acc@.contains(y) implies image(table@, from@).contains(y) by {
                let j = choose|j: int| 0 <= j < k && items@[j].pos() < table@.len()
                    && table@[items@[j].pos() as int]@.contains(y);
                let x = items@[j].pos();
                assert(from@.contains(x) && x < table@.len() && table@[x as int]@.contains(y));
            }
            assert forall|y: usize| image(table@, from@).contains(y) implies acc@.contains(y) by {
                let x = choose|x: usize| from@.contains(x) && x < table@.len() && table@[x as int]@.contains(y);
                let j = choose|j: int| 0 <= j < items@.len() && items@[j].pos() == x;
                assert(0 <= j < k && items@[j].pos() < table@.len()
                    && table@[items@[j].pos() as int]@.contains(y));
            }
        }
    }
    acc
}

/// An entity that refers to an entity of type `L` by its identifier.
pub trait GetId<L> {
    spec fn spec_fk(&self) -> Seq<char>;

    fn get_id(&self) -> (r: &String)
        ensures
            r@ == self.spec_fk(),
    ;
}

/// A relation between the indices of a collection of `A` (the left side)
/// and those of a collection of `B` (the right side), with both directions
/// precomputed.
pub struct ManyToMany<A, B> {
    forward: Vec<IdxSet<B>>,
    backward: Vec<IdxSet<A>>,
}

impl<A, B> ManyToMany<A, B> {
    #[verifier::type_invariant]
    closed spec fn inv(&self) -> bool {
        &&& forall|a: usize, b: usize|
            a < self.forward@.len() && #[trigger] self.forward@[a as int]@.contains(b) ==> b < self.backward@.len()
        &&& forall|a: usize, b: usize|
            b < self.backward@.len() && #[trigger] self.backward@[b as int]@.contains(a) ==> a < self.forward@.len()
        &&& forall|a: usize, b: usize| a < self.forward@.len() && b < self.backward@.len() ==>
            (#[trigger] self.forward@[a as int]@.contains(b) <==> #[trigger] self.backward@[b as int]@.contains(a))
    }

    /// Size of the left collection.
    pub closed spec fn spec_left_len(&self) -> nat {
        self.forward@.len()
    }

    /// Size of the right collection.
    pub closed spec fn spec_right_len(&self) -> nat {
        self.backward@.len()
    }

    /// Whether left index `a` and right index `b` are related.
    pub closed spec fn related(&self, a: usize, b: usize) -> bool {
        &&& a < self.forward@.len()
        &&& b < self.backward@.len()
        &&& self.forward@[a as int]@.contains(b)
    }

    /// The right indices related to some left index of `s`.
    pub open spec fn forward_image(&self, s: Set<usize>) -> Set<usize> {
        Set::new(|b: usize| exists|a: usize| s.contains(a) && #[trigger] self.related(a, b))
    }

    /// The left indices related to some right index of `s`.
    pub open spec fn backward_image(&self, s: Set<usize>) -> Set<usize> {
        Set::new(|a: usize| exists|b: usize| s.contains(b) && #[trigger] self.related(a, b))
    }

    /// Whether right index `b` is related to some left index.
    pub open spec fn has_left(&self, b: usize) -> bool {
        exists|a: usize| #[trigger] self.related(a, b)
    }

    /// Every right index is related to exactly one left index.
    pub open spec fn is_one_to_many(&self) -> bool {
        &&& forall|b: usize| b < self.spec_right_len() ==> #[trigger] self.has_left(b)
        &&& forall|a1: usize, a2: usize, b: usize|
            #[trigger] self.related(a1, b) && #[trigger] self.related(a2, b) ==> a1 == a2
    }

    /// Size of the left collection.
    pub fn left_len(&self) -> (r: usize)
        ensures
            r == self.spec_left_len(),
    {
        self.forward.len()
    }

    /// Size of the right collection.
    pub fn right_len(&self) -> (r: usize)
        ensures
            r == self.spec_right_len(),
    {
        self.backward.len()
    }

    /// Builds a relation from its forward direction: left index `a` is
    /// related to every right index of `forward[a]`.
    #[verifier::spinoff_prover]
    pub fn from_forward(forward: Vec<IdxSet<B>>, right_len: usize) -> (r: Self)
        requires
            forall|a: int, b: usize| 0 <= a < forward@.len() && #[trigger] forward@[a]@.contains(b) ==> b < right_len,
        ensures
            r.spec_left_len() == forward@.len(),
            r.spec_right_len() == right_len,
            forall|a: usize, b: usize| #[trigger] r.related(a, b)
                <==> a < forward@.len() && forward@[a as int]@.contains(b),
    {
        let mut backward: Vec<IdxSet<A>> = Vec::new();
        let mut b: usize = 0;
        while b < right_len
            invariant
                b <= right_len,
                backward@.len() == b,
                forall|y: int, x: usize| 0 <= y < b ==> !(#[trigger] backward@[y]@.contains(x)),
            decreases right_len - b,
        {
            backward.push(IdxSet::new());
            b = b + 1;
        }
        let mut a: usize = 0;
        while a < forward.len()
            invariant
                a <= forward@.len(),
                backward@.len() == right_len,
                forall|a0: int, b0: usize| 0 <= a0 < forward@.len() && #[trigger] forward@[a0]@.contains(b0) ==> b0 < right_len,
                forall|y: usize, x: usize| y < right_len ==>
                    (#[trigger] backward@[y as int]@.contains(x) <==> x < a && forward@[x as int]@.contains(y)),
            decreases forward@.len() - a,
        {
            let items = forward[a].to_vec();
            let mut k: usize = 0;
            while k < items.len()
                invariant
                    a < forward@.len(),
                    0 <= k <= items@.len(),
                    backward@.len() == right_len,
                    forall|a0: int, b0: usize| 0 <= a0 < forward@.len() && #[trigger] forward@[a0]@.contains(b0) ==> b0 < right_len,
                    forall|j: int| 0 <= j < items@.len() ==> forward@[a as int]@.contains(#[trigger] items@[j].pos()),
                    forall|x: usize| forward@[a as int]@.contains(x) ==> exists|j: int| 0 <= j < items@.len() && items@[j].pos() == x,
                    forall|y: usize, x: usize| y < right_len ==>
                        (#[trigger] backward@[y as int]@.contains(x) <==>
                            (x < a && forward@[x as int]@.contains(y)) || (x == a && positions(items@, k as int).contains(y))),
                decreases items@.len() - k,
            {
                let y = items[k].get();
                proof {
                    assert(forward@[a as int]@.contains(items@[k as int].pos()));
                }
                let ghost before = backward@;
                backward[y].insert(Idx::new(a));
                proof {
                    assert forall|y2: usize, x: usize| y2 < right_len implies
                        (#[trigger] backward@[y2 as int]@.contains(x) <==>
                            (x < a && forward@[x as int]@.contains(y2)) || (x == a && positions(items@, k + 1).contains(y2))) by {
                        if x == a && positions(items@, k + 1).contains(y2) && y2 != y {
                            let j = choose|j: int| 0 <= j < k + 1 && items@[j].pos() == y2;
                            assert(positions(items@, k as int).contains(y2));
                        }
                        if x == a && positions(items@, k as int).contains(y2) {
                            let j = choose|j: int| 0 <= j < k && items@[j].pos() == y2;
                            assert(positions(items@, k + 1).contains(y2));
                        }
                        if y2 == y {
                            assert(items@[k as int].pos() == y);
                            assert(positions(items@, k + 1).contains(y));
                        }
                    }
                }
                k = k + 1;
            }
            proof {
                assert forall|y: usize, x: usize| y < right_len implies
                    (#[trigger] backward@[y as int]@.contains(x) <==> x < a + 1 && forward@[x as int]@.contains(y)) by {
                    if x == a && forward@[a as int]@.contains(y) {
                        let j = choose|j: int| 0 <= j < items@.len() && items@[j].pos() == y;
                        assert(positions(items@, k as int).contains(y));
                    }
                    if x == a && positions(items@, k as int).contains(y) {
                        let j = choose|j: int| 0 <= j < k && items@[j].pos() == y;
                        assert(forward@[a as int]@.contains(items@[j].pos()));
                    }
                }
            }
            a = a + 1;
        }
        let r = ManyToMany { forward, backward };
        r
    }

    /// The right indices related to some index of `from`.
    pub fn get_corresponding_forward(&self, from: &IdxSet<A>) -> (r: IdxSet<B>)
        ensures
            r@ == self.forward_image(from@),
    {
        proof {
            use_type_invariant(self);
        }
        let r = image_of(&self.forward, from);
        proof {
            assert(r@ =~= self.forward_image(from@)) by {
                assert forall|b: usize| r@.contains(b) implies self.forward_image(from@).contains(b) by {
                    let a = choose|a: usize| from@.contains(a) && a < self.forward@.len()
                        && self.forward@[a as int]@.contains(b);
                    assert(self.related(a, b));
                }
            }
        }
        r
    }

    /// The left indices related to some index of `from`.
    pub fn get_corresponding_backward(&self, from: &IdxSet<B>) -> (r: IdxSet<A>)
        ensures
            r@ == self.backward_image(from@),
    {
        proof {
            use_type_invariant(self);
        }
        let r = image_of(&self.backward, from);
        proof {
            assert(r@ =~= self.backward_image(from@)) by {
                assert forall|a: usize| r@.contains(a) implies self.backward_image(from@).contains(a) by {
                    let b = choose|b: usize| from@.contains(b) && b < self.backward@.len()
                        && self.backward@[b as int]@.contains(a);
                    assert(self.related(a, b));
                }
                assert forall|a: usize| self.backward_image(from@).contains(a) implies r@.contains(a) by {
                    let b = choose|b: usize| from@.contains(b) && self.related(a, b);
                    assert(self.backward@[b as int]@.contains(a));
                }
            }
        }
        r
    }

    /// Composes `r1` and `r2` through their shared middle type: `a` and `b`
    /// are related when some `m` is related to `a` by `r1` and to `b` by `r2`.
    pub fn from_relations_chain<M>(r1: &ManyToMany<A, M>, r2: &ManyToMany<M, B>) -> (r: Self)
        ensures
            r.spec_left_len() == r1.spec_left_len(),
            r.spec_right_len() == r2.spec_right_len(),
            forall|a: usize, b: usize| #[trigger] r.related(a, b)
                <==> exists|m: usize| r1.related(a, m) && r2.related(m, b),
    {
        proof {
            use_type_invariant(r1);
            use_type_invariant(r2);
        }
        let mut forward: Vec<IdxSet<B>> = Vec::new();
        let mut a: usize = 0;
        while a < r1.forward.len()
            invariant
                a <= r1.forward@.len(),
                forward@.len() == a,
                forall|a0: int| 0 <= a0 < a ==> #[trigger] forward@[a0]@ == image(r2.forward@, r1.forward@[a0]@),
            decreases r1.forward@.len() - a,
        {
            forward.push(image_of(&r2.forward, &r1.forward[a]));
            a = a + 1;
        }
        let right_len = r2.backward.len();
        let r = Self::from_forward(forward, right_len);
        proof {
            assert forall|a: usize, b: usize| #[trigger] r.related(a, b)
                <==> exists|m: usize| r1.related(a, m) && r2.related(m, b) by {
                if r.related(a, b) {
                    let m = choose|m: usize| r1.forward@[a as int]@.contains(m) && m < r2.forward@.len()
                        && r2.forward@[m as int]@.contains(b);
                    assert(r1.related(a, m) && r2.related(m, b));
                }
                if exists|m: usize| r1.related(a, m) && r2.related(m, b) {
                    let m = choose|m: usize| r1.related(a, m) && r2.related(m, b);
                    assert(image(r2.forward@, r1.forward@[a as int]@).contains(b));
                }
            }
        }
        r
    }

    /// Joins `r1` and `r2` on their shared right type: `a` and `b` are
    /// related when some `m` is related to both.
    pub fn from_relations_sink<M>(r1: &ManyToMany<A, M>, r2: &ManyToMany<B, M>) -> (r: Self)
        ensures
            r.spec_left_len() == r1.spec_left_len(),
            r.spec_right_len() == r2.spec_left_len(),
            forall|a: usize, b: usize| #[trigger] r.related(a, b)
                <==> exists|m: usize| r1.related(a, m) && r2.related(b, m),
    {
        proof {
            use_type_invariant(r1);
            use_type_invariant(r2);
        }
        let mut forward: Vec<IdxSet<B>> = Vec::new();
        let mut a: usize = 0;
        while a < r1.forward.len()
            invariant
                a <= r1.forward@.len(),
                forward@.len() == a,
                forall|a0: int| 0 <= a0 < a ==> #[trigger] forward@[a0]@ == image(r2.backward@, r1.forward@[a0]@),
            decreases r1.forward@.len() - a,
        {
            forward.push(image_of(&r2.backward, &r1.forward[a]));
            a = a + 1;
        }
        let right_len = r2.forward.len();
        let r = Self::from_forward(forward, right_len);
        proof {
            assert forall|a: usize, b: usize| #[trigger] r.related(a, b)
                <==> exists|m: usize| r1.related(a, m) && r2.related(b, m) by {
                if r.related(a, b) {
                    let m = choose|m: usize| r1.forward@[a as int]@.contains(m) && m < r2.backward@.len()
                        && r2.backward@[m as int]@.contains(b);
                    assert(r1.related(a, m) && r2.related(b, m));
                }
                if exists|m: usize| r1.related(a, m) && r2.related(b, m) {
                    let m = choose|m: usize| r1.related(a, m) && r2.related(b, m);
                    assert(r2.backward@[m as int]@.contains(b));
                    assert(image(r2.backward@, r1.forward@[a as int]@).contains(b));
                }
            }
        }
        r
    }
}

/// Going forward then backward through a relation leads back to every
/// starting index that is related to anything.
pub proof fn lemma_round_trip_covers<A, B>(rel: &ManyToMany<A, B>, s: Set<usize>)
    ensures
        forall|a: usize, b: usize| s.contains(a) && #[trigger] rel.related(a, b)
            ==> rel.backward_image(rel.forward_image(s)).contains(a),
{
    assert forall|a: usize, b: usize| s.contains(a) && #[trigger] rel.related(a, b)
        implies rel.backward_image(rel.forward_image(s)).contains(a) by {
        assert(rel.forward_image(s).contains(b));
    }
}

/// Through a one-to-many relation, going forward then backward leads back
/// to exactly the starting indices that are related to anything.
pub proof fn lemma_round_trip_exact<A, B>(rel: &ManyToMany<A, B>, s: Set<usize>)
    requires
        rel.is_one_to_many(),
    ensures
        rel.backward_image(rel.forward_image(s))
            == Set::new(|a: usize| s.contains(a) && exists|b: usize| #[trigger] rel.related(a, b)),
{
    lemma_round_trip_covers(rel, s);
    let lhs = rel.backward_image(rel.forward_image(s));
    let rhs = Set::new(|a: usize| s.contains(a) && exists|b: usize| #[trigger] rel.related(a, b));
    assert forall|a: usize| lhs.contains(a) implies rhs.contains(a) by {
        let b = choose|b: usize| rel.forward_image(s).contains(b) && rel.related(a, b);
        let a0 = choose|a0: usize| s.contains(a0) && rel.related(a0, b);
        assert(a0 == a);
    }
    assert(lhs =~= rhs);
}

/// Through a one-to-many relation, each right index leads back to the one
/// left index that it refers to.
pub proof fn lemma_backward_single<A, B>(rel: &ManyToMany<A, B>, b: usize)
    requires
        rel.is_one_to_many(),
        b < rel.spec_right_len(),
    ensures
        exists|a: usize| rel.backward_image(set![b]) == set![a] && rel.related(a, b),
{
    assert(rel.has_left(b));
    let a = choose|a: usize| rel.related(a, b);
    assert(rel.backward_image(set![b]) =~= set![a]) by {
        assert forall|x: usize| rel.backward_image(set![b]).contains(x) implies x == a by {
            let y = choose|y: usize| set![b].contains(y) && rel.related(x, y);
            assert(y == b);
        }
        assert(set![b].contains(b));
    }
}

/// Looking up through a chained relation is looking up through its two
/// parts in turn, in either direction.
pub proof fn lemma_chain_image<A, M, B>(
    r1: &ManyToMany<A, M>,
    r2: &ManyToMany<M, B>,
    r: &ManyToMany<A, B>,
    s: Set<usize>,
)
    requires
        forall|a: usize, b: usize| #[trigger] r.related(a, b) <==> exists|m: usize| r1.related(a, m) && r2.related(m, b),
    ensures
        r.forward_image(s) == r2.forward_image(r1.forward_image(s)),
        r.backward_image(s) == r1.backward_image(r2.backward_image(s)),
{
    assert forall|b: usize| r.forward_image(s).contains(b) <==> r2.forward_image(r1.forward_image(s)).contains(b) by {
        if r.forward_image(s).contains(b) {
            let a = choose|a: usize| s.contains(a) && r.related(a, b);
            let m = choose|m: usize| r1.related(a, m) && r2.related(m, b);
            assert(r1.forward_image(s).contains(m));
        }
        if r2.forward_image(r1.forward_image(s)).contains(b) {
            let m = choose|m: usize| r1.forward_image(s).contains(m) && r2.related(m, b);
            let a = choose|a: usize| s.contains(a) && r1.related(a, m);
            assert(r.related(a, b));
        }
    }
    assert forall|a: usize| r.backward_image(s).contains(a) <==> r1.backward_image(r2.backward_image(s)).contains(a) by {
        if r.backward_image(s).contains(a) {
            let b = choose|b: usize| s.contains(b) && r.related(a, b);
            let m = choose|m: usize| r1.related(a, m) && r2.related(m, b);
            assert(r2.backward_image(s).contains(m));
        }
        if r1.backward_image(r2.backward_image(s)).contains(a) {
            let m = choose|m: usize| r2.backward_image(s).contains(m) && r1.related(a, m);
            let b = choose|b: usize| s.contains(b) && r2.related(m, b);
            assert(r.related(a, b));
        }
    }
    assert(r.forward_image(s) =~= r2.forward_image(r1.forward_image(s)));
    assert(r.backward_image(s) =~= r1.backward_image(r2.backward_image(s)));
}

/// Looking up through a joined relation is looking up the shared middle
/// entities, then going back from them through the other part.
pub proof fn lemma_sink_image<A, M, B>(
    r1: &ManyToMany<A, M>,
    r2: &ManyToMany<B, M>,
    r: &ManyToMany<A, B>,
    s: Set<usize>,
)
    requires
        forall|a: usize, b: usize| #[trigger] r.related(a, b) <==> exists|m: usize| r1.related(a, m) && r2.related(b, m),
    ensures
        r.forward_image(s) == r2.backward_image(r1.forward_image(s)),
        r.backward_image(s) == r1.backward_image(r2.forward_image(s)),
{
    assert forall|b: usize| r.forward_image(s).contains(b) <==> r2.backward_image(r1.forward_image(s)).contains(b) by {
        if r.forward_image(s).contains(b) {
            let a = choose|a: usize| s.contains(a) && r.related(a, b);
            let m = choose|m: usize| r1.related(a, m) && r2.related(b, m);
            assert(r1.forward_image(s).contains(m));
        }
        if r2.backward_image(r1.forward_image(s)).contains(b) {
            let m = choose|m: usize| r1.forward_image(s).contains(m) && r2.related(b, m);
            let a = choose|a: usize| s.contains(a) && r1.related(a, m);
            assert(r.related(a, b));
        }
    }
    assert forall|a: usize| r.backward_image(s).contains(a) <==> r1.backward_image(r2.forward_image(s)).contains(a) by {
        if r.backward_image(s).contains(a) {
            let b = choose|b: usize| s.contains(b) && r.related(a, b);
            let m = choose|m: usize| r1.related(a, m) && r2.related(b, m);
            assert(r2.forward_image(s).contains(m));
        }
        if r1.backward_image(r2.forward_image(s)).contains(a) {
            let m = choose|m: usize| r2.forward_image(s).contains(m) && r1.related(a, m);
            let b = choose|b: usize| s.contains(b) && r2.related(b, m);
            assert(r.related(a, b));
        }
    }
    assert(r.forward_image(s) =~= r2.backward_image(r1.forward_image(s)));
    assert(r.backward_image(s) =~= r1.backward_image(r2.forward_image(s)));
}

/// A relation in which each entity of `B` refers, by a foreign key, to one
/// entity of `A`.
pub struct OneToMany<A, B> {
    rel: ManyToMany<A, B>,
}

impl<A: Id, B: Id + GetId<A>> OneToMany<A, B> {
    /// Resolves the foreign key of every entity of `many` against `one`.
    /// Fails on the first key that names no entity of `one`, with the
    /// relation's `name` and that key.
    #[verifier::spinoff_prover]
    pub fn new(one: &CollectionWithId<A>, many: &CollectionWithId<B>, name: &str) -> (r: Result<Self, Error>)
        ensures
            r.is_ok() <==> forall|b: int|
                0 <= b < many@.len() ==> ids_of(one@).contains(#[trigger] many@[b].spec_fk()),
            r matches Ok(rel) ==> {
                &&& rel.spec_rel().spec_left_len() == one@.len()
                &&& rel.spec_rel().spec_right_len() == many@.len()
                &&& rel.spec_rel().is_one_to_many()
                &&& forall|a: usize, b: usize| #[trigger] rel.spec_rel().related(a, b) <==>
                    a < one@.len() && b < many@.len() && one@[a as int].spec_id() == many@[b as int].spec_fk()
            },
            r matches Err(e) ==> exists|b: int| {
                &&& 0 <= b < many@.len()
                &&& !ids_of(one@).contains(many@[b].spec_fk())
                &&& forall|k: int| 0 <= k < b ==> ids_of(one@).contains(#[trigger] many@[k].spec_fk())
                &&& e.is_dangling(name@, many@[b].spec_fk())
            },
    {
        let ones = one.values();
        let manys = many.values();
        let n = ones.len();
        let mut forward: Vec<IdxSet<B>> = Vec::new();
        let mut a: usize = 0;
        while a < n
            invariant
                a <= n,
                n == ones@.len(),
                forward@.len() == a,
                forall|x: int, y: usize| 0 <= x < a ==> !(#[trigger] forward@[x]@.contains(y)),
            decreases n - a,
        {
            forward.push(IdxSet::new());
            a = a + 1;
        }
        let mut j: usize = 0;
        while j < manys.len()
            invariant
                j <= manys@.len(),
                n == ones@.len(),
                ones@ == one@,
                manys@ == many@,
                ids_of(ones@).no_duplicates(),
                forward@.len() == n,
                forall|k: int| 0 <= k < j ==> ids_of(one@).contains(#[trigger] many@[k].spec_fk()),
                forall|x: usize, y: usize| x < n ==> (#[trigger] forward@[x as int]@.contains(y)
                    <==> y < j && one@[x as int].spec_id() == many@[y as int].spec_fk()),
            decreases manys@.len() - j,
        {
            let fk = manys[j].get_id();
            match one.get_idx(fk.as_str()) {
                Some(i) => {
                    let p = i.get();
                    forward[p].insert(Idx::new(j));
                    proof {
                        lemma_position_of(one@, p as int);
                        assert forall|x: usize, y: usize| x < n implies (#[trigger] forward@[x as int]@.contains(y)
                            <==> y < j + 1 && one@[x as int].spec_id() == many@[y as int].spec_fk()) by {
                            if x != p && y == j && one@[x as int].spec_id() == many@[y as int].spec_fk() {
                                lemma_position_of(one@, x as int);
                            }
                        }
                    }
                },
                None => {
                    return Err(Error::ReferentialIntegrity { relation: name.to_owned(), id: fk.clone() });
                },
            }
            j = j + 1;
        }
        let rel = ManyToMany::from_forward(forward, manys.len());
        proof {
            assert forall|b: usize| b < rel.spec_right_len() implies #[trigger] rel.has_left(b) by {
                let k = b as int;
                assert(ids_of(one@).contains(many@[k].spec_fk()));
                let x = choose|x: int| 0 <= x < ids_of(one@).len() && ids_of(one@)[x] == many@[k].spec_fk();
                assert(rel.related(x as usize, b));
            }
            assert forall|a1: usize, a2: usize, b: usize|
                #[trigger] rel.related(a1, b) && #[trigger] rel.related(a2, b) implies a1 == a2 by {
                lemma_position_of(one@, a1 as int);
                lemma_position_of(one@, a2 as int);
            }
        }
        Ok(OneToMany { rel })
    }
}

impl<A, B> OneToMany<A, B> {
    /// The underlying bidirectional relation.
    pub closed spec fn spec_rel(&self) -> ManyToMany<A, B> {
        self.rel
    }

    /// The relation seen as a general bidirectional relation.
    pub fn as_many_to_many(&self) -> (r: &ManyToMany<A, B>)
        ensures
            *r == self.spec_rel(),
    {
        &self.rel
    }
}

} // verus!
