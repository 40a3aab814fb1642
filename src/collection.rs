use vstd::prelude::*;
use core::marker::PhantomData;
use crate::error::Error;

verus! {

/// A typed position inside a collection of `T`.
#[derive(Debug, PartialEq, Eq, Hash)]
pub struct Idx<T> {
    index: usize,
    marker: PhantomData<T>,
}

impl<T> Idx<T> {
    pub closed spec fn pos(&self) -> usize {
        self.index
    }

    pub fn new(index: usize) -> (r: Self)
        ensures
            r.pos() == index,
    {
        Idx { index, marker: PhantomData }
    }

    /// The position this index designates.
    pub fn get(&self) -> (r: usize)
        ensures
            r == self.pos(),
    {
        self.index
    }
}

impl<T> Clone for Idx<T> {
    fn clone(&self) -> (r: Self)
        ensures
            r.pos() == self.pos(),
    {
        Idx { index: self.index, marker: PhantomData }
    }
}

impl<T> Copy for Idx<T> {}

/// A deduplicated set of indices into a collection of `T`.
pub struct IdxSet<T> {
    items: Vec<usize>,
    marker: PhantomData<T>,
}

impl<T> View for IdxSet<T> {
    type V = Set<usize>;

    closed spec fn view(&self) -> Set<usize> {
        self.items@.to_set()
    }
}

impl<T> IdxSet<T> {
    #[verifier::type_invariant]
    closed spec fn inv(&self) -> bool {
        self.items@.no_duplicates()
    }

    pub closed spec fn spec_len(&self) -> nat {
        self.items@.len()
    }

    /// The empty set.
    pub fn new() -> (r: Self)
        ensures
            r@ == Set::<usize>::empty(),
    {
        let r = IdxSet { items: Vec::new(), marker: PhantomData };
        proof {
            assert(r@ =~= Set::<usize>::empty());
        }
        r
    }

    /// Whether `idx` belongs to the set.
    pub fn contains(&self, idx: Idx<T>) -> (r: bool)
        ensures
            r == self@.contains(idx.pos()),
    {
        let target = idx.get();
        let mut i: usize = 0;
        while i < self.items.len()
            invariant
                0 <= i <= self.items@.len(),
                target == idx.pos(),
                forall|k: int| 0 <= k < i ==> self.items@[k] != target,
            decreases self.items@.len() - i,
        {
            if self.items[i] == target {
                assert(self.items@[i as int] == target);
                return true;
            }
            i = i + 1;
        }
        false
    }

    /// Adds `idx`; returns whether it was absent before.
    pub fn insert(&mut self, idx: Idx<T>) -> (r: bool)
        ensures
            final(self)@ == old(self)@.insert(idx.pos()),
            r == !old(self)@.contains(idx.pos()),
    {
        if self.contains(idx) {
            proof {
                assert(self@.insert(idx.pos()) =~= self@);
            }
            false
        } else {
            proof {
                use_type_invariant(&*self);
            }
            let mut items: Vec<usize> = Vec::new();
            std::mem::swap(&mut items, &mut self.items);
            items.push(idx.get());
            self.items = items;
            proof {
                assert(self.items@.to_set() =~= old(self)@.insert(idx.pos())) by {
                    assert forall|x: usize| #[trigger] self.items@.contains(x)
                        <==> old(self).items@.contains(x) || x == idx.pos() by {
                        if x == idx.pos() {
                            assert(self.items@[self.items@.len() - 1] == x);
                        }
                        if old(self).items@.contains(x) {
                            let k = choose|k: int| 0 <= k < old(self).items@.len()
                                && old(self).items@[k] == x;
                            assert(self.items@[k] == x);
                        }
                    }
                }
            }
            true
        }
    }

    /// Number of indices in the set.
    pub fn len(&self) -> (r: usize)
        ensures
            r == self@.len(),
    {
        proof {
            use_type_invariant(self);
            self.items@.unique_seq_to_set();
        }
        self.items.len()
    }

    /// The indices of the set, each once, in the order they were added.
    pub fn to_vec(&self) -> (r: Vec<Idx<T>>)
        ensures
            r@.len() == self@.len(),
            forall|k: int| 0 <= k < r@.len() ==> self@.contains(#[trigger] r@[k].pos()),
            forall|x: usize| self@.contains(x) ==> exists|k: int| 0 <= k < r@.len() && r@[k].pos() == x,
    {
        proof {
            use_type_invariant(self);
            self.items@.unique_seq_to_set();
        }
        let mut r: Vec<Idx<T>> = Vec::new();
        let mut i: usize = 0;
        while i < self.items.len()
            invariant
                0 <= i <= self.items@.len(),
                r@.len() == i,
                forall|k: int| 0 <= k < i ==> (#[trigger] r@[k]).pos() == self.items@[k],
            decreases self.items@.len() - i,
        {
            r.push(Idx::new(self.items[i]));
            i = i + 1;
        }
        proof {
            assert forall|k: int| 0 <= k < r@.len() implies self@.contains(#[trigger] r@[k].pos()) by {
                assert(self.items@[k] == r@[k].pos());
            }
            assert forall|x: usize| self@.contains(x) implies exists|k: int| 0 <= k < r@.len() && r@[k].pos() == x by {
                let k = choose|k: int| 0 <= k < self.items@.len() && self.items@[k] == x;
                assert(r@[k].pos() == x);
            }
        }
        r
    }
}

/// An entity that carries an identifier, unique within its collection.
pub trait Id {
    spec fn spec_id(&self) -> Seq<char>;

    fn id(&self) -> (r: &String)
        ensures
            r@ == self.spec_id(),
    ;
}

/// The identifiers of a sequence of entities, in order.
pub open spec fn ids_of<T: Id>(s: Seq<T>) -> Seq<Seq<char>> {
    s.map_values(|t: T| t.spec_id())
}

/// No identifier of `b` already stands in `a`.
pub open spec fn disjoint_ids<T: Id>(a: Seq<T>, b: Seq<T>) -> bool {
    forall|j: int| 0 <= j < b.len() ==> !ids_of(a).contains(#[trigger] b[j].spec_id())
}

/// `b[j]` is the first entity of `b` whose identifier already stands in `a`.
pub open spec fn clash_at<T: Id>(a: Seq<T>, b: Seq<T>, j: int) -> bool {
    &&& 0 <= j < b.len()
    &&& ids_of(a).contains(b[j].spec_id())
    &&& forall|k: int| 0 <= k < j ==> !ids_of(a).contains(#[trigger] b[k].spec_id())
}

/// `e` reports the first identifier of `b` that already stands in `a`.
pub open spec fn reports_clash<T: Id>(a: Seq<T>, b: Seq<T>, e: Error) -> bool {
    exists|j: int| clash_at(a, b, j) && e.is_duplicate_id(b[j].spec_id())
}

/// Merging `b` into `a` stopped at the first clash: `after` holds `a`, then
/// the entities of `b` before the clash, and `e` names the clashing id.
pub open spec fn merged_until_clash<T: Id>(a: Seq<T>, b: Seq<T>, after: Seq<T>, e: Error) -> bool {
    exists|j: int| clash_at(a, b, j) && e.is_duplicate_id(b[j].spec_id()) && after == a + b.take(j)
}

/// Position of the entity holding `id` in a sequence whose ids are unique.
pub open spec fn position_of<T: Id>(s: Seq<T>, id: Seq<char>) -> int {
    ids_of(s).index_of(id)
}

/// The items of `v` in reverse order, so that popping yields them in order.
pub(crate) fn reversed<T>(v: Vec<T>) -> (r: Vec<T>)
    ensures
        r@.len() == v@.len(),
        forall|k: int| 0 <= k < r@.len() ==> r@[k] == v@[v@.len() - 1 - k],
{
    let ghost all = v@;
    let mut rest = v;
    let mut rev: Vec<T> = Vec::new();
    while rest.len() > 0
        invariant
            rev@.len() + rest@.len() == all.len(),
            rest@ == all.subrange(0, rest@.len() as int),
            forall|k: int| 0 <= k < rev@.len() ==> rev@[k] == all[all.len() - 1 - k],
        decreases rest@.len(),
    {
        let x = rest.pop().unwrap();
        rev.push(x);
    }
    rev
}

/// In a sequence with distinct identifiers, `position_of` finds the one
/// entity holding the identifier.
pub proof fn lemma_position_of<T: Id>(s: Seq<T>, i: int)
    requires
        ids_of(s).no_duplicates(),
        0 <= i < s.len(),
    ensures
        ids_of(s).contains(s[i].spec_id()),
        position_of(s, s[i].spec_id()) == i,
{
    assert(ids_of(s)[i] == s[i].spec_id());
}

/// The identifiers of a concatenation are the concatenated identifiers.
proof fn lemma_ids_of_add<T: Id>(a: Seq<T>, b: Seq<T>)
    ensures
        ids_of(a + b) == ids_of(a) + ids_of(b),
{
    assert(ids_of(a + b) =~= ids_of(a) + ids_of(b));
}

/// An entity appended to a collection under a fresh identifier is what the
/// lookup by that identifier finds, at the last position.
pub proof fn lemma_lookup_after_push<T: Id>(s: Seq<T>, e: T)
    requires
        ids_of(s).no_duplicates(),
        !ids_of(s).contains(e.spec_id()),
    ensures
        ids_of(s.push(e)).no_duplicates(),
        ids_of(s.push(e)).contains(e.spec_id()),
        position_of(s.push(e), e.spec_id()) == s.len(),
        s.push(e)[position_of(s.push(e), e.spec_id())] == e,
{
    let t = s.push(e);
    assert(ids_of(t) =~= ids_of(s).push(e.spec_id()));
    lemma_position_of(t, s.len() as int);
}

/// Looks for `id` in `v`, returning its first position.
fn find_id<T: Id>(v: &Vec<T>, id: &String) -> (r: Option<usize>)
    ensures
        match r {
            Some(i) => i < v@.len() && v@[i as int].spec_id() == id@
                && forall|k: int| 0 <= k < i ==> v@[k].spec_id() != id@,
            None => !ids_of(v@).contains(id@),
        },
{
    let mut i: usize = 0;
    while i < v.len()
        invariant
            0 <= i <= v@.len(),
            forall|k: int| 0 <= k < i ==> v@[k].spec_id() != id@,
        decreases v@.len() - i,
    {
        if v[i].id().eq(id) {
            return Some(i);
        }
        i = i + 1;
    }
    proof {
        if ids_of(v@).contains(id@) {
            let k = choose|k: int| 0 <= k < ids_of(v@).len() && ids_of(v@)[k] == id@;
            assert(v@[k].spec_id() == id@);
        }
    }
    None
}

/// A collection of entities with unique identifiers, addressed by position
/// or by identifier. Positions never change: entities are only appended.
pub struct CollectionWithId<T: Id> {
    objects: Vec<T>,
}

impl<T: Id> View for CollectionWithId<T> {
    type V = Seq<T>;

    closed spec fn view(&self) -> Seq<T> {
        self.objects@
    }
}

impl<T: Id> CollectionWithId<T> {
    #[verifier::type_invariant]
    closed spec fn inv(&self) -> bool {
        ids_of(self.objects@).no_duplicates()
    }

    /// An empty collection.
    pub fn empty() -> (r: Self)
        ensures
            r@ == Seq::<T>::empty(),
    {
        let r = CollectionWithId { objects: Vec::new() };
        proof {
            assert(ids_of(r.objects@) =~= Seq::<Seq<char>>::empty());
        }
        r
    }

    /// Builds a collection from `v`, failing on the first identifier that
    /// occurs twice.
    pub fn new(v: Vec<T>) -> (r: Result<Self, Error>)
        ensures
            r.is_ok() <==> ids_of(v@).no_duplicates(),
            r matches Ok(c) ==> c@ == v@,
            r matches Err(e) ==> exists|i: int, j: int|
                0 <= i < j < v@.len() && v@[i].spec_id() == v@[j].spec_id()
                    && e.is_duplicate_id(v@[j].spec_id()),
    {
        let mut c = Self::empty();
        let ghost all = v@;
        let mut rev = reversed(v);
        while rev.len() > 0
            invariant
                c@.len() + rev@.len() == all.len(),
                c@ == all.subrange(0, c@.len() as int),
                forall|k: int| 0 <= k < rev@.len() ==> rev@[k] == all[all.len() - 1 - k],
                all == v@,
            decreases rev@.len(),
        {
            let x = rev.pop().unwrap();
            proof {
                assert(x == all[c@.len() as int]);
            }
            let ghost before = c@;
            match c.push(x) {
                Ok(_) => {
                    proof {
                        assert(c@ =~= all.subrange(0, c@.len() as int));
                    }
                },
                Err(e) => {
                    proof {
                        let j = before.len() as int;
                        let i = choose|i: int| 0 <= i < ids_of(before).len()
                            && ids_of(before)[i] == all[j].spec_id();
                        assert(all[i] == before[i]);
                        assert(all[i].spec_id() == all[j].spec_id());
                        assert(e.is_duplicate_id(all[j].spec_id()));
                        assert(!ids_of(all).no_duplicates()) by {
                            assert(ids_of(all)[i] == ids_of(all)[j]);
                        }
                        assert(exists|i: int, j: int|
                            0 <= i < j < v@.len() && v@[i].spec_id() == v@[j].spec_id()
                                && e.is_duplicate_id(v@[j].spec_id()));
                    }
                    return Err(e);
                },
            }
        }
        proof {
            assert(c@ =~= all);
            use_type_invariant(&c);
        }
        Ok(c)
    }

    /// The entity holding `id`, if any.
    pub fn get(&self, id: &str) -> (r: Option<&T>)
        ensures
            r.is_some() == ids_of(self@).contains(id@),
            r matches Some(e) ==> *e == self@[position_of(self@, id@)],
    {
        proof {
            use_type_invariant(self);
        }
        let key = id.to_owned();
        match find_id(&self.objects, &key) {
            Some(i) => {
                proof {
                    lemma_position_of(self@, i as int);
                }
                Some(&self.objects[i])
            },
            None => None,
        }
    }

    /// The index of the entity holding `id`, if any.
    pub fn get_idx(&self, id: &str) -> (r: Option<Idx<T>>)
        ensures
            r.is_some() == ids_of(self@).contains(id@),
            r matches Some(i) ==> i.pos() == position_of(self@, id@) && i.pos() < self@.len(),
    {
        proof {
            use_type_invariant(self);
        }
        let key = id.to_owned();
        match find_id(&self.objects, &key) {
            Some(i) => {
                proof {
                    lemma_position_of(self@, i as int);
                }
                Some(Idx::new(i))
            },
            None => None,
        }
    }

    /// The entity at `idx`.
    pub fn index(&self, idx: Idx<T>) -> (r: &T)
        requires
            idx.pos() < self@.len(),
        ensures
            *r == self@[idx.pos() as int],
    {
        &self.objects[idx.get()]
    }

    /// Appends the entities of `other` in order. Stops at the first one whose
    /// identifier is already present, reporting it; those appended before it
    /// stay.
    #[verifier::spinoff_prover]
    pub fn merge(&mut self, other: Self) -> (r: Result<(), Error>)
        ensures
            r.is_ok() <==> disjoint_ids(old(self)@, other@),
            r.is_ok() ==> final(self)@ == old(self)@ + other@,
            r matches Err(e) ==> reports_clash(old(self)@, other@, e),
            r matches Err(e) ==> exists|j: int| {
                &&& clash_at(old(self)@, other@, j)
                &&& e.is_duplicate_id(other@[j].spec_id())
                &&& final(self)@ == old(self)@ + other@.take(j)
            },
    {
        proof {
            use_type_invariant(&other);
        }
        let ghost start = self@;
        let ghost all = other@;
        let CollectionWithId { objects } = other;
        let mut rev = reversed(objects);
        let total = rev.len();
        let mut n: usize = 0;
        while rev.len() > 0
            invariant
                n + rev@.len() == all.len(),
                total == all.len(),
                forall|k: int| 0 <= k < rev@.len() ==> rev@[k] == all[all.len() - 1 - k],
                self@ == start + all.take(n as int),
                forall|k: int| 0 <= k < n ==> !ids_of(start).contains(#[trigger] all[k].spec_id()),
                ids_of(all).no_duplicates(),
                start == old(self)@,
                all == other@,
            decreases rev@.len(),
        {
            let x = rev.pop().unwrap();
            proof {
                assert(x == all[n as int]);
                lemma_ids_of_add(start, all.take(n as int));
            }
            let ghost before = self@;
            match self.push(x) {
                Ok(_) => {
                    proof {
                        if ids_of(start).contains(all[n as int].spec_id()) {
                            assert(ids_of(before).contains(all[n as int].spec_id())) by {
                                let i = choose|i: int| 0 <= i < ids_of(start).len()
                                    && ids_of(start)[i] == all[n as int].spec_id();
                                assert(ids_of(before)[i] == all[n as int].spec_id());
                            }
                        }
                        assert(self@ =~= start + all.take(n + 1));
                    }
                    n = n + 1;
                },
                Err(e) => {
                    proof {
                        let t = all.take(n as int);
                        let m = n as int;
                        assert(ids_of(before).contains(all[m].spec_id()));
                        let i = choose|i: int| 0 <= i < ids_of(before).len()
                            && ids_of(before)[i] == all[m].spec_id();
                        if i >= start.len() {
                            assert(ids_of(before)[i] == ids_of(t)[i - start.len()]);
                            assert(t[i - start.len()] == all[i - start.len()]);
                            assert(ids_of(all)[i - start.len()] == ids_of(all)[m]);
                            assert(false);
                        }
                        assert(ids_of(start)[i] == all[m].spec_id());
                        assert(ids_of(start).contains(all[m].spec_id()));
                        assert(clash_at(start, all, m));
                        assert(self@ == start + all.take(m));
                    }
                    return Err(e);
                },
            }
        }
        proof {
            assert(all.take(n as int) =~= all);
        }
        Ok(())
    }

    /// The entities with their indices, in insertion order.
    pub fn iter(&self) -> (r: Vec<(Idx<T>, &T)>)
        ensures
            r@.len() == self@.len(),
            forall|j: int| 0 <= j < r@.len() ==> (#[trigger] r@[j]).0.pos() == j && *r@[j].1 == self@[j],
    {
        let mut r: Vec<(Idx<T>, &T)> = Vec::new();
        let mut i: usize = 0;
        while i < self.objects.len()
            invariant
                i <= self.objects@.len(),
                r@.len() == i,
                forall|j: int| 0 <= j < i ==> (#[trigger] r@[j]).0.pos() == j && *r@[j].1 == self.objects@[j],
            decreases self.objects@.len() - i,
        {
            r.push((Idx::new(i), &self.objects[i]));
            i = i + 1;
        }
        r
    }

    /// Takes the entities out in order, leaving the collection empty; a
    /// collection rebuilt from them, transformed, replaces it.
    pub fn take(&mut self) -> (r: Vec<T>)
        ensures
            r@ == old(self)@,
            ids_of(r@).no_duplicates(),
            final(self)@ == Seq::<T>::empty(),
    {
        proof {
            use_type_invariant(&*self);
        }
        let mut objects: Vec<T> = Vec::new();
        proof {
            assert(ids_of(objects@) =~= Seq::<Seq<char>>::empty());
        }
        std::mem::swap(&mut objects, &mut self.objects);
        objects
    }

    /// Consumes the collection, returning its entities in order.
    pub fn into_vec(self) -> (r: Vec<T>)
        ensures
            r@ == self@,
            ids_of(r@).no_duplicates(),
    {
        proof {
            use_type_invariant(&self);
        }
        let CollectionWithId { objects } = self;
        objects
    }

    /// Number of entities.
    pub fn len(&self) -> (r: usize)
        ensures
            r == self@.len(),
    {
        self.objects.len()
    }

    /// Whether the collection holds no entity.
    pub fn is_empty(&self) -> (r: bool)
        ensures
            r == (self@.len() == 0),
    {
        self.objects.len() == 0
    }

    /// The entities, in insertion order; their identifiers are distinct.
    pub fn values(&self) -> (r: &Vec<T>)
        ensures
            r@ == self@,
            ids_of(r@).no_duplicates(),
    {
        proof {
            use_type_invariant(self);
        }
        &self.objects
    }

    /// Appends `item` under the next position, unless its identifier is
    /// already taken, in which case nothing changes.
    pub fn push(&mut self, item: T) -> (r: Result<Idx<T>, Error>)
        ensures
            ids_of(old(self)@).contains(item.spec_id()) ==> {
                &&& r matches Err(e) && e.is_duplicate_id(item.spec_id())
                &&& final(self)@ == old(self)@
            },
            !ids_of(old(self)@).contains(item.spec_id()) ==> {
                &&& r matches Ok(i) && i.pos() == old(self)@.len()
                &&& final(self)@ == old(self)@.push(item)
            },
    {
        match find_id(&self.objects, item.id()) {
            Some(i) => {
                proof {
                    assert(ids_of(self@)[i as int] == item.spec_id());
                }
                Err(Error::DuplicateId(item.id().clone()))
            },
            None => {
                proof {
                    use_type_invariant(&*self);
                }
                let pos = self.objects.len();
                let mut objects: Vec<T> = Vec::new();
                std::mem::swap(&mut objects, &mut self.objects);
                let ghost before = objects@;
                objects.push(item);
                proof {
                    assert(ids_of(objects@) =~= ids_of(before).push(item.spec_id()));
                    assert(before == old(self)@);
                    assert(objects@ == old(self)@.push(item));
                }
                self.objects = objects;
                assert(self@ == old(self)@.push(item));
                Ok(Idx::new(pos))
            },
        }
    }
}

/// A collection of entities without identifiers, addressed by position only.
pub struct Collection<T> {
    objects: Vec<T>,
}

impl<T> View for Collection<T> {
    type V = Seq<T>;

    closed spec fn view(&self) -> Seq<T> {
        self.objects@
    }
}

impl<T> Collection<T> {
    /// A collection holding the items of `v`, in order.
    pub fn new(v: Vec<T>) -> (r: Self)
        ensures
            r@ == v@,
    {
        Collection { objects: v }
    }

    /// An empty collection.
    pub fn empty() -> (r: Self)
        ensures
            r@ == Seq::<T>::empty(),
    {
        Collection { objects: Vec::new() }
    }

    /// Appends `item`, returning its index.
    pub fn push(&mut self, item: T) -> (r: Idx<T>)
        ensures
            r.pos() == old(self)@.len(),
            final(self)@ == old(self)@.push(item),
    {
        let pos = self.objects.len();
        self.objects.push(item);
        Idx::new(pos)
    }

    /// Appends the items of `other` in order.
    pub fn merge(&mut self, other: Self)
        ensures
            final(self)@ == old(self)@ + other@,
    {
        let mut objects = other.objects;
        self.objects.append(&mut objects);
    }

    /// The item at `idx`.
    pub fn index(&self, idx: Idx<T>) -> (r: &T)
        requires
            idx.pos() < self@.len(),
        ensures
            *r == self@[idx.pos() as int],
    {
        &self.objects[idx.get()]
    }

    /// Number of items.
    pub fn len(&self) -> (r: usize)
        ensures
            r == self@.len(),
    {
        self.objects.len()
    }

    /// Whether the collection holds no item.
    pub fn is_empty(&self) -> (r: bool)
        ensures
            r == (self@.len() == 0),
    {
        self.objects.len() == 0
    }

    /// The items, in insertion order.
    pub fn values(&self) -> (r: &Vec<T>)
        ensures
            r@ == self@,
    {
        &self.objects
    }

    /// Consumes the collection, returning its items in order.
    pub fn into_vec(self) -> (r: Vec<T>)
        ensures
            r@ == self@,
    {
        self.objects
    }
}

} // verus!
