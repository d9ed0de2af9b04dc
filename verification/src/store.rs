use vstd::prelude::*;

use crate::record::{entity_of, Entity, Key, RemoteRecord};

verus! {

/// Whether some entity in `s` carries the key `k`.
pub open spec fn has_key(s: Seq<Entity>, k: Key) -> bool {
    exists|i: int| 0 <= i < s.len() && s[i].key == k
}

/// The core invariant of the entity set: at most one entity per key.
pub open spec fn unique_keys(s: Seq<Entity>) -> bool {
    forall|i: int, j: int|
        0 <= i < s.len() && 0 <= j < s.len() && i != j ==> s[i].key != s[j].key
}

/// One keyed upsert.  A record whose key is already present refreshes the
/// matching entity's `remaining` in place; `can_move` deliberately keeps the
/// value it was given when the entity was created.  A record with an unseen
/// key appends a new entity built from the whole record.
pub open spec fn upsert(s: Seq<Entity>, r: RemoteRecord) -> Seq<Entity> {
    if has_key(s, r.key) {
        s.map(
            |i: int, e: Entity|
                if e.key == r.key {
                    Entity { key: e.key, remaining: r.remaining, can_move: e.can_move }
                } else {
                    e
                },
        )
    } else {
        s.push(entity_of(r))
    }
}

/// Folding one whole drain into the entity set, in arrival order.
pub open spec fn upsert_all(s: Seq<Entity>, rs: Seq<RemoteRecord>) -> Seq<Entity>
    decreases rs.len(),
{
    if rs.len() == 0 {
        s
    } else {
        upsert_all(upsert(s, rs[0]), rs.subrange(1, rs.len() as int))
    }
}

/// How one upsert reads index by index: the length grows by one exactly when
/// the key is new, entities with other keys are untouched, and entities with
/// the record's key take the record's `remaining` and keep their `can_move`.
pub proof fn lemma_upsert_frame(s: Seq<Entity>, r: RemoteRecord)
    ensures
        has_key(s, r.key) ==> upsert(s, r).len() == s.len(),
        !has_key(s, r.key) ==> upsert(s, r) == s.push(entity_of(r)),
        forall|i: int| 0 <= i < s.len() && s[i].key != r.key ==> upsert(s, r)[i] == s[i],
        forall|i: int|
            0 <= i < s.len() && s[i].key == r.key ==> upsert(s, r)[i] == (Entity {
                key: s[i].key,
                remaining: r.remaining,
                can_move: s[i].can_move,
            }),
{
}

/// Every key present before an upsert is present after it, and the record's
/// own key is always present after it.
pub proof fn lemma_upsert_keys(s: Seq<Entity>, r: RemoteRecord)
    ensures
        has_key(upsert(s, r), r.key),
        forall|k: Key| has_key(s, k) ==> has_key(upsert(s, r), k),
        forall|i: int| 0 <= i < upsert(s, r).len() && i < s.len() ==> upsert(s, r)[i].key == s[i].key,
{
    if has_key(s, r.key) {
        let w = choose|i: int| 0 <= i < s.len() && s[i].key == r.key;
        assert(upsert(s, r)[w].key == r.key);
        assert forall|k: Key| has_key(s, k) implies has_key(upsert(s, r), k) by {
            let i = choose|i: int| 0 <= i < s.len() && s[i].key == k;
            assert(upsert(s, r)[i].key == k);
        }
    } else {
        assert(upsert(s, r)[s.len() as int].key == r.key);
        assert forall|k: Key| has_key(s, k) implies has_key(upsert(s, r), k) by {
            let i = choose|i: int| 0 <= i < s.len() && s[i].key == k;
            assert(upsert(s, r)[i].key == k);
        }
    }
}

/// An upsert never makes two entities share a key.
pub proof fn lemma_upsert_preserves_unique(s: Seq<Entity>, r: RemoteRecord)
    requires
        unique_keys(s),
    ensures
        unique_keys(upsert(s, r)),
{
    lemma_upsert_keys(s, r);
    if has_key(s, r.key) {
        assert(upsert(s, r).len() == s.len());
    } else {
        assert forall|i: int, j: int|
            0 <= i < upsert(s, r).len() && 0 <= j < upsert(s, r).len() && i != j implies upsert(
            s,
            r,
        )[i].key != upsert(s, r)[j].key by {
            if i < s.len() && j < s.len() {
            } else if i == s.len() {
                assert(upsert(s, r)[i] == entity_of(r));
                assert(upsert(s, r)[j].key == s[j].key);
            } else {
                assert(upsert(s, r)[j] == entity_of(r));
                assert(upsert(s, r)[i].key == s[i].key);
            }
        }
    }
}

/// Folding a drain record by record: taking one more record off the front.
pub proof fn lemma_upsert_all_step(s: Seq<Entity>, rs: Seq<RemoteRecord>, r: RemoteRecord)
    ensures
        upsert_all(s, rs.push(r)) == upsert(upsert_all(s, rs), r),
    decreases rs.len(),
{
    let ps = rs.push(r);
    if rs.len() == 0 {
        assert(ps[0] == r);
        assert(ps.subrange(1, 1) =~= Seq::<RemoteRecord>::empty());
        assert(upsert_all(s, ps) == upsert_all(upsert(s, r), ps.subrange(1, 1)));
        assert(upsert_all(upsert(s, r), ps.subrange(1, 1)) == upsert(s, r));
        assert(upsert_all(s, rs) == s);
    } else {
        assert(ps[0] == rs[0]);
        assert(ps.subrange(1, ps.len() as int) =~= rs.subrange(1, rs.len() as int).push(r));
        lemma_upsert_all_step(upsert(s, rs[0]), rs.subrange(1, rs.len() as int), r);
        assert(upsert_all(s, ps) == upsert_all(upsert(s, rs[0]), ps.subrange(1, ps.len() as int)));
        assert(upsert_all(s, rs) == upsert_all(upsert(s, rs[0]), rs.subrange(1, rs.len() as int)));
    }
}

/// Uniqueness law: however many records are folded in, and in whatever
/// order, the entity set never holds two entities with the same key.
pub proof fn lemma_uniqueness(s: Seq<Entity>, rs: Seq<RemoteRecord>)
    requires
        unique_keys(s),
    ensures
        unique_keys(upsert_all(s, rs)),
    decreases rs.len(),
{
    if rs.len() > 0 {
        lemma_upsert_preserves_unique(s, rs[0]);
        lemma_uniqueness(upsert(s, rs[0]), rs.subrange(1, rs.len() as int));
    }
}

/// Idempotence law: applying the same record twice in succession yields the
/// same entity set as applying it once.
pub proof fn lemma_idempotence(s: Seq<Entity>, r: RemoteRecord)
    ensures
        upsert(upsert(s, r), r) == upsert(s, r),
{
    let t = upsert(s, r);
    lemma_upsert_keys(s, r);
    if has_key(s, r.key) {
        assert forall|i: int| 0 <= i < t.len() implies upsert(t, r)[i] == t[i] by {}
        assert(upsert(t, r) =~= t);
    } else {
        assert forall|i: int| 0 <= i < t.len() implies upsert(t, r)[i] == t[i] by {
            if i < s.len() {
                assert(s[i].key != r.key);
            } else {
                assert(t[i] == entity_of(r));
            }
        }
        assert(upsert(t, r) =~= t);
    }
}

/// Order-sensitivity law (last applied wins): after two records for the same
/// key are folded in, in order, the entity carrying that key holds the
/// second record's `remaining`.
pub proof fn lemma_last_write_wins(s: Seq<Entity>, r1: RemoteRecord, r2: RemoteRecord)
    requires
        r1.key == r2.key,
    ensures
        has_key(upsert_all(s, seq![r1, r2]), r2.key),
        forall|i: int|
            0 <= i < upsert_all(s, seq![r1, r2]).len() && upsert_all(s, seq![r1, r2])[i].key
                == r2.key ==> upsert_all(s, seq![r1, r2])[i].remaining == r2.remaining,
{
    let rs = seq![r1, r2];
    let t = upsert(s, r1);
    assert(rs.len() == 2 && rs[0] == r1 && rs[1] == r2);
    assert(rs.subrange(1, 2) =~= seq![r2]);
    assert(upsert_all(s, rs) == upsert_all(t, seq![r2]));
    assert(seq![r2][0] == r2);
    assert(seq![r2].subrange(1, 1) =~= Seq::<RemoteRecord>::empty());
    assert(upsert_all(t, seq![r2]) == upsert_all(upsert(t, r2), Seq::<RemoteRecord>::empty()));
    assert(upsert_all(upsert(t, r2), Seq::<RemoteRecord>::empty()) == upsert(t, r2));
    lemma_upsert_keys(s, r1);
    lemma_upsert_keys(t, r2);
    lemma_upsert_frame(t, r2);
    assert(has_key(t, r2.key));
}

/// Creation-on-first-sight law: a record whose key was never seen appends
/// exactly one new entity, built from the record, and touches nothing else.
pub proof fn lemma_creation_on_first_sight(s: Seq<Entity>, r: RemoteRecord)
    requires
        !has_key(s, r.key),
    ensures
        upsert(s, r).len() == s.len() + 1,
        upsert(s, r)[s.len() as int] == entity_of(r),
        forall|i: int| 0 <= i < s.len() ==> upsert(s, r)[i] == s[i],
        has_key(upsert(s, r), r.key),
        unique_keys(s) ==> unique_keys(upsert(s, r)),
{
    lemma_upsert_keys(s, r);
    if unique_keys(s) {
        lemma_upsert_preserves_unique(s, r);
    }
}

/// No-cross-key-interference law: an upsert never changes an entity whose
/// key differs from the record's, and never removes an entity.
pub proof fn lemma_no_cross_key_interference(s: Seq<Entity>, r: RemoteRecord)
    ensures
        upsert(s, r).len() >= s.len(),
        forall|i: int| 0 <= i < s.len() && s[i].key != r.key ==> upsert(s, r)[i] == s[i],
{
    lemma_upsert_frame(s, r);
}

/// Empty-drain law: folding in no records leaves the entity set as it was.
pub proof fn lemma_empty_drain_no_op(s: Seq<Entity>)
    ensures
        upsert_all(s, Seq::<RemoteRecord>::empty()) == s,
{
}

/// The live entity set, owned by the reconciler alone.  The keyed upserts
/// keep its one invariant: no two entities share a key.
pub struct EntityStore {
    entities: Vec<Entity>,
}

impl View for EntityStore {
    type V = Seq<Entity>;

    closed spec fn view(&self) -> Seq<Entity> {
        self.entities@
    }
}

impl EntityStore {
    /// The core invariant: at most one entity per distinct key.
    pub open spec fn wf(&self) -> bool {
        unique_keys(self@)
    }

    /// An empty entity set.
    pub fn new() -> (s: Self)
        ensures
            s@ == Seq::<Entity>::empty(),
            s.wf(),
    {
        EntityStore { entities: Vec::new() }
    }

    /// How many entities are live.
    pub fn len(&self) -> (n: usize)
        ensures
            n == self@.len(),
    {
        self.entities.len()
    }

    /// The entity at position `i`.
    pub fn get(&self, i: usize) -> (e: Entity)
        requires
            i < self@.len(),
        ensures
            e == self@[i as int],
    {
        self.entities[i]
    }

    /// Looks an entity up by key: the first entity carrying `k`, if any.
    pub fn find(&self, k: Key) -> (r: Option<Entity>)
        ensures
            r is Some <==> has_key(self@, k),
            r matches Some(e) ==> e.key == k && exists|i: int|
                0 <= i < self@.len() && self@[i] == e,
    {
        let n = self.entities.len();
        let mut i: usize = 0;
        while i < n
            invariant
                n == self@.len(),
                i <= n,
                forall|j: int| 0 <= j < i ==> self@[j].key != k,
            decreases n - i,
        {
            if self.entities[i].key == k {
                return Some(self.entities[i]);
            }
            i = i + 1;
        }
        None
    }

    /// Merges one record: refreshes the `remaining` of every entity carrying
    /// the record's key, or, when the key is new, appends an entity built
    /// from the record.  The record is consumed by this one pass.
    pub fn merge(&mut self, r: RemoteRecord)
        ensures
            final(self)@ == upsert(old(self)@, r),
            old(self).wf() ==> final(self).wf(),
    {
        let ghost s0 = self@;
        let n = self.entities.len();
        let mut i: usize = 0;
        let mut found = false;
        while i < n
            invariant
                n == s0.len(),
                self.entities@.len() == s0.len(),
                i <= n,
                forall|j: int| i <= j < s0.len() ==> self.entities@[j] == s0[j],
                forall|j: int| 0 <= j < i && s0[j].key != r.key ==> self.entities@[j] == s0[j],
                forall|j: int|
                    0 <= j < i && s0[j].key == r.key ==> self.entities@[j] == (Entity {
                        key: s0[j].key,
                        remaining: r.remaining,
                        can_move: s0[j].can_move,
                    }),
                found <==> exists|j: int| 0 <= j < i && s0[j].key == r.key,
            decreases n - i,
        {
            if self.entities[i].key == r.key {
                let e = self.entities[i];
                self.entities.set(
                    i,
                    Entity { key: e.key, remaining: r.remaining, can_move: e.can_move },
                );
                found = true;
            }
            i = i + 1;
        }
        if found {
            proof {
                lemma_upsert_frame(s0, r);
                assert(self.entities@ =~= upsert(s0, r));
            }
        } else {
            proof {
                assert(!has_key(s0, r.key));
                assert(self.entities@ =~= s0);
            }
            self.entities.push(
                Entity { key: r.key, remaining: r.remaining, can_move: r.can_move },
            );
            proof {
                assert(self.entities@ =~= s0.push(entity_of(r)));
            }
        }
        proof {
            if unique_keys(s0) {
                lemma_upsert_preserves_unique(s0, r);
            }
        }
    }

    /// Merges a whole drain, in arrival order.
    pub fn merge_all(&mut self, records: &Vec<RemoteRecord>)
        ensures
            final(self)@ == upsert_all(old(self)@, records@),
            old(self).wf() ==> final(self).wf(),
    {
        let ghost s0 = self@;
        let n = records.len();
        let mut i: usize = 0;
        while i < n
            invariant
                n == records@.len(),
                i <= n,
                self@ == upsert_all(s0, records@.subrange(0, i as int)),
                unique_keys(s0) ==> unique_keys(self@),
            decreases n - i,
        {
            self.merge(records[i]);
            proof {
                lemma_upsert_all_step(s0, records@.subrange(0, i as int), records@[i as int]);
                assert(records@.subrange(0, i as int).push(records@[i as int]) =~= records@
                    .subrange(0, i as int + 1));
            }
            i = i + 1;
        }
        proof {
            assert(records@.subrange(0, records@.len() as int) =~= records@);
        }
    }
}

} // verus!
