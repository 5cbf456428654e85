//! The in-memory store of model records.

use vstd::prelude::*;
use crate::model::{is_generated_id, Model};
use vstd::seq_lib::{to_multiset_build, to_multiset_remove};

verus! {

/// Whether some record of `s` has the id `id`.
pub open spec fn has_id(s: Seq<Model>, id: Seq<char>) -> bool {
    exists|i: int| 0 <= i < s.len() && (#[trigger] s[i]).id@ == id
}

/// Whether no two records of `s` share an id.
pub open spec fn ids_unique(s: Seq<Model>) -> bool {
    forall|i: int, j: int|
        0 <= i < s.len() && 0 <= j < s.len() && i != j ==> (#[trigger] s[i]).id@ != (#[trigger] s[j]).id@
}

/// The records of `s` whose id is not `id`, in their order.
pub open spec fn without_id(s: Seq<Model>, id: Seq<char>) -> Seq<Model>
    decreases s.len(),
{
    if s.len() == 0 {
        s
    } else {
        let rest = without_id(s.drop_last(), id);
        if s.last().id@ == id {
            rest
        } else {
            rest.push(s.last())
        }
    }
}

/// `s` with `m` added at the end, unless a record of `s` holds its id.
pub open spec fn inserted(s: Seq<Model>, m: Model) -> Seq<Model> {
    if has_id(s, m.id@) {
        s
    } else {
        s.push(m)
    }
}

/// `s` after inserting the records of `ms` one after another, in order.
pub open spec fn inserted_all(s: Seq<Model>, ms: Seq<Model>) -> Seq<Model>
    decreases ms.len(),
{
    if ms.len() == 0 {
        s
    } else {
        inserted(inserted_all(s, ms.drop_last()), ms.last())
    }
}

/// Whether `after` is `before` with one record added at the end that holds
/// the given name, version and payload under a generated id new to `before`.
pub open spec fn created_in(
    before: Seq<Model>,
    after: Seq<Model>,
    name: String,
    version: String,
    data: String,
) -> bool {
    exists|m: Model|
        #[trigger] before.push(m) == after && m.name == name && m.version == version
            && m.data == data && is_generated_id(m.id@) && !has_id(before, m.id@)
}

/// Removing the records with an id that no record has changes nothing.
proof fn lemma_without_absent_id(s: Seq<Model>, id: Seq<char>)
    requires
        !has_id(s, id),
    ensures
        without_id(s, id) == s,
    decreases s.len(),
{
    if s.len() > 0 {
        let d = s.drop_last();
        assert(!has_id(d, id)) by {
            if has_id(d, id) {
                let i = choose|i: int| 0 <= i < d.len() && (#[trigger] d[i]).id@ == id;
                assert(s[i] == d[i]);
            }
        }
        lemma_without_absent_id(d, id);
        assert(s.last() == s[s.len() - 1]);
        assert(d.push(s.last()) =~= s);
    }
}

/// With unique ids, removing the records with the id of the record at `k`
/// removes that record alone.
proof fn lemma_without_present_id(s: Seq<Model>, k: int)
    requires
        ids_unique(s),
        0 <= k < s.len(),
    ensures
        without_id(s, s[k].id@) == s.remove(k),
    decreases s.len(),
{
    let id = s[k].id@;
    let d = s.drop_last();
    assert(ids_unique(d)) by {
        assert forall|i: int, j: int|
            0 <= i < d.len() && 0 <= j < d.len() && i != j implies (#[trigger] d[i]).id@ != (#[trigger] d[j]).id@ by {
            assert(s[i] == d[i] && s[j] == d[j]);
        }
    }
    if k == s.len() - 1 {
        assert(!has_id(d, id)) by {
            if has_id(d, id) {
                let i = choose|i: int| 0 <= i < d.len() && (#[trigger] d[i]).id@ == id;
                assert(s[i] == d[i]);
            }
        }
        lemma_without_absent_id(d, id);
        assert(s.remove(k) =~= d);
    } else {
        assert(d[k] == s[k]);
        lemma_without_present_id(d, k);
        assert(s.last() == s[s.len() - 1]);
        assert(s.last().id@ != id);
        assert(d.remove(k).push(s.last()) =~= s.remove(k));
    }
}

/// Removing one record keeps the ids of the others unique.
proof fn lemma_remove_keeps_unique(s: Seq<Model>, k: int)
    requires
        ids_unique(s),
        0 <= k < s.len(),
    ensures
        ids_unique(s.remove(k)),
{
    let r = s.remove(k);
    assert forall|i: int, j: int|
        0 <= i < r.len() && 0 <= j < r.len() && i != j implies (#[trigger] r[i]).id@ != (#[trigger] r[j]).id@ by {
        let si = if i < k { i } else { i + 1 };
        let sj = if j < k { j } else { j + 1 };
        assert(r[i] == s[si] && r[j] == s[sj]);
    }
}

/// The records left after removing those with the id `id` are the records
/// of `s` with another id.
proof fn lemma_without_id_members(s: Seq<Model>, id: Seq<char>)
    ensures
        forall|o: Model| #[trigger] without_id(s, id).contains(o) <==> (s.contains(o) && o.id@ != id),
    decreases s.len(),
{
    if s.len() > 0 {
        let d = s.drop_last();
        let last = s.last();
        let w = without_id(d, id);
        lemma_without_id_members(d, id);
        assert(s[s.len() - 1] == last);
        assert forall|o: Model| #[trigger] without_id(s, id).contains(o) <==> (s.contains(o) && o.id@ != id) by {
            if s.contains(o) {
                let i = choose|i: int| 0 <= i < s.len() && s[i] == o;
                if i < d.len() {
                    assert(d[i] == o);
                }
            }
            if d.contains(o) {
                let i = choose|i: int| 0 <= i < d.len() && d[i] == o;
                assert(s[i] == d[i]);
            }
            if last.id@ != id {
                let t = w.push(last);
                if t.contains(o) {
                    let i = choose|i: int| 0 <= i < t.len() && t[i] == o;
                    if i < w.len() {
                        assert(w[i] == o);
                    }
                }
                if w.contains(o) {
                    let i = choose|i: int| 0 <= i < w.len() && w[i] == o;
                    assert(t[i] == w[i]);
                }
                assert(t[w.len() as int] == last);
            }
        }
    }
}

/// Deleting by an id removes exactly the record that holds it, when there is
/// one, and leaves every other record in place and in order; deleting an id
/// that no record holds leaves the collection as it was. Either way the ids
/// stay unique.
pub proof fn lemma_delete_removes_exactly(s: Seq<Model>, id: Seq<char>)
    requires
        ids_unique(s),
    ensures
        forall|k: int| 0 <= k < s.len() && (#[trigger] s[k]).id@ == id ==> without_id(s, id) == s.remove(k),
        forall|k: int|
            0 <= k < s.len() && (#[trigger] s[k]).id@ == id ==> without_id(s, id).to_multiset()
                == s.to_multiset().remove(s[k]),
        forall|o: Model| #[trigger] without_id(s, id).contains(o) <==> (s.contains(o) && o.id@ != id),
        !has_id(s, id) ==> without_id(s, id) == s,
        ids_unique(without_id(s, id)),
{
    lemma_without_id_members(s, id);
    assert forall|k: int|
        0 <= k < s.len() && (#[trigger] s[k]).id@ == id implies without_id(s, id).to_multiset()
            == s.to_multiset().remove(s[k]) by {
        lemma_without_present_id(s, k);
        to_multiset_remove(s, k);
    }
    assert forall|k: int| 0 <= k < s.len() && (#[trigger] s[k]).id@ == id implies without_id(s, id) == s.remove(k) by {
        lemma_without_present_id(s, k);
    }
    if has_id(s, id) {
        let k = choose|k: int| 0 <= k < s.len() && (#[trigger] s[k]).id@ == id;
        lemma_without_present_id(s, k);
        lemma_remove_keeps_unique(s, k);
    } else {
        lemma_without_absent_id(s, id);
    }
}

/// Adding a record whose id no record holds keeps the ids unique, and the
/// record then stands last, unchanged, after every earlier record in its place.
pub proof fn lemma_created_record_listed(s: Seq<Model>, m: Model)
    requires
        ids_unique(s),
        !has_id(s, m.id@),
    ensures
        ids_unique(s.push(m)),
        s.push(m).last() == m,
        s.push(m).subrange(0, s.len() as int) == s,
        forall|i: int| 0 <= i < s.len() ==> (#[trigger] s[i]).id@ != m.id@,
        !s.contains(m),
        s.push(m).to_multiset() == s.to_multiset().insert(m),
{
    to_multiset_build(s, m);
    let t = s.push(m);
    assert forall|i: int, j: int|
        0 <= i < t.len() && 0 <= j < t.len() && i != j implies (#[trigger] t[i]).id@ != (#[trigger] t[j]).id@ by {
        if i < s.len() && j < s.len() {
            assert(t[i] == s[i] && t[j] == s[j]);
        } else if i < s.len() {
            assert(t[i] == s[i]);
        } else if j < s.len() {
            assert(t[j] == s[j]);
        }
    }
    assert(t.subrange(0, s.len() as int) =~= s);
    assert forall|i: int| 0 <= i < s.len() implies (#[trigger] s[i]).id@ != m.id@ by {
        if s[i].id@ == m.id@ {
            assert(has_id(s, m.id@));
        }
    }
    if s.contains(m) {
        let i = choose|i: int| 0 <= i < s.len() && s[i] == m;
        assert(s[i].id@ == m.id@);
    }
}

/// Inserting records one after another, where no two ids among the records
/// present and those inserted are equal, loses none of them: each lands at
/// the end in the order of insertion, and the ids stay unique.
pub proof fn lemma_distinct_inserts_all_kept(s: Seq<Model>, ms: Seq<Model>)
    requires
        ids_unique(s + ms),
    ensures
        inserted_all(s, ms) == s + ms,
        ids_unique(inserted_all(s, ms)),
    decreases ms.len(),
{
    if ms.len() == 0 {
        assert(s + ms =~= s);
    } else {
        let d = ms.drop_last();
        let all = s + ms;
        let pre = s + d;
        assert(pre =~= all.drop_last());
        assert(ids_unique(pre)) by {
            assert forall|i: int, j: int|
                0 <= i < pre.len() && 0 <= j < pre.len() && i != j implies (#[trigger] pre[i]).id@ != (#[trigger] pre[j]).id@ by {
                assert(pre[i] == all[i] && pre[j] == all[j]);
            }
        }
        lemma_distinct_inserts_all_kept(s, d);
        let last = ms.last();
        assert(all[all.len() - 1] == last);
        assert(!has_id(pre, last.id@)) by {
            if has_id(pre, last.id@) {
                let i = choose|i: int| 0 <= i < pre.len() && (#[trigger] pre[i]).id@ == last.id@;
                assert(pre[i] == all[i]);
            }
        }
        assert(pre.push(last) =~= all);
    }
}

/// The collection of model records, each with an id that no other holds.
pub struct ModelStore {
    records: Vec<Model>,
}

impl View for ModelStore {
    type V = Seq<Model>;

    closed spec fn view(&self) -> Seq<Model> {
        self.records@
    }
}

/// A new, empty store.
pub fn new_model_store() -> (r: ModelStore)
    ensures
        r@ == Seq::<Model>::empty(),
        r.well_formed(),
{
    ModelStore { records: Vec::new() }
}

impl ModelStore {
    /// Whether the ids of the records are unique.
    pub open spec fn well_formed(&self) -> bool {
        ids_unique(self@)
    }

    /// Whether some record has the id `id`.
    pub fn contains_id(&self, id: &String) -> (r: bool)
        ensures
            r == has_id(self@, id@),
    {
        let mut i: usize = 0;
        while i < self.records.len()
            invariant
                i <= self.records@.len(),
                forall|k: int| 0 <= k < i ==> (#[trigger] self.records@[k]).id@ != id@,
            decreases self.records.len() - i,
        {
            if self.records[i].id == *id {
                return true;
            }
            i += 1;
        }
        false
    }

    /// Adds `model` at the end, unless a record with its id is present
    /// already; tells whether it was added.
    pub fn insert_model(&mut self, model: Model) -> (r: bool)
        requires
            old(self).well_formed(),
        ensures
            final(self).well_formed(),
            r == !has_id(old(self)@, model.id@),
            final(self)@ == inserted(old(self)@, model),
    {
        if self.contains_id(&model.id) {
            false
        } else {
            proof {
                lemma_created_record_listed(self@, model);
            }
            self.records.push(model);
            true
        }
    }

    /// Adds a record with the given name, version and payload, under a freshly
    /// drawn id and the current time. Should the drawn id be held already,
    /// nothing is added.
    pub fn add_model(&mut self, name: String, version: String, data: String)
        requires
            old(self).well_formed(),
        ensures
            final(self).well_formed(),
            final(self)@ == old(self)@ || created_in(old(self)@, final(self)@, name, version, data),
            final(self)@ == old(self)@ ==> exists|k: int|
                0 <= k < old(self)@.len() && is_generated_id((#[trigger] old(self)@[k]).id@),
    {
        let model = Model::create(name, version, data);
        let ghost m = model;
        let added = self.insert_model(model);
        proof {
            if added {
                assert(old(self)@.push(m) == self@);
                assert(self@.len() == old(self)@.len() + 1);
            } else {
                let k = choose|k: int| 0 <= k < old(self)@.len() && (#[trigger] old(self)@[k]).id@ == m.id@;
                assert(is_generated_id(old(self)@[k].id@));
            }
        }
    }

    /// Removes the record with the id `id`, if there is one.
    pub fn delete_model(&mut self, id: String)
        requires
            old(self).well_formed(),
        ensures
            final(self).well_formed(),
            final(self)@ == without_id(old(self)@, id@),
    {
        let mut i: usize = 0;
        while i < self.records.len()
            invariant
                i <= self.records@.len(),
                self.records@ == old(self).records@,
                ids_unique(self.records@),
                forall|k: int| 0 <= k < i ==> (#[trigger] self.records@[k]).id@ != id@,
            decreases self.records.len() - i,
        {
            if self.records[i].id == id {
                proof {
                    lemma_without_present_id(old(self)@, i as int);
                    lemma_remove_keeps_unique(old(self)@, i as int);
                }
                let _removed = self.records.remove(i);
                return;
            }
            i += 1;
        }
        proof {
            lemma_without_absent_id(old(self)@, id@);
        }
    }

    /// A copy of every record, in the store's order.
    pub fn get_models(&self) -> (r: Vec<Model>)
        ensures
            r@ == self@,
    {
        let mut out: Vec<Model> = Vec::new();
        let mut i: usize = 0;
        while i < self.records.len()
            invariant
                i <= self.records@.len(),
                out@ == self.records@.subrange(0, i as int),
            decreases self.records.len() - i,
        {
            out.push(self.records[i].copied());
            i += 1;
            assert(out@ =~= self.records@.subrange(0, i as int));
        }
        assert(out@ =~= self.records@);
        out
    }
}

} // verus!
