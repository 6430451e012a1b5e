//! Material records and their in-memory store.
//!
//! A record is identified by its `name` alone: two records with equal
//! names are the same entity, whatever their payload fields hold.  The
//! store keeps at most one record per name, hands out copies on lookup,
//! and reconciles with its persistence unit only at an explicit flush.

use vstd::prelude::*;
use vstd::string::*;

use crate::codec::{decode_store, decode_text, encode_records, encode_store};
use crate::database::Database;

verus! {

/// A material record: `name` is the identity, the rest is payload.
#[derive(Debug)]
pub struct Medicine {
    pub name: String,
    pub alias: String,
    pub summary: String,
    pub attribute: String,
    pub taboo: String,
    pub keyword: String,
}

/// The mathematical content of a material record.
#[verifier::ext_equal]
pub struct MedicineView {
    pub name: Seq<char>,
    pub alias: Seq<char>,
    pub summary: Seq<char>,
    pub attribute: Seq<char>,
    pub taboo: Seq<char>,
    pub keyword: Seq<char>,
}

impl View for Medicine {
    type V = MedicineView;

    open spec fn view(&self) -> MedicineView {
        MedicineView {
            name: self.name@,
            alias: self.alias@,
            summary: self.summary@,
            attribute: self.attribute@,
            taboo: self.taboo@,
            keyword: self.keyword@,
        }
    }
}

impl Medicine {
    /// A record with the given name and empty payload fields.
    pub fn new(name: &str) -> (r: Self)
        ensures
            r@.name == name@,
            r@.alias == Seq::<char>::empty(),
            r@.summary == Seq::<char>::empty(),
            r@.attribute == Seq::<char>::empty(),
            r@.taboo == Seq::<char>::empty(),
            r@.keyword == Seq::<char>::empty(),
    {
        Medicine {
            name: String::from_str(name),
            alias: String::new(),
            summary: String::new(),
            attribute: String::new(),
            taboo: String::new(),
            keyword: String::new(),
        }
    }

    /// The identifying line of the record, as rendered for a reader.
    pub fn to_text(&self) -> (r: String)
        ensures
            r@ == "名称："@ + self.name@,
    {
        let mut r = String::from_str("名称：");
        r.append(self.name.as_str());
        r
    }
}

impl Clone for Medicine {
    /// A field-for-field copy.
    fn clone(&self) -> (r: Self)
        ensures
            r@ == self@,
    {
        let r = Medicine {
            name: self.name.clone(),
            alias: self.alias.clone(),
            summary: self.summary.clone(),
            attribute: self.attribute.clone(),
            taboo: self.taboo.clone(),
            keyword: self.keyword.clone(),
        };
        proof {
            assert(r@ =~= self@);
        }
        r
    }
}

impl PartialEq for Medicine {
    /// Two records are the same entity exactly when their names agree.
    fn eq(&self, other: &Self) -> bool {
        self.name == other.name
    }
}

impl vstd::std_specs::cmp::PartialEqSpecImpl for Medicine {
    open spec fn obeys_eq_spec() -> bool {
        true
    }

    open spec fn eq_spec(&self, other: &Self) -> bool {
        self.name@ == other.name@
    }
}

/// Record equality ignores the payload: equal names alone make two
/// records equal, whatever their other fields hold.
pub proof fn lemma_equality_ignores_payload(a: Medicine, b: Medicine)
    requires
        a.name@ == b.name@,
    ensures
        vstd::std_specs::cmp::PartialEqSpec::eq_spec(&a, &b),
        vstd::std_specs::cmp::PartialEqSpec::eq_spec(&b, &a),
{
}

/// The views of a sequence of records.
pub open spec fn med_views(s: Seq<Medicine>) -> Seq<MedicineView> {
    s.map_values(|m: Medicine| m@)
}

/// Pairwise distinct record names.
pub open spec fn wf_names(ms: Seq<MedicineView>) -> bool {
    forall|i: int, j: int| 0 <= i < j < ms.len() ==> ms[i].name != ms[j].name
}

/// The records as a mapping from name to record content; a later record
/// under a name shadows an earlier one.
pub open spec fn map_of(ms: Seq<MedicineView>) -> Map<Seq<char>, MedicineView>
    decreases ms.len(),
{
    if ms.len() == 0 {
        Map::empty()
    } else {
        map_of(ms.drop_last()).insert(ms.last().name, ms.last())
    }
}

/// The mapping's keys are exactly the record names.
pub proof fn lemma_map_of_contains(ms: Seq<MedicineView>, k: Seq<char>)
    ensures
        map_of(ms).contains_key(k) <==> exists|i: int| 0 <= i < ms.len() && ms[i].name == k,
    decreases ms.len(),
{
    if ms.len() > 0 {
        lemma_map_of_contains(ms.drop_last(), k);
        assert(forall|i: int| 0 <= i < ms.len() - 1 ==> ms.drop_last()[i] == ms[i]);
        if ms.last().name == k {
            assert(ms[ms.len() - 1].name == k);
        }
        if exists|i: int| 0 <= i < ms.len() && ms[i].name == k {
            let i = choose|i: int| 0 <= i < ms.len() && ms[i].name == k;
            if i < ms.len() - 1 {
                assert(ms.drop_last()[i].name == k);
            }
        }
    }
}

/// Distinct names remain distinct without the last record.
pub proof fn lemma_wf_drop_last(ms: Seq<MedicineView>)
    requires
        wf_names(ms),
        ms.len() > 0,
    ensures
        wf_names(ms.drop_last()),
{
    assert forall|i: int, j: int|
        0 <= i < j < ms.drop_last().len() implies ms.drop_last()[i].name
        != ms.drop_last()[j].name by {
        assert(ms.drop_last()[i] == ms[i]);
        assert(ms.drop_last()[j] == ms[j]);
    }
}

/// With distinct names, the mapping sends each record's name to it.
pub proof fn lemma_map_of_index(ms: Seq<MedicineView>, i: int)
    requires
        wf_names(ms),
        0 <= i < ms.len(),
    ensures
        map_of(ms).contains_key(ms[i].name),
        map_of(ms)[ms[i].name] == ms[i],
    decreases ms.len(),
{
    if i == ms.len() - 1 {
    } else {
        lemma_wf_drop_last(ms);
        assert(ms.drop_last()[i] == ms[i]);
        lemma_map_of_index(ms.drop_last(), i);
        assert(ms[i].name != ms.last().name);
    }
}

/// Appending a record inserts it into the mapping.
pub proof fn lemma_map_of_push(ms: Seq<MedicineView>, v: MedicineView)
    ensures
        map_of(ms.push(v)) == map_of(ms).insert(v.name, v),
{
    assert(ms.push(v).drop_last() =~= ms);
    assert(ms.push(v).last() == v);
}

/// Replacing the record that carries a name updates the mapping at it.
pub proof fn lemma_map_of_update(ms: Seq<MedicineView>, i: int, v: MedicineView)
    requires
        wf_names(ms),
        0 <= i < ms.len(),
        ms[i].name == v.name,
    ensures
        map_of(ms.update(i, v)) == map_of(ms).insert(v.name, v),
    decreases ms.len(),
{
    let u = ms.update(i, v);
    if i == ms.len() - 1 {
        assert(u.drop_last() =~= ms.drop_last());
        assert(u.last() == v);
        assert(map_of(ms.drop_last()).insert(ms.last().name, ms.last()).insert(v.name, v)
            =~= map_of(ms.drop_last()).insert(v.name, v));
    } else {
        lemma_wf_drop_last(ms);
        assert(ms.drop_last()[i] == ms[i]);
        lemma_map_of_update(ms.drop_last(), i, v);
        assert(u.drop_last() =~= ms.drop_last().update(i, v));
        assert(u.last() == ms.last());
        assert(ms[i].name != ms.last().name);
        assert(map_of(ms.drop_last()).insert(v.name, v).insert(ms.last().name, ms.last())
            =~= map_of(ms.drop_last()).insert(ms.last().name, ms.last()).insert(v.name, v));
    }
}

/// Removing the record that carries a name removes it from the mapping.
pub proof fn lemma_map_of_remove(ms: Seq<MedicineView>, i: int)
    requires
        wf_names(ms),
        0 <= i < ms.len(),
    ensures
        map_of(ms.remove(i)) == map_of(ms).remove(ms[i].name),
    decreases ms.len(),
{
    let k = ms[i].name;
    if i == ms.len() - 1 {
        assert(ms.remove(i) =~= ms.drop_last());
        lemma_map_of_contains(ms.drop_last(), k);
        if map_of(ms.drop_last()).contains_key(k) {
            let j = choose|j: int| 0 <= j < ms.drop_last().len() && ms.drop_last()[j].name == k;
            assert(ms.drop_last()[j] == ms[j]);
            assert(ms[j].name != ms[i].name);
            assert(false);
        }
        assert(map_of(ms.drop_last()) =~= map_of(ms.drop_last()).insert(k, ms.last()).remove(k));
    } else {
        lemma_wf_drop_last(ms);
        assert(ms.drop_last()[i] == ms[i]);
        lemma_map_of_remove(ms.drop_last(), i);
        assert(ms.remove(i).drop_last() =~= ms.drop_last().remove(i));
        assert(ms.remove(i).last() == ms.last());
        assert(ms[i].name != ms.last().name);
        assert(map_of(ms.drop_last()).remove(k).insert(ms.last().name, ms.last()) =~= map_of(
            ms.drop_last(),
        ).insert(ms.last().name, ms.last()).remove(k));
    }
}

/// Inserting two records under one name keeps exactly one record, holding
/// the later payload, and the earlier record is what the later insertion
/// hands back.
pub proof fn lemma_uniqueness_by_name(
    m: Map<Seq<char>, MedicineView>,
    a: MedicineView,
    b: MedicineView,
)
    requires
        a.name == b.name,
    ensures
        m.insert(a.name, a).insert(b.name, b) == m.insert(b.name, b),
        m.insert(a.name, a).insert(b.name, b)[b.name] == b,
        m.insert(a.name, a).contains_key(b.name),
        m.insert(a.name, a)[b.name] == a,
{
    assert(m.insert(a.name, a).insert(b.name, b) =~= m.insert(b.name, b));
}

/// Deleting a freshly inserted record leaves no record under its name.
pub proof fn lemma_delete_then_search(m: Map<Seq<char>, MedicineView>, r: MedicineView)
    ensures
        !m.insert(r.name, r).remove(r.name).contains_key(r.name),
{
}

/// The in-memory store of material records: a name-keyed collection and a
/// flag that records whether it changed since the last flush.
pub struct Medicines {
    pub records: Vec<Medicine>,
    pub dirty: bool,
}

impl Medicines {
    /// The store is a mapping: no two records share a name.
    pub open spec fn wf(&self) -> bool {
        wf_names(med_views(self.records@))
    }

    /// The store as a mapping from record name to record content.
    pub open spec fn as_map(&self) -> Map<Seq<char>, MedicineView> {
        map_of(med_views(self.records@))
    }

    /// An empty store, as backed by a freshly created category file.
    pub fn new() -> (r: Self)
        ensures
            r.wf(),
            !r.dirty,
            r.records@ == Seq::<Medicine>::empty(),
            r.as_map() == Map::<Seq<char>, MedicineView>::empty(),
    {
        let r = Medicines { records: Vec::new(), dirty: false };
        proof {
            assert(med_views(r.records@) =~= Seq::<MedicineView>::empty());
        }
        r
    }

    /// Builds the store from its persistence unit's buffered text: the
    /// decoded records, or no records at all when the text is malformed.
    /// A fresh store is clean: loading alone never causes a write.
    pub fn load(database: &Database) -> (r: Self)
        ensures
            r.wf(),
            !r.dirty,
            med_views(r.records@) == decode_text(database.data@),
    {
        Medicines { records: decode_store(database.data()), dirty: false }
    }

    /// The position of the record carrying a name, if any.
    fn find(records: &Vec<Medicine>, name: &String) -> (r: Option<usize>)
        ensures
            match r {
                Some(i) => i < records@.len() && records@[i as int]@.name == name@,
                None => forall|j: int| 0 <= j < records@.len() ==> records@[j]@.name != name@,
            },
    {
        let n = records.len();
        let mut i: usize = 0;
        while i < n
            invariant
                n == records@.len(),
                i <= n,
                forall|j: int| 0 <= j < i ==> records@[j]@.name != name@,
            decreases n - i,
        {
            if records[i].name == *name {
                return Some(i);
            }
            i = i + 1;
        }
        None
    }

    /// Inserts a record under its name, replacing and handing back any
    /// record previously stored there.  In-memory only: nothing is
    /// written until the next flush.
    pub fn insert(&mut self, medicine: Medicine) -> (r: Option<Medicine>)
        requires
            old(self).wf(),
        ensures
            final(self).wf(),
            final(self).dirty,
            final(self).as_map() == old(self).as_map().insert(medicine.name@, medicine@),
            match r {
                Some(prev) => old(self).as_map().contains_key(medicine.name@)
                    && prev@ == old(self).as_map()[medicine.name@],
                None => !old(self).as_map().contains_key(medicine.name@),
            },
            !old(self).as_map().contains_key(medicine.name@) ==> med_views(final(self).records@)
                == med_views(old(self).records@).push(medicine@),
    {
        let ghost vs = med_views(self.records@);
        proof {
            lemma_map_of_contains(vs, medicine.name@);
        }
        match Self::find(&self.records, &medicine.name) {
            Some(i) => {
                proof {
                    lemma_map_of_index(vs, i as int);
                    lemma_map_of_update(vs, i as int, medicine@);
                }
                let prev = self.records.remove(i);
                self.records.insert(i, medicine);
                self.dirty = true;
                proof {
                    let vs2 = med_views(self.records@);
                    assert(vs2 =~= vs.update(i as int, medicine@));
                    assert forall|a: int, b: int| 0 <= a < b < vs2.len() implies vs2[a].name
                        != vs2[b].name by {
                        assert(vs2[a].name == if a == i as int {
                            medicine@.name
                        } else {
                            vs[a].name
                        });
                        assert(vs2[b].name == if b == i as int {
                            medicine@.name
                        } else {
                            vs[b].name
                        });
                        if a != i as int && b != i as int {
                            assert(vs[a].name != vs[b].name);
                        } else if a == i as int {
                            assert(vs[i as int].name != vs[b].name);
                        } else {
                            assert(vs[a].name != vs[i as int].name);
                        }
                    }
                }
                Some(prev)
            },
            None => {
                proof {
                    lemma_map_of_push(vs, medicine@);
                }
                self.records.push(medicine);
                self.dirty = true;
                proof {
                    let vs2 = med_views(self.records@);
                    assert(vs2 =~= vs.push(medicine@));
                    assert forall|a: int, b: int| 0 <= a < b < vs2.len() implies vs2[a].name
                        != vs2[b].name by {
                        if b < vs.len() {
                            assert(vs[a].name != vs[b].name);
                        } else {
                            assert(vs2[b] == medicine@);
                            assert(vs[a].name != medicine@.name);
                        }
                    }
                }
                None
            },
        }
    }

    /// Looks up a record by name and hands back a copy; the store is not
    /// changed and nothing is written.
    pub fn search(&self, name: &str) -> (r: Option<Medicine>)
        requires
            self.wf(),
        ensures
            match r {
                Some(m) => self.as_map().contains_key(name@) && m@ == self.as_map()[name@],
                None => !self.as_map().contains_key(name@),
            },
    {
        let key = String::from_str(name);
        proof {
            lemma_map_of_contains(med_views(self.records@), name@);
        }
        match Self::find(&self.records, &key) {
            Some(i) => {
                proof {
                    lemma_map_of_index(med_views(self.records@), i as int);
                }
                Some(self.records[i].clone())
            },
            None => None,
        }
    }

    /// Removes and hands back the record under a name, if any.  In-memory
    /// only: nothing is written until the next flush.
    pub fn delete(&mut self, name: &str) -> (r: Option<Medicine>)
        requires
            old(self).wf(),
        ensures
            final(self).wf(),
            final(self).as_map() == old(self).as_map().remove(name@),
            match r {
                Some(m) => old(self).as_map().contains_key(name@)
                    && m@ == old(self).as_map()[name@] && final(self).dirty,
                None => !old(self).as_map().contains_key(name@) && *final(self) == *old(self),
            },
    {
        let key = String::from_str(name);
        let ghost vs = med_views(self.records@);
        proof {
            lemma_map_of_contains(vs, name@);
        }
        match Self::find(&self.records, &key) {
            Some(i) => {
                proof {
                    lemma_map_of_index(vs, i as int);
                    lemma_map_of_remove(vs, i as int);
                }
                let m = self.records.remove(i);
                self.dirty = true;
                proof {
                    let vs2 = med_views(self.records@);
                    assert(vs2 =~= vs.remove(i as int));
                    assert forall|a: int, b: int| 0 <= a < b < vs2.len() implies vs2[a].name
                        != vs2[b].name by {
                        let a0 = if a < i as int {
                            a
                        } else {
                            a + 1
                        };
                        let b0 = if b < i as int {
                            b
                        } else {
                            b + 1
                        };
                        assert(vs2[a] == vs[a0]);
                        assert(vs2[b] == vs[b0]);
                        assert(vs[a0].name != vs[b0].name);
                    }
                }
                Some(m)
            },
            None => {
                proof {
                    assert(self.as_map() =~= self.as_map().remove(name@));
                }
                None
            },
        }
    }

    /// Serializes the store into its persistence unit when it changed
    /// since the last flush; an unchanged store leaves the unit exactly as
    /// it was, so the unit's write stays a no-op.  The unit's own write
    /// cycle then carries the text to disk.
    pub fn flush(&mut self, database: &mut Database)
        requires
            old(self).wf(),
        ensures
            final(self).wf(),
            final(self).records@ == old(self).records@,
            !final(self).dirty,
            old(self).dirty ==> final(database).name@ == old(database).name@
                && final(database).data@ == encode_records(med_views(old(self).records@))
                && final(database).dirty,
            !old(self).dirty ==> *final(database) == *old(database),
    {
        if self.dirty {
            let text = encode_store(&self.records);
            database.update(text);
            self.dirty = false;
        }
    }
}

} // verus!
