//! Formula records: a named recipe mapping materials to quantities.
//!
//! Like every record, a formula is identified by its `name` alone.  The
//! ingredient list is keyed by material identity, which is itself the
//! material's name: two structurally different materials with one name
//! would stand for the same ingredient, so a well-formed list never
//! carries two ingredients whose materials share a name.

use vstd::prelude::*;
use vstd::string::*;

use crate::medicine::Medicine;
use crate::unit::Quantum;

verus! {

/// One line of a formula: a material and the quantity of it.
#[derive(Debug)]
pub struct Ingredient {
    pub medicine: Medicine,
    pub quantum: Quantum,
}

/// A formula record: `name` is the identity; `prescript` maps materials,
/// by their identity, to quantities; `usage` is free text.
#[derive(Debug)]
pub struct Prescript {
    pub name: String,
    pub prescript: Vec<Ingredient>,
    pub usage: String,
}

impl Prescript {
    /// Ingredients are keyed by material identity: no two entries name
    /// the same material.
    pub open spec fn wf(&self) -> bool {
        forall|i: int, j: int|
            0 <= i < j < self.prescript@.len() ==> self.prescript@[i].medicine.name@
                != self.prescript@[j].medicine.name@
    }

    /// A formula with the given name, no ingredients and empty usage.
    pub fn new(name: &str) -> (r: Self)
        ensures
            r.name@ == name@,
            r.prescript@ == Seq::<Ingredient>::empty(),
            r.usage@ == Seq::<char>::empty(),
            r.wf(),
    {
        Prescript {
            name: String::from_str(name),
            prescript: Vec::new(),
            usage: String::new(),
        }
    }

    /// The identifying line of the record, as rendered for a reader.
    pub fn to_text(&self) -> (r: String)
        ensures
            r@ == "名称："@ + self.name@,
    {
        let mut r = String::from_str("名称：");
        r.append(self.name.as_str());
        r
    }
}

impl PartialEq for Prescript {
    /// Two formulas are the same entity exactly when their names agree.
    fn eq(&self, other: &Self) -> bool {
        self.name == other.name
    }
}

impl vstd::std_specs::cmp::PartialEqSpecImpl for Prescript {
    open spec fn obeys_eq_spec() -> bool {
        true
    }

    open spec fn eq_spec(&self, other: &Self) -> bool {
        self.name@ == other.name@
    }
}

/// The in-memory store of formula records.
pub struct Prescripts {
    pub records: Vec<Prescript>,
}

impl Prescripts {
    /// Formulas are keyed by name: no two records share one.
    pub open spec fn wf(&self) -> bool {
        forall|i: int, j: int|
            0 <= i < j < self.records@.len() ==> self.records@[i].name@ != self.records@[j].name@
    }

    /// An empty formula store.
    pub fn new() -> (r: Self)
        ensures
            r.records@ == Seq::<Prescript>::empty(),
            r.wf(),
    {
        Prescripts { records: Vec::new() }
    }
}

} // verus!
