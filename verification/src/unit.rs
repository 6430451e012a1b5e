//! Measurement values: a magnitude paired with a unit of measure.
//!
//! Units come in three families: a free-text approximate unit, and two
//! closed enumerations of five traditional denominations each, one for
//! weight and one for volume.

use vstd::prelude::*;
use vstd::string::StringExecFns;

verus! {

/// A quantity of a material: a magnitude and the unit it is counted in.
#[derive(Debug)]
pub struct Quantum {
    pub size: usize,
    pub unit: Unit,
}

impl Quantum {
    /// Builds a measurement value; construction never fails.
    pub fn new(size: usize, unit: Unit) -> (r: Self)
        ensures
            r.size == size,
            r.unit == unit,
    {
        Quantum { size, unit }
    }
}

/// A unit of measure: approximate (free text), weight, or volume.
#[derive(Clone, Debug)]
pub enum Unit {
    FuzzyUnit(String),
    WeightUnit(WeightUnit),
    VolumeUnit(VolumeUnit),
}

/// The canonical label of a unit, as a sequence of characters.
pub open spec fn unit_label(u: Unit) -> Seq<char> {
    match u {
        Unit::FuzzyUnit(s) => s@,
        Unit::WeightUnit(w) => weight_label(w),
        Unit::VolumeUnit(v) => volume_label(v),
    }
}

impl Unit {
    /// Renders the unit as its canonical label.
    pub fn to_text(&self) -> (r: String)
        ensures
            r@ == unit_label(*self),
    {
        match self {
            Unit::FuzzyUnit(s) => s.clone(),
            Unit::WeightUnit(w) => w.to_text(),
            Unit::VolumeUnit(v) => v.to_text(),
        }
    }
}

/// Traditional weight denominations.
#[derive(Clone, Copy, Debug)]
pub enum WeightUnit {
    Zhu,
    Liang,
    Jin,
    Jun,
    Shi,
}

/// The canonical label of a weight denomination.
pub open spec fn weight_label(w: WeightUnit) -> Seq<char> {
    match w {
        WeightUnit::Zhu => "铢"@,
        WeightUnit::Liang => "两"@,
        WeightUnit::Jin => "斤"@,
        WeightUnit::Jun => "钧"@,
        WeightUnit::Shi => "石"@,
    }
}

impl WeightUnit {
    /// Renders the denomination as its canonical label.
    pub fn to_text(&self) -> (r: String)
        ensures
            r@ == weight_label(*self),
    {
        match self {
            WeightUnit::Zhu => String::from_str("铢"),
            WeightUnit::Liang => String::from_str("两"),
            WeightUnit::Jin => String::from_str("斤"),
            WeightUnit::Jun => String::from_str("钧"),
            WeightUnit::Shi => String::from_str("石"),
        }
    }
}

/// Traditional volume denominations.
#[derive(Clone, Copy, Debug)]
pub enum VolumeUnit {
    Yue,
    Ge,
    Sheng,
    Dou,
    Hu,
}

/// The canonical label of a volume denomination.
pub open spec fn volume_label(v: VolumeUnit) -> Seq<char> {
    match v {
        VolumeUnit::Yue => "龠"@,
        VolumeUnit::Ge => "合"@,
        VolumeUnit::Sheng => "升"@,
        VolumeUnit::Dou => "斗"@,
        VolumeUnit::Hu => "斛"@,
    }
}

impl VolumeUnit {
    /// Renders the denomination as its canonical label.
    pub fn to_text(&self) -> (r: String)
        ensures
            r@ == volume_label(*self),
    {
        match self {
            VolumeUnit::Yue => String::from_str("龠"),
            VolumeUnit::Ge => String::from_str("合"),
            VolumeUnit::Sheng => String::from_str("升"),
            VolumeUnit::Dou => String::from_str("斗"),
            VolumeUnit::Hu => String::from_str("斛"),
        }
    }
}

} // verus!
