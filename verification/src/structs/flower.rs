//! Iris flowers: four measurements and a species.

use crate::structs::{one_hot, Classifier, Data};
use vstd::prelude::*;

verus! {

/// The species of an iris flower.
#[derive(Debug, Clone, Copy, PartialEq, Eq, Structural)]
pub enum FlowerName {
    IrisSetosa,
    IrisVersicolor,
    IrisVirginica,
}

/// A class number that names no species.
#[derive(Debug, Clone, Copy, PartialEq, Eq)]
pub struct InvalidClass {
    pub num: u8,
}

impl Classifier for FlowerName {
    open spec fn class_of(&self) -> u8 {
        match *self {
            FlowerName::IrisSetosa => 0,
            FlowerName::IrisVersicolor => 1,
            FlowerName::IrisVirginica => 2,
        }
    }

    fn classify(&self) -> (r: u8) {
        match *self {
            FlowerName::IrisSetosa => 0,
            FlowerName::IrisVersicolor => 1,
            FlowerName::IrisVirginica => 2,
        }
    }
}

impl FlowerName {
    /// The species with the given class number.
    pub fn declassify(num: u8) -> (r: Result<FlowerName, InvalidClass>)
        ensures
            num < 3 ==> r.is_ok() && r.unwrap().class_of() == num,
            num >= 3 ==> r == Err::<FlowerName, InvalidClass>(InvalidClass { num }),
    {
        match num {
            0 => Ok(FlowerName::IrisSetosa),
            1 => Ok(FlowerName::IrisVersicolor),
            2 => Ok(FlowerName::IrisVirginica),
            _ => Err(InvalidClass { num }),
        }
    }
}

/// Every species is found again from its class number.
pub proof fn lemma_declassify_classify(name: FlowerName)
    ensures
        name.class_of() < 3,
        forall|other: FlowerName| other.class_of() == name.class_of() ==> other == name,
{
}

/// An iris flower: its species and four measurements, each a scalar.
#[derive(Debug, Clone, Copy)]
pub struct Flower {
    pub name: FlowerName,
    pub sepal_length: u32,
    pub sepal_width: u32,
    pub petal_length: u32,
    pub petal_width: u32,
}

impl Flower {
    /// A flower of the given species and measurements.
    pub fn new(
        name: FlowerName,
        sepal_length: u32,
        sepal_width: u32,
        petal_length: u32,
        petal_width: u32,
    ) -> (flower: Flower)
        ensures
            flower == (Flower { name, sepal_length, sepal_width, petal_length, petal_width }),
    {
        Flower { name, sepal_length, sepal_width, petal_length, petal_width }
    }

    /// The four measurements in the order sepal length, sepal width, petal
    /// length, petal width.
    pub open spec fn measurements(self) -> Seq<u32> {
        seq![self.sepal_length, self.sepal_width, self.petal_length, self.petal_width]
    }

    /// The four measurements as a vector.
    pub fn to_vector(&self) -> (r: Vec<u32>)
        ensures
            r@ == self.measurements(),
    {
        let mut v: Vec<u32> = Vec::new();
        v.push(self.sepal_length);
        v.push(self.sepal_width);
        v.push(self.petal_length);
        v.push(self.petal_width);
        assert(v@ =~= self.measurements());
        v
    }

    /// The flower as a sample: its measurements as input, its species as one
    /// of three classes.
    pub fn to_data(&self) -> (d: Data)
        ensures
            d@.input == self.measurements(),
            d@.class_vector == one_hot(3, self.name.class_of() as int),
    {
        Data::new(self.to_vector(), self.name.classify(), 3)
    }
}

impl From<Flower> for Data {
    /// The flower as a sample.
    fn from(flower: Flower) -> (d: Data)
        ensures
            d@.input == flower.measurements(),
            d@.class_vector == one_hot(3, flower.name.class_of() as int),
    {
        flower.to_data()
    }
}

impl vstd::std_specs::convert::FromSpecImpl<Flower> for Data {
    open spec fn obeys_from_spec() -> bool {
        false
    }

    open spec fn from_spec(flower: Flower) -> Data {
        arbitrary()
    }
}

} // verus!
