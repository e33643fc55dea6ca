//! The uniform container that every backend reads into and writes from.

use vstd::prelude::*;

verus! {

/// How the entries of a [`Consumable`] are to be read.
#[derive(Debug, Clone, Copy, PartialEq, Eq, Structural)]
pub enum DataFormat {
    /// Delimited text: one entry per row, columns separated by a comma.
    CSV,
}

/// The characters of each string of `entries`, in order.
pub open spec fn text_of(entries: Seq<String>) -> Seq<Seq<char>> {
    Seq::new(entries.len(), |i: int| entries[i]@)
}

/// An ordered sequence of string entries. Once built it is only read.
pub struct Consumable {
    data: Vec<String>,
}

impl Consumable {
    /// The entries exactly as they were handed to [`Consumable::new`].
    pub closed spec fn entries(&self) -> Vec<String> {
        self.data
    }

    /// Takes ownership of `dataset` without looking at it.
    pub fn new(dataset: Vec<String>) -> (consumable: Consumable)
        ensures
            consumable.entries() == dataset,
            consumable@ == text_of(dataset@),
    {
        Consumable { data: dataset }
    }

    /// Read access to the entries.
    pub fn get_data(&self) -> (data: &Vec<String>)
        ensures
            *data == self.entries(),
            text_of(data@) == self@,
    {
        &self.data
    }
}

impl View for Consumable {
    type V = Seq<Seq<char>>;

    open spec fn view(&self) -> Seq<Seq<char>> {
        text_of(self.entries()@)
    }
}

} // verus!
