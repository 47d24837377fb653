use vstd::prelude::*;

verus! {

/// A named option standing for a value, shown `size` characters wide.
#[derive(Debug)]
pub struct MappedOption<T> {
    pub mapped: T,
    pub name: String,
    pub size: i8,
}

/// Selection state for a list of options.
#[derive(Debug)]
pub struct OptionListSelection<T> {
    pub options: Vec<MappedOption<T>>,
    pub index: u16,
}

impl<T> OptionListSelection<T> {
    /// No options, with the first index selected.
    pub fn new() -> (s: OptionListSelection<T>)
        ensures
            s.options@.len() == 0,
            s.index == 0,
    {
        OptionListSelection { options: Vec::new(), index: 0 }
    }
}

} // verus!
