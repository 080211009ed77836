//! A container for one variable of the high-level front end: its name, its
//! textual payload, and a numeric type tag.

use vstd::prelude::*;

verus! {

/// A named value the front end collects while lowering: the payload's
/// meaning depends on the type tag.
#[derive(Debug)]
pub struct Variable {
    pub variable_data: String,
    pub variable_type: u8,
    pub variable_name: String,
}

impl Variable {
    pub fn new(name: String, data: String, type_: u8) -> (r: Self)
        ensures
            r.variable_name@ == name@,
            r.variable_data@ == data@,
            r.variable_type == type_,
    {
        Variable { variable_data: data, variable_name: name, variable_type: type_ }
    }
}

} // verus!
