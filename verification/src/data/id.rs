use vstd::prelude::*;

use crate::value::{Value, ValueModel};

verus! {

#[derive(Debug, Clone, Copy, PartialEq, Eq, Structural, Hash)]
pub struct BufferId(pub usize);

#[derive(Debug, Clone, Copy, PartialEq, Eq, Structural, Hash)]
pub struct PaneId(pub usize);

#[derive(Debug, Clone, Copy, PartialEq, Eq, Structural, Hash)]
pub struct FloatId(pub usize);

impl BufferId {
    /// The value that carries the id: its number.
    pub open spec fn value_model(self) -> ValueModel {
        ValueModel::Uint(self.0 as u64)
    }

    pub fn to_value(self) -> (v: Value)
        ensures
            v@ == self.value_model(),
    {
        Value::Uint(self.0 as u64)
    }
}

} // verus!
