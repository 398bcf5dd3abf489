//! Data-flow diagram (DFD) symbols.
use vstd::prelude::*;

verus! {

/// The `dataflow` symbol plugin.
pub struct Dataflow;

impl Dataflow {
    /// The qualifier in `"id.symbol"` names.
    pub fn id(&self) -> (s: &'static str)
        ensures
            s@ == "dataflow"@,
    {
        "dataflow"
    }

    /// One-line description of the plugin.
    pub fn description(&self) -> (s: &'static str)
        ensures
            s@ == "Data-flow diagram (DFD) symbols: process, entity, store, flow, trust boundary."@,
    {
        "Data-flow diagram (DFD) symbols: process, entity, store, flow, trust boundary."
    }
}

/// The `dataflow.process` symbol.
pub struct Process;

impl Process {
    /// The symbol's name within its plugin.
    pub fn name(&self) -> (s: &'static str)
        ensures
            s@ == "process"@,
    {
        "process"
    }

    /// Human-readable one-line description.
    pub fn description(&self) -> (s: &'static str)
        ensures
            s@ == "A DFD process (circle) with a `label` and optional `number`."@,
    {
        "A DFD process (circle) with a `label` and optional `number`."
    }
}

/// The `dataflow.entity` symbol.
pub struct Entity;

impl Entity {
    /// The symbol's name within its plugin.
    pub fn name(&self) -> (s: &'static str)
        ensures
            s@ == "entity"@,
    {
        "entity"
    }

    /// Human-readable one-line description.
    pub fn description(&self) -> (s: &'static str)
        ensures
            s@ == "An external entity (rectangle) with a `label`."@,
    {
        "An external entity (rectangle) with a `label`."
    }
}

/// The `dataflow.store` symbol.
pub struct Store;

impl Store {
    /// The symbol's name within its plugin.
    pub fn name(&self) -> (s: &'static str)
        ensures
            s@ == "store"@,
    {
        "store"
    }

    /// Human-readable one-line description.
    pub fn description(&self) -> (s: &'static str)
        ensures
            s@ == "A data store (open-ended rectangle) with a `number` cell and a `label`."@,
    {
        "A data store (open-ended rectangle) with a `number` cell and a `label`."
    }
}

/// The `dataflow.flow` symbol.
pub struct Flow;

impl Flow {
    /// The symbol's name within its plugin.
    pub fn name(&self) -> (s: &'static str)
        ensures
            s@ == "flow"@,
    {
        "flow"
    }

    /// Human-readable one-line description.
    pub fn description(&self) -> (s: &'static str)
        ensures
            s@ == "A standalone labeled data-flow arrow from port `a` (left) to `b` (right)."@,
    {
        "A standalone labeled data-flow arrow from port `a` (left) to `b` (right)."
    }
}

/// The `dataflow.boundary` symbol.
pub struct Boundary;

impl Boundary {
    /// The symbol's name within its plugin.
    pub fn name(&self) -> (s: &'static str)
        ensures
            s@ == "boundary"@,
    {
        "boundary"
    }

    /// Human-readable one-line description.
    pub fn description(&self) -> (s: &'static str)
        ensures
            s@ == "A trust boundary: a dashed rounded box with a corner `label`. Set width/height to wrap content."@,
    {
        "A trust boundary: a dashed rounded box with a corner `label`. Set width/height to wrap content."
    }
}


} // verus!
