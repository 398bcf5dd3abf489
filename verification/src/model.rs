//! The layout vocabulary of the diagram model: alignment, distribution, direction,
//! connection routing and arrowheads, and port references.
use vstd::prelude::*;

verus! {

/// Cross-axis alignment of children within a container.
#[derive(Debug, Clone, Copy, PartialEq, Eq, Structural)]
pub enum Align {
    Start,
    Center,
    End,
    /// Stretch children to fill the cross axis.
    Stretch,
}

impl Default for Align {
    fn default() -> (r: Self)
        ensures
            r == Align::Start,
    {
        Align::Start
    }
}

/// Main-axis distribution of children within a container.
#[derive(Debug, Clone, Copy, PartialEq, Eq, Structural)]
pub enum Justify {
    Start,
    Center,
    End,
    SpaceBetween,
    SpaceAround,
}

impl Default for Justify {
    fn default() -> (r: Self)
        ensures
            r == Justify::Start,
    {
        Justify::Start
    }
}

/// Layout direction of a container.
#[derive(Debug, Clone, Copy, PartialEq, Eq, Structural)]
pub enum Direction {
    /// Lay children out left-to-right (`hbox`).
    Row,
    /// Lay children out top-to-bottom (`vbox`).
    Column,
    /// Stack children at the same origin (`box`), sized to the largest.
    Stack,
}

/// Connection routing style.
#[derive(Debug, Clone, Copy, PartialEq, Eq, Structural)]
pub enum Routing {
    Straight,
    /// Right-angle (Manhattan) routing.
    Orthogonal,
}

impl Default for Routing {
    fn default() -> (r: Self)
        ensures
            r == Routing::Straight,
    {
        Routing::Straight
    }
}

/// Which endpoints get arrowheads.
#[derive(Debug, Clone, Copy, PartialEq, Eq, Structural)]
pub enum Arrow {
    /// No arrowheads.
    Neither,
    End,
    Both,
}

impl Default for Arrow {
    fn default() -> (r: Self)
        ensures
            r == Arrow::End,
    {
        Arrow::End
    }
}

/// A reference to a connection endpoint: a node id and optional named port.
#[derive(Debug, Clone)]
pub struct PortRef {
    pub node: String,
    pub port: Option<String>,
}

} // verus!
