//! Generic shape symbols: rectangle, circle, oval, explosion callout, block arrow.
use vstd::prelude::*;
use crate::symbols::Dir;
use crate::text_util::{chars_of, eq_str};

verus! {

/// The `shapes` symbol plugin.
pub struct Shapes;

impl Shapes {
    /// The qualifier in `"id.symbol"` names.
    pub fn id(&self) -> (s: &'static str)
        ensures
            s@ == "shapes"@,
    {
        "shapes"
    }

    /// One-line description of the plugin.
    pub fn description(&self) -> (s: &'static str)
        ensures
            s@ == "Generic shapes: rectangle, circle, oval, explosion callout, and block arrow."@,
    {
        "Generic shapes: rectangle, circle, oval, explosion callout, and block arrow."
    }
}

/// The `shapes.rectangle` symbol.
pub struct Rectangle;

impl Rectangle {
    /// The symbol's name within its plugin.
    pub fn name(&self) -> (s: &'static str)
        ensures
            s@ == "rectangle"@,
    {
        "rectangle"
    }

    /// Human-readable one-line description.
    pub fn description(&self) -> (s: &'static str)
        ensures
            s@ == "A rectangle (optionally rounded via `rx`) with a `label`, `fill`, and `text_color`."@,
    {
        "A rectangle (optionally rounded via `rx`) with a `label`, `fill`, and `text_color`."
    }
}

/// The `shapes.circle` symbol.
pub struct Circle;

impl Circle {
    /// The symbol's name within its plugin.
    pub fn name(&self) -> (s: &'static str)
        ensures
            s@ == "circle"@,
    {
        "circle"
    }

    /// Human-readable one-line description.
    pub fn description(&self) -> (s: &'static str)
        ensures
            s@ == "A circle with a `label`, `fill`, and `text_color`."@,
    {
        "A circle with a `label`, `fill`, and `text_color`."
    }
}

/// The `shapes.oval` symbol.
pub struct Oval;

impl Oval {
    /// The symbol's name within its plugin.
    pub fn name(&self) -> (s: &'static str)
        ensures
            s@ == "oval"@,
    {
        "oval"
    }

    /// Human-readable one-line description.
    pub fn description(&self) -> (s: &'static str)
        ensures
            s@ == "An oval / ellipse with a `label`, `fill`, and `text_color`."@,
    {
        "An oval / ellipse with a `label`, `fill`, and `text_color`."
    }
}

/// The `shapes.explosion` symbol.
pub struct Explosion;

impl Explosion {
    /// The symbol's name within its plugin.
    pub fn name(&self) -> (s: &'static str)
        ensures
            s@ == "explosion"@,
    {
        "explosion"
    }

    /// Human-readable one-line description.
    pub fn description(&self) -> (s: &'static str)
        ensures
            s@ == "A starburst / explosion callout with a `label`, `fill`, `text_color`, and `spikes` count."@,
    {
        "A starburst / explosion callout with a `label`, `fill`, `text_color`, and `spikes` count."
    }
}

/// The `shapes.arrow` symbol.
pub struct Arrow;

impl Arrow {
    /// The symbol's name within its plugin.
    pub fn name(&self) -> (s: &'static str)
        ensures
            s@ == "arrow"@,
    {
        "arrow"
    }

    /// Human-readable one-line description.
    pub fn description(&self) -> (s: &'static str)
        ensures
            s@ == "A big block arrow pointing right/left/up/down (`direction`), with `label`, `fill`, `text_color`. Ports: tail `a`, tip `b`."@,
    {
        "A big block arrow pointing right/left/up/down (`direction`), with `label`, `fill`, `text_color`. Ports: tail `a`, tip `b`."
    }
}

impl Arrow {
    /// The way the arrow points, from its `direction` property (default right).
    pub fn direction(direction: &str) -> (d: Dir)
        ensures
            d == (if direction@ == "left"@ {
                Dir::Left
            } else if direction@ == "up"@ {
                Dir::Up
            } else if direction@ == "down"@ {
                Dir::Down
            } else {
                Dir::Right
            }),
    {
        let v = chars_of(direction);
        if eq_str(v.as_slice(), "left") {
            Dir::Left
        } else if eq_str(v.as_slice(), "up") {
            Dir::Up
        } else if eq_str(v.as_slice(), "down") {
            Dir::Down
        } else {
            Dir::Right
        }
    }
}

} // verus!
