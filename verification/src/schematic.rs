//! Schematic (electronic) symbols: two-terminal parts, ground, junction, and a generic IC.
use vstd::prelude::*;
use crate::symbols::{opposite, Dir};
use crate::text_util::{chars_of, eq_str};

verus! {

/// The `schematic` symbol plugin.
pub struct Schematic;

impl Schematic {
    /// The qualifier in `"id.symbol"` names.
    pub fn id(&self) -> (s: &'static str)
        ensures
            s@ == "schematic"@,
    {
        "schematic"
    }

    /// One-line description of the plugin.
    pub fn description(&self) -> (s: &'static str)
        ensures
            s@ == "Common electronic schematic symbols (resistor, capacitor, IC, ...)."@,
    {
        "Common electronic schematic symbols (resistor, capacitor, IC, ...)."
    }
}

/// The `schematic.resistor` symbol.
pub struct Resistor;

impl Resistor {
    /// The symbol's name within its plugin.
    pub fn name(&self) -> (s: &'static str)
        ensures
            s@ == "resistor"@,
    {
        "resistor"
    }

    /// Human-readable one-line description.
    pub fn description(&self) -> (s: &'static str)
        ensures
            s@ == "Resistor (ANSI zig-zag). `ohms` is drawn as the value label."@,
    {
        "Resistor (ANSI zig-zag). `ohms` is drawn as the value label."
    }
}

/// The `schematic.capacitor` symbol.
pub struct Capacitor;

impl Capacitor {
    /// The symbol's name within its plugin.
    pub fn name(&self) -> (s: &'static str)
        ensures
            s@ == "capacitor"@,
    {
        "capacitor"
    }

    /// Human-readable one-line description.
    pub fn description(&self) -> (s: &'static str)
        ensures
            s@ == "Capacitor (two parallel plates). `farads` is drawn as the value label."@,
    {
        "Capacitor (two parallel plates). `farads` is drawn as the value label."
    }
}

/// The `schematic.inductor` symbol.
pub struct Inductor;

impl Inductor {
    /// The symbol's name within its plugin.
    pub fn name(&self) -> (s: &'static str)
        ensures
            s@ == "inductor"@,
    {
        "inductor"
    }

    /// Human-readable one-line description.
    pub fn description(&self) -> (s: &'static str)
        ensures
            s@ == "Inductor (series of humps). `henries` is drawn as the value label."@,
    {
        "Inductor (series of humps). `henries` is drawn as the value label."
    }
}

/// The `schematic.diode` symbol.
pub struct Diode;

impl Diode {
    /// The symbol's name within its plugin.
    pub fn name(&self) -> (s: &'static str)
        ensures
            s@ == "diode"@,
    {
        "diode"
    }

    /// Human-readable one-line description.
    pub fn description(&self) -> (s: &'static str)
        ensures
            s@ == "Diode (triangle + cathode bar), anode `a` to cathode `b`."@,
    {
        "Diode (triangle + cathode bar), anode `a` to cathode `b`."
    }
}

/// The `schematic.vsource` symbol.
pub struct VoltageSource;

impl VoltageSource {
    /// The symbol's name within its plugin.
    pub fn name(&self) -> (s: &'static str)
        ensures
            s@ == "vsource"@,
    {
        "vsource"
    }

    /// Human-readable one-line description.
    pub fn description(&self) -> (s: &'static str)
        ensures
            s@ == "Voltage source (circle with + / -). `volts` is drawn as the value label."@,
    {
        "Voltage source (circle with + / -). `volts` is drawn as the value label."
    }
}

/// The `schematic.switch` symbol.
pub struct Switch;

impl Switch {
    /// The symbol's name within its plugin.
    pub fn name(&self) -> (s: &'static str)
        ensures
            s@ == "switch"@,
    {
        "switch"
    }

    /// Human-readable one-line description.
    pub fn description(&self) -> (s: &'static str)
        ensures
            s@ == "SPST switch (open). `label` is drawn alongside."@,
    {
        "SPST switch (open). `label` is drawn alongside."
    }
}

/// The `schematic.ground` symbol.
pub struct Ground;

impl Ground {
    /// The symbol's name within its plugin.
    pub fn name(&self) -> (s: &'static str)
        ensures
            s@ == "ground"@,
    {
        "ground"
    }

    /// Human-readable one-line description.
    pub fn description(&self) -> (s: &'static str)
        ensures
            s@ == "Ground symbol; single port `a`. `orientation` points the lead up (default)/down/left/right."@,
    {
        "Ground symbol; single port `a`. `orientation` points the lead up (default)/down/left/right."
    }
}

/// The `schematic.junction` symbol.
pub struct Junction;

impl Junction {
    /// The symbol's name within its plugin.
    pub fn name(&self) -> (s: &'static str)
        ensures
            s@ == "junction"@,
    {
        "junction"
    }

    /// Human-readable one-line description.
    pub fn description(&self) -> (s: &'static str)
        ensures
            s@ == "A filled wire junction dot; port `c` at its center."@,
    {
        "A filled wire junction dot; port `c` at its center."
    }
}

/// The `schematic.ic` symbol.
pub struct Ic;

impl Ic {
    /// The symbol's name within its plugin.
    pub fn name(&self) -> (s: &'static str)
        ensures
            s@ == "ic"@,
    {
        "ic"
    }

    /// Human-readable one-line description.
    pub fn description(&self) -> (s: &'static str)
        ensures
            s@ == "Generic IC / chip with a `name` and named pins on each side (left_pins, right_pins, top_pins, bottom_pins). Per-side `*_spacing` (px) spreads the pins out."@,
    {
        "Generic IC / chip with a `name` and named pins on each side (left_pins, right_pins, top_pins, bottom_pins). Per-side `*_spacing` (px) spreads the pins out."
    }
}

/// Which way a part faces. For two-terminal parts this is the direction of travel from the
/// start lead (`a`) to the end lead (`b`); `Right` is the natural, unrotated layout.
#[derive(Clone, Copy, PartialEq, Eq, Debug, Structural)]
pub enum Facing {
    Right,
    Left,
    Up,
    Down,
}

/// The port direction at the end lead of a part facing `f`.
pub open spec fn facing_dir(f: Facing) -> Dir {
    match f {
        Facing::Right => Dir::Right,
        Facing::Left => Dir::Left,
        Facing::Up => Dir::Up,
        Facing::Down => Dir::Down,
    }
}

impl Facing {
    pub fn is_horizontal(self) -> (b: bool)
        ensures
            b == (self == Facing::Right || self == Facing::Left),
    {
        match self {
            Facing::Right | Facing::Left => true,
            _ => false,
        }
    }

    /// Port directions for the start (`a`) and end (`b`) leads given this facing: the end lead
    /// faces the way the part faces, the start lead the opposite way.
    pub fn port_dirs(self) -> (r: (Dir, Dir))
        ensures
            r.1 == facing_dir(self),
            r.0 == opposite(r.1),
    {
        match self {
            Facing::Right => (Dir::Left, Dir::Right),
            Facing::Left => (Dir::Right, Dir::Left),
            Facing::Down => (Dir::Up, Dir::Down),
            Facing::Up => (Dir::Down, Dir::Up),
        }
    }
}

/// `orientation` for axis-symmetric parts (`horizontal | vertical`, default horizontal).
pub fn axis_facing(orientation: &str) -> (f: Facing)
    ensures
        f == (if orientation@ == "vertical"@ {
            Facing::Down
        } else {
            Facing::Right
        }),
{
    if eq_str(chars_of(orientation).as_slice(), "vertical") {
        Facing::Down
    } else {
        Facing::Right
    }
}

/// `orientation` for polarized parts (`right | left | up | down`); anything else is `default`.
pub fn dir_facing(orientation: &str, default: Facing) -> (f: Facing)
    ensures
        f == (if orientation@ == "left"@ {
            Facing::Left
        } else if orientation@ == "up"@ {
            Facing::Up
        } else if orientation@ == "down"@ {
            Facing::Down
        } else if orientation@ == "right"@ {
            Facing::Right
        } else {
            default
        }),
{
    let v = chars_of(orientation);
    if eq_str(v.as_slice(), "left") {
        Facing::Left
    } else if eq_str(v.as_slice(), "up") {
        Facing::Up
    } else if eq_str(v.as_slice(), "down") {
        Facing::Down
    } else if eq_str(v.as_slice(), "right") {
        Facing::Right
    } else {
        default
    }
}

/// The way a ground symbol's lead points (`orientation`, default up).
pub fn ground_dir(orientation: &str) -> (d: Dir)
    ensures
        d == (if orientation@ == "down"@ {
            Dir::Down
        } else if orientation@ == "left"@ {
            Dir::Left
        } else if orientation@ == "right"@ {
            Dir::Right
        } else {
            Dir::Up
        }),
{
    let v = chars_of(orientation);
    if eq_str(v.as_slice(), "down") {
        Dir::Down
    } else if eq_str(v.as_slice(), "left") {
        Dir::Left
    } else if eq_str(v.as_slice(), "right") {
        Dir::Right
    } else {
        Dir::Up
    }
}

} // verus!
