//! Fixture types, patched fixtures and groups: the vocabulary of a rig.
use vstd::prelude::*;

use crate::ids::{FixtureId, GroupId, UniverseId, CHANNELS_PER_UNIVERSE};

verus! {

/// One controllable parameter of a fixture.
///
/// The declaration order is the order every attribute table in the desk uses,
/// and [`AttributeType::code`] is the position in it.
#[derive(Debug, Clone, Copy, PartialEq, Eq, Structural, PartialOrd, Ord, Hash)]
pub enum AttributeType {
    /// Intensity.
    Dimmer,
    /// Shutter and strobe.
    Shutter,
    /// Red emitter.
    Red,
    /// Green emitter.
    Green,
    /// Blue emitter.
    Blue,
    /// White emitter.
    White,
    /// Amber emitter.
    Amber,
    /// Ultraviolet emitter.
    Uv,
    /// Cyan flag.
    Cyan,
    /// Magenta flag.
    Magenta,
    /// Yellow flag.
    Yellow,
    /// Colour wheel.
    ColorWheel,
    /// Colour temperature correction.
    Cto,
    /// Horizontal position.
    Pan,
    /// Vertical position.
    Tilt,
    /// Gobo wheel.
    Gobo,
    /// Gobo rotation.
    GoboRotation,
    /// Prism.
    Prism,
    /// Focus.
    Focus,
    /// Zoom.
    Zoom,
    /// Iris.
    Iris,
    /// Frost.
    Frost,
    /// Movement speed.
    Speed,
    /// Lamp and reset control.
    Control,
}

/// How many attribute types there are.
pub const ATTRIBUTE_COUNT: usize = 24;

/// The position of an attribute in the attribute order.
pub open spec fn attribute_code(a: AttributeType) -> u16 {
    match a {
        AttributeType::Dimmer => 0,
        AttributeType::Shutter => 1,
        AttributeType::Red => 2,
        AttributeType::Green => 3,
        AttributeType::Blue => 4,
        AttributeType::White => 5,
        AttributeType::Amber => 6,
        AttributeType::Uv => 7,
        AttributeType::Cyan => 8,
        AttributeType::Magenta => 9,
        AttributeType::Yellow => 10,
        AttributeType::ColorWheel => 11,
        AttributeType::Cto => 12,
        AttributeType::Pan => 13,
        AttributeType::Tilt => 14,
        AttributeType::Gobo => 15,
        AttributeType::GoboRotation => 16,
        AttributeType::Prism => 17,
        AttributeType::Focus => 18,
        AttributeType::Zoom => 19,
        AttributeType::Iris => 20,
        AttributeType::Frost => 21,
        AttributeType::Speed => 22,
        AttributeType::Control => 23,
    }
}

/// What an attribute is called, as a message spells it.
pub open spec fn attribute_name(a: AttributeType) -> Seq<char> {
    match a {
        AttributeType::Dimmer => "Dimmer"@,
        AttributeType::Shutter => "Shutter"@,
        AttributeType::Red => "Red"@,
        AttributeType::Green => "Green"@,
        AttributeType::Blue => "Blue"@,
        AttributeType::White => "White"@,
        AttributeType::Amber => "Amber"@,
        AttributeType::Uv => "Uv"@,
        AttributeType::Cyan => "Cyan"@,
        AttributeType::Magenta => "Magenta"@,
        AttributeType::Yellow => "Yellow"@,
        AttributeType::ColorWheel => "ColorWheel"@,
        AttributeType::Cto => "Cto"@,
        AttributeType::Pan => "Pan"@,
        AttributeType::Tilt => "Tilt"@,
        AttributeType::Gobo => "Gobo"@,
        AttributeType::GoboRotation => "GoboRotation"@,
        AttributeType::Prism => "Prism"@,
        AttributeType::Focus => "Focus"@,
        AttributeType::Zoom => "Zoom"@,
        AttributeType::Iris => "Iris"@,
        AttributeType::Frost => "Frost"@,
        AttributeType::Speed => "Speed"@,
        AttributeType::Control => "Control"@,
    }
}

/// How playbacks combine for one attribute.
#[derive(Debug, Clone, Copy, PartialEq, Eq, Structural, PartialOrd, Ord, Hash)]
pub enum MergeMode {
    /// Highest takes precedence.
    Htp,
    /// Latest takes precedence.
    Ltp,
}

/// The encoder bank an attribute is filed under.
#[derive(Debug, Clone, Copy, PartialEq, Eq, Structural, PartialOrd, Ord, Hash)]
pub enum FeatureGroup {
    /// Intensity. The only bank the masters scale.
    Dimmer,
    /// Pan and tilt.
    Position,
    /// Colour mixing and wheels.
    Color,
    /// Gobos, prisms, shutters.
    Beam,
    /// Focus, zoom, iris.
    Focus,
    /// Everything else.
    Control,
}

impl Default for FeatureGroup {
    /// A fresh programmer works in the intensity bank.
    fn default() -> (r: FeatureGroup)
        ensures
            r == FeatureGroup::Dimmer,
    {
        FeatureGroup::Dimmer
    }
}

impl AttributeType {
    /// Every attribute, in attribute order.
    pub const ALL: [AttributeType; 24] = [
        AttributeType::Dimmer,
        AttributeType::Shutter,
        AttributeType::Red,
        AttributeType::Green,
        AttributeType::Blue,
        AttributeType::White,
        AttributeType::Amber,
        AttributeType::Uv,
        AttributeType::Cyan,
        AttributeType::Magenta,
        AttributeType::Yellow,
        AttributeType::ColorWheel,
        AttributeType::Cto,
        AttributeType::Pan,
        AttributeType::Tilt,
        AttributeType::Gobo,
        AttributeType::GoboRotation,
        AttributeType::Prism,
        AttributeType::Focus,
        AttributeType::Zoom,
        AttributeType::Iris,
        AttributeType::Frost,
        AttributeType::Speed,
        AttributeType::Control,
    ];

    /// The position of this attribute in the attribute order.
    pub fn code(self) -> (r: u16)
        ensures
            r == attribute_code(self),
    {
        match self {
            AttributeType::Dimmer => 0,
            AttributeType::Shutter => 1,
            AttributeType::Red => 2,
            AttributeType::Green => 3,
            AttributeType::Blue => 4,
            AttributeType::White => 5,
            AttributeType::Amber => 6,
            AttributeType::Uv => 7,
            AttributeType::Cyan => 8,
            AttributeType::Magenta => 9,
            AttributeType::Yellow => 10,
            AttributeType::ColorWheel => 11,
            AttributeType::Cto => 12,
            AttributeType::Pan => 13,
            AttributeType::Tilt => 14,
            AttributeType::Gobo => 15,
            AttributeType::GoboRotation => 16,
            AttributeType::Prism => 17,
            AttributeType::Focus => 18,
            AttributeType::Zoom => 19,
            AttributeType::Iris => 20,
            AttributeType::Frost => 21,
            AttributeType::Speed => 22,
            AttributeType::Control => 23,
        }
    }

    /// What this attribute is called.
    pub fn name(self) -> (r: &'static str)
        ensures
            r@ == attribute_name(self),
    {
        match self {
            AttributeType::Dimmer => "Dimmer",
            AttributeType::Shutter => "Shutter",
            AttributeType::Red => "Red",
            AttributeType::Green => "Green",
            AttributeType::Blue => "Blue",
            AttributeType::White => "White",
            AttributeType::Amber => "Amber",
            AttributeType::Uv => "Uv",
            AttributeType::Cyan => "Cyan",
            AttributeType::Magenta => "Magenta",
            AttributeType::Yellow => "Yellow",
            AttributeType::ColorWheel => "ColorWheel",
            AttributeType::Cto => "Cto",
            AttributeType::Pan => "Pan",
            AttributeType::Tilt => "Tilt",
            AttributeType::Gobo => "Gobo",
            AttributeType::GoboRotation => "GoboRotation",
            AttributeType::Prism => "Prism",
            AttributeType::Focus => "Focus",
            AttributeType::Zoom => "Zoom",
            AttributeType::Iris => "Iris",
            AttributeType::Frost => "Frost",
            AttributeType::Speed => "Speed",
            AttributeType::Control => "Control",
        }
    }

    /// The merge mode an attribute of this type has unless its definition says
    /// otherwise: intensity is HTP, everything else LTP.
    pub open spec fn default_merge_mode_spec(self) -> MergeMode {
        if self == AttributeType::Dimmer { MergeMode::Htp } else { MergeMode::Ltp }
    }

    /// See [`Self::default_merge_mode_spec`].
    pub fn default_merge_mode(self) -> (r: MergeMode)
        ensures
            r == self.default_merge_mode_spec(),
    {
        if self == AttributeType::Dimmer { MergeMode::Htp } else { MergeMode::Ltp }
    }
}

/// Two attributes with the same code are the same attribute.
pub proof fn lemma_attribute_code_injective(a: AttributeType, b: AttributeType)
    ensures
        attribute_code(a) == attribute_code(b) <==> a == b,
{
}

/// One attribute of a fixture type: where it sits and how it merges.
#[derive(Debug, Clone, Copy, PartialEq, Eq)]
pub struct AttributeDef {
    /// Which attribute.
    pub attribute: AttributeType,
    /// Channel offset of the coarse (or only) byte inside the footprint.
    pub coarse_offset: u16,
    /// Channel offset of the fine byte, for a sixteen-bit attribute.
    pub fine_offset: Option<u16>,
    /// The home value, `0..=65535`.
    pub default_value: u16,
    /// How playbacks combine for it.
    pub merge_mode: MergeMode,
    /// Which encoder bank it is filed under.
    pub feature_group: FeatureGroup,
    /// Whether the value is mirrored on the way out.
    pub invert: bool,
}

/// A fixture profile.
#[derive(Debug, Clone, PartialEq, Eq)]
pub struct FixtureType {
    /// The key the profile is known by.
    pub id: String,
    /// How many channels one of them occupies.
    pub footprint: u16,
    /// Its attributes.
    pub attributes: Vec<AttributeDef>,
}

/// A fixture patched into the rig.
#[derive(Debug, Clone, PartialEq, Eq)]
pub struct Fixture {
    /// Its number.
    pub id: FixtureId,
    /// The profile it instantiates.
    pub type_id: String,
    /// The universe it is patched into.
    pub universe: UniverseId,
    /// Its start address, `1..=512`.
    pub address: u16,
    /// Whether it is hung so that pan runs the other way.
    pub invert_pan: bool,
    /// Whether it is hung so that tilt runs the other way.
    pub invert_tilt: bool,
}

/// The last channel a footprint starting at `address` occupies, when it fits.
pub open spec fn last_address_spec(address: u16, footprint: u16) -> Option<u16> {
    if address == 0 || footprint == 0 || address + footprint - 1 > CHANNELS_PER_UNIVERSE {
        None
    } else {
        Some((address + footprint - 1) as u16)
    }
}

impl Fixture {
    /// The last channel this fixture occupies with a footprint of `footprint`,
    /// or `None` when address 0, an empty footprint or channel 512 stops it.
    pub fn last_address(&self, footprint: u16) -> (r: Option<u16>)
        ensures
            r == last_address_spec(self.address, footprint),
    {
        if self.address == 0 || footprint == 0 {
            return None;
        }
        let last: u32 = self.address as u32 + footprint as u32 - 1;
        if last > CHANNELS_PER_UNIVERSE as u32 {
            None
        } else {
            Some(last as u16)
        }
    }
}

/// A named set of fixtures.
#[derive(Debug, Clone, PartialEq, Eq)]
pub struct Group {
    /// Its number.
    pub id: GroupId,
    /// What an operator calls it.
    pub name: String,
    /// Its members.
    pub fixtures: Vec<FixtureId>,
}


/// Attributes come in a fixed order, intensity first, then shutter, the
/// colour mixing, the colour wheel and temperature, position, the beam, and
/// speed and control last; each is spelled by its own name; intensity merges
/// highest-takes-precedence and every other attribute latest-takes-precedence.
pub proof fn law_the_attribute_table(a: AttributeType)
    ensures
        attribute_code(AttributeType::Dimmer) == 0,
        attribute_code(AttributeType::Shutter) == 1,
        attribute_code(AttributeType::Red) == 2,
        attribute_code(AttributeType::Green) == 3,
        attribute_code(AttributeType::Blue) == 4,
        attribute_code(AttributeType::White) == 5,
        attribute_code(AttributeType::Amber) == 6,
        attribute_code(AttributeType::Uv) == 7,
        attribute_code(AttributeType::Cyan) == 8,
        attribute_code(AttributeType::Magenta) == 9,
        attribute_code(AttributeType::Yellow) == 10,
        attribute_code(AttributeType::ColorWheel) == 11,
        attribute_code(AttributeType::Cto) == 12,
        attribute_code(AttributeType::Pan) == 13,
        attribute_code(AttributeType::Tilt) == 14,
        attribute_code(AttributeType::Gobo) == 15,
        attribute_code(AttributeType::GoboRotation) == 16,
        attribute_code(AttributeType::Prism) == 17,
        attribute_code(AttributeType::Focus) == 18,
        attribute_code(AttributeType::Zoom) == 19,
        attribute_code(AttributeType::Iris) == 20,
        attribute_code(AttributeType::Frost) == 21,
        attribute_code(AttributeType::Speed) == 22,
        attribute_code(AttributeType::Control) == 23,
        attribute_name(AttributeType::Dimmer) == "Dimmer"@,
        attribute_name(AttributeType::Shutter) == "Shutter"@,
        attribute_name(AttributeType::Red) == "Red"@,
        attribute_name(AttributeType::Green) == "Green"@,
        attribute_name(AttributeType::Blue) == "Blue"@,
        attribute_name(AttributeType::White) == "White"@,
        attribute_name(AttributeType::Amber) == "Amber"@,
        attribute_name(AttributeType::Uv) == "Uv"@,
        attribute_name(AttributeType::Cyan) == "Cyan"@,
        attribute_name(AttributeType::Magenta) == "Magenta"@,
        attribute_name(AttributeType::Yellow) == "Yellow"@,
        attribute_name(AttributeType::ColorWheel) == "ColorWheel"@,
        attribute_name(AttributeType::Cto) == "Cto"@,
        attribute_name(AttributeType::Pan) == "Pan"@,
        attribute_name(AttributeType::Tilt) == "Tilt"@,
        attribute_name(AttributeType::Gobo) == "Gobo"@,
        attribute_name(AttributeType::GoboRotation) == "GoboRotation"@,
        attribute_name(AttributeType::Prism) == "Prism"@,
        attribute_name(AttributeType::Focus) == "Focus"@,
        attribute_name(AttributeType::Zoom) == "Zoom"@,
        attribute_name(AttributeType::Iris) == "Iris"@,
        attribute_name(AttributeType::Frost) == "Frost"@,
        attribute_name(AttributeType::Speed) == "Speed"@,
        attribute_name(AttributeType::Control) == "Control"@,
        a.default_merge_mode_spec() == (if a == AttributeType::Dimmer { MergeMode::Htp } else { MergeMode::Ltp }),
{
}

} // verus!
