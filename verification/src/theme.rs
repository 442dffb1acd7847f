//! Colours of the interface, as red, green and blue.

use vstd::prelude::*;
use crate::nodes::RfNode;

verus! {

/// Dark theme colours.
pub struct Theme;

impl Theme {
    // Background and surface.
    pub const BG_DARK: [u8; 3] = [18, 18, 24];

    pub const BG_PANEL: [u8; 3] = [28, 28, 38];

    pub const BG_CARD: [u8; 3] = [38, 38, 52];

    // Accents.
    pub const ACCENT_PRIMARY: [u8; 3] = [0, 164, 239];

    pub const ACCENT_SECONDARY: [u8; 3] = [118, 185, 0];

    pub const ACCENT_WARN: [u8; 3] = [255, 170, 0];

    pub const ACCENT_ERROR: [u8; 3] = [220, 50, 50];

    // Nyquist zones.
    pub const ZONE_1: [u8; 3] = [65, 135, 255];

    pub const ZONE_2: [u8; 3] = [255, 150, 50];

    pub const ZONE_3: [u8; 3] = [160, 90, 255];

    pub const ZONE_4: [u8; 3] = [50, 200, 120];

    pub const ZONE_5: [u8; 3] = [255, 80, 120];

    // Nodes.
    pub const NODE_SOURCE: [u8; 3] = [50, 180, 80];

    pub const NODE_PASSIVE: [u8; 3] = [70, 130, 200];

    pub const NODE_ACTIVE: [u8; 3] = [220, 140, 40];

    pub const NODE_SINK: [u8; 3] = [200, 60, 60];

    // Status.
    pub const ENABLED: [u8; 3] = [80, 200, 100];

    pub const DISABLED: [u8; 3] = [100, 100, 110];

    // Text.
    pub const TEXT_PRIMARY: [u8; 3] = [220, 220, 230];

    pub const TEXT_SECONDARY: [u8; 3] = [140, 140, 160];

    pub const TEXT_LABEL: [u8; 3] = [180, 180, 200];

    /// The colour for a Nyquist zone number, counted from one; all zones past the fourth share
    /// one.
    pub fn zone_color(zone: usize) -> (color: [u8; 3])
        ensures
            color == if zone == 1 {
                Theme::ZONE_1
            } else if zone == 2 {
                Theme::ZONE_2
            } else if zone == 3 {
                Theme::ZONE_3
            } else if zone == 4 {
                Theme::ZONE_4
            } else {
                Theme::ZONE_5
            },
    {
        match zone {
            1 => Theme::ZONE_1,
            2 => Theme::ZONE_2,
            3 => Theme::ZONE_3,
            4 => Theme::ZONE_4,
            _ => Theme::ZONE_5,
        }
    }

    /// The colour a node has by what it does to a signal.
    pub open spec fn role_color(node: RfNode) -> [u8; 3] {
        match node {
            RfNode::SignalSource(_) => Theme::NODE_SOURCE,
            RfNode::Amplifier(_) | RfNode::Mixer(_) => Theme::NODE_ACTIVE,
            RfNode::AdcInput(_) => Theme::NODE_SINK,
            _ => Theme::NODE_PASSIVE,
        }
    }

    /// The colour of a node's header. A stage in trouble recolours its own header: a loop comes
    /// before compression.
    pub fn header_color(node: &RfNode, in_cycle: bool, compressing: bool) -> (color: [u8; 3])
        ensures
            color == if in_cycle {
                Theme::ACCENT_ERROR
            } else if compressing {
                Theme::ACCENT_WARN
            } else {
                Theme::role_color(*node)
            },
    {
        if in_cycle {
            Theme::ACCENT_ERROR
        } else if compressing {
            Theme::ACCENT_WARN
        } else {
            match node {
                RfNode::SignalSource(_) => Theme::NODE_SOURCE,
                RfNode::Amplifier(_) | RfNode::Mixer(_) => Theme::NODE_ACTIVE,
                RfNode::AdcInput(_) => Theme::NODE_SINK,
                _ => Theme::NODE_PASSIVE,
            }
        }
    }
}

/// Colours by the part a node plays: a node that takes no signal in is coloured as a source and
/// one that gives none out as a sink, and whatever stands between is coloured as active if it
/// amplifies or mixes and as passive if not.
pub proof fn colors_follow_the_part_a_node_plays(node: RfNode)
    requires
        node matches RfNode::Combiner(c) ==> c.model.num_inputs > 0,
        node matches RfNode::Splitter(s) ==> s.model.num_outputs > 0,
    ensures
        Theme::role_color(node) == Theme::NODE_SOURCE <==> node.inputs() == 0,
        Theme::role_color(node) == Theme::NODE_SINK <==> node.outputs() == 0,
        Theme::role_color(node) == Theme::NODE_ACTIVE <==> node is Amplifier || node is Mixer,
{
    let colors = seq![
        Theme::NODE_SOURCE@[0],
        Theme::NODE_PASSIVE@[0],
        Theme::NODE_ACTIVE@[0],
        Theme::NODE_SINK@[0],
    ];
    assert(colors == seq![50u8, 70, 220, 200]);
}

} // verus!
