//! Resolved device entities and the per-object info listener's parsing rules.

use vstd::prelude::*;

use crate::parse::{parse_u32, parse_u32_spec, parse_usize, parse_usize_spec, str_eq};
use crate::props::{lookup, Props};

verus! {

/// Whether a device feeds audio into the graph or takes it out: a sink is an
/// input of the graph, a source an output.
#[derive(Clone, Copy, Debug, PartialEq, Eq, Structural)]
pub enum Direction {
    Input,
    Output,
}

/// A fully resolved device entity, built once from one info event.
#[derive(Clone, Debug)]
pub struct Device {
    pub id: u32,
    pub node_name: String,
    pub nick_name: String,
    pub description: String,
    pub direction: Direction,
    pub channels: usize,
    pub buffer_limit: u32,
}

/// Mathematical model of a [`Device`].
pub ghost struct DeviceModel {
    pub id: u32,
    pub node_name: Seq<char>,
    pub nick_name: Seq<char>,
    pub description: Seq<char>,
    pub direction: Direction,
    pub channels: usize,
    pub buffer_limit: u32,
}

impl View for Device {
    type V = DeviceModel;

    open spec fn view(&self) -> DeviceModel {
        DeviceModel {
            id: self.id,
            node_name: self.node_name@,
            nick_name: self.nick_name@,
            description: self.description@,
            direction: self.direction,
            channels: self.channels,
            buffer_limit: self.buffer_limit,
        }
    }
}

/// The direction a media class names, if the class is relevant at all.
pub open spec fn direction_of_class(c: Seq<char>) -> Option<Direction> {
    if c == "Audio/Sink"@ {
        Some(Direction::Input)
    } else if c == "Audio/Source"@ {
        Some(Direction::Output)
    } else {
        None
    }
}

/// A string property, or the literal `unknown` marker when it is absent.
pub open spec fn prop_or_unknown(m: Seq<(Seq<char>, Seq<char>)>, key: Seq<char>) -> Seq<char> {
    match lookup(m, key) {
        Some(v) => v,
        None => "unknown"@,
    }
}

/// The channel count of an info event: absent or unparsable falls back to 2.
pub open spec fn channels_of(m: Seq<(Seq<char>, Seq<char>)>) -> usize {
    match lookup(m, "audio.channels"@) {
        Some(v) => match parse_usize_spec(v) {
            Some(n) => n,
            None => 2,
        },
        None => 2,
    }
}

/// The buffer limit of an info event: absent or unparsable falls back to 0.
pub open spec fn buffer_limit_of(m: Seq<(Seq<char>, Seq<char>)>) -> u32 {
    match lookup(m, "clock.quantum-limit"@) {
        Some(v) => match parse_u32_spec(v) {
            Some(n) => n,
            None => 0,
        },
        None => 0,
    }
}

/// The entity an info event resolves to: `None` when the media class is
/// absent or irrelevant, otherwise a device whose fields come from the
/// event's properties with the documented defaults.
pub open spec fn device_of_info(id: u32, m: Seq<(Seq<char>, Seq<char>)>) -> Option<DeviceModel> {
    match lookup(m, "media.class"@) {
        None => None,
        Some(c) => match direction_of_class(c) {
            None => None,
            Some(dir) => Some(
                DeviceModel {
                    id,
                    node_name: prop_or_unknown(m, "node.name"@),
                    nick_name: prop_or_unknown(m, "node.nick"@),
                    description: prop_or_unknown(m, "node.description"@),
                    direction: dir,
                    channels: channels_of(m),
                    buffer_limit: buffer_limit_of(m),
                },
            ),
        },
    }
}

/// Resolve the direction named by a media class string.
pub fn class_direction(c: &str) -> (r: Option<Direction>)
    ensures
        r == direction_of_class(c@),
{
    if str_eq(c, "Audio/Sink") {
        Some(Direction::Input)
    } else if str_eq(c, "Audio/Source") {
        Some(Direction::Output)
    } else {
        None
    }
}

/// A string property as an owned value, or `unknown` when absent.
fn get_or_unknown(props: &Props, key: &str) -> (r: String)
    ensures
        r@ == prop_or_unknown(props@, key@),
{
    match props.get(key) {
        Some(v) => v.clone(),
        None => ("unknown").to_owned(),
    }
}

/// Build the device a full info event resolves to, exactly as
/// [`device_of_info`] states, or `None` for an irrelevant object.
pub fn device_from_info(id: u32, props: &Props) -> (r: Option<Device>)
    ensures
        match r {
            Some(d) => device_of_info(id, props@) == Some(d@),
            None => device_of_info(id, props@) is None,
        },
{
    let class = match props.get("media.class") {
        Some(c) => c,
        None => {
            return None;
        },
    };
    let direction = match class_direction(class.as_str()) {
        Some(d) => d,
        None => {
            return None;
        },
    };
    let node_name = get_or_unknown(props, "node.name");
    let nick_name = get_or_unknown(props, "node.nick");
    let description = get_or_unknown(props, "node.description");
    let channels: usize = match props.get("audio.channels") {
        Some(v) => match parse_usize(v.as_str()) {
            Some(n) => n,
            None => 2,
        },
        None => 2,
    };
    let buffer_limit: u32 = match props.get("clock.quantum-limit") {
        Some(v) => match parse_u32(v.as_str()) {
            Some(n) => n,
            None => 0,
        },
        None => 0,
    };
    Some(Device { id, node_name, nick_name, description, direction, channels, buffer_limit })
}

} // verus!
