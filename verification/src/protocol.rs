//! The messages of the LoRa overlay protocol. They travel as protocol
//! buffers; coordinates are kept as the bit patterns of their `f32` values.
use crate::strmap::StrMap;
use vstd::prelude::*;

verus! {

/// The kind of a packet.
#[derive(PartialEq, Eq, Structural, Clone, Copy, Debug)]
pub enum PacketType {
    TypeAdvertise,
    TypeBundleForward,
    TypePingPong,
}

impl PacketType {
    /// The protocol buffer number of the packet type.
    pub fn code(&self) -> (c: i32)
        ensures
            c == packet_type_code(*self),
    {
        match self {
            PacketType::TypeAdvertise => 0,
            PacketType::TypeBundleForward => 1,
            PacketType::TypePingPong => 2,
        }
    }

    /// The packet type with protocol buffer number `code`.
    pub fn from_code(code: i32) -> (r: Option<PacketType>)
        ensures
            r matches Some(t) ==> packet_type_code(t) == code,
            r is None ==> forall|t: PacketType| packet_type_code(t) != code,
    {
        if code == 0 {
            Some(PacketType::TypeAdvertise)
        } else if code == 1 {
            Some(PacketType::TypeBundleForward)
        } else if code == 2 {
            Some(PacketType::TypePingPong)
        } else {
            None
        }
    }
}

pub open spec fn packet_type_code(t: PacketType) -> i32 {
    match t {
        PacketType::TypeAdvertise => 0,
        PacketType::TypeBundleForward => 1,
        PacketType::TypePingPong => 2,
    }
}

/// Whether a ping-pong packet asks or answers.
#[derive(PartialEq, Eq, Structural, Clone, Copy, Debug)]
pub enum PingPongType {
    TypePing,
    TypePong,
}

/// A position; coordinates are IEEE-754 bit patterns of `f32` values.
pub enum Position {
    LatLng { lat: u32, lng: u32 },
    Xy { x: u32, y: u32 },
    Generic { generic: String },
    NoPos,
}

impl Position {
    /// A copy of the position.
    pub fn duplicate(&self) -> (r: Position)
        ensures
            r.same(self),
    {
        match self {
            Position::LatLng { lat, lng } => Position::LatLng { lat: *lat, lng: *lng },
            Position::Xy { x, y } => Position::Xy { x: *x, y: *y },
            Position::Generic { generic } => Position::Generic { generic: generic.clone() },
            Position::NoPos => Position::NoPos,
        }
    }

    /// Equal positions: same kind and same values.
    pub open spec fn same(&self, other: &Position) -> bool {
        match (*self, *other) {
            (Position::LatLng { lat: a, lng: b }, Position::LatLng { lat: c, lng: d }) => a == c && b
                == d,
            (Position::Xy { x: a, y: b }, Position::Xy { x: c, y: d }) => a == c && b == d,
            (Position::Generic { generic: a }, Position::Generic { generic: b }) => a@ == b@,
            (Position::NoPos, Position::NoPos) => true,
            _ => false,
        }
    }
}

/// A node announcing itself, its position and extra data.
pub struct Advertise {
    pub node_name: String,
    pub position: Option<Position>,
    pub data: StrMap<String>,
}

/// A bundle handed from node to node.
pub struct BundleForward {
    pub destination: String,
    pub sender: String,
    pub bundle_id: String,
    pub bundle_data: Vec<u8>,
    pub data: StrMap<String>,
}

/// A ping to a node (or to all when `node_id` is empty) or the answer to it.
pub struct PingPong {
    pub kind: PingPongType,
    pub node_id: String,
}

pub enum Content {
    Advertise(Advertise),
    BundleForward(BundleForward),
    PingPong(PingPong),
}

/// A packet of the overlay protocol.
pub struct Packet {
    pub kind: PacketType,
    pub content: Option<Content>,
}

impl Packet {
    /// A packet that hands the bundle `bundle_id` on, sent by `sender`,
    /// without extra data.
    pub fn bundle_forward(
        destination: String,
        sender: String,
        bundle_id: String,
        bundle_data: Vec<u8>,
    ) -> (p: Packet)
        ensures
            p.kind == PacketType::TypeBundleForward,
            p.content matches Some(Content::BundleForward(f)) && f.destination == destination
                && f.sender == sender && f.bundle_id == bundle_id && f.bundle_data == bundle_data
                && f.data@ == Map::<Seq<char>, String>::empty() && f.data.wf(),
    {
        Packet {
            kind: PacketType::TypeBundleForward,
            content: Some(
                Content::BundleForward(
                    BundleForward { destination, sender, bundle_id, bundle_data, data: StrMap::new() },
                ),
            ),
        }
    }

    /// A packet that announces `node_name` at `position` with `data`.
    pub fn advertise(node_name: String, position: Position, data: StrMap<String>) -> (p: Packet)
        ensures
            p.kind == PacketType::TypeAdvertise,
            p.content matches Some(Content::Advertise(a)) && a.node_name == node_name && a.position
                == Some(position) && a.data == data,
    {
        Packet {
            kind: PacketType::TypeAdvertise,
            content: Some(Content::Advertise(Advertise { node_name, position: Some(position), data })),
        }
    }

    /// A ping or pong packet naming `node_id`.
    pub fn ping_pong(kind: PingPongType, node_id: String) -> (p: Packet)
        ensures
            p.kind == PacketType::TypePingPong,
            p.content matches Some(Content::PingPong(q)) && q.kind == kind && q.node_id == node_id,
    {
        Packet {
            kind: PacketType::TypePingPong,
            content: Some(Content::PingPong(PingPong { kind, node_id })),
        }
    }
}

} // verus!
