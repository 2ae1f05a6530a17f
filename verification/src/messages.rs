//! The messages that a demo's commands carry, as plain values: what the library reads of them once
//! they have been decoded.

use crate::stringtables::TableLayout;
use vstd::prelude::*;

verus! {

/// The number of the message that describes the server.
pub const SVC_SERVER_INFO: u32 = 40;

/// The number of the message that creates a string table.
pub const SVC_CREATE_STRING_TABLE: u32 = 44;

/// The number of the message that changes entries of a string table.
pub const SVC_UPDATE_STRING_TABLE: u32 = 45;

/// The number of the message that changes entities.
pub const SVC_PACKET_ENTITIES: u32 = 55;

/// A packet: messages, one after the other.
#[derive(Debug)]
pub struct CDemoPacket {
    pub data: Option<Vec<u8>>,
}

/// A snapshot of everything: the string tables, and a packet that restates all entities.
#[derive(Debug)]
pub struct CDemoFullPacket {
    pub has_string_table: bool,
    pub packet: Option<CDemoPacket>,
}

/// How many classes of entities there are.
#[derive(Debug, Clone, Copy, PartialEq, Eq, Structural)]
pub struct EntityClasses {
    pub classes: usize,
}

/// Creates a string table and fills it.
#[derive(Debug)]
pub struct CsvcMsgCreateStringTable {
    pub name: String,
    pub layout: TableLayout,
    pub num_entries: i32,
    pub data_compressed: bool,
    pub string_data: Vec<u8>,
}

/// Changes entries of a string table.
#[derive(Debug)]
pub struct CsvcMsgUpdateStringTable {
    pub table_id: i32,
    pub num_changed_entries: i32,
    pub string_data: Vec<u8>,
}

/// Changes entities.
#[derive(Debug)]
pub struct CsvcMsgPacketEntities {
    pub updated_entries: i32,
    pub entity_data: Vec<u8>,
}

/// The time between two ticks.
#[derive(Debug, Clone, Copy, PartialEq, Eq, Structural)]
pub struct TickInterval {
    /// The bit pattern of the time, a 32-bit floating point number of seconds.
    pub bits: u32,
    /// How often it goes into the default time between two ticks, rounded toward zero.
    pub ratio: i32,
}

/// What happens to an entity.
#[derive(Debug, Clone, Copy, PartialEq, Eq, Structural)]
pub enum DeltaHeader {
    Create,
    Delete,
    Leave,
    Update,
    Other,
}

/// The messages of a packet, whether or not it has any.
pub open spec fn packet_data(packet: CDemoPacket) -> Seq<u8> {
    match packet.data {
        Some(data) => data@,
        None => Seq::empty(),
    }
}

/// Takes the messages out of a packet.
pub fn into_packet_data(packet: CDemoPacket) -> (r: Vec<u8>)
    ensures
        r@ == packet_data(packet),
{
    match packet.data {
        Some(data) => data,
        None => Vec::new(),
    }
}

} // verus!
