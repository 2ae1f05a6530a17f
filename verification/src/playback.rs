//! The course of playing a demo, free of input and output: which command to play, what to decode next,
//! and what to tell the visitor.
//!
//! A [`Playback`] always has an [`Action`] pending. Whoever drives it performs the action and reports
//! with an [`Event`] what came of it, and the playback says what is next.

use crate::bitreader::{BitError, BitStream};
use crate::context::{Context, ContextModel};
use crate::cursor::BitCursor;
use crate::demofile::DEMO_RECORD_BUFFER_SIZE;
use crate::demostream::{
    reinterpret_i32, CmdHeader, EDemoCommands, IoError, ReadCmdError, ReadCmdHeaderError,
};
use crate::instancebaseline::UpdateBaselineError;
use crate::messages::{
    into_packet_data, CDemoFullPacket, CDemoPacket, CsvcMsgCreateStringTable,
    CsvcMsgPacketEntities, CsvcMsgUpdateStringTable, DeltaHeader, EntityClasses, TickInterval,
    SVC_CREATE_STRING_TABLE, SVC_PACKET_ENTITIES, SVC_SERVER_INFO, SVC_UPDATE_STRING_TABLE,
};
use crate::run::{Run, Verdict};
use crate::snappy::unpack;
use crate::stringtables::{StringTableContainer, StringTableItem, TableModel};
use vstd::prelude::*;

verus! {

/// The number of ticks between two full packets at the default time between two ticks.
pub const DEFAULT_FULL_PACKET_INTERVAL: i32 = 1800;

/// Why a demo cannot be played on.
#[derive(Debug)]
pub enum ParserError {
    IoError(IoError),
    ReadCmdHeaderError(ReadCmdHeaderError),
    ReadCmdError(ReadCmdError),
    BitError(BitError),
    DecompressError(snap::Error),
    UpdateBaselineError(UpdateBaselineError),
    EntityClassesNotAvailable,
    SerializersNotAvailable,
    StringTableNotFound,
    EntityNotFound,
    /// The number of an entity is larger than the largest that there can be.
    EntityIndexOverflow,
    /// There are more ticks between two full packets than can be counted.
    TickIntervalOverflow,
    /// A message is too large for its bits to be counted.
    MessageTooLarge,
    /// What was reported does not answer what was asked for.
    UnexpectedEvent,
}

/// What is to be done next.
#[derive(Debug, Clone, Copy, PartialEq, Eq, Structural)]
pub enum Action {
    /// Nothing: no run is going on.
    Idle,
    /// Tell the visitor whether to record.
    SetCollecting { collecting: bool },
    /// Read the header of the next command.
    NextCmd,
    /// Read the body of the command, and show it to the visitor.
    OnCmd { header: CmdHeader },
    /// Decode the body as a packet.
    DecodePacket,
    /// Decode the body as the flattened serializers.
    DecodeSendTables,
    /// Decode the body as the entity classes.
    DecodeClassInfo,
    /// Decode the body as a full packet.
    DecodeFullPacket,
    /// Update the string tables from those of the full packet.
    UpdateAllTables,
    /// Show the message to the visitor.
    OnPacket { command: u32 },
    /// Decode the message as one that creates a string table.
    DecodeCreateStringTable,
    /// Decode the message as one that changes a string table.
    DecodeUpdateStringTable,
    /// Read the new entries of a string table from the string data.
    ParseTableUpdate { table_id: usize, num_entries: i32 },
    /// Decode the message as one that describes the server.
    DecodeServerInfo,
    /// Decode the message as one that changes entities.
    DecodePacketEntities,
    /// Read from the entity data what happens to the entity.
    ReadDeltaHeader { entity_index: i32 },
    /// Create the entity from the entity data, unless the visitor has no interest in it.
    CreateEntity { entity_index: i32 },
    /// Delete the entity.
    DeleteEntity { entity_index: i32 },
    /// Let the entity leave.
    LeaveEntity { entity_index: i32 },
    /// Update the entity from the entity data.
    UpdateEntity { entity_index: i32 },
    /// Show the entity to the visitor.
    OnEntity { entity_index: i32, delta_header: DeltaHeader },
    /// Tell the visitor that a tick has ended.
    OnTickEnd,
}

/// What came of an action.
#[derive(Debug)]
pub enum Event<S, E> {
    /// The visitor has been told or shown.
    Done,
    Packet(CDemoPacket),
    SendTables(S),
    ClassInfo(EntityClasses),
    FullPacket(CDemoFullPacket),
    /// All string tables after the update.
    AllTables(StringTableContainer),
    CreateStringTable(CsvcMsgCreateStringTable),
    UpdateStringTable(CsvcMsgUpdateStringTable),
    /// All entries of the table after the update, and the position in the string data.
    TableUpdated { items: Vec<StringTableItem>, position: usize },
    ServerInfo(Option<TickInterval>),
    PacketEntities(CsvcMsgPacketEntities),
    /// What happens to the entity, and the position in the entity data.
    DeltaHeaderRead { delta_header: DeltaHeader, position: usize },
    /// The number that the entity was created under, if it was, whether there is an entity of that
    /// number, the position in the entity data, and all entities, if there are any.
    EntityCreated {
        entity_index: Option<i32>,
        present: bool,
        position: usize,
        entities: Option<E>,
    },
    /// Whether there was such an entity, and all that are left, if there are any.
    EntityGone { present: bool, entities: Option<E> },
    /// Whether there is such an entity, the position in the entity data, and all entities, if there
    /// are any.
    EntityUpdated { present: bool, position: usize, entities: Option<E> },
}

/// What becomes of a command once its header is known.
#[derive(Debug, Clone, Copy, PartialEq, Eq, Structural)]
pub enum CmdFlow {
    /// It is played: what is pending comes next.
    Play,
    /// Its body is to be passed over.
    Skip,
    /// The run ends in front of it: its header is to be unread.
    Stop,
}

/// The command that is being played.
#[derive(Debug, Clone, Copy, PartialEq, Eq, Structural)]
pub struct CmdPlan {
    pub header: CmdHeader,
    /// Whether a full packet's own packet is played.
    pub with_packet: bool,
    /// Whether a tick ends with the command in any case.
    pub ends_tick: bool,
}

/// What a [`Playback`] stands for.
pub struct PlaybackModel<S, E> {
    pub ctx: ContextModel<S, E>,
    pub run: Option<Run>,
    pub pending: Action,
    /// Whether messages that change entities are passed over.
    pub skip_entity_packets: bool,
    pub plan: Option<CmdPlan>,
    /// The messages that come after the string tables of a full packet.
    pub held_packet: Option<Seq<u8>>,
    /// The messages that are being played.
    pub packet: BitStream,
    /// The message that is being played.
    pub message: Seq<u8>,
    /// The packed entries of the string table that is being changed.
    pub string_data: Seq<u8>,
    /// The packed changes of entities.
    pub entity_data: BitStream,
    pub entity_index: i32,
    pub entities_left: i32,
}

/// The next state and what is pending in it, or why there is no going on.
pub type Outcome<S, E> = (PlaybackModel<S, E>, Result<Action, ParserError>);

/// No bits at all.
pub open spec fn no_bits() -> BitStream {
    BitStream { data: Seq::empty(), pos: 0 }
}

/// Whether the bits of `data` can be counted.
pub open spec fn countable(data: Seq<u8>) -> bool {
    8 * data.len() <= usize::MAX
}

/// The number of the entity that is `delta` after `index`, with one more in between. A delta of 32 bits
/// counts as a signed number.
pub open spec fn next_entity_index(index: int, delta: nat) -> Option<int> {
    let step = crate::demostream::same_bits_i32(delta) + 1;
    if step <= i32::MAX && i32::MIN <= index + step <= i32::MAX {
        Some(index + step)
    } else {
        None
    }
}

impl<S, E> PlaybackModel<S, E> {
    /// Before any run.
    pub open spec fn initial() -> Self {
        PlaybackModel {
            ctx: ContextModel::initial(),
            run: None,
            pending: Action::Idle,
            skip_entity_packets: false,
            plan: None,
            held_packet: None,
            packet: no_bits(),
            message: Seq::empty(),
            string_data: Seq::empty(),
            entity_data: no_bits(),
            entity_index: (-1) as i32,
            entities_left: 0,
        }
    }

    /// No run is going on; what is known of the game stays.
    pub open spec fn stopped(self) -> Self {
        PlaybackModel { ctx: self.ctx, ..Self::initial() }
    }

    /// The beginning of `run`.
    pub open spec fn started(self, run: Run) -> Self {
        let warm_up = !run.records();
        PlaybackModel {
            run: Some(run),
            pending: if warm_up {
                Action::SetCollecting { collecting: false }
            } else {
                Action::NextCmd
            },
            skip_entity_packets: warm_up,
            ..self.stopped()
        }
    }

    pub open spec fn fail(self, err: ParserError) -> Outcome<S, E> {
        (self.stopped(), Err(err))
    }

    pub open spec fn ask(self, action: Action) -> Outcome<S, E> {
        (PlaybackModel { pending: action, ..self }, Ok(action))
    }

    /// The command has been played. The visitor hears of the end of a tick only where the tick has
    /// changed, or where the plan says so.
    pub open spec fn finish_cmd(self) -> Outcome<S, E> {
        if self.ctx.prev_tick != self.ctx.tick || (self.plan matches Some(plan) && plan.ends_tick) {
            self.ask(Action::OnTickEnd)
        } else {
            self.ask(Action::NextCmd)
        }
    }

    /// The visitor has seen the command's body, which is decoded next if it matters. Serializers and
    /// classes never change, so they are decoded once.
    pub open spec fn decode_cmd(self, cmd: EDemoCommands) -> Outcome<S, E> {
        match cmd {
            EDemoCommands::DemPacket | EDemoCommands::DemSignonPacket => self.ask(
                Action::DecodePacket,
            ),
            EDemoCommands::DemSendTables => if self.ctx.serializers is Some {
                self.finish_cmd()
            } else {
                self.ask(Action::DecodeSendTables)
            },
            EDemoCommands::DemClassInfo => if self.ctx.entity_classes is Some {
                self.finish_cmd()
            } else {
                self.ask(Action::DecodeClassInfo)
            },
            EDemoCommands::DemFullPacket => self.ask(Action::DecodeFullPacket),
            _ => self.finish_cmd(),
        }
    }

    /// The entity classes are known, and with them the number of baselines.
    pub open spec fn class_info(self, entity_classes: EntityClasses) -> Outcome<S, E> {
        let ctx = ContextModel { entity_classes: Some(entity_classes), ..self.ctx };
        let (ctx, result) = ctx.with_named_baselines();
        let next = PlaybackModel { ctx, ..self };
        match result {
            Ok(_) => next.finish_cmd(),
            Err(err) => next.fail(ParserError::UpdateBaselineError(err)),
        }
    }

    /// The full packet: first its string tables, then its packet, as far as the plan goes.
    pub open spec fn full_packet(self, cmd: CDemoFullPacket) -> Outcome<S, E> {
        let packet = match cmd.packet {
            Some(packet) => if self.plan matches Some(plan) && plan.with_packet {
                Some(crate::messages::packet_data(packet))
            } else {
                None
            },
            None => None,
        };
        if cmd.has_string_table {
            PlaybackModel { held_packet: packet, ..self }.ask(Action::UpdateAllTables)
        } else {
            self.begin_packet(packet)
        }
    }

    /// The string tables of the full packet are in place.
    pub open spec fn all_tables(self, tables: Seq<TableModel>) -> Outcome<S, E> {
        let ctx = ContextModel { string_tables: tables, ..self.ctx };
        if ctx.entity_classes is None {
            PlaybackModel { ctx, ..self }.fail(ParserError::EntityClassesNotAvailable)
        } else {
            let (ctx, result) = ctx.with_named_baselines();
            let next = PlaybackModel { ctx, held_packet: None, ..self };
            match result {
                Ok(_) => next.begin_packet(self.held_packet),
                Err(err) => next.fail(ParserError::UpdateBaselineError(err)),
            }
        }
    }

    /// Plays the messages of a packet, if there is one.
    pub open spec fn begin_packet(self, packet: Option<Seq<u8>>) -> Outcome<S, E> {
        match packet {
            None => self.finish_cmd(),
            Some(data) => if countable(data) {
                PlaybackModel { packet: BitStream { data, pos: 0 }, ..self }.next_message()
            } else {
                self.fail(ParserError::MessageTooLarge)
            },
        }
    }

    /// The next message of the packet: its number, its size and its bytes. The packet is at its end
    /// where at most eight bits are left, which only fill up its last byte.
    pub open spec fn next_message(self) -> Outcome<S, E> {
        if self.packet.bits_left() <= 8 {
            PlaybackModel { packet: no_bits(), message: Seq::empty(), ..self }.finish_cmd()
        } else {
            match self.packet.ubitvar() {
                (Err(err), _) => self.fail(ParserError::BitError(err)),
                (Ok(command), after) => match after.uvarint32() {
                    (Err(err), _) => self.fail(ParserError::BitError(err)),
                    (Ok(size), after) => if size > DEMO_RECORD_BUFFER_SIZE {
                        self.fail(ParserError::BitError(BitError::BufferTooSmall))
                    } else if size > after.bytes().len() {
                        self.fail(ParserError::BitError(BitError::Overflow))
                    } else {
                        PlaybackModel {
                            packet: after.skip(8 * size as int),
                            message: after.bytes().take(size as int),
                            ..self
                        }.ask(Action::OnPacket { command: command as u32 })
                    },
                },
            }
        }
    }

    /// The visitor has seen the message, which is decoded next if it matters.
    pub open spec fn decode_message(self, command: u32) -> Outcome<S, E> {
        if command == SVC_CREATE_STRING_TABLE {
            self.ask(Action::DecodeCreateStringTable)
        } else if command == SVC_UPDATE_STRING_TABLE {
            self.ask(Action::DecodeUpdateStringTable)
        } else if command == SVC_PACKET_ENTITIES && !self.skip_entity_packets {
            self.ask(Action::DecodePacketEntities)
        } else if command == SVC_SERVER_INFO {
            self.ask(Action::DecodeServerInfo)
        } else {
            self.next_message()
        }
    }

    /// A new table without entries, and then the entries that it starts with.
    pub open spec fn create_string_table(self, msg: CsvcMsgCreateStringTable) -> Outcome<S, E> {
        let table = TableModel { name: msg.name@, layout: msg.layout, items: Seq::empty() };
        let ctx = ContextModel { string_tables: self.ctx.string_tables.push(table), ..self.ctx };
        let next = PlaybackModel { ctx, ..self };
        let unpacked = if msg.data_compressed {
            crate::snappy::unpacked(msg.string_data@, DEMO_RECORD_BUFFER_SIZE as nat)
        } else {
            Ok(msg.string_data@)
        };
        match unpacked {
            Err(err) => next.fail(ParserError::DecompressError(err)),
            Ok(string_data) => PlaybackModel { string_data, ..next }.ask(
                Action::ParseTableUpdate {
                    table_id: self.ctx.string_tables.len() as usize,
                    num_entries: msg.num_entries,
                },
            ),
        }
    }

    /// New entries for a table that must be there.
    pub open spec fn update_string_table(self, msg: CsvcMsgUpdateStringTable) -> Outcome<S, E> {
        if 0 <= msg.table_id < self.ctx.string_tables.len() {
            PlaybackModel { string_data: msg.string_data@, ..self }.ask(
                Action::ParseTableUpdate {
                    table_id: msg.table_id as usize,
                    num_entries: msg.num_changed_entries,
                },
            )
        } else {
            self.fail(ParserError::StringTableNotFound)
        }
    }

    /// The table has its new entries, and the baselines follow if it is theirs.
    pub open spec fn table_updated(
        self,
        table_id: usize,
        items: Seq<crate::stringtables::ItemModel>,
        position: usize,
    ) -> Outcome<S, E> {
        if table_id >= self.ctx.string_tables.len() {
            self.fail(ParserError::StringTableNotFound)
        } else if position > 8 * self.string_data.len() {
            self.fail(ParserError::BitError(BitError::Overflow))
        } else {
            let (ctx, result) = self.ctx.with_items(table_id as int, items);
            let next = PlaybackModel { ctx, string_data: Seq::empty(), ..self };
            match result {
                Ok(_) => next.next_message(),
                Err(err) => next.fail(ParserError::UpdateBaselineError(err)),
            }
        }
    }

    /// The server has told the time between two ticks, which fixes how many ticks lie between two
    /// full packets.
    pub open spec fn server_info(self, tick_interval: Option<TickInterval>) -> Outcome<S, E> {
        match tick_interval {
            None => self.next_message(),
            Some(tick_interval) => {
                let interval = DEFAULT_FULL_PACKET_INTERVAL * tick_interval.ratio;
                if i32::MIN <= interval <= i32::MAX {
                    let ctx = ContextModel {
                        tick_interval: tick_interval.bits,
                        full_packet_interval: interval as i32,
                        ..self.ctx
                    };
                    PlaybackModel { ctx, ..self }.next_message()
                } else {
                    self.fail(ParserError::TickIntervalOverflow)
                }
            },
        }
    }

    /// Changes of entities, which need the classes and the serializers.
    pub open spec fn packet_entities(self, msg: CsvcMsgPacketEntities) -> Outcome<S, E> {
        if self.ctx.entity_classes is None {
            self.fail(ParserError::EntityClassesNotAvailable)
        } else if self.ctx.serializers is None {
            self.fail(ParserError::SerializersNotAvailable)
        } else if !countable(msg.entity_data@) {
            self.fail(ParserError::MessageTooLarge)
        } else {
            PlaybackModel {
                entity_data: BitStream { data: msg.entity_data@, pos: 0 },
                entity_index: (-1) as i32,
                entities_left: msg.updated_entries,
                ..self
            }.next_entity()
        }
    }

    /// The next entity that changes, whose number is given by its distance from the one before.
    pub open spec fn next_entity(self) -> Outcome<S, E> {
        if self.entities_left <= 0 {
            PlaybackModel { entity_data: no_bits(), ..self }.next_message()
        } else {
            match self.entity_data.ubitvar() {
                (Err(err), _) => self.fail(ParserError::BitError(err)),
                (Ok(delta), after) => match next_entity_index(self.entity_index as int, delta) {
                    None => self.fail(ParserError::EntityIndexOverflow),
                    Some(index) => PlaybackModel {
                        entity_data: after,
                        entity_index: index as i32,
                        entities_left: (self.entities_left - 1) as i32,
                        ..self
                    }.ask(Action::ReadDeltaHeader { entity_index: index as i32 }),
                },
            }
        }
    }

    /// The entity data at another position, unless it is past the end.
    pub open spec fn entity_data_at(self, position: usize) -> Result<Self, ParserError> {
        if position > 8 * self.entity_data.data.len() {
            Err(ParserError::BitError(BitError::Overflow))
        } else {
            Ok(
                PlaybackModel {
                    entity_data: BitStream { data: self.entity_data.data, pos: position as int },
                    ..self
                },
            )
        }
    }

    /// It is known what happens to the entity.
    pub open spec fn delta_header_read(self, delta_header: DeltaHeader, position: usize) -> Outcome<
        S,
        E,
    > {
        match self.entity_data_at(position) {
            Err(err) => self.fail(err),
            Ok(next) => {
                let entity_index = self.entity_index;
                match delta_header {
                    DeltaHeader::Create => next.ask(Action::CreateEntity { entity_index }),
                    DeltaHeader::Delete => next.ask(Action::DeleteEntity { entity_index }),
                    DeltaHeader::Leave => next.ask(Action::LeaveEntity { entity_index }),
                    DeltaHeader::Update => next.ask(Action::UpdateEntity { entity_index }),
                    DeltaHeader::Other => next.next_entity(),
                }
            },
        }
    }

    /// The entities are now these.
    pub open spec fn with_entities(self, entities: Option<E>) -> Self {
        PlaybackModel { ctx: ContextModel { entities, ..self.ctx }, ..self }
    }

    /// The entity has been created, unless it is of no interest.
    pub open spec fn entity_created(
        self,
        entity_index: Option<i32>,
        present: bool,
        position: usize,
    ) -> Outcome<S, E> {
        match self.entity_data_at(position) {
            Err(err) => self.fail(err),
            Ok(next) => match entity_index {
                None => next.next_entity(),
                Some(entity_index) => if present {
                    next.ask(Action::OnEntity { entity_index, delta_header: DeltaHeader::Create })
                } else {
                    next.fail(ParserError::EntityNotFound)
                },
            },
        }
    }

    /// The visitor sees the entity if there is one.
    pub open spec fn show_entity(self, delta_header: DeltaHeader, present: bool) -> Outcome<S, E> {
        if present {
            self.ask(Action::OnEntity { entity_index: self.entity_index, delta_header })
        } else {
            self.next_entity()
        }
    }

    /// The entity has been updated.
    pub open spec fn entity_updated(self, present: bool, position: usize) -> Outcome<S, E> {
        match self.entity_data_at(position) {
            Err(err) => self.fail(err),
            Ok(next) => next.show_entity(DeltaHeader::Update, present),
        }
    }

    /// The visitor has been told or shown what was pending.
    pub open spec fn done(self) -> Outcome<S, E> {
        match self.pending {
            Action::SetCollecting { .. } => match self.plan {
                Some(plan) => self.ask(Action::OnCmd { header: plan.header }),
                None => self.ask(Action::NextCmd),
            },
            Action::OnCmd { header } => self.decode_cmd(header.cmd),
            Action::OnPacket { command } => self.decode_message(command),
            Action::OnEntity { .. } => self.next_entity(),
            Action::OnTickEnd => PlaybackModel { plan: None, ..self }.ask(Action::NextCmd),
            _ => self.fail(ParserError::UnexpectedEvent),
        }
    }

    /// What comes after `event`.
    pub open spec fn step(self, event: Event<S, E>) -> Outcome<S, E> {
        match (self.pending, event) {
            (_, Event::Done) => self.done(),
            (Action::DecodePacket, Event::Packet(cmd)) => self.begin_packet(
                Some(crate::messages::packet_data(cmd)),
            ),
            (Action::DecodeSendTables, Event::SendTables(serializers)) => PlaybackModel {
                ctx: ContextModel { serializers: Some(serializers), ..self.ctx },
                ..self
            }.finish_cmd(),
            (Action::DecodeClassInfo, Event::ClassInfo(entity_classes)) => self.class_info(
                entity_classes,
            ),
            (Action::DecodeFullPacket, Event::FullPacket(cmd)) => self.full_packet(cmd),
            (Action::UpdateAllTables, Event::AllTables(tables)) => self.all_tables(tables@),
            (Action::DecodeCreateStringTable, Event::CreateStringTable(msg)) =>
                self.create_string_table(msg),
            (Action::DecodeUpdateStringTable, Event::UpdateStringTable(msg)) =>
                self.update_string_table(msg),
            (
                Action::ParseTableUpdate { table_id, .. },
                Event::TableUpdated { items, position },
            ) => self.table_updated(
                table_id,
                crate::stringtables::items_view(items@),
                position,
            ),
            (Action::DecodeServerInfo, Event::ServerInfo(tick_interval)) => self.server_info(
                tick_interval,
            ),
            (Action::DecodePacketEntities, Event::PacketEntities(msg)) => self.packet_entities(msg),
            (
                Action::ReadDeltaHeader { .. },
                Event::DeltaHeaderRead { delta_header, position },
            ) => self.delta_header_read(delta_header, position),
            (
                Action::CreateEntity { .. },
                Event::EntityCreated { entity_index, present, position, entities },
            ) => self.with_entities(entities).entity_created(entity_index, present, position),
            (
                Action::DeleteEntity { .. },
                Event::EntityGone { present, entities },
            ) => self.with_entities(entities).show_entity(DeltaHeader::Delete, present),
            (
                Action::LeaveEntity { .. },
                Event::EntityGone { present, entities },
            ) => self.with_entities(entities).show_entity(DeltaHeader::Leave, present),
            (
                Action::UpdateEntity { .. },
                Event::EntityUpdated { present, position, entities },
            ) => self.with_entities(entities).entity_updated(present, position),
            _ => self.fail(ParserError::UnexpectedEvent),
        }
    }

    /// There is no header of a next command. At the end of the stream that is the end of the run.
    pub open spec fn no_cmd_header(self, err: ReadCmdHeaderError, at_eof: bool) -> Outcome<S, E> {
        if self.pending != Action::NextCmd {
            self.fail(ParserError::UnexpectedEvent)
        } else if at_eof {
            (self.stopped(), Ok(Action::Idle))
        } else {
            self.fail(ParserError::ReadCmdHeaderError(err))
        }
    }

    /// The header that ended the run has been unread, and the tick is again that of the command before.
    pub open spec fn back_in_front(self) -> Self {
        PlaybackModel { ctx: ContextModel { tick: self.ctx.prev_tick, ..self.ctx }, ..self }
    }

    /// What becomes of the command `header`, which comes next.
    pub open spec fn on_cmd_header(self, header: CmdHeader) -> (Self, Result<CmdFlow, ParserError>) {
        match (self.pending, self.run) {
            (Action::NextCmd, Some(run)) => {
                let (next_run, verdict) = run.next(self.ctx.full_packet_interval, header);
                let clears = (run matches Run::ToEnd { reset_on_full_packet }
                    && reset_on_full_packet) && header.cmd == EDemoCommands::DemFullPacket;
                let ctx = ContextModel {
                    prev_tick: self.ctx.tick,
                    tick: header.tick,
                    entities: if clears {
                        None
                    } else {
                        self.ctx.entities
                    },
                    ..self.ctx
                };
                let next = PlaybackModel { ctx, run: Some(next_run), plan: None, ..self };
                let plan = CmdPlan { header, with_packet: true, ends_tick: false };
                match verdict {
                    Verdict::Handle => (
                        PlaybackModel {
                            plan: Some(plan),
                            pending: Action::OnCmd { header },
                            ..next
                        },
                        Ok(CmdFlow::Play),
                    ),
                    Verdict::Collect => (
                        PlaybackModel {
                            plan: Some(plan),
                            pending: Action::SetCollecting { collecting: true },
                            skip_entity_packets: false,
                            ..next
                        },
                        Ok(CmdFlow::Play),
                    ),
                    Verdict::Apply { with_packet } => (
                        PlaybackModel {
                            plan: Some(CmdPlan { header, with_packet, ends_tick: true }),
                            pending: Action::OnCmd { header },
                            ..next
                        },
                        Ok(CmdFlow::Play),
                    ),
                    Verdict::Skip => (next, Ok(CmdFlow::Skip)),
                    Verdict::Stop => (next.stopped(), Ok(CmdFlow::Stop)),
                }
            },
            _ => (self.stopped(), Err(ParserError::UnexpectedEvent)),
        }
    }
}

/// A demo in the course of being played.
#[derive(Debug)]
pub struct Playback<S, E> {
    ctx: Context<S, E>,
    run: Option<Run>,
    pending: Action,
    skip_entity_packets: bool,
    plan: Option<CmdPlan>,
    held_packet: Option<Vec<u8>>,
    packet: BitCursor,
    message: Vec<u8>,
    string_data: Vec<u8>,
    entity_data: BitCursor,
    entity_index: i32,
    entities_left: i32,
}

impl<S, E> Playback<S, E> {
    /// The state of the playback.
    pub closed spec fn view(self) -> PlaybackModel<S, E> {
        PlaybackModel {
            ctx: self.ctx@,
            run: self.run,
            pending: self.pending,
            skip_entity_packets: self.skip_entity_packets,
            plan: self.plan,
            held_packet: crate::stringtables::bytes_of(self.held_packet),
            packet: self.packet@,
            message: self.message@,
            string_data: self.string_data@,
            entity_data: self.entity_data@,
            entity_index: self.entity_index,
            entities_left: self.entities_left,
        }
    }

    /// Before any run.
    pub fn new() -> (r: Self)
        ensures
            r@ == PlaybackModel::<S, E>::initial(),
    {
        Playback {
            ctx: Context::new(),
            run: None,
            pending: Action::Idle,
            skip_entity_packets: false,
            plan: None,
            held_packet: None,
            packet: BitCursor::empty(),
            message: Vec::new(),
            string_data: Vec::new(),
            entity_data: BitCursor::empty(),
            entity_index: -1,
            entities_left: 0,
        }
    }

    /// What is known of the game.
    pub fn context(&self) -> (r: &Context<S, E>)
        ensures
            r@ == self@.ctx,
    {
        &self.ctx
    }

    /// What is to be done next.
    pub fn pending(&self) -> (r: Action)
        ensures
            r == self@.pending,
    {
        self.pending
    }

    /// Whether a run is going on that plays every command.
    pub fn plays_everything(&self) -> (r: bool)
        ensures
            r == (self@.run is Some && self@.run->Some_0 is ToEnd),
    {
        match self.run {
            Some(Run::ToEnd { .. }) => true,
            _ => false,
        }
    }

    /// The message that is being played.
    pub fn message(&self) -> (r: &Vec<u8>)
        ensures
            r@ == self@.message,
    {
        &self.message
    }

    /// The packed entries of the string table that is being changed.
    pub fn string_data(&self) -> (r: &Vec<u8>)
        ensures
            r@ == self@.string_data,
    {
        &self.string_data
    }

    /// The packed changes of entities, and the position in them.
    pub fn entity_data(&self) -> (r: &BitCursor)
        ensures
            r@ == self@.entity_data,
    {
        &self.entity_data
    }

    /// Hands the entities over, for instance to change them.
    pub fn take_entities(&mut self) -> (r: Option<E>)
        ensures
            r == old(self)@.ctx.entities,
            final(self)@ == (PlaybackModel {
                ctx: ContextModel { entities: None, ..old(self)@.ctx },
                ..old(self)@
            }),
    {
        self.ctx.take_entities()
    }

    /// Takes the entities back; `None` means that there are none.
    pub fn set_entities(&mut self, entities: Option<E>)
        ensures
            final(self)@ == (PlaybackModel {
                ctx: ContextModel { entities, ..old(self)@.ctx },
                ..old(self)@
            }),
    {
        self.ctx.set_entities(entities);
    }

    /// Forgets what changes in the course of a demo.
    pub fn rewind(&mut self)
        ensures
            final(self)@ == (PlaybackModel { ctx: old(self)@.ctx.rewound(), ..old(self)@ }),
    {
        self.ctx.rewind();
    }

    /// Ends the run, for instance because an action could not be performed.
    pub fn stop(&mut self)
        ensures
            final(self)@ == old(self)@.stopped(),
    {
        self.run = None;
        self.pending = Action::Idle;
        self.skip_entity_packets = false;
        self.plan = None;
        self.held_packet = None;
        self.packet = BitCursor::empty();
        self.message = Vec::new();
        self.string_data = Vec::new();
        self.entity_data = BitCursor::empty();
        self.entity_index = -1;
        self.entities_left = 0;
    }

    fn start(&mut self, run: Run)
        ensures
            final(self)@ == old(self)@.started(run),
    {
        self.stop();
        let warm_up: bool = match run {
            Run::FullPacket { collecting, .. } => !collecting,
            _ => false,
        };
        self.run = Some(run);
        self.skip_entity_packets = warm_up;
        self.pending = if warm_up {
            Action::SetCollecting { collecting: false }
        } else {
            Action::NextCmd
        };
    }

    /// Starts to play all commands that are to come.
    pub fn start_to_end(&mut self, reset_on_full_packet: bool) -> (r: Action)
        ensures
            final(self)@ == old(self)@.started(Run::ToEnd { reset_on_full_packet }),
            r == final(self)@.pending,
    {
        self.start(Run::ToEnd { reset_on_full_packet });
        self.pending
    }

    /// Starts to play up to `target_tick`.
    pub fn start_to_tick(&mut self, target_tick: i32) -> (r: Action)
        ensures
            final(self)@ == old(self)@.started(
                Run::ToTick {
                    target_tick,
                    did_handle_first_sync_tick: false,
                    did_handle_last_full_packet: false,
                },
            ),
            r == final(self)@.pending,
    {
        self.start(
            Run::ToTick {
                target_tick,
                did_handle_first_sync_tick: false,
                did_handle_last_full_packet: false,
            },
        );
        self.pending
    }

    /// Starts to play the full packet number `ordinal` and what follows it up to the next one.
    pub fn start_full_packet(&mut self, ordinal: usize) -> (r: Action)
        ensures
            final(self)@ == old(self)@.started(Run::full_packet_run(ordinal as nat)),
            r == final(self)@.pending,
    {
        self.start(Run::FullPacket { to_pass: ordinal, met: false, collecting: ordinal == 0 });
        self.pending
    }

    /// Ends the run because of `err`.
    pub fn fail(&mut self, err: ParserError) -> (r: Result<Action, ParserError>)
        ensures
            (final(self)@, r) == old(self)@.fail(err),
    {
        self.stop();
        Err(err)
    }

    fn ask(&mut self, action: Action) -> (r: Result<Action, ParserError>)
        ensures
            (final(self)@, r) == old(self)@.ask(action),
    {
        self.pending = action;
        Ok(action)
    }

    fn finish_cmd(&mut self) -> (r: Result<Action, ParserError>)
        ensures
            (final(self)@, r) == old(self)@.finish_cmd(),
    {
        let ends_tick: bool = match self.plan {
            Some(plan) => plan.ends_tick,
            None => false,
        };
        if self.ctx.changed_tick() || ends_tick {
            self.ask(Action::OnTickEnd)
        } else {
            self.ask(Action::NextCmd)
        }
    }

    fn decode_cmd(&mut self, cmd: EDemoCommands) -> (r: Result<Action, ParserError>)
        ensures
            (final(self)@, r) == old(self)@.decode_cmd(cmd),
    {
        match cmd {
            EDemoCommands::DemPacket | EDemoCommands::DemSignonPacket => self.ask(
                Action::DecodePacket,
            ),
            EDemoCommands::DemSendTables => {
                // Seeking comes across them again, and there is no need to decode them again.
                if self.ctx.serializers().is_some() {
                    self.finish_cmd()
                } else {
                    self.ask(Action::DecodeSendTables)
                }
            },
            EDemoCommands::DemClassInfo => {
                if self.ctx.entity_classes().is_some() {
                    self.finish_cmd()
                } else {
                    self.ask(Action::DecodeClassInfo)
                }
            },
            EDemoCommands::DemFullPacket => self.ask(Action::DecodeFullPacket),
            _ => self.finish_cmd(),
        }
    }

    fn class_info(&mut self, entity_classes: EntityClasses) -> (r: Result<Action, ParserError>)
        ensures
            (final(self)@, r) == old(self)@.class_info(entity_classes),
    {
        self.ctx.set_entity_classes(entity_classes);
        // The baselines come in an earlier command, but how many there are is known only now.
        match self.ctx.update_named_baselines() {
            Ok(_) => self.finish_cmd(),
            Err(err) => self.fail(ParserError::UpdateBaselineError(err)),
        }
    }

    fn full_packet(&mut self, cmd: CDemoFullPacket) -> (r: Result<Action, ParserError>)
        ensures
            (final(self)@, r) == old(self)@.full_packet(cmd),
    {
        let with_packet: bool = match self.plan {
            Some(plan) => plan.with_packet,
            None => false,
        };
        let packet: Option<Vec<u8>> = match cmd.packet {
            Some(packet) => if with_packet {
                Some(into_packet_data(packet))
            } else {
                None
            },
            None => None,
        };
        if cmd.has_string_table {
            self.held_packet = packet;
            self.ask(Action::UpdateAllTables)
        } else {
            self.begin_packet(packet)
        }
    }

    fn all_tables(&mut self, tables: StringTableContainer) -> (r: Result<Action, ParserError>)
        ensures
            (final(self)@, r) == old(self)@.all_tables(tables@),
    {
        self.ctx.set_string_tables(tables);
        if self.ctx.entity_classes().is_none() {
            return self.fail(ParserError::EntityClassesNotAvailable);
        }
        let packet: Option<Vec<u8>> = self.held_packet.take();
        match self.ctx.update_named_baselines() {
            Ok(_) => self.begin_packet(packet),
            Err(err) => self.fail(ParserError::UpdateBaselineError(err)),
        }
    }

    fn begin_packet(&mut self, packet: Option<Vec<u8>>) -> (r: Result<Action, ParserError>)
        ensures
            (final(self)@, r) == old(self)@.begin_packet(
                crate::stringtables::bytes_of(packet),
            ),
    {
        match packet {
            None => self.finish_cmd(),
            Some(data) => {
                match BitCursor::new(data) {
                    None => self.fail(ParserError::MessageTooLarge),
                    Some(packet) => {
                        self.packet = packet;
                        self.next_message()
                    },
                }
            },
        }
    }

    fn next_message(&mut self) -> (r: Result<Action, ParserError>)
        ensures
            (final(self)@, r) == old(self)@.next_message(),
    {
        let mut br = self.packet.reader();
        if br.num_bits_left() <= 8 {
            self.packet = BitCursor::empty();
            self.message = Vec::new();
            return self.finish_cmd();
        }
        let command: u32 = match br.read_ubitvar() {
            Ok(command) => command,
            Err(err) => {
                return self.fail(ParserError::BitError(err));
            },
        };
        let size: u32 = match br.read_uvarint32() {
            Ok(size) => size,
            Err(err) => {
                return self.fail(ParserError::BitError(err));
            },
        };
        if size > DEMO_RECORD_BUFFER_SIZE as u32 {
            return self.fail(ParserError::BitError(BitError::BufferTooSmall));
        }
        let mut message: Vec<u8> = vec![0u8; size as usize];
        if let Err(err) = br.read_bytes(message.as_mut_slice()) {
            return self.fail(ParserError::BitError(err));
        }
        let position: usize = br.position();
        if !self.packet.set_position(position) {
            return self.fail(ParserError::BitError(BitError::Overflow));
        }
        self.message = message;
        self.ask(Action::OnPacket { command })
    }

    fn decode_message(&mut self, command: u32) -> (r: Result<Action, ParserError>)
        ensures
            (final(self)@, r) == old(self)@.decode_message(command),
    {
        if command == SVC_CREATE_STRING_TABLE {
            self.ask(Action::DecodeCreateStringTable)
        } else if command == SVC_UPDATE_STRING_TABLE {
            self.ask(Action::DecodeUpdateStringTable)
        } else if command == SVC_PACKET_ENTITIES && !self.skip_entity_packets {
            self.ask(Action::DecodePacketEntities)
        } else if command == SVC_SERVER_INFO {
            self.ask(Action::DecodeServerInfo)
        } else {
            self.next_message()
        }
    }

    fn create_string_table(&mut self, msg: CsvcMsgCreateStringTable) -> (r: Result<
        Action,
        ParserError,
    >)
        ensures
            (final(self)@, r) == old(self)@.create_string_table(msg),
    {
        let table_id: usize = self.ctx.create_string_table(msg.name, msg.layout);
        if msg.data_compressed {
            match unpack(msg.string_data.as_slice(), DEMO_RECORD_BUFFER_SIZE) {
                Ok(string_data) => {
                    self.string_data = string_data;
                },
                Err(err) => {
                    return self.fail(ParserError::DecompressError(err));
                },
            }
        } else {
            self.string_data = msg.string_data;
        }
        self.ask(Action::ParseTableUpdate { table_id, num_entries: msg.num_entries })
    }

    fn update_string_table(&mut self, msg: CsvcMsgUpdateStringTable) -> (r: Result<
        Action,
        ParserError,
    >)
        ensures
            (final(self)@, r) == old(self)@.update_string_table(msg),
    {
        if msg.table_id < 0 || !self.ctx.has_string_table(msg.table_id as usize) {
            return self.fail(ParserError::StringTableNotFound);
        }
        self.string_data = msg.string_data;
        self.ask(
            Action::ParseTableUpdate {
                table_id: msg.table_id as usize,
                num_entries: msg.num_changed_entries,
            },
        )
    }

    fn table_updated(
        &mut self,
        table_id: usize,
        items: Vec<StringTableItem>,
        position: usize,
    ) -> (r: Result<Action, ParserError>)
        ensures
            (final(self)@, r) == old(self)@.table_updated(
                table_id,
                crate::stringtables::items_view(items@),
                position,
            ),
    {
        if !self.ctx.has_string_table(table_id) {
            return self.fail(ParserError::StringTableNotFound);
        }
        let whole_bytes: usize = position / 8;
        let len: usize = self.string_data.len();
        if whole_bytes > len || (whole_bytes == len && position % 8 > 0) {
            return self.fail(ParserError::BitError(BitError::Overflow));
        }
        self.string_data = Vec::new();
        match self.ctx.set_table_items(table_id, items) {
            Ok(_) => self.next_message(),
            Err(err) => self.fail(ParserError::UpdateBaselineError(err)),
        }
    }

    fn server_info(&mut self, tick_interval: Option<TickInterval>) -> (r: Result<
        Action,
        ParserError,
    >)
        ensures
            (final(self)@, r) == old(self)@.server_info(tick_interval),
    {
        if let Some(tick_interval) = tick_interval {
            let interval: i64 = DEFAULT_FULL_PACKET_INTERVAL as i64 * tick_interval.ratio as i64;
            if interval < i32::MIN as i64 || interval > i32::MAX as i64 {
                return self.fail(ParserError::TickIntervalOverflow);
            }
            self.ctx.set_tick_interval(tick_interval.bits, interval as i32);
        }
        self.next_message()
    }

    fn packet_entities(&mut self, msg: CsvcMsgPacketEntities) -> (r: Result<Action, ParserError>)
        ensures
            (final(self)@, r) == old(self)@.packet_entities(msg),
    {
        if self.ctx.entity_classes().is_none() {
            return self.fail(ParserError::EntityClassesNotAvailable);
        }
        if self.ctx.serializers().is_none() {
            return self.fail(ParserError::SerializersNotAvailable);
        }
        match BitCursor::new(msg.entity_data) {
            None => self.fail(ParserError::MessageTooLarge),
            Some(entity_data) => {
                self.entity_data = entity_data;
                self.entity_index = -1;
                self.entities_left = msg.updated_entries;
                self.next_entity()
            },
        }
    }

    fn next_entity(&mut self) -> (r: Result<Action, ParserError>)
        ensures
            (final(self)@, r) == old(self)@.next_entity(),
    {
        if self.entities_left <= 0 {
            self.entity_data = BitCursor::empty();
            return self.next_message();
        }
        let mut br = self.entity_data.reader();
        let delta: u32 = match br.read_ubitvar() {
            Ok(delta) => delta,
            Err(err) => {
                return self.fail(ParserError::BitError(err));
            },
        };
        let position: usize = br.position();
        let step: Option<i32> = reinterpret_i32(delta).checked_add(1);
        let index: Option<i32> = match step {
            Some(step) => self.entity_index.checked_add(step),
            None => None,
        };
        match index {
            None => self.fail(ParserError::EntityIndexOverflow),
            Some(entity_index) => {
                if !self.entity_data.set_position(position) {
                    return self.fail(ParserError::BitError(BitError::Overflow));
                }
                self.entity_index = entity_index;
                self.entities_left = self.entities_left - 1;
                self.ask(Action::ReadDeltaHeader { entity_index })
            },
        }
    }

    fn delta_header_read(&mut self, delta_header: DeltaHeader, position: usize) -> (r: Result<
        Action,
        ParserError,
    >)
        ensures
            (final(self)@, r) == old(self)@.delta_header_read(delta_header, position),
    {
        if !self.entity_data.set_position(position) {
            return self.fail(ParserError::BitError(BitError::Overflow));
        }
        let entity_index: i32 = self.entity_index;
        match delta_header {
            DeltaHeader::Create => self.ask(Action::CreateEntity { entity_index }),
            DeltaHeader::Delete => self.ask(Action::DeleteEntity { entity_index }),
            DeltaHeader::Leave => self.ask(Action::LeaveEntity { entity_index }),
            DeltaHeader::Update => self.ask(Action::UpdateEntity { entity_index }),
            DeltaHeader::Other => self.next_entity(),
        }
    }

    fn entity_created(
        &mut self,
        entity_index: Option<i32>,
        present: bool,
        position: usize,
    ) -> (r: Result<Action, ParserError>)
        ensures
            (final(self)@, r) == old(self)@.entity_created(entity_index, present, position),
    {
        if !self.entity_data.set_position(position) {
            return self.fail(ParserError::BitError(BitError::Overflow));
        }
        match entity_index {
            None => self.next_entity(),
            Some(entity_index) => if present {
                self.ask(Action::OnEntity { entity_index, delta_header: DeltaHeader::Create })
            } else {
                self.fail(ParserError::EntityNotFound)
            },
        }
    }

    fn show_entity(&mut self, delta_header: DeltaHeader, present: bool) -> (r: Result<
        Action,
        ParserError,
    >)
        ensures
            (final(self)@, r) == old(self)@.show_entity(delta_header, present),
    {
        if present {
            self.ask(Action::OnEntity { entity_index: self.entity_index, delta_header })
        } else {
            self.next_entity()
        }
    }

    fn entity_updated(&mut self, present: bool, position: usize) -> (r: Result<Action, ParserError>)
        ensures
            (final(self)@, r) == old(self)@.entity_updated(present, position),
    {
        if !self.entity_data.set_position(position) {
            return self.fail(ParserError::BitError(BitError::Overflow));
        }
        self.show_entity(DeltaHeader::Update, present)
    }

    fn done(&mut self) -> (r: Result<Action, ParserError>)
        ensures
            (final(self)@, r) == old(self)@.done(),
    {
        match self.pending {
            Action::SetCollecting { .. } => match self.plan {
                Some(plan) => self.ask(Action::OnCmd { header: plan.header }),
                None => self.ask(Action::NextCmd),
            },
            Action::OnCmd { header } => self.decode_cmd(header.cmd),
            Action::OnPacket { command } => self.decode_message(command),
            Action::OnEntity { .. } => self.next_entity(),
            Action::OnTickEnd => {
                self.plan = None;
                self.ask(Action::NextCmd)
            },
            _ => self.fail(ParserError::UnexpectedEvent),
        }
    }

    /// Goes on after `event`, which reports what came of the pending action.
    pub fn step(&mut self, event: Event<S, E>) -> (r: Result<Action, ParserError>)
        ensures
            (final(self)@, r) == old(self)@.step(event),
    {
        match (self.pending, event) {
            (_, Event::Done) => self.done(),
            (Action::DecodePacket, Event::Packet(cmd)) => self.begin_packet(
                Some(into_packet_data(cmd)),
            ),
            (Action::DecodeSendTables, Event::SendTables(serializers)) => {
                self.ctx.set_serializers(serializers);
                self.finish_cmd()
            },
            (Action::DecodeClassInfo, Event::ClassInfo(entity_classes)) => self.class_info(
                entity_classes,
            ),
            (Action::DecodeFullPacket, Event::FullPacket(cmd)) => self.full_packet(cmd),
            (Action::UpdateAllTables, Event::AllTables(tables)) => self.all_tables(tables),
            (Action::DecodeCreateStringTable, Event::CreateStringTable(msg)) =>
                self.create_string_table(msg),
            (Action::DecodeUpdateStringTable, Event::UpdateStringTable(msg)) =>
                self.update_string_table(msg),
            (
                Action::ParseTableUpdate { table_id, .. },
                Event::TableUpdated { items, position },
            ) => self.table_updated(table_id, items, position),
            (Action::DecodeServerInfo, Event::ServerInfo(tick_interval)) => self.server_info(
                tick_interval,
            ),
            (Action::DecodePacketEntities, Event::PacketEntities(msg)) => self.packet_entities(msg),
            (
                Action::ReadDeltaHeader { .. },
                Event::DeltaHeaderRead { delta_header, position },
            ) => self.delta_header_read(delta_header, position),
            (
                Action::CreateEntity { .. },
                Event::EntityCreated { entity_index, present, position, entities },
            ) => {
                self.ctx.set_entities(entities);
                self.entity_created(entity_index, present, position)
            },
            (Action::DeleteEntity { .. }, Event::EntityGone { present, entities }) => {
                self.ctx.set_entities(entities);
                self.show_entity(DeltaHeader::Delete, present)
            },
            (Action::LeaveEntity { .. }, Event::EntityGone { present, entities }) => {
                self.ctx.set_entities(entities);
                self.show_entity(DeltaHeader::Leave, present)
            },
            (Action::UpdateEntity { .. }, Event::EntityUpdated { present, position, entities }) => {
                self.ctx.set_entities(entities);
                self.entity_updated(present, position)
            },
            _ => self.fail(ParserError::UnexpectedEvent),
        }
    }

    /// Ends the run, because there is no header of a next command.
    pub fn no_cmd_header(&mut self, err: ReadCmdHeaderError, at_eof: bool) -> (r: Result<
        Action,
        ParserError,
    >)
        ensures
            (final(self)@, r) == old(self)@.no_cmd_header(err, at_eof),
    {
        if self.pending != Action::NextCmd {
            return self.fail(ParserError::UnexpectedEvent);
        }
        self.stop();
        if at_eof {
            Ok(Action::Idle)
        } else {
            Err(ParserError::ReadCmdHeaderError(err))
        }
    }

    /// Goes back to the tick of the command before, once the header that ended the run has been unread.
    pub fn go_back_in_front(&mut self)
        ensures
            final(self)@ == old(self)@.back_in_front(),
    {
        self.ctx.restore_tick();
    }

    /// Decides what becomes of the command `header`, which comes next.
    pub fn on_cmd_header(&mut self, header: &CmdHeader) -> (r: Result<CmdFlow, ParserError>)
        ensures
            (final(self)@, r) == old(self)@.on_cmd_header(*header),
    {
        let mut run: Run = match (self.pending, self.run) {
            (Action::NextCmd, Some(run)) => run,
            _ => {
                self.stop();
                return Err(ParserError::UnexpectedEvent);
            },
        };
        if let Run::ToEnd { reset_on_full_packet } = run {
            if reset_on_full_packet && header.cmd == EDemoCommands::DemFullPacket {
                self.ctx.set_entities(None);
            }
        }
        let verdict = run.advance(self.ctx.full_packet_interval(), header);
        self.ctx.set_tick(header.tick);
        if verdict == Verdict::Stop {
            self.stop();
            return Ok(CmdFlow::Stop);
        }
        self.run = Some(run);
        let mut plan = CmdPlan { header: *header, with_packet: true, ends_tick: false };
        match verdict {
            Verdict::Skip | Verdict::Stop => {
                self.plan = None;
                return Ok(CmdFlow::Skip);
            },
            Verdict::Collect => {
                self.skip_entity_packets = false;
                self.pending = Action::SetCollecting { collecting: true };
            },
            Verdict::Handle => {
                self.pending = Action::OnCmd { header: *header };
            },
            Verdict::Apply { with_packet } => {
                plan.with_packet = with_packet;
                plan.ends_tick = true;
                self.pending = Action::OnCmd { header: *header };
            },
        }
        self.plan = Some(plan);
        Ok(CmdFlow::Play)
    }
}

} // verus!
