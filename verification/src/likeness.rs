//! Playbacks that get the same reports, whatever else they know of the game: they ask for the same
//! actions, and show the same to the visitor.

use crate::demostream::EDemoCommands;
use crate::messages::{
    CDemoFullPacket, CsvcMsgCreateStringTable, CsvcMsgPacketEntities, CsvcMsgUpdateStringTable,
    DeltaHeader, TickInterval,
};
use crate::playback::{Action, Event, Outcome, PlaybackModel};
use crate::stringtables::TableModel;
use vstd::prelude::*;

verus! {

/// Whether a command's body is decoded only the first time that such a command is played.
pub open spec fn is_decoded_once(cmd: EDemoCommands) -> bool {
    cmd == EDemoCommands::DemSendTables || cmd == EDemoCommands::DemClassInfo
}

/// Whether two actions are the same, apart from the place of the string table that they change.
pub open spec fn same_action(one: Action, other: Action) -> bool {
    ||| one == other
    ||| match (one, other) {
        (
            Action::ParseTableUpdate { num_entries: n, .. },
            Action::ParseTableUpdate { num_entries: m, .. },
        ) => n == m,
        _ => false,
    }
}

/// Whether an action is for one of the entities that a message changes.
pub open spec fn is_single_entity_action(action: Action) -> bool {
    crate::coherence::is_entity_action(action) && action != Action::DecodePacketEntities
}

/// Whether an action is for a message of a packet.
pub open spec fn is_message_action(action: Action) -> bool {
    match action {
        Action::OnPacket { .. }
        | Action::DecodeCreateStringTable
        | Action::DecodeUpdateStringTable
        | Action::ParseTableUpdate { .. }
        | Action::DecodeServerInfo => true,
        _ => crate::coherence::is_entity_action(action),
    }
}

/// Whether two playbacks are at a command of the same kind, at the same tick.
pub open spec fn same_course<S, E>(one: PlaybackModel<S, E>, other: PlaybackModel<S, E>) -> bool {
    &&& one.plan == other.plan
    &&& one.ctx.tick == other.ctx.tick
    &&& one.ctx.prev_tick == other.ctx.prev_tick
    &&& one.skip_entity_packets == other.skip_entity_packets
}

/// Whether two playbacks have got equally far with the same command, whatever else they know.
pub open spec fn alike<S, E>(one: PlaybackModel<S, E>, other: PlaybackModel<S, E>) -> bool {
    &&& same_course(one, other)
    &&& same_action(one.pending, other.pending)
    &&& is_message_action(one.pending) ==> one.packet == other.packet && one.message
        == other.message
    &&& is_single_entity_action(one.pending) ==> same_entity_data(one, other)
    &&& one.pending == Action::UpdateAllTables ==> one.held_packet == other.held_packet
}

/// Whether two playbacks have the same changes of entities before them.
pub open spec fn same_entity_data<S, E>(
    one: PlaybackModel<S, E>,
    other: PlaybackModel<S, E>,
) -> bool {
    &&& one.entity_data == other.entity_data
    &&& one.entity_index == other.entity_index
    &&& one.entities_left == other.entities_left
}

/// Whether two playbacks have the same string tables and entities, and change the same.
pub open spec fn same_game<S, E>(one: PlaybackModel<S, E>, other: PlaybackModel<S, E>) -> bool {
    &&& one.ctx.string_tables == other.ctx.string_tables
    &&& one.ctx.entities == other.ctx.entities
    &&& one.pending == other.pending
}

/// Whether two reports are the same, apart from the contents of string tables and of entities.
pub open spec fn similar<S, E>(one: Event<S, E>, other: Event<S, E>) -> bool {
    match (one, other) {
        (Event::AllTables(_), Event::AllTables(_)) => true,
        (Event::TableUpdated { .. }, Event::TableUpdated { .. }) => true,
        (
            Event::EntityCreated { entity_index: i, present: p, position: n, .. },
            Event::EntityCreated { entity_index: j, present: q, position: m, .. },
        ) => i == j && p == q && n == m,
        (Event::EntityGone { present: p, .. }, Event::EntityGone { present: q, .. }) => p == q,
        (
            Event::EntityUpdated { present: p, position: n, .. },
            Event::EntityUpdated { present: q, position: m, .. },
        ) => p == q && n == m,
        _ => one == other,
    }
}

/// Outcomes that are alike, unless one of them is an error.
spec fn alike_outcomes<S, E>(one: Outcome<S, E>, other: Outcome<S, E>) -> bool {
    one.1 is Ok && other.1 is Ok ==> {
        &&& alike(one.0, other.0)
        &&& one.0.ctx.string_tables == other.0.ctx.string_tables && one.0.ctx.entities
            == other.0.ctx.entities ==> same_game(one.0, other.0)
    }
}

proof fn lemma_finish_cmd_alike<S, E>(one: PlaybackModel<S, E>, other: PlaybackModel<S, E>)
    requires
        same_course(one, other),
    ensures
        alike_outcomes(one.finish_cmd(), other.finish_cmd()),
        one.finish_cmd().0.ctx == one.ctx,
{
}

proof fn lemma_next_message_alike<S, E>(one: PlaybackModel<S, E>, other: PlaybackModel<S, E>)
    requires
        same_course(one, other),
        one.packet == other.packet,
    ensures
        alike_outcomes(one.next_message(), other.next_message()),
        one.next_message().0.ctx == one.ctx,
{
}

proof fn lemma_begin_packet_alike<S, E>(
    one: PlaybackModel<S, E>,
    other: PlaybackModel<S, E>,
    packet: Option<Seq<u8>>,
)
    requires
        same_course(one, other),
    ensures
        alike_outcomes(one.begin_packet(packet), other.begin_packet(packet)),
        one.begin_packet(packet).0.ctx == one.ctx,
{
    if let Some(data) = packet {
        let packet = crate::bitreader::BitStream { data, pos: 0 };
        lemma_next_message_alike(
            PlaybackModel { packet, ..one },
            PlaybackModel { packet, ..other },
        );
    }
}

proof fn lemma_next_entity_alike<S, E>(one: PlaybackModel<S, E>, other: PlaybackModel<S, E>)
    requires
        same_course(one, other),
        one.packet == other.packet,
        one.message == other.message,
        same_entity_data(one, other),
    ensures
        alike_outcomes(one.next_entity(), other.next_entity()),
        one.next_entity().0.ctx == one.ctx,
{
    lemma_next_message_alike(
        PlaybackModel { entity_data: crate::playback::no_bits(), ..one },
        PlaybackModel { entity_data: crate::playback::no_bits(), ..other },
    );
}

/// Where neither outcome is an error, the playbacks stay alike, and so do their games.
spec fn stay_alike<S, E>(
    one: PlaybackModel<S, E>,
    other: PlaybackModel<S, E>,
    one_outcome: Outcome<S, E>,
    other_outcome: Outcome<S, E>,
) -> bool {
    one_outcome.1 is Ok && other_outcome.1 is Ok ==> {
        &&& alike(one_outcome.0, other_outcome.0)
        &&& same_game(one, other) ==> same_game(one_outcome.0, other_outcome.0)
    }
}

proof fn lemma_packet_alike<S, E>(
    one: PlaybackModel<S, E>,
    other: PlaybackModel<S, E>,
    packet: Option<Seq<u8>>,
)
    requires
        same_course(one, other),
    ensures
        stay_alike(one, other, one.begin_packet(packet), other.begin_packet(packet)),
        stay_alike(one, other, one.finish_cmd(), other.finish_cmd()),
{
    lemma_begin_packet_alike(one, other, packet);
    lemma_begin_packet_alike(other, one, packet);
}

proof fn lemma_decoded_once_alike<S, E>(
    one: PlaybackModel<S, E>,
    other: PlaybackModel<S, E>,
    event: Event<S, E>,
)
    requires
        alike(one, other),
        one.pending == Action::DecodeSendTables || one.pending == Action::DecodeClassInfo,
        !(event is Done),
    ensures
        stay_alike(one, other, one.step(event), other.step(event)),
{
}

proof fn lemma_full_packet_alike<S, E>(
    one: PlaybackModel<S, E>,
    other: PlaybackModel<S, E>,
    cmd: CDemoFullPacket,
)
    requires
        same_course(one, other),
    ensures
        stay_alike(one, other, one.full_packet(cmd), other.full_packet(cmd)),
{
    let packet = match cmd.packet {
        Some(packet) => if one.plan matches Some(plan) && plan.with_packet {
            Some(crate::messages::packet_data(packet))
        } else {
            None
        },
        None => None,
    };
    lemma_packet_alike(one, other, packet);
}

proof fn lemma_all_tables_alike<S, E>(
    one: PlaybackModel<S, E>,
    other: PlaybackModel<S, E>,
    one_tables: Seq<TableModel>,
    other_tables: Seq<TableModel>,
)
    requires
        same_course(one, other),
        one.held_packet == other.held_packet,
    ensures
        alike_outcomes(one.all_tables(one_tables), other.all_tables(other_tables)),
        one_tables == other_tables ==> stay_alike(
            one,
            other,
            one.all_tables(one_tables),
            other.all_tables(other_tables),
        ),
{
    let one_ctx = crate::context::ContextModel {
        string_tables: one_tables,
        ..one.ctx
    }.with_named_baselines().0;
    let other_ctx = crate::context::ContextModel {
        string_tables: other_tables,
        ..other.ctx
    }.with_named_baselines().0;
    let one_next = PlaybackModel { ctx: one_ctx, held_packet: None, ..one };
    let other_next = PlaybackModel { ctx: other_ctx, held_packet: None, ..other };
    lemma_begin_packet_alike(one_next, other_next, one.held_packet);
    lemma_begin_packet_alike(other_next, one_next, one.held_packet);
}

proof fn lemma_create_string_table_alike<S, E>(
    one: PlaybackModel<S, E>,
    other: PlaybackModel<S, E>,
    msg: CsvcMsgCreateStringTable,
)
    requires
        same_course(one, other),
        one.packet == other.packet,
        one.message == other.message,
    ensures
        stay_alike(one, other, one.create_string_table(msg), other.create_string_table(msg)),
{
}

proof fn lemma_update_string_table_alike<S, E>(
    one: PlaybackModel<S, E>,
    other: PlaybackModel<S, E>,
    msg: CsvcMsgUpdateStringTable,
)
    requires
        same_course(one, other),
        one.packet == other.packet,
        one.message == other.message,
    ensures
        stay_alike(one, other, one.update_string_table(msg), other.update_string_table(msg)),
{
}

proof fn lemma_table_updated_alike<S, E>(
    one: PlaybackModel<S, E>,
    other: PlaybackModel<S, E>,
    one_id: usize,
    other_id: usize,
    one_event: (Seq<crate::stringtables::ItemModel>, usize),
    other_event: (Seq<crate::stringtables::ItemModel>, usize),
)
    requires
        same_course(one, other),
        one.packet == other.packet,
        same_game(one, other) ==> one_id == other_id,
    ensures
        ({
            let one_outcome = one.table_updated(one_id, one_event.0, one_event.1);
            let other_outcome = other.table_updated(other_id, other_event.0, other_event.1);
            &&& alike_outcomes(one_outcome, other_outcome)
            &&& one_event == other_event ==> stay_alike(one, other, one_outcome, other_outcome)
        }),
{
    let one_next = PlaybackModel {
        ctx: one.ctx.with_items(one_id as int, one_event.0).0,
        string_data: Seq::empty(),
        ..one
    };
    let other_next = PlaybackModel {
        ctx: other.ctx.with_items(other_id as int, other_event.0).0,
        string_data: Seq::empty(),
        ..other
    };
    lemma_next_message_alike(one_next, other_next);
    lemma_next_message_alike(other_next, one_next);
}

proof fn lemma_server_info_alike<S, E>(
    one: PlaybackModel<S, E>,
    other: PlaybackModel<S, E>,
    tick_interval: Option<TickInterval>,
)
    requires
        same_course(one, other),
        one.packet == other.packet,
    ensures
        stay_alike(one, other, one.server_info(tick_interval), other.server_info(tick_interval)),
{
    lemma_next_message_alike(one, other);
    lemma_next_message_alike(other, one);
    if let Some(interval) = tick_interval {
        let full_packet_interval = (crate::playback::DEFAULT_FULL_PACKET_INTERVAL
            * interval.ratio) as i32;
        let one_next = PlaybackModel {
            ctx: crate::context::ContextModel {
                tick_interval: interval.bits,
                full_packet_interval,
                ..one.ctx
            },
            ..one
        };
        let other_next = PlaybackModel {
            ctx: crate::context::ContextModel {
                tick_interval: interval.bits,
                full_packet_interval,
                ..other.ctx
            },
            ..other
        };
        lemma_next_message_alike(one_next, other_next);
        lemma_next_message_alike(other_next, one_next);
    }
}

proof fn lemma_packet_entities_alike<S, E>(
    one: PlaybackModel<S, E>,
    other: PlaybackModel<S, E>,
    msg: CsvcMsgPacketEntities,
)
    requires
        same_course(one, other),
        one.packet == other.packet,
        one.message == other.message,
    ensures
        stay_alike(one, other, one.packet_entities(msg), other.packet_entities(msg)),
{
    let entity_data = crate::bitreader::BitStream { data: msg.entity_data@, pos: 0 };
    let one_next = PlaybackModel {
        entity_data,
        entity_index: (-1) as i32,
        entities_left: msg.updated_entries,
        ..one
    };
    let other_next = PlaybackModel {
        entity_data,
        entity_index: (-1) as i32,
        entities_left: msg.updated_entries,
        ..other
    };
    lemma_next_entity_alike(one_next, other_next);
    lemma_next_entity_alike(other_next, one_next);
}

proof fn lemma_entity_reported_alike<S, E>(
    one: PlaybackModel<S, E>,
    other: PlaybackModel<S, E>,
    delta_header: DeltaHeader,
    entity_index: Option<i32>,
    present: bool,
    position: usize,
)
    requires
        same_course(one, other),
        one.packet == other.packet,
        one.message == other.message,
        same_entity_data(one, other),
    ensures
        stay_alike(one, other, one.next_entity(), other.next_entity()),
        stay_alike(
            one,
            other,
            one.delta_header_read(delta_header, position),
            other.delta_header_read(delta_header, position),
        ),
        stay_alike(
            one,
            other,
            one.entity_created(entity_index, present, position),
            other.entity_created(entity_index, present, position),
        ),
        stay_alike(
            one,
            other,
            one.show_entity(delta_header, present),
            other.show_entity(delta_header, present),
        ),
        stay_alike(
            one,
            other,
            one.entity_updated(present, position),
            other.entity_updated(present, position),
        ),
{
    lemma_next_entity_alike(one, other);
    lemma_next_entity_alike(other, one);
    if let (Ok(one_next), Ok(other_next)) = (
        one.entity_data_at(position),
        other.entity_data_at(position),
    ) {
        lemma_next_entity_alike(one_next, other_next);
        lemma_next_entity_alike(other_next, one_next);
    }
}

proof fn lemma_done_alike<S, E>(one: PlaybackModel<S, E>, other: PlaybackModel<S, E>)
    requires
        alike(one, other),
        one.pending matches Action::OnCmd { header } ==> !is_decoded_once(header.cmd),
    ensures
        stay_alike(one, other, one.done(), other.done()),
{
    lemma_finish_cmd_alike(one, other);
    if is_message_action(one.pending) {
        lemma_next_message_alike(one, other);
        lemma_next_message_alike(other, one);
    }
    if is_single_entity_action(one.pending) {
        lemma_next_entity_alike(one, other);
        lemma_next_entity_alike(other, one);
    }
}

/// Similar reports leave playbacks alike, unless one of them cannot go on. Where the reports are the
/// same, so do the string tables and the entities stay.
pub proof fn lemma_step_alike<S, E>(
    one: PlaybackModel<S, E>,
    other: PlaybackModel<S, E>,
    one_event: Event<S, E>,
    other_event: Event<S, E>,
)
    requires
        alike(one, other),
        similar(one_event, other_event),
        one.pending matches Action::OnCmd { header } ==> !is_decoded_once(header.cmd),
        one.step(one_event).1 is Ok,
        other.step(other_event).1 is Ok,
    ensures
        alike(one.step(one_event).0, other.step(other_event).0),
        one_event == other_event && same_game(one, other) ==> same_game(
            one.step(one_event).0,
            other.step(other_event).0,
        ),
{
    match (one.pending, one_event, other_event) {
        (_, Event::Done, _) => lemma_done_alike(one, other),
        (Action::DecodePacket, Event::Packet(cmd), _) => lemma_packet_alike(
            one,
            other,
            Some(crate::messages::packet_data(cmd)),
        ),
        (Action::DecodeSendTables, _, _) | (
            Action::DecodeClassInfo,
            _,
            _,
        ) => lemma_decoded_once_alike(one, other, one_event),
        (Action::DecodeFullPacket, Event::FullPacket(cmd), _) => lemma_full_packet_alike(
            one,
            other,
            cmd,
        ),
        (
            Action::UpdateAllTables,
            Event::AllTables(one_tables),
            Event::AllTables(other_tables),
        ) => lemma_all_tables_alike(one, other, one_tables@, other_tables@),
        (Action::DecodeCreateStringTable, Event::CreateStringTable(msg), _) =>
            lemma_create_string_table_alike(one, other, msg),
        (Action::DecodeUpdateStringTable, Event::UpdateStringTable(msg), _) =>
            lemma_update_string_table_alike(one, other, msg),
        (
            Action::ParseTableUpdate { table_id, .. },
            Event::TableUpdated { items: one_items, position: one_position },
            Event::TableUpdated { items: other_items, position: other_position },
        ) => {
            if let Action::ParseTableUpdate { table_id: other_id, .. } = other.pending {
                lemma_table_updated_alike(
                    one,
                    other,
                    table_id,
                    other_id,
                    (crate::stringtables::items_view(one_items@), one_position),
                    (crate::stringtables::items_view(other_items@), other_position),
                );
            }
        },
        (Action::DecodeServerInfo, Event::ServerInfo(interval), _) => lemma_server_info_alike(
            one,
            other,
            interval,
        ),
        (Action::DecodePacketEntities, Event::PacketEntities(msg), _) =>
            lemma_packet_entities_alike(one, other, msg),
        (
            Action::ReadDeltaHeader { .. },
            Event::DeltaHeaderRead { delta_header, position },
            _,
        ) => lemma_entity_reported_alike(one, other, delta_header, None, false, position),
        (
            Action::CreateEntity { .. },
            Event::EntityCreated { entity_index, present, position, entities },
            Event::EntityCreated { entities: other_entities, .. },
        ) => lemma_entity_reported_alike(
            one.with_entities(entities),
            other.with_entities(other_entities),
            DeltaHeader::Create,
            entity_index,
            present,
            position,
        ),
        (
            Action::DeleteEntity { .. },
            Event::EntityGone { present, entities },
            Event::EntityGone { entities: other_entities, .. },
        ) => lemma_entity_reported_alike(
            one.with_entities(entities),
            other.with_entities(other_entities),
            DeltaHeader::Delete,
            None,
            present,
            0,
        ),
        (
            Action::LeaveEntity { .. },
            Event::EntityGone { present, entities },
            Event::EntityGone { entities: other_entities, .. },
        ) => lemma_entity_reported_alike(
            one.with_entities(entities),
            other.with_entities(other_entities),
            DeltaHeader::Leave,
            None,
            present,
            0,
        ),
        (
            Action::UpdateEntity { .. },
            Event::EntityUpdated { present, position, entities },
            Event::EntityUpdated { entities: other_entities, .. },
        ) => lemma_entity_reported_alike(
            one.with_entities(entities),
            other.with_entities(other_entities),
            DeltaHeader::Update,
            None,
            present,
            position,
        ),
        _ => {},
    }
}

} // verus!
