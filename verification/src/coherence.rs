//! What holds throughout a playback, whatever is reported to it.

use crate::demostream::CmdHeader;
use crate::messages::{
    CDemoFullPacket, CsvcMsgPacketEntities, DeltaHeader, EntityClasses, TickInterval,
};
use crate::playback::{Action, Event, Outcome, PlaybackModel};
use crate::run::Run;
use crate::stringtables::TableModel;
use vstd::prelude::*;

verus! {

/// Whether an action has to do with single entities.
pub open spec fn is_entity_action(action: Action) -> bool {
    match action {
        Action::DecodePacketEntities
        | Action::ReadDeltaHeader { .. }
        | Action::CreateEntity { .. }
        | Action::DeleteEntity { .. }
        | Action::LeaveEntity { .. }
        | Action::UpdateEntity { .. }
        | Action::OnEntity { .. } => true,
        _ => false,
    }
}

/// Whether a tick ends with the command that is being played.
pub open spec fn ends_tick<S, E>(playback: PlaybackModel<S, E>) -> bool {
    ||| playback.ctx.prev_tick != playback.ctx.tick
    ||| playback.plan matches Some(plan) && plan.ends_tick
}

/// What holds in every state of a playback.
pub open spec fn coherent<S, E>(playback: PlaybackModel<S, E>) -> bool {
    // Something is pending just as long as a run goes on.
    &&& playback.run is None <==> playback.pending == Action::Idle
    // Entities are left alone just as long as the run does not record.
    &&& playback.skip_entity_packets <==> (playback.run matches Some(run) && !run.records())
    &&& playback.skip_entity_packets ==> !is_entity_action(playback.pending)
    // What is known already is not decoded again.
    &&& playback.pending == Action::DecodeSendTables ==> playback.ctx.serializers is None
    &&& playback.pending == Action::DecodeClassInfo ==> playback.ctx.entity_classes is None
    // What is shown to the visitor is what is being played.
    &&& playback.pending matches Action::OnCmd { header } ==> (playback.plan matches Some(plan)
        && plan.header == header)
    // The visitor hears of the end of a tick only when one ends.
    &&& playback.pending == Action::OnTickEnd ==> ends_tick(playback)
}

/// Whether a command is being played.
pub open spec fn in_cmd<S, E>(playback: PlaybackModel<S, E>) -> bool {
    &&& playback.plan is Some
    &&& playback.pending != Action::Idle
    &&& playback.pending != Action::NextCmd
}

/// The outcome either ends the run, or goes on with the same command.
pub(crate) open spec fn continues<S, E>(before: PlaybackModel<S, E>, outcome: Outcome<S, E>) -> bool {
    let (after, result) = outcome;
    &&& before.ctx.serializers is Some ==> after.ctx.serializers == before.ctx.serializers
    &&& before.ctx.entity_classes is Some ==> after.ctx.entity_classes == before.ctx.entity_classes
    &&& after.ctx.tick == before.ctx.tick
    &&& after.ctx.prev_tick == before.ctx.prev_tick
    &&& match result {
        Err(_) => after == after.stopped(),
        Ok(action) => {
            &&& after.pending == action
            &&& after.run == before.run
            &&& after.plan == before.plan
            &&& after.skip_entity_packets == before.skip_entity_packets
            &&& action != Action::Idle
            &&& action matches Action::OnCmd { header } ==> (after.plan matches Some(plan)
                && plan.header == header)
            &&& action == Action::DecodeSendTables ==> after.ctx.serializers is None
            &&& action == Action::DecodeClassInfo ==> after.ctx.entity_classes is None
            &&& action == Action::OnTickEnd ==> ends_tick(before)
            &&& action == Action::NextCmd && before.plan is Some ==> !ends_tick(before)
            &&& before.skip_entity_packets && !is_entity_action(before.pending)
                ==> !is_entity_action(action)
        },
    }
}

/// Nothing has changed that matters to the course of the command that is being played.
spec fn same_cmd<S, E>(before: PlaybackModel<S, E>, now: PlaybackModel<S, E>) -> bool {
    &&& now.ctx.tick == before.ctx.tick
    &&& now.ctx.prev_tick == before.ctx.prev_tick
    &&& before.ctx.serializers is Some ==> now.ctx.serializers == before.ctx.serializers
    &&& before.ctx.entity_classes is Some ==> now.ctx.entity_classes == before.ctx.entity_classes
    &&& now.run == before.run
    &&& now.plan == before.plan
    &&& now.skip_entity_packets == before.skip_entity_packets
}

proof fn lemma_next_message<S, E>(before: PlaybackModel<S, E>, now: PlaybackModel<S, E>)
    requires
        same_cmd(before, now),
    ensures
        continues(before, now.next_message()),
        continues(before, now.finish_cmd()),
{
}

proof fn lemma_begin_packet<S, E>(
    before: PlaybackModel<S, E>,
    now: PlaybackModel<S, E>,
    packet: Option<Seq<u8>>,
)
    requires
        same_cmd(before, now),
    ensures
        continues(before, now.begin_packet(packet)),
{
    lemma_next_message(before, now);
    if let Some(data) = packet {
        lemma_next_message(
            before,
            PlaybackModel {
                packet: crate::bitreader::BitStream { data, pos: 0 },
                ..now
            },
        );
    }
}

proof fn lemma_next_entity<S, E>(before: PlaybackModel<S, E>, now: PlaybackModel<S, E>)
    requires
        same_cmd(before, now),
        !before.skip_entity_packets,
    ensures
        continues(before, now.next_entity()),
{
    lemma_next_message(
        before,
        PlaybackModel { entity_data: crate::playback::no_bits(), ..now },
    );
}

proof fn lemma_baselines_keep<S, E>(ctx: crate::context::ContextModel<S, E>)
    ensures
        ({
            let (after, _) = ctx.with_named_baselines();
            after == (crate::context::ContextModel {
                instance_baseline: after.instance_baseline,
                ..ctx
            })
        }),
{
}

proof fn lemma_class_info<S, E>(before: PlaybackModel<S, E>, entity_classes: EntityClasses)
    requires
        before.ctx.entity_classes is None,
    ensures
        continues(before, before.class_info(entity_classes)),
{
    let ctx = crate::context::ContextModel { entity_classes: Some(entity_classes), ..before.ctx };
    lemma_baselines_keep(ctx);
    let (ctx, _) = ctx.with_named_baselines();
    lemma_next_message(before, PlaybackModel { ctx, ..before });
}

proof fn lemma_full_packet<S, E>(before: PlaybackModel<S, E>, cmd: CDemoFullPacket)
    ensures
        continues(before, before.full_packet(cmd)),
{
    let packet = match cmd.packet {
        Some(packet) => if before.plan matches Some(plan) && plan.with_packet {
            Some(crate::messages::packet_data(packet))
        } else {
            None
        },
        None => None,
    };
    lemma_begin_packet(before, before, packet);
}

proof fn lemma_all_tables<S, E>(before: PlaybackModel<S, E>, tables: Seq<TableModel>)
    ensures
        continues(before, before.all_tables(tables)),
{
    let ctx = crate::context::ContextModel { string_tables: tables, ..before.ctx };
    lemma_baselines_keep(ctx);
    let (ctx, _) = ctx.with_named_baselines();
    lemma_begin_packet(
        before,
        PlaybackModel { ctx, held_packet: None, ..before },
        before.held_packet,
    );
}

proof fn lemma_table_updated<S, E>(
    before: PlaybackModel<S, E>,
    table_id: usize,
    items: Seq<crate::stringtables::ItemModel>,
    position: usize,
)
    ensures
        continues(before, before.table_updated(table_id, items, position)),
{
    let (ctx, _) = before.ctx.with_items(table_id as int, items);
    lemma_next_message(before, PlaybackModel { ctx, string_data: Seq::empty(), ..before });
}

proof fn lemma_server_info<S, E>(before: PlaybackModel<S, E>, tick_interval: Option<TickInterval>)
    ensures
        continues(before, before.server_info(tick_interval)),
{
    lemma_next_message(before, before);
    if let Some(interval) = tick_interval {
        let ctx = crate::context::ContextModel {
            tick_interval: interval.bits,
            full_packet_interval: (crate::playback::DEFAULT_FULL_PACKET_INTERVAL
                * interval.ratio) as i32,
            ..before.ctx
        };
        lemma_next_message(before, PlaybackModel { ctx, ..before });
    }
}

proof fn lemma_packet_entities<S, E>(before: PlaybackModel<S, E>, msg: CsvcMsgPacketEntities)
    requires
        !before.skip_entity_packets,
    ensures
        continues(before, before.packet_entities(msg)),
{
    lemma_next_entity(
        before,
        PlaybackModel {
            entity_data: crate::bitreader::BitStream { data: msg.entity_data@, pos: 0 },
            entity_index: (-1) as i32,
            entities_left: msg.updated_entries,
            ..before
        },
    );
}

proof fn lemma_entity_reported<S, E>(
    before: PlaybackModel<S, E>,
    now: PlaybackModel<S, E>,
    delta_header: DeltaHeader,
    entity_index: Option<i32>,
    present: bool,
    position: usize,
)
    requires
        same_cmd(before, now),
        !before.skip_entity_packets,
    ensures
        continues(before, now.delta_header_read(delta_header, position)),
        continues(before, now.entity_created(entity_index, present, position)),
        continues(before, now.show_entity(delta_header, present)),
        continues(before, now.entity_updated(present, position)),
{
    lemma_next_entity(before, now);
    if let Ok(next) = now.entity_data_at(position) {
        lemma_next_entity(before, next);
    }
}

proof fn lemma_done<S, E>(before: PlaybackModel<S, E>)
    requires
        coherent(before),
        before.pending != Action::OnTickEnd,
    ensures
        continues(before, before.done()),
{
    lemma_next_message(before, before);
    if is_entity_action(before.pending) {
        lemma_next_entity(before, before);
    }
}

pub(crate) proof fn lemma_step_continues<S, E>(before: PlaybackModel<S, E>, event: Event<S, E>)
    requires
        coherent(before),
        !(before.pending == Action::OnTickEnd && event is Done),
    ensures
        continues(before, before.step(event)),
{
    match (before.pending, event) {
        (_, Event::Done) => lemma_done(before),
        (Action::DecodePacket, Event::Packet(cmd)) => lemma_begin_packet(
            before,
            before,
            Some(crate::messages::packet_data(cmd)),
        ),
        (Action::DecodeSendTables, Event::SendTables(serializers)) => lemma_next_message(
            before,
            PlaybackModel {
                ctx: crate::context::ContextModel {
                    serializers: Some(serializers),
                    ..before.ctx
                },
                ..before
            },
        ),
        (Action::DecodeClassInfo, Event::ClassInfo(classes)) => lemma_class_info(before, classes),
        (Action::DecodeFullPacket, Event::FullPacket(cmd)) => lemma_full_packet(before, cmd),
        (Action::UpdateAllTables, Event::AllTables(tables)) => lemma_all_tables(before, tables@),
        (
            Action::ParseTableUpdate { table_id, .. },
            Event::TableUpdated { items, position },
        ) => lemma_table_updated(
            before,
            table_id,
            crate::stringtables::items_view(items@),
            position,
        ),
        (Action::DecodeServerInfo, Event::ServerInfo(interval)) => lemma_server_info(
            before,
            interval,
        ),
        (Action::DecodePacketEntities, Event::PacketEntities(msg)) => lemma_packet_entities(
            before,
            msg,
        ),
        (
            Action::ReadDeltaHeader { .. },
            Event::DeltaHeaderRead { delta_header, position },
        ) => lemma_entity_reported(before, before, delta_header, None, false, position),
        (
            Action::CreateEntity { .. },
            Event::EntityCreated { entity_index, present, position, entities },
        ) => lemma_entity_reported(
            before,
            before.with_entities(entities),
            DeltaHeader::Create,
            entity_index,
            present,
            position,
        ),
        (
            Action::DeleteEntity { .. },
            Event::EntityGone { present, entities },
        ) => lemma_entity_reported(
            before,
            before.with_entities(entities),
            DeltaHeader::Delete,
            None,
            present,
            0,
        ),
        (
            Action::LeaveEntity { .. },
            Event::EntityGone { present, entities },
        ) => lemma_entity_reported(
            before,
            before.with_entities(entities),
            DeltaHeader::Leave,
            None,
            present,
            0,
        ),
        (
            Action::UpdateEntity { .. },
            Event::EntityUpdated { present, position, entities },
        ) => lemma_entity_reported(
            before,
            before.with_entities(entities),
            DeltaHeader::Update,
            None,
            present,
            position,
        ),
        _ => {},
    }
}

/// A playback is coherent before any run, at the beginning of each, and when one ends.
pub proof fn lemma_start_coherent<S, E>(playback: PlaybackModel<S, E>, run: Run)
    ensures
        coherent(PlaybackModel::<S, E>::initial()),
        coherent(playback.started(run)),
        coherent(playback.stopped()),
{
}

/// Going back to the first command keeps a playback coherent.
pub proof fn lemma_rewind_coherent<S, E>(playback: PlaybackModel<S, E>)
    requires
        coherent(playback),
        playback.pending == Action::Idle,
    ensures
        coherent(PlaybackModel { ctx: playback.ctx.rewound(), ..playback }),
{
}

/// Whatever is reported, a playback stays coherent. In particular entities are left alone for as long
/// as the run does not record.
pub proof fn lemma_step_coherent<S, E>(playback: PlaybackModel<S, E>, event: Event<S, E>)
    requires
        coherent(playback),
    ensures
        coherent(playback.step(event).0),
{
    if !(playback.pending == Action::OnTickEnd && event is Done) {
        lemma_step_continues(playback, event);
    }
}

/// Whatever command comes, a playback stays coherent.
pub proof fn lemma_cmd_header_coherent<S, E>(playback: PlaybackModel<S, E>, header: CmdHeader)
    requires
        coherent(playback),
    ensures
        coherent(playback.on_cmd_header(header).0),
{
}

/// Serializers and entity classes never change once they are known, and whatever is reported, the
/// current tick stays.
pub proof fn lemma_step_keeps_known<S, E>(playback: PlaybackModel<S, E>, event: Event<S, E>)
    requires
        coherent(playback),
    ensures
        ({
            let (after, _) = playback.step(event);
            &&& playback.ctx.serializers is Some ==> after.ctx.serializers
                == playback.ctx.serializers
            &&& playback.ctx.entity_classes is Some ==> after.ctx.entity_classes
                == playback.ctx.entity_classes
            &&& after.ctx.tick == playback.ctx.tick
        }),
{
    if !(playback.pending == Action::OnTickEnd && event is Done) {
        lemma_step_continues(playback, event);
    }
}

/// An error ends the run, and nothing is pending after it.
pub proof fn lemma_error_ends_run<S, E>(playback: PlaybackModel<S, E>, event: Event<S, E>)
    requires
        coherent(playback),
        playback.step(event).1 is Err,
    ensures
        playback.step(event).0 == playback.step(event).0.stopped(),
{
    lemma_step_continues(playback, event);
}

/// Each message that is shown has been taken out of the packet, so a packet comes to its end.
pub proof fn lemma_messages_run_out<S, E>(playback: PlaybackModel<S, E>)
    requires
        0 <= playback.packet.pos,
    ensures
        ({
            let (after, result) = playback.next_message();
            result matches Ok(Action::OnPacket { .. }) ==> {
                &&& after.packet.data == playback.packet.data
                &&& 0 <= after.packet.bits_left() < playback.packet.bits_left()
                &&& after.message.len() <= crate::demofile::DEMO_RECORD_BUFFER_SIZE
            }
        }),
{
    let (_, after_number) = playback.packet.ubitvar();
    crate::varint::lemma_continued_bound(after_number.bytes(), 5);
    let (size, after_size) = after_number.uvarint32();
    if let Ok(size) = size {
        let bytes = after_size.bytes();
        assert(size <= bytes.len() ==> bytes.take(size as int).len() == size);
    }
}

/// With each entity that changes there is one less to come, and its number is read from the data, so a
/// message comes to its end.
pub proof fn lemma_entities_run_out<S, E>(playback: PlaybackModel<S, E>)
    requires
        0 <= playback.entity_data.pos,
    ensures
        ({
            let (after, result) = playback.next_entity();
            result matches Ok(Action::ReadDeltaHeader { entity_index }) ==> {
                &&& 0 <= after.entities_left < playback.entities_left
                &&& after.entity_index == entity_index
                &&& after.entity_data.data == playback.entity_data.data
                &&& 0 <= after.entity_data.bits_left() < playback.entity_data.bits_left()
            }
        }),
{
}

} // verus!
