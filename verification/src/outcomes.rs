//! What playing a demo is for, step by step: which message is shown next, which table and which entity a
//! message changes, and what the visitor hears of it.

use crate::bitreader::{BitError, BitStream};
use crate::context::ContextModel;
use crate::demostream::{CmdHeader, EDemoCommands, ReadCmdHeaderError};
use crate::instancebaseline::INSTANCE_BASELINE_TABLE_NAME;
use crate::messages::{
    CDemoFullPacket, CDemoPacket, CsvcMsgCreateStringTable, CsvcMsgPacketEntities,
    CsvcMsgUpdateStringTable, DeltaHeader, EntityClasses, TickInterval,
};
use crate::playback::{Action, CmdFlow, Event, Outcome, ParserError, PlaybackModel};
use crate::run::{Run, Verdict};
use crate::stringtables::{StringTableContainer, StringTableItem, TableModel};
use vstd::arithmetic::power2::*;
use vstd::prelude::*;

verus! {

/// A message in a packet: its number, its size and its bytes.
pub open spec fn message_fields(number: nat, form: nat, bytes: Seq<u8>) -> Seq<
    crate::bitcode::Field,
> {
    crate::bitcode::ubitvar_fields(number, form) + crate::bitcode::byte_fields(
        crate::varint::encode(bytes.len()),
    ) + crate::bitcode::byte_fields(bytes)
}

/// The command that is being played has come to its end. The visitor hears of the end of a tick where
/// the tick has changed with the command, or where the run says so.
pub open spec fn ends_cmd<S, E>(now: PlaybackModel<S, E>, outcome: Outcome<S, E>) -> bool {
    let (after, result) = outcome;
    &&& after.ctx == now.ctx
    &&& after.run == now.run
    &&& after.pending == (if crate::coherence::ends_tick(now) {
        Action::OnTickEnd
    } else {
        Action::NextCmd
    })
    &&& result == Ok::<Action, ParserError>(after.pending)
}

/// Of the packet that is being played the next message is shown, or where at most eight bits are left,
/// which only fill up its last byte, the command comes to its end. A message that is cut off is an error.
pub open spec fn moves_on<S, E>(now: PlaybackModel<S, E>, outcome: Outcome<S, E>) -> bool {
    let (after, result) = outcome;
    &&& after.ctx == now.ctx
    &&& result is Err ==> {
        &&& result->Err_0 is BitError
        &&& after.run is None
        &&& after.pending == Action::Idle
    }
    &&& now.packet.bits_left() <= 8 ==> ends_cmd(now, outcome)
    &&& forall|number: nat, form: nat, bytes: Seq<u8>|
        form < 4 && bytes.len() <= 2 * 1024 * 1024 && #[trigger] crate::bitcode::holds(
            now.packet,
            message_fields(number, form, bytes),
        ) ==> {
            &&& after.ctx == now.ctx
            &&& after.run == now.run
            &&& after.plan == now.plan
            &&& after.skip_entity_packets == now.skip_entity_packets
            &&& after.message == bytes
            &&& after.packet == now.packet.skip(
                crate::bitcode::width_of(message_fields(number, form, bytes)) as int,
            )
            &&& after.pending == Action::OnPacket { command: number as u32 }
            &&& after.pending->OnPacket_command == number
            &&& result == Ok::<Action, ParserError>(after.pending)
        }
    &&& now.packet.bits_left() > 8 && result is Ok ==> exists|
        number: nat,
        form: nat,
        bytes: Seq<u8>,
    |
        form < 4 && bytes.len() <= 2 * 1024 * 1024 && #[trigger] holds_message(
            now.packet,
            number,
            form,
            bytes,
        )
}

/// Whether the stream starts with a message, whose size may be written in more bytes than it needs.
pub open spec fn holds_message(s: BitStream, number: nat, form: nat, bytes: Seq<u8>) -> bool {
    let after_number = s.skip(
        crate::bitcode::width_of(crate::bitcode::ubitvar_fields(number, form)) as int,
    );
    &&& crate::bitcode::holds(s, crate::bitcode::ubitvar_fields(number, form))
    &&& after_number.uvarint32().0 == Ok::<nat, BitError>(bytes.len())
    &&& bytes.len() <= after_number.uvarint32().1.bytes().len()
    &&& bytes == after_number.uvarint32().1.bytes().take(bytes.len() as int)
}

proof fn lemma_moves_on<S, E>(now: PlaybackModel<S, E>)
    requires
        0 <= now.packet.pos,
    ensures
        moves_on(now, now.next_message()),
{
    let s = now.packet;
    lemma2_to64();
    assert forall|number: nat, form: nat, bytes: Seq<u8>|
        form < 4 && bytes.len() <= 2 * 1024 * 1024 && #[trigger] crate::bitcode::holds(
            s,
            message_fields(number, form, bytes),
        ) implies {
        let (after, result) = now.next_message();
        &&& after.ctx == now.ctx
        &&& after.run == now.run
        &&& after.plan == now.plan
        &&& after.skip_entity_packets == now.skip_entity_packets
        &&& after.message == bytes
        &&& after.packet == s.skip(
            crate::bitcode::width_of(message_fields(number, form, bytes)) as int,
        )
        &&& after.pending == Action::OnPacket { command: number as u32 }
        &&& after.pending->OnPacket_command == number
        &&& result == Ok::<Action, ParserError>(after.pending)
    } by {
        let head = crate::bitcode::ubitvar_fields(number, form);
        let size = crate::bitcode::byte_fields(crate::varint::encode(bytes.len()));
        let body = crate::bitcode::byte_fields(bytes);
        crate::bitcode::lemma_holds_concat(s, head + size, body);
        crate::bitcode::lemma_holds_concat(s, head, size);
        crate::bitcode::lemma_ubitvar_round_trip(s, number, form);
        crate::bitcode::lemma_ubitvar_bound(s, number, form);
        let at_size = s.skip(crate::bitcode::width_of(head) as int);
        crate::bitcode::lemma_uvarint_bits_round_trip(at_size, bytes.len() as u64);
        crate::bitcode::lemma_bytes_round_trip(at_size, crate::varint::encode(bytes.len()));
        let at_body = at_size.skip(crate::bitcode::width_of(size) as int);
        assert(at_body == s.skip(crate::bitcode::width_of(head + size) as int));
        crate::bitcode::lemma_bytes_round_trip(at_body, bytes);
        assert(crate::varint::encode(bytes.len()).len() > 0);
    }
    if s.bits_left() > 8 && now.next_message().1 is Ok {
        crate::bitcode::lemma_ubitvar_round_trip(s, 0, 0);
        let number = s.ubitvar().0->Ok_0;
        let form = choose|form: nat|
            form < 4 && #[trigger] crate::bitcode::holds(
                s,
                crate::bitcode::ubitvar_fields(number, form),
            );
        crate::bitcode::lemma_ubitvar_round_trip(s, number, form);
        let bytes = now.next_message().0.message;
        assert(holds_message(s, number, form, bytes));
    }
}

/// The messages of a packet are played from the first one on, where there is a packet.
pub open spec fn plays_packet<S, E>(
    now: PlaybackModel<S, E>,
    packet: Option<Seq<u8>>,
    outcome: Outcome<S, E>,
) -> bool {
    match packet {
        None => ends_cmd(now, outcome),
        Some(data) => 8 * data.len() <= usize::MAX ==> moves_on(
            PlaybackModel { packet: BitStream { data, pos: 0 }, ..now },
            outcome,
        ),
    }
}

proof fn lemma_plays_packet<S, E>(now: PlaybackModel<S, E>, packet: Option<Seq<u8>>)
    ensures
        plays_packet(now, packet, now.begin_packet(packet)),
{
    if let Some(data) = packet {
        lemma_moves_on(PlaybackModel { packet: BitStream { data, pos: 0 }, ..now });
    }
}

/// Of the entities that a message changes the next one is up: its number is written as the distance from
/// the one before, less one. Where as many have been up as the message announces, it has come to its end.
pub open spec fn moves_on_to_entity<S, E>(
    now: PlaybackModel<S, E>,
    outcome: Outcome<S, E>,
) -> bool {
    let (after, result) = outcome;
    &&& now.entities_left <= 0 ==> moves_on(now, outcome)
    &&& now.entities_left > 0 ==> forall|distance: nat, form: nat|
        form < 4 && #[trigger] crate::bitcode::holds(
            now.entity_data,
            crate::bitcode::ubitvar_fields(distance, form),
        ) ==> {
            // A distance of 32 bits counts as a signed number.
            let step = if distance < 0x8000_0000 {
                distance as int + 1
            } else {
                distance - 0x1_0000_0000 + 1
            };
            let index = now.entity_index + step;
            if step <= i32::MAX && i32::MIN <= index <= i32::MAX {
                &&& after == (PlaybackModel {
                    entity_data: now.entity_data.skip(
                        crate::bitcode::width_of(
                            crate::bitcode::ubitvar_fields(distance, form),
                        ) as int,
                    ),
                    entity_index: index as i32,
                    entities_left: (now.entities_left - 1) as i32,
                    pending: Action::ReadDeltaHeader { entity_index: index as i32 },
                    ..now
                })
                &&& result == Ok::<Action, ParserError>(after.pending)
            } else {
                result == Err::<Action, ParserError>(ParserError::EntityIndexOverflow)
            }
        }
    &&& now.entities_left > 0 && result is Ok ==> exists|distance: nat, form: nat|
        form < 4 && #[trigger] crate::bitcode::holds(
            now.entity_data,
            crate::bitcode::ubitvar_fields(distance, form),
        )
}

proof fn lemma_moves_on_to_entity<S, E>(now: PlaybackModel<S, E>)
    requires
        0 <= now.packet.pos,
    ensures
        moves_on_to_entity(now, now.next_entity()),
{
    let (after, result) = now.next_entity();
    if now.entities_left <= 0 {
        let done = PlaybackModel { entity_data: crate::playback::no_bits(), ..now };
        lemma_moves_on(done);
        assert(moves_on(done, now.next_entity()));
        assert(moves_on(now, now.next_entity()));
    } else {
        assert forall|distance: nat, form: nat|
            form < 4 && #[trigger] crate::bitcode::holds(
                now.entity_data,
                crate::bitcode::ubitvar_fields(distance, form),
            ) implies now.entity_data.ubitvar() == (
            Ok::<nat, BitError>(distance),
            now.entity_data.skip(
                crate::bitcode::width_of(crate::bitcode::ubitvar_fields(distance, form)) as int,
            ),
        ) && distance <= u32::MAX by {
            crate::bitcode::lemma_ubitvar_round_trip(now.entity_data, distance, form);
            crate::bitcode::lemma_ubitvar_bound(now.entity_data, distance, form);
        }
        crate::bitcode::lemma_ubitvar_round_trip(now.entity_data, 0, 0);
    }
}

/// A run begins with the next command, or, where it does not record from the beginning, by telling the
/// visitor. Of the game nothing is forgotten.
pub proof fn lemma_run_starts<S, E>(playback: PlaybackModel<S, E>, run: Run, ordinal: usize)
    ensures
        playback.started(run).ctx == playback.ctx,
        playback.started(run).run == Some(run),
        playback.started(run).plan is None,
        !(run is FullPacket) ==> {
            &&& playback.started(run).pending == Action::NextCmd
            &&& !playback.started(run).skip_entity_packets
        },
        ({
            let started = playback.started(Run::full_packet_run(ordinal as nat));
            &&& started.skip_entity_packets == (ordinal > 0)
            &&& ordinal == 0 ==> started.pending == Action::NextCmd
            &&& ordinal > 0 ==> {
                &&& started.pending == Action::SetCollecting { collecting: false }
                &&& started.step(Event::Done).0.pending == Action::NextCmd
                &&& started.step(Event::Done).0.ctx == playback.ctx
            }
        }),
{
}

/// The header of a command moves the game on to the command's tick. The command is then shown, recorded
/// from on, passed over or left, as the run decides. Entities are forgotten only at a full packet, and
/// only where the run is to.
pub proof fn lemma_header_moves_on<S, E>(
    playback: PlaybackModel<S, E>,
    run: Run,
    header: CmdHeader,
)
    requires
        playback.pending == Action::NextCmd,
        playback.run == Some(run),
    ensures
        ({
            let (after, flow) = playback.on_cmd_header(header);
            let (next_run, verdict) = run.next(playback.ctx.full_packet_interval, header);
            let forgets = run == (Run::ToEnd { reset_on_full_packet: true }) && header.cmd
                == EDemoCommands::DemFullPacket;
            &&& after.ctx == (ContextModel {
                tick: header.tick,
                prev_tick: playback.ctx.tick,
                entities: if forgets {
                    None
                } else {
                    playback.ctx.entities
                },
                ..playback.ctx
            })
            &&& match verdict {
                Verdict::Stop => {
                    &&& flow == Ok::<CmdFlow, ParserError>(CmdFlow::Stop)
                    &&& after.run is None
                    &&& after.pending == Action::Idle
                    &&& after.back_in_front().ctx.tick == playback.ctx.tick
                },
                Verdict::Skip => {
                    &&& flow == Ok::<CmdFlow, ParserError>(CmdFlow::Skip)
                    &&& after.run == Some(next_run)
                    &&& after.pending == Action::NextCmd
                    &&& after.skip_entity_packets == playback.skip_entity_packets
                },
                Verdict::Collect => {
                    &&& flow == Ok::<CmdFlow, ParserError>(CmdFlow::Play)
                    &&& after.run == Some(next_run)
                    &&& after.pending == Action::SetCollecting { collecting: true }
                    &&& !after.skip_entity_packets
                    &&& crate::coherence::ends_tick(after) <==> header.tick != playback.ctx.tick
                    &&& after.step(Event::Done).0 == (PlaybackModel {
                        pending: Action::OnCmd { header },
                        ..after
                    })
                },
                _ => {
                    &&& flow == Ok::<CmdFlow, ParserError>(CmdFlow::Play)
                    &&& after.run == Some(next_run)
                    &&& after.pending == Action::OnCmd { header }
                    &&& after.skip_entity_packets == playback.skip_entity_packets
                    &&& crate::coherence::ends_tick(after) <==> header.tick != playback.ctx.tick
                        || verdict is Apply
                },
            }
        }),
{
}

/// Once a command has been shown, packets and full packets are decoded each time, serializers and classes
/// the first time only, and nothing else is.
pub proof fn lemma_cmd_is_decoded<S, E>(playback: PlaybackModel<S, E>, header: CmdHeader)
    requires
        playback.pending == (Action::OnCmd { header }),
    ensures
        ({
            let outcome = playback.step(Event::Done);
            let asks = |action: Action|
                outcome == (
                    PlaybackModel { pending: action, ..playback },
                    Ok::<Action, ParserError>(action),
                );
            match header.cmd {
                EDemoCommands::DemPacket => asks(Action::DecodePacket),
                EDemoCommands::DemSignonPacket => asks(Action::DecodePacket),
                EDemoCommands::DemFullPacket => asks(Action::DecodeFullPacket),
                EDemoCommands::DemSendTables => if playback.ctx.serializers is None {
                    asks(Action::DecodeSendTables)
                } else {
                    ends_cmd(playback, outcome)
                },
                EDemoCommands::DemClassInfo => if playback.ctx.entity_classes is None {
                    asks(Action::DecodeClassInfo)
                } else {
                    ends_cmd(playback, outcome)
                },
                _ => ends_cmd(playback, outcome),
            }
        }),
{
}

/// Once a tick has ended, the next command comes.
pub proof fn lemma_tick_end_is_told_once<S, E>(playback: PlaybackModel<S, E>)
    requires
        playback.pending == Action::OnTickEnd,
    ensures
        playback.step(Event::Done) == (
            PlaybackModel { pending: Action::NextCmd, plan: None, ..playback },
            Ok::<Action, ParserError>(Action::NextCmd),
        ),
{
}

/// Serializers that have been decoded are known from then on.
pub proof fn lemma_serializers_are_kept<S, E>(playback: PlaybackModel<S, E>, serializers: S)
    requires
        playback.pending == Action::DecodeSendTables,
    ensures
        ends_cmd(
            (PlaybackModel {
                ctx: ContextModel { serializers: Some(serializers), ..playback.ctx },
                ..playback
            }),
            playback.step(Event::SendTables(serializers)),
        ),
{
}

/// Whether `id` is the place of the table of the baselines: the first table that has its name.
pub open spec fn is_baseline_table(tables: Seq<TableModel>, id: int) -> bool {
    &&& 0 <= id < tables.len()
    &&& tables[id].name == INSTANCE_BASELINE_TABLE_NAME@
    &&& forall|j: int| 0 <= j < id ==> (#[trigger] tables[j]).name != INSTANCE_BASELINE_TABLE_NAME@
}

/// The baselines are taken over from the entries `items` into the game `now`, and then the playback goes
/// on as `goes_on` says of it. An entry that is for no class is an error, and what was taken over before
/// it stays.
pub open spec fn baselines_follow<S, E>(
    now: PlaybackModel<S, E>,
    items: Seq<crate::stringtables::ItemModel>,
    outcome: Outcome<S, E>,
    goes_on: spec_fn(PlaybackModel<S, E>) -> bool,
) -> bool {
    let classes = now.ctx.entity_classes->Some_0.classes as nat;
    let (taken, baselines) = crate::instancebaseline::applied(
        crate::instancebaseline::resized(now.ctx.instance_baseline, classes),
        items,
    );
    match taken {
        Err(err) => {
            &&& outcome.1 == Err::<Action, ParserError>(ParserError::UpdateBaselineError(err))
            &&& outcome.0.ctx == (ContextModel { instance_baseline: baselines, ..now.ctx })
        },
        Ok(_) => goes_on(
            PlaybackModel {
                ctx: ContextModel { instance_baseline: baselines, ..now.ctx },
                ..now
            },
        ),
    }
}

/// Where the table of the baselines is there already, they are taken over as soon as the classes are
/// known; otherwise they stay as they are.
pub proof fn lemma_classes_bring_baselines<S, E>(
    playback: PlaybackModel<S, E>,
    entity_classes: EntityClasses,
)
    requires
        playback.pending == Action::DecodeClassInfo,
    ensures
        ({
            let outcome = playback.step(Event::ClassInfo(entity_classes));
            let now = PlaybackModel {
                ctx: ContextModel { entity_classes: Some(entity_classes), ..playback.ctx },
                ..playback
            };
            let tables = playback.ctx.string_tables;
            &&& forall|id: int| #[trigger]
                is_baseline_table(tables, id) ==> baselines_follow(
                    now,
                    tables[id].items,
                    outcome,
                    |now: PlaybackModel<S, E>| ends_cmd(now, outcome),
                )
            &&& (forall|id: int| !#[trigger] is_baseline_table(tables, id)) ==> ends_cmd(
                now,
                outcome,
            )
        }),
{
    lemma_baseline_table_place(playback.ctx.string_tables);
}

proof fn lemma_baseline_table_place(tables: Seq<TableModel>)
    ensures
        ({
            let place = crate::stringtables::place_of(tables, INSTANCE_BASELINE_TABLE_NAME@) as int;
            &&& place < tables.len() ==> is_baseline_table(tables, place)
            &&& forall|id: int| #[trigger] is_baseline_table(tables, id) ==> id == place
        }),
{
    crate::stringtables::lemma_place_of_first(tables, INSTANCE_BASELINE_TABLE_NAME@);
}

/// A packet is played message by message.
pub proof fn lemma_packet_is_played<S, E>(playback: PlaybackModel<S, E>, cmd: CDemoPacket)
    requires
        playback.pending == Action::DecodePacket,
    ensures
        plays_packet(
            playback,
            Some(
                match cmd.data {
                    Some(data) => data@,
                    None => Seq::<u8>::empty(),
                },
            ),
            playback.step(Event::Packet(cmd)),
        ),
{
    lemma_plays_packet(playback, Some(crate::messages::packet_data(cmd)));
}

/// On the way to a tick, a full packet replaces all string tables, and with them the baselines. Its
/// packet is played after that only where the run wants it, and a tick ends with it in any case.
pub proof fn lemma_full_packet_on_the_way<S, E>(
    playback: PlaybackModel<S, E>,
    run: Run,
    header: CmdHeader,
    with_packet: bool,
    cmd: CDemoFullPacket,
    tables: StringTableContainer,
)
    requires
        playback.pending == Action::NextCmd,
        playback.run == Some(run),
        header.cmd == EDemoCommands::DemFullPacket,
        run.next(playback.ctx.full_packet_interval, header).1 == (Verdict::Apply { with_packet }),
    ensures
        ({
            let shown = playback.on_cmd_header(header).0;
            let decoding = shown.step(Event::Done).0;
            let outcome = decoding.step(Event::FullPacket(cmd));
            let packet = if with_packet && cmd.packet is Some {
                Some(
                    match cmd.packet->Some_0.data {
                        Some(data) => data@,
                        None => Seq::<u8>::empty(),
                    },
                )
            } else {
                None
            };
            &&& shown.pending == Action::OnCmd { header }
            &&& decoding.pending == Action::DecodeFullPacket
            &&& crate::coherence::ends_tick(decoding)
            &&& !cmd.has_string_table ==> plays_packet(decoding, packet, outcome)
            &&& cmd.has_string_table ==> {
                &&& outcome.1 == Ok::<Action, ParserError>(Action::UpdateAllTables)
                &&& outcome.0.pending == Action::UpdateAllTables
                &&& outcome.0.ctx == decoding.ctx
                &&& replaces_tables(decoding, outcome.0, tables, packet)
            }
        }),
{
    let decoding = playback.on_cmd_header(header).0.step(Event::Done).0;
    lemma_full_packet_is_played(decoding, cmd, tables);
}

/// All string tables are replaced by `tables`, and the baselines follow; then the packet is played.
pub open spec fn replaces_tables<S, E>(
    decoding: PlaybackModel<S, E>,
    asked: PlaybackModel<S, E>,
    tables: StringTableContainer,
    packet: Option<Seq<u8>>,
) -> bool {
    let outcome = asked.step(Event::AllTables(tables));
    let now = PlaybackModel {
        ctx: ContextModel { string_tables: tables@, ..decoding.ctx },
        ..decoding
    };
    if decoding.ctx.entity_classes is None {
        &&& outcome.1 == Err::<Action, ParserError>(ParserError::EntityClassesNotAvailable)
        &&& outcome.0.ctx == now.ctx
    } else {
        &&& forall|id: int| #[trigger]
            is_baseline_table(tables@, id) ==> baselines_follow(
                now,
                tables@[id].items,
                outcome,
                |now: PlaybackModel<S, E>| plays_packet(now, packet, outcome),
            )
        &&& (forall|id: int| !#[trigger] is_baseline_table(tables@, id)) ==> plays_packet(
            now,
            packet,
            outcome,
        )
    }
}

/// A full packet replaces all string tables, and with them the baselines. After that its packet is
/// played, where it is wanted.
pub proof fn lemma_full_packet_is_played<S, E>(
    playback: PlaybackModel<S, E>,
    cmd: CDemoFullPacket,
    tables: StringTableContainer,
)
    requires
        playback.pending == Action::DecodeFullPacket,
    ensures
        ({
            let outcome = playback.step(Event::FullPacket(cmd));
            let wanted = playback.plan is Some && playback.plan->Some_0.with_packet;
            let packet = if wanted && cmd.packet is Some {
                Some(
                    match cmd.packet->Some_0.data {
                        Some(data) => data@,
                        None => Seq::<u8>::empty(),
                    },
                )
            } else {
                None
            };
            &&& !cmd.has_string_table ==> plays_packet(playback, packet, outcome)
            &&& cmd.has_string_table ==> {
                &&& outcome.1 == Ok::<Action, ParserError>(Action::UpdateAllTables)
                &&& outcome.0.pending == Action::UpdateAllTables
                &&& outcome.0.ctx == playback.ctx
                &&& replaces_tables(playback, outcome.0, tables, packet)
            }
        }),
{
    let wanted = playback.plan is Some && playback.plan->Some_0.with_packet;
    let packet = if wanted && cmd.packet is Some {
        Some(crate::messages::packet_data(cmd.packet->Some_0))
    } else {
        None
    };
    lemma_plays_packet(playback, packet);
    if cmd.has_string_table {
        let asked = playback.step(Event::FullPacket(cmd)).0;
        assert(asked.held_packet == packet);
        lemma_baseline_table_place(tables@);
        let ctx = ContextModel { string_tables: tables@, ..asked.ctx };
        let now = PlaybackModel {
            ctx: ctx.with_named_baselines().0,
            held_packet: None,
            ..asked
        };
        lemma_plays_packet(now, packet);
        lemma_plays_packet_pending(
            now,
            PlaybackModel { ctx: now.ctx, ..playback },
            packet,
            now.begin_packet(packet),
        );
    }
}

/// What is being played does not depend on what was pending or held before.
proof fn lemma_plays_packet_pending<S, E>(
    one: PlaybackModel<S, E>,
    other: PlaybackModel<S, E>,
    packet: Option<Seq<u8>>,
    outcome: Outcome<S, E>,
)
    requires
        plays_packet(one, packet, outcome),
        one.ctx == other.ctx,
        one.run == other.run,
        one.plan == other.plan,
        one.skip_entity_packets == other.skip_entity_packets,
    ensures
        plays_packet(other, packet, outcome),
{
    if let Some(data) = packet {
        let s = BitStream { data, pos: 0 };
        assert(moves_on(PlaybackModel { packet: s, ..one }, outcome) ==> moves_on(
            PlaybackModel { packet: s, ..other },
            outcome,
        ));
    }
}

/// Where a run plays a full packet like any other command, its packet is played in any case, after its
/// string tables.
pub proof fn lemma_full_packet_in_passing<S, E>(
    playback: PlaybackModel<S, E>,
    run: Run,
    header: CmdHeader,
    cmd: CDemoFullPacket,
    tables: StringTableContainer,
)
    requires
        playback.pending == Action::NextCmd,
        playback.run == Some(run),
        header.cmd == EDemoCommands::DemFullPacket,
        ({
            let verdict = run.next(playback.ctx.full_packet_interval, header).1;
            verdict == Verdict::Handle || verdict == Verdict::Collect
        }),
    ensures
        ({
            let shown = crate::performance::told(playback.on_cmd_header(header).0);
            let decoding = shown.step(Event::Done).0;
            let outcome = decoding.step(Event::FullPacket(cmd));
            let packet = match cmd.packet {
                Some(CDemoPacket { data: Some(data) }) => Some(data@),
                Some(CDemoPacket { data: None }) => Some(Seq::<u8>::empty()),
                None => None,
            };
            &&& shown.pending == Action::OnCmd { header }
            &&& decoding.pending == Action::DecodeFullPacket
            &&& !cmd.has_string_table ==> plays_packet(decoding, packet, outcome)
            &&& cmd.has_string_table ==> {
                &&& outcome.1 == Ok::<Action, ParserError>(Action::UpdateAllTables)
                &&& outcome.0.ctx == decoding.ctx
                &&& replaces_tables(decoding, outcome.0, tables, packet)
            }
        }),
{
    let shown = crate::performance::told(playback.on_cmd_header(header).0);
    lemma_full_packet_is_played(shown.step(Event::Done).0, cmd, tables);
}

/// Once a message has been shown, the four kinds that matter are decoded, each as what it is, and the
/// others are done with. While a run does not record, changes of entities are done with too.
pub proof fn lemma_message_is_decoded<S, E>(playback: PlaybackModel<S, E>, number: u32)
    requires
        playback.pending == (Action::OnPacket { command: number }),
        0 <= playback.packet.pos,
    ensures
        ({
            let outcome = playback.step(Event::Done);
            let asks = |action: Action|
                outcome == (
                    PlaybackModel { pending: action, ..playback },
                    Ok::<Action, ParserError>(action),
                );
            &&& number == 40 ==> asks(Action::DecodeServerInfo)
            &&& number == 44 ==> asks(Action::DecodeCreateStringTable)
            &&& number == 45 ==> asks(Action::DecodeUpdateStringTable)
            &&& number == 55 && !playback.skip_entity_packets ==> asks(
                Action::DecodePacketEntities,
            )
            &&& number == 55 && playback.skip_entity_packets ==> moves_on(playback, outcome)
            &&& number != 40 && number != 44 && number != 45 && number != 55 ==> moves_on(
                playback,
                outcome,
            )
        }),
{
    lemma_moves_on(playback);
}

/// A new table comes last, without entries, and its entries are read next, from the message's data as it
/// is or, where it is compressed, from what it decompresses to. All other tables stay.
pub proof fn lemma_table_is_created<S, E>(
    playback: PlaybackModel<S, E>,
    msg: CsvcMsgCreateStringTable,
)
    requires
        playback.pending == Action::DecodeCreateStringTable,
        playback.ctx.string_tables.len() < usize::MAX,
    ensures
        ({
            let (after, result) = playback.step(Event::CreateStringTable(msg));
            let before = playback.ctx.string_tables;
            let tables = after.ctx.string_tables;
            let unpacked = crate::snappy::unpacked(msg.string_data@, 2 * 1024 * 1024);
            &&& tables.len() == before.len() + 1
            &&& forall|j: int| 0 <= j < before.len() ==> #[trigger] tables[j] == before[j]
            &&& tables.last().name == msg.name@
            &&& tables.last().layout == msg.layout
            &&& tables.last().items.len() == 0
            &&& after.ctx == (ContextModel { string_tables: tables, ..playback.ctx })
            &&& !msg.data_compressed ==> after.string_data == msg.string_data@
            &&& msg.data_compressed && unpacked is Ok ==> after.string_data == unpacked->Ok_0
            &&& msg.data_compressed && unpacked is Err ==> result == Err::<Action, ParserError>(
                ParserError::DecompressError(unpacked->Err_0),
            )
            &&& !msg.data_compressed || unpacked is Ok ==> {
                &&& result == Ok::<Action, ParserError>(after.pending)
                &&& after.pending is ParseTableUpdate
                &&& after.pending->table_id == before.len()
                &&& after.pending->num_entries == msg.num_entries
                &&& after.packet == playback.packet
            }
        }),
{
}

/// An update of a table is one of the table at the place that the message names, from the message's data,
/// and an error where there is no such table.
pub proof fn lemma_table_update_is_addressed<S, E>(
    playback: PlaybackModel<S, E>,
    msg: CsvcMsgUpdateStringTable,
)
    requires
        playback.pending == Action::DecodeUpdateStringTable,
    ensures
        ({
            let (after, result) = playback.step(Event::UpdateStringTable(msg));
            if 0 <= msg.table_id < playback.ctx.string_tables.len() {
                &&& result == Ok::<Action, ParserError>(after.pending)
                &&& after.pending is ParseTableUpdate
                &&& after.pending->table_id == msg.table_id
                &&& after.pending->num_entries == msg.num_changed_entries
                &&& after.string_data == msg.string_data@
                &&& after.ctx == playback.ctx
                &&& after.packet == playback.packet
            } else {
                &&& result == Err::<Action, ParserError>(ParserError::StringTableNotFound)
                &&& after.ctx == playback.ctx
            }
        }),
{
}

/// The entries that have been read become those of the table that was asked for, and of no other. Where
/// that is the table of the baselines and the classes are known, the baselines follow; otherwise they
/// stay. Then the next message comes.
pub proof fn lemma_table_update_is_local<S, E>(
    playback: PlaybackModel<S, E>,
    items: Vec<StringTableItem>,
    position: usize,
)
    requires
        playback.pending is ParseTableUpdate,
        playback.pending->table_id < playback.ctx.string_tables.len(),
        position <= 8 * playback.string_data.len(),
        0 <= playback.packet.pos,
    ensures
        ({
            let id = playback.pending->table_id as int;
            let outcome = playback.step(Event::TableUpdated { items, position });
            let before = playback.ctx.string_tables;
            let tables = outcome.0.ctx.string_tables;
            let read = crate::stringtables::items_view(items@);
            let now = PlaybackModel {
                ctx: ContextModel { string_tables: tables, ..playback.ctx },
                ..playback
            };
            &&& tables.len() == before.len()
            &&& forall|j: int| 0 <= j < before.len() && j != id ==> #[trigger] tables[j] == before[j]
            &&& tables[id] == (TableModel { items: read, ..before[id] })
            &&& if before[id].name == INSTANCE_BASELINE_TABLE_NAME@
                && playback.ctx.entity_classes is Some {
                baselines_follow(
                    now,
                    read,
                    outcome,
                    |now: PlaybackModel<S, E>| moves_on(now, outcome),
                )
            } else {
                moves_on(now, outcome)
            }
        }),
{
    let id = playback.pending->table_id as int;
    let read = crate::stringtables::items_view(items@);
    let (ctx, taken) = playback.ctx.with_items(id, read);
    let next = PlaybackModel { ctx, string_data: Seq::empty(), ..playback };
    let outcome = playback.step(Event::TableUpdated { items, position });
    lemma_moves_on(next);
    assert(moves_on(next, next.next_message()) ==> moves_on(
        PlaybackModel { ctx, ..playback },
        next.next_message(),
    ));
}

/// From an update of a table to its end: the table at the place that the message names has the entries
/// that were read, and all other tables are as before.
pub proof fn lemma_update_changes_named_table<S, E>(
    playback: PlaybackModel<S, E>,
    msg: CsvcMsgUpdateStringTable,
    items: Vec<StringTableItem>,
    position: usize,
)
    requires
        playback.pending == Action::DecodeUpdateStringTable,
        0 <= msg.table_id < playback.ctx.string_tables.len(),
        position <= 8 * msg.string_data@.len(),
        0 <= playback.packet.pos,
    ensures
        ({
            let asked = playback.step(Event::UpdateStringTable(msg)).0;
            let tables = asked.step(Event::TableUpdated { items, position }).0.ctx.string_tables;
            let before = playback.ctx.string_tables;
            &&& tables.len() == before.len()
            &&& tables[msg.table_id as int].items == crate::stringtables::items_view(items@)
            &&& tables[msg.table_id as int].name == before[msg.table_id as int].name
            &&& forall|j: int|
                0 <= j < before.len() && j != msg.table_id ==> #[trigger] tables[j] == before[j]
        }),
{
    lemma_table_update_is_addressed(playback, msg);
    let asked = playback.step(Event::UpdateStringTable(msg)).0;
    lemma_table_update_is_local(asked, items, position);
}

/// Where the server tells the time between two ticks, the number of ticks between two full packets is
/// 1800 for each time that it goes into the default one. Nothing else of the game changes.
pub proof fn lemma_server_tells_interval<S, E>(
    playback: PlaybackModel<S, E>,
    tick_interval: Option<TickInterval>,
)
    requires
        playback.pending == Action::DecodeServerInfo,
        0 <= playback.packet.pos,
    ensures
        ({
            let outcome = playback.step(Event::ServerInfo(tick_interval));
            match tick_interval {
                None => moves_on(playback, outcome),
                Some(told) => {
                    let ticks = 1800 * told.ratio;
                    if i32::MIN <= ticks <= i32::MAX {
                        moves_on(
                            PlaybackModel {
                                ctx: ContextModel {
                                    tick_interval: told.bits,
                                    full_packet_interval: ticks as i32,
                                    ..playback.ctx
                                },
                                ..playback
                            },
                            outcome,
                        )
                    } else {
                        outcome.1 == Err::<Action, ParserError>(ParserError::TickIntervalOverflow)
                    }
                },
            }
        }),
{
    lemma_moves_on(playback);
    if let Some(told) = tick_interval {
        lemma_moves_on(
            PlaybackModel {
                ctx: ContextModel {
                    tick_interval: told.bits,
                    full_packet_interval: (1800 * told.ratio) as i32,
                    ..playback.ctx
                },
                ..playback
            },
        );
    }
}

/// A message that changes entities needs the classes and the serializers. It has as many changes as it
/// says, and numbers are counted from one before the first entity.
pub proof fn lemma_entities_are_announced<S, E>(
    playback: PlaybackModel<S, E>,
    msg: CsvcMsgPacketEntities,
)
    requires
        playback.pending == Action::DecodePacketEntities,
        0 <= playback.packet.pos,
    ensures
        ({
            let outcome = playback.step(Event::PacketEntities(msg));
            if playback.ctx.entity_classes is None {
                outcome.1 == Err::<Action, ParserError>(ParserError::EntityClassesNotAvailable)
            } else if playback.ctx.serializers is None {
                outcome.1 == Err::<Action, ParserError>(ParserError::SerializersNotAvailable)
            } else {
                8 * msg.entity_data@.len() <= usize::MAX ==> moves_on_to_entity(
                    PlaybackModel {
                        entity_data: BitStream { data: msg.entity_data@, pos: 0 },
                        entity_index: (-1) as i32,
                        entities_left: msg.updated_entries,
                        ..playback
                    },
                    outcome,
                )
            }
        }),
{
    lemma_moves_on_to_entity(
        PlaybackModel {
            entity_data: BitStream { data: msg.entity_data@, pos: 0 },
            entity_index: (-1) as i32,
            entities_left: msg.updated_entries,
            ..playback
        },
    );
}

/// What is to happen to an entity is what its header says, to the very entity that is up. A header that
/// says none of the four does nothing to it.
pub proof fn lemma_delta_header_decides<S, E>(
    playback: PlaybackModel<S, E>,
    delta_header: DeltaHeader,
    position: usize,
)
    requires
        playback.pending is ReadDeltaHeader,
        position <= 8 * playback.entity_data.data.len(),
        0 <= playback.packet.pos,
    ensures
        ({
            let outcome = playback.step(Event::DeltaHeaderRead { delta_header, position });
            let now = PlaybackModel {
                entity_data: BitStream { data: playback.entity_data.data, pos: position as int },
                ..playback
            };
            let entity_index = playback.entity_index;
            let asks = |action: Action|
                outcome == (
                    PlaybackModel { pending: action, ..now },
                    Ok::<Action, ParserError>(action),
                );
            match delta_header {
                DeltaHeader::Create => asks(Action::CreateEntity { entity_index }),
                DeltaHeader::Delete => asks(Action::DeleteEntity { entity_index }),
                DeltaHeader::Leave => asks(Action::LeaveEntity { entity_index }),
                DeltaHeader::Update => asks(Action::UpdateEntity { entity_index }),
                DeltaHeader::Other => moves_on_to_entity(now, outcome),
            }
        }),
{
    lemma_moves_on_to_entity(
        PlaybackModel {
            entity_data: BitStream { data: playback.entity_data.data, pos: position as int },
            ..playback
        },
    );
}

/// The visitor is shown an entity with the change that was made to it, and then the next entity is up.
pub open spec fn shows_entity<S, E>(
    now: PlaybackModel<S, E>,
    entity_index: i32,
    delta_header: DeltaHeader,
    outcome: Outcome<S, E>,
) -> bool {
    let action = Action::OnEntity { entity_index, delta_header };
    &&& outcome.0 == (PlaybackModel { pending: action, ..now })
    &&& outcome.1 == Ok::<Action, ParserError>(action)
    &&& moves_on_to_entity(outcome.0, outcome.0.step(Event::Done))
}

proof fn lemma_shown_once<S, E>(now: PlaybackModel<S, E>, action: Action)
    requires
        action is OnEntity,
        0 <= now.packet.pos,
    ensures
        moves_on_to_entity(
            (PlaybackModel { pending: action, ..now }),
            (PlaybackModel { pending: action, ..now }).step(Event::Done),
        ),
{
    lemma_moves_on_to_entity(PlaybackModel { pending: action, ..now });
}

/// An entity that has been created is shown as created, once, with the number that it was created under.
/// Where it is of no interest nothing is shown, and where it is not there after all that is an error. The
/// entities are from then on those that were reported.
pub proof fn lemma_created_entity_is_shown<S, E>(
    playback: PlaybackModel<S, E>,
    created: Option<i32>,
    present: bool,
    position: usize,
    entities: Option<E>,
)
    requires
        playback.pending is CreateEntity,
        position <= 8 * playback.entity_data.data.len(),
        0 <= playback.packet.pos,
    ensures
        ({
            let outcome = playback.step(
                Event::EntityCreated { entity_index: created, present, position, entities },
            );
            let now = PlaybackModel {
                ctx: ContextModel { entities, ..playback.ctx },
                entity_data: BitStream { data: playback.entity_data.data, pos: position as int },
                ..playback
            };
            match created {
                Some(entity_index) => if present {
                    shows_entity(now, entity_index, DeltaHeader::Create, outcome)
                } else {
                    &&& outcome.1 == Err::<Action, ParserError>(ParserError::EntityNotFound)
                    &&& outcome.0.ctx == now.ctx
                },
                None => moves_on_to_entity(now, outcome),
            }
        }),
{
    let now = PlaybackModel {
        ctx: ContextModel { entities, ..playback.ctx },
        entity_data: BitStream { data: playback.entity_data.data, pos: position as int },
        ..playback
    };
    lemma_moves_on_to_entity(now);
    if let Some(entity_index) = created {
        lemma_shown_once(
            now,
            Action::OnEntity { entity_index, delta_header: DeltaHeader::Create },
        );
    }
}

/// An entity that has been updated is shown as updated, once, where it is there. The entities are from
/// then on those that were reported.
pub proof fn lemma_updated_entity_is_shown<S, E>(
    playback: PlaybackModel<S, E>,
    present: bool,
    position: usize,
    entities: Option<E>,
)
    requires
        playback.pending is UpdateEntity,
        position <= 8 * playback.entity_data.data.len(),
        0 <= playback.packet.pos,
    ensures
        ({
            let outcome = playback.step(Event::EntityUpdated { present, position, entities });
            let now = PlaybackModel {
                ctx: ContextModel { entities, ..playback.ctx },
                entity_data: BitStream { data: playback.entity_data.data, pos: position as int },
                ..playback
            };
            if present {
                shows_entity(now, playback.entity_index, DeltaHeader::Update, outcome)
            } else {
                moves_on_to_entity(now, outcome)
            }
        }),
{
    let now = PlaybackModel {
        ctx: ContextModel { entities, ..playback.ctx },
        entity_data: BitStream { data: playback.entity_data.data, pos: position as int },
        ..playback
    };
    lemma_moves_on_to_entity(now);
    lemma_shown_once(
        now,
        Action::OnEntity {
            entity_index: playback.entity_index,
            delta_header: DeltaHeader::Update,
        },
    );
}

/// An entity that is gone is shown, once, as deleted or as having left, whichever it was, where it was
/// there. The entities are from then on those that were reported.
pub proof fn lemma_gone_entity_is_shown<S, E>(
    playback: PlaybackModel<S, E>,
    present: bool,
    entities: Option<E>,
)
    requires
        playback.pending is DeleteEntity || playback.pending is LeaveEntity,
        0 <= playback.packet.pos,
    ensures
        ({
            let outcome = playback.step(Event::EntityGone { present, entities });
            let now = PlaybackModel {
                ctx: ContextModel { entities, ..playback.ctx },
                ..playback
            };
            if !present {
                moves_on_to_entity(now, outcome)
            } else if playback.pending is DeleteEntity {
                shows_entity(now, playback.entity_index, DeltaHeader::Delete, outcome)
            } else {
                shows_entity(now, playback.entity_index, DeltaHeader::Leave, outcome)
            }
        }),
{
    let now = PlaybackModel { ctx: ContextModel { entities, ..playback.ctx }, ..playback };
    lemma_moves_on_to_entity(now);
    lemma_shown_once(
        now,
        Action::OnEntity {
            entity_index: playback.entity_index,
            delta_header: DeltaHeader::Delete,
        },
    );
    lemma_shown_once(
        now,
        Action::OnEntity { entity_index: playback.entity_index, delta_header: DeltaHeader::Leave },
    );
}

/// A report of having read beyond the end of the data is an overflow, and ends the run.
pub proof fn lemma_reports_stay_within<S, E>(
    playback: PlaybackModel<S, E>,
    event: Event<S, E>,
    position: usize,
)
    requires
        ({
            ||| playback.pending is ParseTableUpdate && event is TableUpdated
                && event->TableUpdated_position == position && position > 8
                * playback.string_data.len() && playback.pending->table_id
                < playback.ctx.string_tables.len()
            ||| playback.pending is ReadDeltaHeader && event is DeltaHeaderRead
                && event->DeltaHeaderRead_position == position && position > 8
                * playback.entity_data.data.len()
            ||| playback.pending is CreateEntity && event is EntityCreated
                && event->EntityCreated_position == position && position > 8
                * playback.entity_data.data.len()
            ||| playback.pending is UpdateEntity && event is EntityUpdated
                && event->EntityUpdated_position == position && position > 8
                * playback.entity_data.data.len()
        }),
    ensures
        playback.step(event).1 == Err::<Action, ParserError>(
            ParserError::BitError(BitError::Overflow),
        ),
        playback.step(event).0.run is None,
        playback.step(event).0.ctx.string_tables == playback.ctx.string_tables,
        playback.step(event).0.ctx.instance_baseline == playback.ctx.instance_baseline,
{
}

/// Where there is no next command, the run is over: with success at the end of the stream, and otherwise
/// with the error that reading the header gave. What is known of the game stays.
pub proof fn lemma_end_of_stream_ends_run<S, E>(
    playback: PlaybackModel<S, E>,
    err: ReadCmdHeaderError,
    at_eof: bool,
)
    requires
        playback.pending == Action::NextCmd,
    ensures
        ({
            let (after, result) = playback.no_cmd_header(err, at_eof);
            &&& result == if at_eof {
                Ok::<Action, ParserError>(Action::Idle)
            } else {
                Err::<Action, ParserError>(ParserError::ReadCmdHeaderError(err))
            }
            &&& after.run is None
            &&& after.pending == Action::Idle
            &&& after.ctx == playback.ctx
            &&& !after.skip_entity_packets
        }),
{
}

} // verus!
