//! Whole runs: what the visitor records of the commands of a demo, whatever is reported of the actions
//! that playing them asks for.

use crate::demostream::{CmdHeader, EDemoCommands};
use crate::playback::{Action, CmdFlow, Event, ParserError, PlaybackModel};
use crate::run::{Cmd, Recorded, Run, Shown};
use vstd::prelude::*;

verus! {

/// The playback after all of `events`.
pub open spec fn stepped<S, E>(
    playback: PlaybackModel<S, E>,
    events: Seq<Event<S, E>>,
) -> PlaybackModel<S, E>
    decreases events.len(),
{
    if events.len() == 0 {
        playback
    } else {
        stepped(playback.step(events[0]).0, events.skip(1))
    }
}

/// Whether `events` play the current command to its end, and no further.
pub open spec fn plays_cmd<S, E>(playback: PlaybackModel<S, E>, events: Seq<Event<S, E>>) -> bool
    decreases events.len(),
{
    if playback.pending == Action::NextCmd {
        events.len() == 0
    } else {
        &&& playback.pending != Action::Idle
        &&& events.len() > 0
        &&& plays_cmd(playback.step(events[0]).0, events.skip(1))
    }
}

/// Whether the visitor hears of the end of a tick in the course of `events`.
pub open spec fn hears_tick_end<S, E>(
    playback: PlaybackModel<S, E>,
    events: Seq<Event<S, E>>,
) -> bool
    decreases events.len(),
{
    ||| playback.pending == Action::OnTickEnd
    ||| events.len() > 0 && hears_tick_end(playback.step(events[0]).0, events.skip(1))
}

/// What the visitor is shown in the course of `events`: messages and entities, in order.
pub open spec fn shown<S, E>(playback: PlaybackModel<S, E>, events: Seq<Event<S, E>>) -> Seq<Shown>
    decreases events.len(),
{
    let now = match playback.pending {
        Action::OnPacket { command } => seq![
            Shown::Message { number: command, data: playback.message },
        ],
        Action::OnEntity { entity_index, delta_header } => seq![
            Shown::Entity { entity_index, delta_header },
        ],
        _ => Seq::empty(),
    };
    if events.len() == 0 {
        now
    } else {
        now + shown(playback.step(events[0]).0, events.skip(1))
    }
}

/// Playing a command to its end changes neither the run nor the ticks, and the visitor hears of the end
/// of a tick just where one ends.
pub proof fn lemma_plays_cmd<S, E>(playback: PlaybackModel<S, E>, events: Seq<Event<S, E>>)
    requires
        crate::coherence::coherent(playback),
        crate::coherence::in_cmd(playback),
        plays_cmd(playback, events),
    ensures
        ({
            let after = stepped(playback, events);
            &&& crate::coherence::coherent(after)
            &&& after.pending == Action::NextCmd
            &&& after.run == playback.run
            &&& after.ctx.tick == playback.ctx.tick
            &&& hears_tick_end(playback, events) <==> crate::coherence::ends_tick(playback)
        }),
    decreases events.len(),
{
    reveal_with_fuel(plays_cmd, 2);
    reveal_with_fuel(stepped, 2);
    reveal_with_fuel(hears_tick_end, 2);
    let next = playback.step(events[0]).0;
    let rest = events.skip(1);
    crate::coherence::lemma_step_coherent(playback, events[0]);
    if !(playback.pending == Action::OnTickEnd && events[0] is Done) {
        crate::coherence::lemma_step_continues(playback, events[0]);
        if next.pending != Action::NextCmd {
            lemma_plays_cmd(next, rest);
        }
    }
}

/// Whether two series of reports are the same, apart from the contents of string tables and entities.
pub open spec fn all_similar<S, E>(one: Seq<Event<S, E>>, other: Seq<Event<S, E>>) -> bool {
    &&& one.len() == other.len()
    &&& forall|i: int| 0 <= i < one.len() ==> crate::likeness::similar(one[i], #[trigger] other[i])
}

/// Playbacks that are alike show the same in the course of similar reports, and are alike after them.
/// Where the reports are the same, so do the string tables and the entities stay.
pub proof fn lemma_same_shown<S, E>(
    one: PlaybackModel<S, E>,
    other: PlaybackModel<S, E>,
    one_events: Seq<Event<S, E>>,
    other_events: Seq<Event<S, E>>,
)
    requires
        crate::coherence::coherent(one),
        crate::coherence::coherent(other),
        crate::likeness::alike(one, other),
        one.pending != Action::NextCmd ==> one.plan is Some
            && !crate::likeness::is_decoded_once(one.plan->Some_0.header.cmd),
        plays_cmd(one, one_events),
        plays_cmd(other, other_events),
        all_similar(one_events, other_events),
    ensures
        shown(one, one_events) == shown(other, other_events),
        crate::likeness::alike(stepped(one, one_events), stepped(other, other_events)),
        one_events == other_events && crate::likeness::same_game(one, other)
            ==> crate::likeness::same_game(
            stepped(one, one_events),
            stepped(other, other_events),
        ),
    decreases one_events.len(),
{
    if one_events.len() > 0 {
        reveal_with_fuel(plays_cmd, 2);
        let one_event = one_events[0];
        let other_event = other_events[0];
        crate::coherence::lemma_step_coherent(one, one_event);
        crate::coherence::lemma_step_coherent(other, other_event);
        if !(one.pending == Action::OnTickEnd && one_event is Done) {
            crate::coherence::lemma_step_continues(one, one_event);
            crate::coherence::lemma_step_continues(other, other_event);
        }
        crate::likeness::lemma_step_alike(one, other, one_event, other_event);
        lemma_same_shown(
            one.step(one_event).0,
            other.step(other_event).0,
            one_events.skip(1),
            other_events.skip(1),
        );
    }
}

/// Of a command that is decoded only once nothing is shown but the command itself, and it leaves the
/// string tables and the entities alone.
pub proof fn lemma_decoded_once_shows_nothing<S, E>(
    playback: PlaybackModel<S, E>,
    events: Seq<Event<S, E>>,
)
    requires
        crate::coherence::coherent(playback),
        match playback.pending {
            Action::OnCmd { header } => crate::likeness::is_decoded_once(header.cmd),
            Action::DecodeSendTables
            | Action::DecodeClassInfo
            | Action::OnTickEnd
            | Action::NextCmd => true,
            _ => false,
        },
        plays_cmd(playback, events),
    ensures
        shown(playback, events) == Seq::<Shown>::empty(),
        stepped(playback, events).ctx.string_tables == playback.ctx.string_tables,
        stepped(playback, events).ctx.entities == playback.ctx.entities,
    decreases events.len(),
{
    if events.len() > 0 {
        reveal_with_fuel(plays_cmd, 2);
        let event = events[0];
        crate::coherence::lemma_step_coherent(playback, event);
        if !(playback.pending == Action::OnTickEnd && event is Done) {
            crate::coherence::lemma_step_continues(playback, event);
        }
        lemma_decoded_once_shows_nothing(playback.step(event).0, events.skip(1));
    }
}

/// The playback once the visitor has been told whether to record, where it is to be told.
pub open spec fn told<S, E>(playback: PlaybackModel<S, E>) -> PlaybackModel<S, E> {
    if playback.pending is SetCollecting {
        playback.step(Event::Done).0
    } else {
        playback
    }
}

/// A run as it is carried out: where it begins, and what is reported of each command's actions, from
/// showing the command on. Nothing is reported of commands that are passed over.
pub struct Performance<S, E> {
    pub playback: PlaybackModel<S, E>,
    pub events: Seq<Seq<Event<S, E>>>,
}

impl<S, E> Performance<S, E> {
    /// What is left once a command has been passed over or played, with the playback being `playback`.
    pub open spec fn rest(self, playback: PlaybackModel<S, E>) -> Self {
        Performance { playback, events: self.events.skip(1) }
    }

    /// What is left once the command at which the playback is has been played.
    pub open spec fn played(self, playback: PlaybackModel<S, E>) -> Self {
        self.rest(stepped(told(playback), self.events[0]))
    }

    /// Whether this is the beginning of `run` at the first command.
    pub open spec fn begins(self, run: Run) -> bool {
        &&& crate::coherence::coherent(self.playback)
        &&& self.playback.pending == Action::NextCmd
        &&& self.playback.run == Some(run)
        &&& self.playback.ctx.tick == -1
        &&& self.playback.ctx.string_tables.len() == 0
        &&& self.playback.ctx.entities is None
    }

    /// Whether each command of `headers` that the run plays is played to its end.
    pub open spec fn plays(self, headers: Seq<CmdHeader>) -> bool
        decreases headers.len(),
    {
        &&& headers.len() <= self.events.len()
        &&& headers.len() > 0 ==> match self.playback.on_cmd_header(headers[0]) {
            (next, Ok(CmdFlow::Play)) => {
                &&& plays_cmd(told(next), self.events[0])
                &&& self.played(next).plays(headers.skip(1))
            },
            (next, Ok(CmdFlow::Skip)) => self.rest(next).plays(headers.skip(1)),
            (_, Ok(CmdFlow::Stop)) => true,
            (_, Err(_)) => false,
        }
    }

    /// Whether the number of ticks between two full packets is `interval` whenever it counts: on the
    /// way to a tick, after the initialization.
    pub open spec fn keeps_interval(self, interval: i32, headers: Seq<CmdHeader>) -> bool
        decreases headers.len(),
    {
        headers.len() > 0 ==> {
            &&& (self.playback.run matches Some(Run::ToTick { did_handle_first_sync_tick, .. })
                && did_handle_first_sync_tick) ==> self.playback.ctx.full_packet_interval
                == interval
            &&& match self.playback.on_cmd_header(headers[0]) {
                (next, Ok(CmdFlow::Play)) => self.played(next).keeps_interval(
                    interval,
                    headers.skip(1),
                ),
                (next, Ok(CmdFlow::Skip)) => self.rest(next).keeps_interval(
                    interval,
                    headers.skip(1),
                ),
                _ => true,
            }
        }
    }

    /// What a visitor records of `headers` that records what it is shown whenever it has last been
    /// told to. `collecting` is whether it has been at the beginning.
    pub open spec fn log(self, collecting: bool, headers: Seq<CmdHeader>) -> Seq<Recorded>
        decreases headers.len(),
    {
        if headers.len() == 0 {
            Seq::empty()
        } else {
            match self.playback.on_cmd_header(headers[0]) {
                (next, Ok(CmdFlow::Play)) => {
                    let collecting = match next.pending {
                        Action::SetCollecting { collecting } => collecting,
                        _ => collecting,
                    };
                    let rest = self.played(next).log(collecting, headers.skip(1));
                    if collecting {
                        seq![
                            Recorded {
                                header: headers[0],
                                shown: shown(told(next), self.events[0]),
                                ends_tick: hears_tick_end(told(next), self.events[0]),
                            },
                        ] + rest
                    } else {
                        rest
                    }
                },
                (next, Ok(CmdFlow::Skip)) => self.rest(next).log(collecting, headers.skip(1)),
                _ => Seq::empty(),
            }
        }
    }

    /// The commands of `headers`, with what is shown in the course of those that are played.
    pub open spec fn cmds(self, headers: Seq<CmdHeader>) -> Seq<Cmd>
        decreases headers.len(),
    {
        if headers.len() == 0 {
            Seq::empty()
        } else {
            let header = headers[0];
            match self.playback.on_cmd_header(header) {
                (next, Ok(CmdFlow::Play)) => seq![
                    Cmd { header, shown: shown(told(next), self.events[0]) },
                ] + self.played(next).cmds(headers.skip(1)),
                (next, _) => seq![Cmd { header, shown: Seq::empty() }] + self.rest(next).cmds(
                    headers.skip(1),
                ),
            }
        }
    }

    /// How many of the commands of `headers` the run plays or passes over before it ends.
    pub open spec fn passed(self, headers: Seq<CmdHeader>) -> nat
        decreases headers.len(),
    {
        if headers.len() == 0 {
            0
        } else {
            match self.playback.on_cmd_header(headers[0]) {
                (next, Ok(CmdFlow::Play)) => 1 + self.played(next).passed(headers.skip(1)),
                (next, Ok(CmdFlow::Skip)) => 1 + self.rest(next).passed(headers.skip(1)),
                _ => 0,
            }
        }
    }

    /// The playback at the end of the run. In front of a command that ends it, the header is unread.
    pub open spec fn end(self, headers: Seq<CmdHeader>) -> PlaybackModel<S, E>
        decreases headers.len(),
    {
        if headers.len() == 0 {
            self.playback
        } else {
            match self.playback.on_cmd_header(headers[0]) {
                (next, Ok(CmdFlow::Play)) => self.played(next).end(headers.skip(1)),
                (next, Ok(CmdFlow::Skip)) => self.rest(next).end(headers.skip(1)),
                (next, _) => next.back_in_front(),
            }
        }
    }
}

/// Starting over leads to the beginning of the run, once the visitor has been told whether to record.
pub proof fn lemma_restart_begins<S, E>(
    playback: PlaybackModel<S, E>,
    run: Run,
    events: Seq<Seq<Event<S, E>>>,
)
    ensures
        ({
            let rewound = PlaybackModel { ctx: playback.ctx.rewound(), ..playback };
            Performance { playback: told(rewound.started(run)), events }.begins(run)
        }),
{
}

/// A command that is to be played is shown first, with the run and the ticks that its header has led
/// to.
pub(crate) proof fn lemma_told<S, E>(playback: PlaybackModel<S, E>, header: CmdHeader)
    requires
        crate::coherence::coherent(playback),
        playback.on_cmd_header(header).1 == Ok::<CmdFlow, ParserError>(CmdFlow::Play),
    ensures
        ({
            let next = playback.on_cmd_header(header).0;
            &&& crate::coherence::coherent(told(next))
            &&& crate::coherence::in_cmd(told(next))
            &&& told(next).pending == Action::OnCmd { header }
            &&& told(next).plan == next.plan
            &&& told(next).plan is Some
            &&& told(next).plan->Some_0.header == header
            &&& told(next).run == next.run
            &&& told(next).ctx == next.ctx
            &&& told(next).ctx.tick == header.tick
            &&& told(next).skip_entity_packets == next.skip_entity_packets
        }),
{
    crate::coherence::lemma_cmd_header_coherent(playback, header);
    crate::coherence::lemma_step_coherent(playback.on_cmd_header(header).0, Event::Done);
}

/// A visitor records exactly the commands that the run is for, each with what is shown in its course
/// and with the end of a tick where the tick differs from that of the command before, or where the run
/// says so.
pub proof fn lemma_log_is_recorded<S, E>(
    performance: Performance<S, E>,
    run: Run,
    interval: i32,
    headers: Seq<CmdHeader>,
)
    requires
        crate::coherence::coherent(performance.playback),
        performance.playback.pending == Action::NextCmd,
        performance.playback.run == Some(run),
        performance.keeps_interval(interval, headers),
        performance.plays(headers),
    ensures
        performance.log(run.records(), headers) == crate::run::recorded(
            run,
            interval,
            performance.playback.ctx.tick,
            performance.cmds(headers),
        ),
    decreases headers.len(),
{
    if headers.len() > 0 {
        let header = headers[0];
        let (next, flow) = performance.playback.on_cmd_header(header);
        crate::coherence::lemma_cmd_header_coherent(performance.playback, header);
        let (next_run, verdict) = run.next(interval, header);
        assert(run.next(performance.playback.ctx.full_packet_interval, header) == (
            next_run,
            verdict,
        ));
        let cmds = performance.cmds(headers);
        match flow {
            Ok(CmdFlow::Play) => {
                lemma_told(performance.playback, header);
                lemma_plays_cmd(told(next), performance.events[0]);
                let rest = performance.played(next);
                assert(cmds.skip(1) =~= rest.cmds(headers.skip(1)));
                lemma_log_is_recorded(rest, next_run, interval, headers.skip(1));
            },
            Ok(CmdFlow::Skip) => {
                let rest = performance.rest(next);
                assert(cmds.skip(1) =~= rest.cmds(headers.skip(1)));
                lemma_log_is_recorded(rest, next_run, interval, headers.skip(1));
            },
            _ => {},
        }
    }
}

/// The number of the full packet whose segment the command `i` of `headers` belongs to, once `seen` full
/// packets have gone by. What comes before the first full packet belongs to its segment too.
pub open spec fn segment_after(headers: Seq<CmdHeader>, seen: nat, i: int) -> nat {
    let begun = seen + crate::run::full_packets(headers.take(i + 1));
    if begun == 0 {
        0
    } else {
        (begun - 1) as nat
    }
}

/// The number of the full packet whose segment the command `i` of `headers` belongs to.
pub open spec fn segment_of(headers: Seq<CmdHeader>, i: int) -> nat {
    segment_after(headers, 0, i)
}

/// Whether two performances get the same reports of the command `i`. What is reported of commands that
/// are decoded only once may differ.
pub open spec fn same_reports<S, E>(
    one: Performance<S, E>,
    other: Performance<S, E>,
    headers: Seq<CmdHeader>,
    i: int,
) -> bool {
    crate::likeness::is_decoded_once(headers[i].cmd) || one.events[i] == other.events[i]
}

/// Whether two performances get the same reports of the command `i`, apart from the contents of string
/// tables and entities. What is reported of commands that are decoded only once may differ.
pub open spec fn similar_reports<S, E>(
    one: Performance<S, E>,
    other: Performance<S, E>,
    headers: Seq<CmdHeader>,
    i: int,
) -> bool {
    crate::likeness::is_decoded_once(headers[i].cmd) || all_similar(one.events[i], other.events[i])
}

proof fn lemma_segment_after_rest(headers: Seq<CmdHeader>, seen: nat, seen_next: nat)
    requires
        headers.len() > 0,
        seen_next == seen + if headers[0].cmd == EDemoCommands::DemFullPacket {
            1nat
        } else {
            0nat
        },
    ensures
        segment_after(headers, seen, 0) == if seen_next == 0 {
            0
        } else {
            (seen_next - 1) as nat
        },
        forall|i: int|
            0 <= i < headers.len() - 1 ==> #[trigger] segment_after(headers.skip(1), seen_next, i)
                == segment_after(headers, seen, i + 1),
{
    reveal_with_fuel(crate::run::full_packets, 2);
    assert(headers.take(1).skip(1) =~= Seq::empty());
    assert forall|i: int| 0 <= i < headers.len() - 1 implies #[trigger] segment_after(
        headers.skip(1),
        seen_next,
        i,
    ) == segment_after(headers, seen, i + 1) by {
        assert(headers.take(i + 2).skip(1) =~= headers.skip(1).take(i + 1));
    }
}

/// What two performances show of a command that both play.
proof fn lemma_cmd_shown_alike<S, E>(
    one: Performance<S, E>,
    other: Performance<S, E>,
    headers: Seq<CmdHeader>,
)
    requires
        headers.len() > 0,
        crate::coherence::coherent(one.playback),
        crate::coherence::coherent(other.playback),
        one.playback.ctx.tick == other.playback.ctx.tick,
        one.plays(headers),
        other.plays(headers),
        one.playback.on_cmd_header(headers[0]).1 == Ok::<CmdFlow, ParserError>(CmdFlow::Play),
        other.playback.on_cmd_header(headers[0]).1 == Ok::<CmdFlow, ParserError>(CmdFlow::Play),
        crate::likeness::same_course(
            one.playback.on_cmd_header(headers[0]).0,
            other.playback.on_cmd_header(headers[0]).0,
        ),
        similar_reports(one, other, headers, 0),
    ensures
        ({
            let one_next = one.playback.on_cmd_header(headers[0]).0;
            let other_next = other.playback.on_cmd_header(headers[0]).0;
            &&& shown(told(one_next), one.events[0]) == shown(told(other_next), other.events[0])
            &&& hears_tick_end(told(one_next), one.events[0]) == hears_tick_end(
                told(other_next),
                other.events[0],
            )
            &&& same_reports(one, other, headers, 0) && one_next.ctx.string_tables
                == other_next.ctx.string_tables && one_next.ctx.entities == other_next.ctx.entities
                ==> {
                let one_ctx = one.played(one_next).playback.ctx;
                let other_ctx = other.played(other_next).playback.ctx;
                &&& one_ctx.string_tables == other_ctx.string_tables
                &&& one_ctx.entities == other_ctx.entities
            }
        }),
{
    let header = headers[0];
    let one_next = told(one.playback.on_cmd_header(header).0);
    let other_next = told(other.playback.on_cmd_header(header).0);
    lemma_told(one.playback, header);
    lemma_told(other.playback, header);
    lemma_plays_cmd(one_next, one.events[0]);
    lemma_plays_cmd(other_next, other.events[0]);
    if crate::likeness::is_decoded_once(header.cmd) {
        lemma_decoded_once_shows_nothing(one_next, one.events[0]);
        lemma_decoded_once_shows_nothing(other_next, other.events[0]);
    } else {
        lemma_same_shown(one_next, other_next, one.events[0], other.events[0]);
    }
}

/// A segment's record is that part of the whole which the segment is for.
proof fn lemma_segment_log<S, E>(
    whole: Performance<S, E>,
    segment: Performance<S, E>,
    ordinal: nat,
    seen: nat,
    headers: Seq<CmdHeader>,
)
    requires
        crate::coherence::coherent(whole.playback),
        crate::coherence::coherent(segment.playback),
        whole.playback.pending == Action::NextCmd,
        segment.playback.pending == Action::NextCmd,
        whole.playback.run is Some,
        whole.playback.run->Some_0 is ToEnd,
        segment.playback.run == Some(crate::run::run_after(ordinal, seen)),
        seen <= ordinal + 1,
        ordinal <= usize::MAX,
        whole.playback.ctx.tick == segment.playback.ctx.tick,
        whole.plays(headers),
        segment.plays(headers),
        forall|i: int|
            0 <= i < headers.len() && #[trigger] segment_after(headers, seen, i) == ordinal
                ==> similar_reports(segment, whole, headers, i),
    ensures
        segment.log(crate::run::run_after(ordinal, seen).records(), headers)
            == crate::run::recorded(
            crate::run::run_after(ordinal, seen),
            0,
            segment.playback.ctx.tick,
            whole.cmds(headers),
        ),
    decreases headers.len(),
{
    if headers.len() > 0 {
        let header = headers[0];
        let rest = headers.skip(1);
        let run = crate::run::run_after(ordinal, seen);
        let seen_next = seen + if header.cmd == EDemoCommands::DemFullPacket {
            1nat
        } else {
            0nat
        };
        let (whole_next, whole_flow) = whole.playback.on_cmd_header(header);
        let (next, flow) = segment.playback.on_cmd_header(header);
        assert(run.next(0, header) == run.next(
            segment.playback.ctx.full_packet_interval,
            header,
        ));
        crate::coherence::lemma_cmd_header_coherent(segment.playback, header);
        crate::coherence::lemma_cmd_header_coherent(whole.playback, header);
        lemma_told(whole.playback, header);
        lemma_plays_cmd(told(whole_next), whole.events[0]);
        lemma_segment_after_rest(headers, seen, seen_next);
        let whole_rest = whole.played(whole_next);
        assert(whole.cmds(headers).skip(1) =~= whole_rest.cmds(rest));
        if flow != Ok::<CmdFlow, ParserError>(CmdFlow::Stop) {
            let segment_rest = if flow == Ok::<CmdFlow, ParserError>(CmdFlow::Play) {
                lemma_told(segment.playback, header);
                lemma_plays_cmd(told(next), segment.events[0]);
                segment.played(next)
            } else {
                segment.rest(next)
            };
            assert(run.next(0, header).0 == crate::run::run_after(ordinal, seen_next));
            assert forall|i: int|
                0 <= i < rest.len() && #[trigger] segment_after(rest, seen_next, i)
                    == ordinal implies similar_reports(segment_rest, whole_rest, rest, i) by {
                assert(segment_after(headers, seen, i + 1) == ordinal);
                assert(similar_reports(segment, whole, headers, i + 1));
            }
            lemma_segment_log(whole_rest, segment_rest, ordinal, seen_next, rest);
            if flow == Ok::<CmdFlow, ParserError>(CmdFlow::Play) && next.run->Some_0.records() {
                assert(segment_after(headers, seen, 0) == ordinal);
                lemma_cmd_shown_alike(segment, whole, headers);
            }
        }
    }
}

/// What the performances from number `from` on record, one after the other. Number zero records from
/// the beginning, the others once they are told to.
pub open spec fn logs<S, E>(
    performances: Seq<Performance<S, E>>,
    from: int,
    headers: Seq<CmdHeader>,
) -> Seq<Recorded>
    decreases performances.len() - from,
{
    if from >= performances.len() {
        Seq::empty()
    } else {
        performances[from].log(from == 0, headers) + logs(performances, from + 1, headers)
    }
}

proof fn lemma_logs_are_segments<S, E>(
    whole: Performance<S, E>,
    segments: Seq<Performance<S, E>>,
    from: nat,
    reset_on_full_packet: bool,
    headers: Seq<CmdHeader>,
)
    requires
        segments.len() <= usize::MAX,
        whole.begins(Run::ToEnd { reset_on_full_packet }),
        whole.plays(headers),
        forall|i: int|
            0 <= i < segments.len() ==> (#[trigger] segments[i]).begins(
                Run::full_packet_run(i as nat),
            ) && segments[i].plays(headers),
        forall|i: int|
            0 <= i < headers.len() ==> similar_reports(
                segments[#[trigger] segment_of(headers, i) as int],
                whole,
                headers,
                i,
            ),
    ensures
        logs(segments, from as int, headers) == crate::run::recorded_segments(
            from,
            segments.len(),
            0,
            whole.cmds(headers),
        ),
    decreases segments.len() - from,
{
    if from < segments.len() {
        assert(segments[from as int].begins(Run::full_packet_run(from)));
        assert forall|i: int|
            0 <= i < headers.len() && #[trigger] segment_after(headers, 0, i)
                == from implies similar_reports(segments[from as int], whole, headers, i) by {
            assert(segment_of(headers, i) == from);
        }
        lemma_segment_log(whole, segments[from as int], from, 0, headers);
        lemma_logs_are_segments(whole, segments, from + 1, reset_on_full_packet, headers);
    }
}

proof fn lemma_cmds_headers<S, E>(performance: Performance<S, E>, headers: Seq<CmdHeader>)
    ensures
        crate::run::headers_of(performance.cmds(headers)) == headers,
    decreases headers.len(),
{
    let cmds = performance.cmds(headers);
    if headers.len() > 0 {
        let next = performance.playback.on_cmd_header(headers[0]).0;
        lemma_cmds_headers(performance.played(next), headers.skip(1));
        lemma_cmds_headers(performance.rest(next), headers.skip(1));
        assert(crate::run::headers_of(cmds) =~= seq![headers[0]] + crate::run::headers_of(
            cmds.skip(1),
        ));
        assert(cmds.skip(1) =~= performance.played(next).cmds(headers.skip(1)) || cmds.skip(1)
            =~= performance.rest(next).cmds(headers.skip(1)));
    }
    assert(crate::run::headers_of(cmds) =~= headers);
}

/// A demo can be played in segments: what visitors record of the segments of all full packets, one
/// after the other, is exactly what one visitor records of the demo as a whole, command by command,
/// with the messages and the entities that are shown and the ends of ticks. Each segment is to get the
/// same reports of its own commands as the whole, but for the contents of string tables and entities,
/// which may differ.
pub proof fn lemma_segments_record_whole<S, E>(
    whole: Performance<S, E>,
    reset_on_full_packet: bool,
    segments: Seq<Performance<S, E>>,
    headers: Seq<CmdHeader>,
)
    requires
        1 <= crate::run::full_packets(headers) <= usize::MAX,
        whole.begins(Run::ToEnd { reset_on_full_packet }),
        whole.plays(headers),
        segments.len() == crate::run::full_packets(headers),
        forall|i: int|
            0 <= i < segments.len() ==> (#[trigger] segments[i]).begins(
                Run::full_packet_run(i as nat),
            ) && segments[i].plays(headers),
        forall|i: int|
            0 <= i < headers.len() ==> similar_reports(
                segments[#[trigger] segment_of(headers, i) as int],
                whole,
                headers,
                i,
            ),
    ensures
        logs(segments, 0, headers) == whole.log(true, headers),
{
    let run = Run::ToEnd { reset_on_full_packet };
    lemma_logs_are_segments(whole, segments, 0, reset_on_full_packet, headers);
    lemma_to_end_keeps_interval(whole, 0, headers);
    lemma_log_is_recorded(whole, run, 0, headers);
    lemma_cmds_headers(whole, headers);
    crate::run::lemma_segments_reproduce_whole(whole.cmds(headers), 0, reset_on_full_packet);
}

/// The number of ticks between two full packets counts only on the way to a tick.
proof fn lemma_to_end_keeps_interval<S, E>(
    performance: Performance<S, E>,
    interval: i32,
    headers: Seq<CmdHeader>,
)
    requires
        crate::coherence::coherent(performance.playback),
        performance.playback.pending == Action::NextCmd,
        performance.playback.run is Some,
        performance.playback.run->Some_0 is ToEnd,
        performance.plays(headers),
    ensures
        performance.keeps_interval(interval, headers),
    decreases headers.len(),
{
    if headers.len() > 0 {
        let next = performance.playback.on_cmd_header(headers[0]).0;
        lemma_told(performance.playback, headers[0]);
        lemma_plays_cmd(told(next), performance.events[0]);
        lemma_to_end_keeps_interval(performance.played(next), interval, headers.skip(1));
    }
}

proof fn lemma_runs_alike<S, E>(
    one: Performance<S, E>,
    other: Performance<S, E>,
    run: Run,
    interval: i32,
    collecting: bool,
    headers: Seq<CmdHeader>,
)
    requires
        crate::coherence::coherent(one.playback),
        crate::coherence::coherent(other.playback),
        one.playback.pending == Action::NextCmd,
        other.playback.pending == Action::NextCmd,
        one.playback.run == Some(run),
        other.playback.run == Some(run),
        one.playback.ctx.tick == other.playback.ctx.tick,
        one.playback.ctx.string_tables == other.playback.ctx.string_tables,
        one.playback.ctx.entities == other.playback.ctx.entities,
        one.keeps_interval(interval, headers),
        other.keeps_interval(interval, headers),
        one.plays(headers),
        other.plays(headers),
        forall|i: int|
            0 <= i < headers.len() ==> #[trigger] same_reports(one, other, headers, i),
    ensures
        one.log(collecting, headers) == other.log(collecting, headers),
        one.passed(headers) == other.passed(headers),
        one.end(headers).ctx.tick == other.end(headers).ctx.tick,
        one.end(headers).ctx.string_tables == other.end(headers).ctx.string_tables,
        one.end(headers).ctx.entities == other.end(headers).ctx.entities,
    decreases headers.len(),
{
    if headers.len() > 0 {
        let header = headers[0];
        let rest = headers.skip(1);
        let (one_next, flow) = one.playback.on_cmd_header(header);
        let (other_next, other_flow) = other.playback.on_cmd_header(header);
        let (next_run, verdict) = run.next(interval, header);
        assert(run.next(one.playback.ctx.full_packet_interval, header) == (next_run, verdict));
        assert(run.next(other.playback.ctx.full_packet_interval, header) == (next_run, verdict));
        assert(flow == other_flow);
        crate::coherence::lemma_cmd_header_coherent(one.playback, header);
        crate::coherence::lemma_cmd_header_coherent(other.playback, header);
        if flow == Ok::<CmdFlow, ParserError>(CmdFlow::Play) {
            lemma_told(one.playback, header);
            lemma_told(other.playback, header);
            lemma_plays_cmd(told(one_next), one.events[0]);
            lemma_plays_cmd(told(other_next), other.events[0]);
            assert(same_reports(one, other, headers, 0));
            lemma_cmd_shown_alike(one, other, headers);
            let now_collecting = match one_next.pending {
                Action::SetCollecting { collecting } => collecting,
                _ => collecting,
            };
            assert forall|i: int| 0 <= i < rest.len() implies #[trigger] same_reports(
                one.played(one_next),
                other.played(other_next),
                rest,
                i,
            ) by {
                assert(same_reports(one, other, headers, i + 1));
            }
            lemma_runs_alike(
                one.played(one_next),
                other.played(other_next),
                next_run,
                interval,
                now_collecting,
                rest,
            );
        } else if flow == Ok::<CmdFlow, ParserError>(CmdFlow::Skip) {
            assert forall|i: int| 0 <= i < rest.len() implies #[trigger] same_reports(
                one.rest(one_next),
                other.rest(other_next),
                rest,
                i,
            ) by {
                assert(same_reports(one, other, headers, i + 1));
            }
            lemma_runs_alike(
                one.rest(one_next),
                other.rest(other_next),
                next_run,
                interval,
                collecting,
                rest,
            );
        }
    }
}

/// A run does not depend on what is known from earlier runs: two performances of the same run that get
/// the same reports show and record the same, end at the same command and tick, and have the same
/// string tables and entities. Only on the way to a tick does the number of ticks between two full packets count,
/// and only after the initialization, which tells it.
pub proof fn lemma_run_is_repeatable<S, E>(
    one: Performance<S, E>,
    other: Performance<S, E>,
    run: Run,
    interval: i32,
    collecting: bool,
    headers: Seq<CmdHeader>,
)
    requires
        one.begins(run),
        other.begins(run),
        one.keeps_interval(interval, headers),
        other.keeps_interval(interval, headers),
        one.plays(headers),
        other.plays(headers),
        forall|i: int|
            0 <= i < headers.len() ==> #[trigger] same_reports(one, other, headers, i),
    ensures
        one.log(collecting, headers) == other.log(collecting, headers),
        one.passed(headers) == other.passed(headers),
        one.end(headers).ctx.tick == other.end(headers).ctx.tick,
        one.end(headers).ctx.string_tables == other.end(headers).ctx.string_tables,
        one.end(headers).ctx.entities == other.end(headers).ctx.entities,
{
    assert(one.playback.ctx.string_tables =~= other.playback.ctx.string_tables);
    lemma_runs_alike(one, other, run, interval, collecting, headers);
}

/// On the way to a tick the run stops in front of the first command beyond it, at the tick where it
/// was.
pub proof fn lemma_stops_at_tick<S, E>(
    playback: PlaybackModel<S, E>,
    target_tick: i32,
    header: CmdHeader,
)
    requires
        playback.pending == Action::NextCmd,
        playback.run matches Some(Run::ToTick { target_tick: target, .. }) && target
            == target_tick,
    ensures
        playback.on_cmd_header(header).1 is Ok,
        playback.on_cmd_header(header).1->Ok_0 == CmdFlow::Stop <==> header.tick > target_tick,
        header.tick > target_tick ==> {
            let after = playback.on_cmd_header(header).0.back_in_front();
            after.ctx.tick == playback.ctx.tick && after.pending == Action::Idle
        },
{
}

/// On the way to a tick nothing beyond it is shown to the visitor.
pub proof fn lemma_nothing_beyond_tick<S, E>(
    performance: Performance<S, E>,
    target_tick: i32,
    collecting: bool,
    headers: Seq<CmdHeader>,
)
    requires
        crate::coherence::coherent(performance.playback),
        performance.playback.pending == Action::NextCmd,
        performance.playback.run matches Some(Run::ToTick { target_tick: target, .. }) && target
            == target_tick,
        performance.plays(headers),
    ensures
        forall|i: int|
            0 <= i < performance.log(collecting, headers).len() ==> (#[trigger] performance.log(
                collecting,
                headers,
            )[i]).header.tick <= target_tick,
    decreases headers.len(),
{
    if headers.len() > 0 {
        let (next, flow) = performance.playback.on_cmd_header(headers[0]);
        crate::coherence::lemma_cmd_header_coherent(performance.playback, headers[0]);
        match flow {
            Ok(CmdFlow::Play) => {
                lemma_told(performance.playback, headers[0]);
                lemma_plays_cmd(told(next), performance.events[0]);
                lemma_nothing_beyond_tick(
                    performance.played(next),
                    target_tick,
                    collecting,
                    headers.skip(1),
                );
            },
            Ok(CmdFlow::Skip) => {
                lemma_nothing_beyond_tick(
                    performance.rest(next),
                    target_tick,
                    collecting,
                    headers.skip(1),
                );
            },
            _ => {},
        }
    }
}

/// What is known once stays known while a command is played to its end.
proof fn lemma_known_stays<S, E>(playback: PlaybackModel<S, E>, events: Seq<Event<S, E>>)
    requires
        crate::coherence::coherent(playback),
    ensures
        ({
            let after = stepped(playback, events);
            &&& playback.ctx.serializers is Some ==> after.ctx.serializers
                == playback.ctx.serializers
            &&& playback.ctx.entity_classes is Some ==> after.ctx.entity_classes
                == playback.ctx.entity_classes
        }),
    decreases events.len(),
{
    if events.len() > 0 {
        crate::coherence::lemma_step_coherent(playback, events[0]);
        crate::coherence::lemma_step_keeps_known(playback, events[0]);
        lemma_known_stays(playback.step(events[0]).0, events.skip(1));
    }
}

/// Playing the command that tells the serializers makes them known, and likewise the classes.
pub proof fn lemma_initialization_is_learned<S, E>(
    playback: PlaybackModel<S, E>,
    header: CmdHeader,
    events: Seq<Event<S, E>>,
)
    requires
        crate::coherence::coherent(playback),
        playback.pending == (Action::OnCmd { header }),
        plays_cmd(playback, events),
    ensures
        header.cmd == EDemoCommands::DemSendTables ==> stepped(
            playback,
            events,
        ).ctx.serializers is Some,
        header.cmd == EDemoCommands::DemClassInfo ==> stepped(
            playback,
            events,
        ).ctx.entity_classes is Some,
{
    if header.cmd == EDemoCommands::DemSendTables || header.cmd == EDemoCommands::DemClassInfo {
        reveal_with_fuel(plays_cmd, 3);
        reveal_with_fuel(stepped, 3);
        let first = playback.step(events[0]).0;
        let rest = events.skip(1);
        crate::coherence::lemma_step_coherent(playback, events[0]);
        if first.pending == Action::DecodeSendTables || first.pending == Action::DecodeClassInfo {
            let second = first.step(rest[0]).0;
            crate::coherence::lemma_step_coherent(first, rest[0]);
            lemma_known_stays(second, rest.skip(1));
        } else {
            lemma_known_stays(first, rest);
        }
    }
}

/// The warm-up of a segment reads what the segment needs: once a command that tells the serializers has
/// come, in front of the segment's full packet, they are known there, also to a parser that knew nothing
/// before, and likewise the classes.
pub proof fn lemma_warm_up_learns<S, E>(
    performance: Performance<S, E>,
    ordinal: usize,
    headers: Seq<CmdHeader>,
    i: int,
    k: int,
)
    requires
        performance.begins(Run::full_packet_run(ordinal as nat)),
        performance.plays(headers),
        0 <= i < k <= headers.len(),
        crate::run::full_packets(headers.take(k)) <= ordinal,
    ensures
        headers[i].cmd == EDemoCommands::DemSendTables ==> performance.end(
            headers.take(k),
        ).ctx.serializers is Some,
        headers[i].cmd == EDemoCommands::DemClassInfo ==> performance.end(
            headers.take(k),
        ).ctx.entity_classes is Some,
{
    lemma_warm_up_goes_on(performance, ordinal as nat, 0, headers, i, k);
}

/// Serializers, or classes, are known at the end of the first `k` commands where they are known before,
/// or are told by the command `i`.
proof fn lemma_warm_up_goes_on<S, E>(
    performance: Performance<S, E>,
    ordinal: nat,
    seen: nat,
    headers: Seq<CmdHeader>,
    i: int,
    k: int,
)
    requires
        crate::coherence::coherent(performance.playback),
        performance.playback.pending == Action::NextCmd,
        performance.playback.run == Some(crate::run::run_after(ordinal, seen)),
        performance.plays(headers),
        0 <= k <= headers.len(),
        seen + crate::run::full_packets(headers.take(k)) <= ordinal <= usize::MAX,
    ensures
        ({
            let end = performance.end(headers.take(k));
            &&& performance.playback.ctx.serializers is Some || (0 <= i < k && headers[i].cmd
                == EDemoCommands::DemSendTables) ==> end.ctx.serializers is Some
            &&& performance.playback.ctx.entity_classes is Some || (0 <= i < k && headers[i].cmd
                == EDemoCommands::DemClassInfo) ==> end.ctx.entity_classes is Some
        }),
    decreases headers.len(),
{
    if k > 0 {
        let header = headers[0];
        let part = headers.take(k);
        let rest = headers.skip(1);
        assert(part[0] == header);
        assert(part.skip(1) =~= rest.take(k - 1));
        let seen_next = seen + if header.cmd == EDemoCommands::DemFullPacket {
            1nat
        } else {
            0nat
        };
        assert(crate::run::full_packets(part) == crate::run::full_packets(rest.take(k - 1)) + (
        seen_next - seen));
        let (next, flow) = performance.playback.on_cmd_header(header);
        crate::coherence::lemma_cmd_header_coherent(performance.playback, header);
        if 0 < i < headers.len() {
            assert(headers[i] == rest[i - 1]);
        }
        if flow == Ok::<CmdFlow, ParserError>(CmdFlow::Play) {
            lemma_told(performance.playback, header);
            lemma_plays_cmd(told(next), performance.events[0]);
            lemma_known_stays(told(next), performance.events[0]);
            lemma_initialization_is_learned(told(next), header, performance.events[0]);
            lemma_warm_up_goes_on(
                performance.played(next),
                ordinal,
                seen_next,
                rest,
                i - 1,
                k - 1,
            );
        } else {
            assert(flow == Ok::<CmdFlow, ParserError>(CmdFlow::Skip));
            lemma_warm_up_goes_on(performance.rest(next), ordinal, seen_next, rest, i - 1, k - 1);
        }
    }
}

} // verus!
