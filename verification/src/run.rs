//! How much of a demo to play, and what that means for each of its commands.

use crate::demostream::{CmdHeader, EDemoCommands};
use crate::messages::DeltaHeader;
use vstd::prelude::*;

verus! {

/// The number of ticks by which a full packet may come late.
pub const FULL_PACKET_SLACK: i32 = 100;

/// A way through a demo.
#[derive(Debug, Clone, Copy, PartialEq, Eq, Structural)]
pub enum Run {
    /// Plays every command.
    ToEnd {
        /// Whether each full packet starts over with no entities, so that only those remain at the
        /// end that still exist.
        reset_on_full_packet: bool,
    },
    /// Plays up to a tick, by way of the last full packet before it.
    ToTick {
        target_tick: i32,
        /// Whether the command has been played that ends the initialization.
        did_handle_first_sync_tick: bool,
        /// Whether the full packet has been played from which on every command is.
        did_handle_last_full_packet: bool,
    },
    /// Plays one full packet and what follows it up to the next one.
    FullPacket {
        /// How many full packets are still to be passed over.
        to_pass: usize,
        /// Whether the full packet that the run is for has been met.
        met: bool,
        /// Whether what is played is to be recorded.
        collecting: bool,
    },
}

/// What to do with a command.
#[derive(Debug, Clone, Copy, PartialEq, Eq, Structural)]
pub enum Verdict {
    /// Play it.
    Handle,
    /// Play it, and record from here on.
    Collect,
    /// Play it, which is a full packet, with or without the packet in it. A tick ends with it.
    Apply { with_packet: bool },
    /// Pass over it.
    Skip,
    /// Stop in front of it.
    Stop,
}

impl Run {
    /// The run that plays the full packet number `ordinal`, counted from zero. Number zero comes
    /// with all that precedes it.
    pub open spec fn full_packet_run(ordinal: nat) -> Run {
        Run::FullPacket { to_pass: ordinal as usize, met: false, collecting: ordinal == 0 }
    }

    /// Whether what the run plays is to be recorded.
    pub open spec fn records(self) -> bool {
        self matches Run::FullPacket { collecting, .. } ==> collecting
    }

    /// Whether a full packet lies between the tick of a command and the target, given the usual
    /// number of ticks between two of them.
    pub open spec fn has_full_packet_ahead(target_tick: int, tick: int, interval: int) -> bool {
        target_tick - tick > interval + FULL_PACKET_SLACK
    }

    /// What to do with the command `header`, and how the run goes on after it.
    pub open spec fn next(self, full_packet_interval: i32, header: CmdHeader) -> (Run, Verdict) {
        let is_full_packet = header.cmd == EDemoCommands::DemFullPacket;
        match self {
            Run::ToEnd { reset_on_full_packet } => (self, Verdict::Handle),
            Run::ToTick {
                target_tick,
                did_handle_first_sync_tick,
                did_handle_last_full_packet,
            } => {
                let ahead = Self::has_full_packet_ahead(
                    target_tick as int,
                    header.tick as int,
                    full_packet_interval as int,
                );
                if header.tick > target_tick {
                    (self, Verdict::Stop)
                } else if !did_handle_first_sync_tick {
                    (
                        Run::ToTick {
                            target_tick,
                            did_handle_first_sync_tick: header.cmd == EDemoCommands::DemSyncTick,
                            did_handle_last_full_packet,
                        },
                        Verdict::Handle,
                    )
                } else if is_full_packet {
                    (
                        Run::ToTick {
                            target_tick,
                            did_handle_first_sync_tick,
                            did_handle_last_full_packet: !ahead,
                        },
                        Verdict::Apply { with_packet: !ahead },
                    )
                } else if did_handle_last_full_packet {
                    (self, Verdict::Handle)
                } else {
                    (self, Verdict::Skip)
                }
            },
            Run::FullPacket { to_pass, met, collecting } => {
                if is_full_packet {
                    if met {
                        (self, Verdict::Stop)
                    } else if to_pass > 0 {
                        (
                            Run::FullPacket { to_pass: (to_pass - 1) as usize, met, collecting },
                            Verdict::Skip,
                        )
                    } else {
                        (
                            Run::FullPacket { to_pass, met: true, collecting: true },
                            Verdict::Collect,
                        )
                    }
                } else if collecting || is_initialization(header.cmd) {
                    (self, Verdict::Handle)
                } else {
                    (self, Verdict::Skip)
                }
            },
        }
    }

    /// Decides what to do with the command `header`, and goes on.
    pub fn advance(&mut self, full_packet_interval: i32, header: &CmdHeader) -> (r: Verdict)
        ensures
            (*final(self), r) == old(self).next(full_packet_interval, *header),
    {
        let is_full_packet: bool = header.cmd == EDemoCommands::DemFullPacket;
        match *self {
            Run::ToEnd { .. } => Verdict::Handle,
            Run::ToTick {
                target_tick,
                did_handle_first_sync_tick,
                did_handle_last_full_packet,
            } => {
                if header.tick > target_tick {
                    return Verdict::Stop;
                }
                // String tables, flattened serializers and entity classes come first.
                if !did_handle_first_sync_tick {
                    *self = Run::ToTick {
                        target_tick,
                        did_handle_first_sync_tick: header.cmd == EDemoCommands::DemSyncTick,
                        did_handle_last_full_packet,
                    };
                    return Verdict::Handle;
                }
                if is_full_packet {
                    let distance: i64 = target_tick as i64 - header.tick as i64;
                    let ahead: bool = distance > full_packet_interval as i64
                        + FULL_PACKET_SLACK as i64;
                    *self = Run::ToTick {
                        target_tick,
                        did_handle_first_sync_tick,
                        did_handle_last_full_packet: !ahead,
                    };
                    return Verdict::Apply { with_packet: !ahead };
                }
                if did_handle_last_full_packet {
                    Verdict::Handle
                } else {
                    Verdict::Skip
                }
            },
            Run::FullPacket { to_pass, met, collecting } => {
                if is_full_packet {
                    if met {
                        return Verdict::Stop;
                    }
                    if to_pass > 0 {
                        *self = Run::FullPacket { to_pass: to_pass - 1, met, collecting };
                        return Verdict::Skip;
                    }
                    *self = Run::FullPacket { to_pass, met: true, collecting: true };
                    return Verdict::Collect;
                }
                // Initialization must be played to understand the rest; the changes from tick to
                // tick need not, since a full packet restates everything.
                let initialization: bool = match header.cmd {
                    EDemoCommands::DemSendTables
                    | EDemoCommands::DemClassInfo
                    | EDemoCommands::DemSignonPacket => true,
                    _ => false,
                };
                if collecting || initialization {
                    Verdict::Handle
                } else {
                    Verdict::Skip
                }
            },
        }
    }
}

/// Whether a command is one of those that must be played to understand the rest.
pub open spec fn is_initialization(cmd: EDemoCommands) -> bool {
    ||| cmd == EDemoCommands::DemSendTables
    ||| cmd == EDemoCommands::DemClassInfo
    ||| cmd == EDemoCommands::DemSignonPacket
}

/// What a visitor is shown in the course of a command, besides the command itself.
pub enum Shown {
    Message { number: u32, data: Seq<u8> },
    Entity { entity_index: i32, delta_header: DeltaHeader },
}

/// A command, and what a visitor is shown in its course.
pub struct Cmd {
    pub header: CmdHeader,
    pub shown: Seq<Shown>,
}

/// The headers of commands.
pub open spec fn headers_of(cmds: Seq<Cmd>) -> Seq<CmdHeader> {
    cmds.map_values(|cmd: Cmd| cmd.header)
}

/// A command as it is recorded: with what was shown in its course, and whether a tick ended with it.
pub struct Recorded {
    pub header: CmdHeader,
    pub shown: Seq<Shown>,
    pub ends_tick: bool,
}

/// What a run records of the commands `cmds`, the last command before them having had the tick
/// `tick`. The interval between full packets is `interval` throughout.
pub open spec fn recorded(run: Run, interval: i32, tick: i32, cmds: Seq<Cmd>) -> Seq<
    Recorded,
>
    decreases cmds.len(),
{
    if cmds.len() == 0 {
        Seq::empty()
    } else {
        let Cmd { header, shown } = cmds[0];
        let (next, verdict) = run.next(interval, header);
        let rest = recorded(next, interval, header.tick, cmds.skip(1));
        match verdict {
            Verdict::Stop => Seq::empty(),
            Verdict::Skip => rest,
            Verdict::Apply { .. } => seq![Recorded { header, shown, ends_tick: true }] + rest,
            Verdict::Handle | Verdict::Collect => if next.records() {
                seq![Recorded { header, shown, ends_tick: tick != header.tick }] + rest
            } else {
                rest
            },
        }
    }
}

/// The number of full packets among `headers`.
pub open spec fn full_packets(headers: Seq<CmdHeader>) -> nat
    decreases headers.len(),
{
    if headers.len() == 0 {
        0
    } else {
        full_packets(headers.skip(1)) + if headers[0].cmd == EDemoCommands::DemFullPacket {
            1nat
        } else {
            0nat
        }
    }
}

/// What the runs for the full packets number `from` and on record, up to number `until`, one after
/// the other.
pub open spec fn recorded_segments(
    from: nat,
    until: nat,
    interval: i32,
    cmds: Seq<Cmd>,
) -> Seq<Recorded>
    decreases until - from,
{
    if from >= until {
        Seq::empty()
    } else {
        recorded(Run::full_packet_run(from), interval, (-1) as i32, cmds) + recorded_segments(
            from + 1,
            until,
            interval,
            cmds,
        )
    }
}

/// The run for the full packet `ordinal` once `seen` full packets have gone by.
pub(crate) open spec fn run_after(ordinal: nat, seen: nat) -> Run {
    if seen <= ordinal {
        Run::FullPacket {
            to_pass: (ordinal - seen) as usize,
            met: false,
            collecting: ordinal == 0,
        }
    } else {
        Run::FullPacket { to_pass: 0, met: true, collecting: true }
    }
}

spec fn segments_after(
    from: nat,
    until: nat,
    seen: nat,
    interval: i32,
    tick: i32,
    cmds: Seq<Cmd>,
) -> Seq<Recorded>
    decreases until - from,
{
    if from >= until {
        Seq::empty()
    } else {
        recorded(run_after(from, seen), interval, tick, cmds) + segments_after(
            from + 1,
            until,
            seen,
            interval,
            tick,
            cmds,
        )
    }
}

/// The runs for later full packets record nothing of a command in front of theirs.
proof fn lemma_later_segments(
    from: nat,
    until: nat,
    seen: nat,
    seen_next: nat,
    interval: i32,
    tick: i32,
    cmds: Seq<Cmd>,
)
    requires
        cmds.len() > 0,
        until <= usize::MAX,
        from >= 1,
        seen_next == seen + if cmds[0].header.cmd == EDemoCommands::DemFullPacket {
            1nat
        } else {
            0nat
        },
        seen_next <= from,
    ensures
        segments_after(from, until, seen, interval, tick, cmds) == segments_after(
            from,
            until,
            seen_next,
            interval,
            cmds[0].header.tick,
            cmds.skip(1),
        ),
    decreases until - from,
{
    if from < until {
        lemma_later_segments(from + 1, until, seen, seen_next, interval, tick, cmds);
        assert(run_after(from, seen).next(interval, cmds[0].header).0 == run_after(from, seen_next));
    }
}

/// The run that records what follows once `seen` full packets have gone by.
spec fn owner(seen: nat) -> nat {
    if seen == 0 {
        0
    } else {
        (seen - 1) as nat
    }
}

/// A command that is played and recorded comes first, and the rest after it.
proof fn lemma_recorded_step(run: Run, next: Run, interval: i32, tick: i32, cmds: Seq<Cmd>)
    requires
        cmds.len() > 0,
        run.next(interval, cmds[0].header).0 == next,
        run.next(interval, cmds[0].header).1 == Verdict::Handle || run.next(interval, cmds[0].header).1
            == Verdict::Collect,
        next.records(),
    ensures
        recorded(run, interval, tick, cmds) == seq![
            Recorded { header: cmds[0].header, shown: cmds[0].shown, ends_tick: tick != cmds[0].header.tick },
        ] + recorded(next, interval, cmds[0].header.tick, cmds.skip(1)),
{
}

/// One more command, not a full packet: its segment records it.
proof fn lemma_join_other(
    until: nat,
    seen: nat,
    interval: i32,
    tick: i32,
    cmds: Seq<Cmd>,
)
    requires
        cmds.len() > 0,
        owner(seen) < until <= usize::MAX,
        cmds[0].header.cmd != EDemoCommands::DemFullPacket,
    ensures
        segments_after(owner(seen), until, seen, interval, tick, cmds) == seq![
            Recorded { header: cmds[0].header, shown: cmds[0].shown, ends_tick: tick != cmds[0].header.tick },
        ] + segments_after(
            owner(seen),
            until,
            seen,
            interval,
            cmds[0].header.tick,
            cmds.skip(1),
        ),
{
    let mine = run_after(owner(seen), seen);
    let first = seq![Recorded { header: cmds[0].header, shown: cmds[0].shown, ends_tick: tick != cmds[0].header.tick }];
    let rest = cmds.skip(1);
    lemma_recorded_step(mine, mine, interval, tick, cmds);
    lemma_later_segments(owner(seen) + 1, until, seen, seen, interval, tick, cmds);
    let own = recorded(mine, interval, cmds[0].header.tick, rest);
    let later = segments_after(owner(seen) + 1, until, seen, interval, cmds[0].header.tick, rest);
    assert((first + own) + later =~= first + (own + later));
}

/// One more full packet: its own segment begins with it, and the one before has ended.
proof fn lemma_join_full_packet(
    until: nat,
    seen: nat,
    interval: i32,
    tick: i32,
    cmds: Seq<Cmd>,
)
    requires
        cmds.len() > 0,
        seen < until <= usize::MAX,
        cmds[0].header.cmd == EDemoCommands::DemFullPacket,
    ensures
        segments_after(owner(seen), until, seen, interval, tick, cmds) == seq![
            Recorded { header: cmds[0].header, shown: cmds[0].shown, ends_tick: tick != cmds[0].header.tick },
        ] + segments_after(
            owner(seen + 1),
            until,
            seen + 1,
            interval,
            cmds[0].header.tick,
            cmds.skip(1),
        ),
{
    let first = seq![Recorded { header: cmds[0].header, shown: cmds[0].shown, ends_tick: tick != cmds[0].header.tick }];
    let rest = cmds.skip(1);
    let mine = run_after(seen, seen);
    let next = run_after(seen, seen + 1);
    assert(mine.next(interval, cmds[0].header) == (next, Verdict::Collect));
    lemma_recorded_step(mine, next, interval, tick, cmds);
    lemma_later_segments(seen + 1, until, seen, seen + 1, interval, tick, cmds);
    let own = recorded(next, interval, cmds[0].header.tick, rest);
    let later = segments_after(seen + 1, until, seen + 1, interval, cmds[0].header.tick, rest);
    assert((first + own) + later =~= first + (own + later));
    let from_mine = segments_after(seen, until, seen, interval, tick, cmds);
    assert(from_mine == (first + own) + later);
    if seen > 0 {
        let ended = recorded(run_after(owner(seen), seen), interval, tick, cmds);
        assert(run_after(owner(seen), seen).next(interval, cmds[0].header).1 == Verdict::Stop);
        assert(ended =~= Seq::empty());
        assert(segments_after(owner(seen), until, seen, interval, tick, cmds) == ended
            + from_mine);
        assert(ended + from_mine =~= from_mine);
    }
}

proof fn lemma_segments_join(
    until: nat,
    seen: nat,
    interval: i32,
    tick: i32,
    cmds: Seq<Cmd>,
    reset_on_full_packet: bool,
)
    requires
        until == seen + full_packets(headers_of(cmds)),
        1 <= until <= usize::MAX,
    ensures
        segments_after(owner(seen), until, seen, interval, tick, cmds) == recorded(
            Run::ToEnd { reset_on_full_packet },
            interval,
            tick,
            cmds,
        ),
    decreases cmds.len(),
{
    let to_end = Run::ToEnd { reset_on_full_packet };
    if cmds.len() > 0 {
        assert(headers_of(cmds).skip(1) =~= headers_of(cmds.skip(1)));
    }
    if cmds.len() == 0 {
        let last = recorded(run_after(owner(seen), seen), interval, tick, cmds);
        assert(last =~= Seq::empty());
        assert(segments_after(owner(seen) + 1, until, seen, interval, tick, cmds)
            =~= Seq::empty());
        assert(segments_after(owner(seen), until, seen, interval, tick, cmds) =~= Seq::empty());
    } else {
        let rest = cmds.skip(1);
        lemma_recorded_step(to_end, to_end, interval, tick, cmds);
        if cmds[0].header.cmd != EDemoCommands::DemFullPacket {
            lemma_segments_join(
                until,
                seen,
                interval,
                cmds[0].header.tick,
                rest,
                reset_on_full_packet,
            );
            lemma_join_other(until, seen, interval, tick, cmds);
        } else {
            lemma_segments_join(
                until,
                seen + 1,
                interval,
                cmds[0].header.tick,
                rest,
                reset_on_full_packet,
            );
            lemma_join_full_packet(until, seen, interval, tick, cmds);
        }
    }
}

proof fn lemma_segments_start(
    from: nat,
    until: nat,
    interval: i32,
    cmds: Seq<Cmd>,
)
    ensures
        segments_after(from, until, 0, interval, (-1) as i32, cmds) == recorded_segments(
            from,
            until,
            interval,
            cmds,
        ),
    decreases until - from,
{
    if from < until {
        lemma_segments_start(from + 1, until, interval, cmds);
    }
}

/// Every command belongs to exactly one full packet's segment: in a demo that has a full packet, what
/// the runs for all its full packets record, one after the other, is exactly what a single run from
/// the start to the end records.
pub proof fn lemma_segments_reproduce_whole(
    cmds: Seq<Cmd>,
    interval: i32,
    reset_on_full_packet: bool,
)
    requires
        1 <= full_packets(headers_of(cmds)) <= usize::MAX,
    ensures
        recorded_segments(0, full_packets(headers_of(cmds)), interval, cmds) == recorded(
            Run::ToEnd { reset_on_full_packet },
            interval,
            (-1) as i32,
            cmds,
        ),
{
    lemma_segments_start(0, full_packets(headers_of(cmds)), interval, cmds);
    lemma_segments_join(
        full_packets(headers_of(cmds)),
        0,
        interval,
        (-1) as i32,
        cmds,
        reset_on_full_packet,
    );
}

} // verus!
