//! What becomes of each command of a demo in each kind of run, said of the demo as a whole.

use crate::demostream::{CmdHeader, EDemoCommands};
use crate::run::{Run, Verdict};
use vstd::prelude::*;

verus! {

/// The run in front of the command `i` of `headers`. The number of ticks between two full packets may
/// change: it is `intervals[j]` at the command `j`.
pub open spec fn run_at(run: Run, intervals: Seq<i32>, headers: Seq<CmdHeader>, i: int) -> Run
    decreases i,
{
    if i <= 0 {
        run
    } else {
        run_at(run, intervals, headers, i - 1).next(intervals[i - 1], headers[i - 1]).0
    }
}

/// What the run does with the command `i` of `headers`.
pub open spec fn verdict_at(
    run: Run,
    intervals: Seq<i32>,
    headers: Seq<CmdHeader>,
    i: int,
) -> Verdict {
    run_at(run, intervals, headers, i).next(intervals[i], headers[i]).1
}

/// Whether the command that ends the initialization comes before the command `i`.
pub open spec fn initialized(headers: Seq<CmdHeader>, i: int) -> bool {
    exists|j: int| 0 <= j < i && #[trigger] headers[j].cmd == EDemoCommands::DemSyncTick
}

/// Whether `f` is the last full packet before the command `i`, and comes after the initialization.
pub open spec fn is_last_full_packet(headers: Seq<CmdHeader>, f: int, i: int) -> bool {
    &&& 0 <= f < i
    &&& headers[f].cmd == EDemoCommands::DemFullPacket
    &&& initialized(headers, f)
    &&& forall|j: int| f < j < i ==> #[trigger] headers[j].cmd != EDemoCommands::DemFullPacket
}

/// Whether the command `i` comes close behind the last full packet, as seen from `target_tick`: from that
/// full packet it is at most 100 ticks more than the usual number between two.
pub open spec fn behind_last_full_packet(
    target_tick: i32,
    intervals: Seq<i32>,
    headers: Seq<CmdHeader>,
    i: int,
) -> bool {
    exists|f: int| #[trigger]
        is_last_full_packet(headers, f, i) && target_tick - headers[f].tick <= intervals[f] + 100
}

proof fn lemma_run_to_tick_at(
    target_tick: i32,
    intervals: Seq<i32>,
    headers: Seq<CmdHeader>,
    i: int,
)
    requires
        0 <= i <= headers.len(),
        forall|j: int| 0 <= j < i ==> (#[trigger] headers[j]).tick <= target_tick,
    ensures
        run_at(
            Run::ToTick {
                target_tick,
                did_handle_first_sync_tick: false,
                did_handle_last_full_packet: false,
            },
            intervals,
            headers,
            i,
        ) == (Run::ToTick {
            target_tick,
            did_handle_first_sync_tick: initialized(headers, i),
            did_handle_last_full_packet: behind_last_full_packet(
                target_tick,
                intervals,
                headers,
                i,
            ),
        }),
    decreases i,
{
    if i > 0 {
        let last = i - 1;
        lemma_run_to_tick_at(target_tick, intervals, headers, last);
        assert(headers[last].tick <= target_tick);
        let close = behind_last_full_packet(target_tick, intervals, headers, i);
        let was_close = behind_last_full_packet(target_tick, intervals, headers, last);
        assert(initialized(headers, i) == (initialized(headers, last) || headers[last].cmd
            == EDemoCommands::DemSyncTick)) by {
            if initialized(headers, i) && headers[last].cmd != EDemoCommands::DemSyncTick {
                let j = choose|j: int|
                    0 <= j < i && #[trigger] headers[j].cmd == EDemoCommands::DemSyncTick;
                assert(0 <= j < last && headers[j].cmd == EDemoCommands::DemSyncTick);
            }
            if initialized(headers, last) {
                let j = choose|j: int|
                    0 <= j < last && #[trigger] headers[j].cmd == EDemoCommands::DemSyncTick;
                assert(0 <= j < i && headers[j].cmd == EDemoCommands::DemSyncTick);
            }
        }
        if headers[last].cmd == EDemoCommands::DemFullPacket {
            if initialized(headers, last) {
                assert(is_last_full_packet(headers, last, i));
                if close {
                    let f = choose|f: int| #[trigger]
                        is_last_full_packet(headers, f, i) && target_tick - headers[f].tick
                            <= intervals[f] + 100;
                    assert(f == last) by {
                        if f < last {
                            assert(headers[last].cmd != EDemoCommands::DemFullPacket);
                        }
                    }
                }
            } else {
                if close {
                    let f = choose|f: int| #[trigger]
                        is_last_full_packet(headers, f, i) && target_tick - headers[f].tick
                            <= intervals[f] + 100;
                    let j = choose|j: int|
                        0 <= j < f && #[trigger] headers[j].cmd == EDemoCommands::DemSyncTick;
                    assert(0 <= j < last && headers[j].cmd == EDemoCommands::DemSyncTick);
                }
                if was_close {
                    let f = choose|f: int| #[trigger]
                        is_last_full_packet(headers, f, last) && target_tick - headers[f].tick
                            <= intervals[f] + 100;
                    let j = choose|j: int|
                        0 <= j < f && #[trigger] headers[j].cmd == EDemoCommands::DemSyncTick;
                    assert(0 <= j < last && headers[j].cmd == EDemoCommands::DemSyncTick);
                }
            }
        } else {
            if close {
                let f = choose|f: int| #[trigger]
                    is_last_full_packet(headers, f, i) && target_tick - headers[f].tick
                        <= intervals[f] + 100;
                assert(is_last_full_packet(headers, f, last));
            }
            if was_close {
                let f = choose|f: int| #[trigger]
                    is_last_full_packet(headers, f, last) && target_tick - headers[f].tick
                        <= intervals[f] + 100;
                assert(is_last_full_packet(headers, f, i));
            }
        }
    }
}

/// The way to a tick. All of the initialization is played. After it, of the full packets in front of the
/// last one only the string tables are, and all other commands are passed over, up to a full packet from
/// which the tick is at most 100 ticks more than the usual number between two: from there on everything
/// is played. The run stops in front of the first command beyond the tick.
pub proof fn lemma_way_to_tick(
    target_tick: i32,
    intervals: Seq<i32>,
    headers: Seq<CmdHeader>,
    i: int,
)
    requires
        0 <= i < headers.len(),
        forall|j: int| 0 <= j < i ==> (#[trigger] headers[j]).tick <= target_tick,
    ensures
        verdict_at(
            Run::ToTick {
                target_tick,
                did_handle_first_sync_tick: false,
                did_handle_last_full_packet: false,
            },
            intervals,
            headers,
            i,
        ) == if headers[i].tick > target_tick {
            Verdict::Stop
        } else if !initialized(headers, i) {
            Verdict::Handle
        } else if headers[i].cmd == EDemoCommands::DemFullPacket {
            Verdict::Apply { with_packet: target_tick - headers[i].tick <= intervals[i] + 100 }
        } else if behind_last_full_packet(target_tick, intervals, headers, i) {
            Verdict::Handle
        } else {
            Verdict::Skip
        },
{
    lemma_run_to_tick_at(target_tick, intervals, headers, i);
}

/// Where full packets come at most 100 ticks later than usual, the last one that is not beyond the tick is
/// always played with its packet, and so is everything from it up to the tick.
pub proof fn lemma_last_full_packet_is_played(
    target_tick: i32,
    intervals: Seq<i32>,
    headers: Seq<CmdHeader>,
    last: int,
    following: int,
    i: int,
)
    requires
        0 <= last < following < headers.len(),
        initialized(headers, last),
        headers[last].cmd == EDemoCommands::DemFullPacket,
        headers[following].cmd == EDemoCommands::DemFullPacket,
        headers[last].tick <= target_tick < headers[following].tick,
        headers[following].tick - headers[last].tick <= intervals[last] + 100,
        forall|j: int|
            last < j < following ==> #[trigger] headers[j].cmd != EDemoCommands::DemFullPacket,
        last <= i < headers.len(),
        forall|j: int| 0 <= j <= i ==> (#[trigger] headers[j]).tick <= target_tick,
    ensures
        verdict_at(
            Run::ToTick {
                target_tick,
                did_handle_first_sync_tick: false,
                did_handle_last_full_packet: false,
            },
            intervals,
            headers,
            i,
        ) == if i == last {
            Verdict::Apply { with_packet: true }
        } else {
            Verdict::Handle
        },
{
    lemma_way_to_tick(target_tick, intervals, headers, i);
    assert(i < following) by {
        if i >= following {
            assert(headers[following].tick <= target_tick);
        }
    }
    let s = choose|j: int|
        0 <= j < last && #[trigger] headers[j].cmd == EDemoCommands::DemSyncTick;
    assert(0 <= s < i && headers[s].cmd == EDemoCommands::DemSyncTick);
    assert(initialized(headers, i));
    if i > last {
        assert(is_last_full_packet(headers, last, i));
        assert(headers[i].cmd != EDemoCommands::DemFullPacket);
    }
}

pub(crate) proof fn lemma_full_packets_push(headers: Seq<CmdHeader>, i: int)
    requires
        0 <= i < headers.len(),
    ensures
        crate::run::full_packets(headers.take(i + 1)) == crate::run::full_packets(headers.take(i))
            + if headers[i].cmd == EDemoCommands::DemFullPacket {
            1nat
        } else {
            0nat
        },
    decreases i,
{
    reveal_with_fuel(crate::run::full_packets, 2);
    if i == 0 {
        assert(headers.take(1).skip(1) =~= headers.take(0));
    } else {
        lemma_full_packets_push(headers.skip(1), i - 1);
        assert(headers.take(i + 1).skip(1) =~= headers.skip(1).take(i));
        assert(headers.take(i).skip(1) =~= headers.skip(1).take(i - 1));
    }
}

proof fn lemma_segment_run_at(
    ordinal: usize,
    intervals: Seq<i32>,
    headers: Seq<CmdHeader>,
    i: int,
)
    requires
        0 <= i <= headers.len(),
        crate::run::full_packets(headers.take(i)) <= ordinal + 1,
    ensures
        run_at(Run::full_packet_run(ordinal as nat), intervals, headers, i)
            == crate::run::run_after(
            ordinal as nat,
            crate::run::full_packets(headers.take(i)),
        ),
    decreases i,
{
    if i > 0 {
        lemma_full_packets_push(headers, i - 1);
        lemma_segment_run_at(ordinal, intervals, headers, i - 1);
    }
}

/// The segment of a full packet. In front of it, where it is not the first, exactly the commands that
/// tell the serializers, the classes and the string tables are played, and everything else is passed
/// over, earlier full packets too. The full packet itself is played, and recording starts with it. All
/// that follows is played, and the run stops in front of the next full packet. What comes before the
/// first full packet is played as part of its segment.
pub proof fn lemma_segment_of_full_packet(
    ordinal: usize,
    intervals: Seq<i32>,
    headers: Seq<CmdHeader>,
    i: int,
)
    requires
        0 <= i < headers.len(),
        crate::run::full_packets(headers.take(i)) <= ordinal + 1,
    ensures
        ({
            let before = crate::run::full_packets(headers.take(i));
            let verdict = verdict_at(
                Run::full_packet_run(ordinal as nat),
                intervals,
                headers,
                i,
            );
            match headers[i].cmd {
                EDemoCommands::DemFullPacket => {
                    &&& before < ordinal ==> verdict == Verdict::Skip
                    &&& before == ordinal ==> verdict == Verdict::Collect
                    &&& before > ordinal ==> verdict == Verdict::Stop
                },
                EDemoCommands::DemSendTables => verdict == Verdict::Handle,
                EDemoCommands::DemClassInfo => verdict == Verdict::Handle,
                EDemoCommands::DemSignonPacket => verdict == Verdict::Handle,
                _ => verdict == if ordinal == 0 || before > ordinal {
                    Verdict::Handle
                } else {
                    Verdict::Skip
                },
            }
        }),
{
    lemma_segment_run_at(ordinal, intervals, headers, i);
}

/// A run to the end plays every command.
pub proof fn lemma_run_to_end_plays_all(
    reset_on_full_packet: bool,
    intervals: Seq<i32>,
    headers: Seq<CmdHeader>,
    i: int,
)
    requires
        0 <= i < headers.len(),
    ensures
        run_at(Run::ToEnd { reset_on_full_packet }, intervals, headers, i) == (Run::ToEnd {
            reset_on_full_packet,
        }),
        verdict_at(Run::ToEnd { reset_on_full_packet }, intervals, headers, i) == Verdict::Handle,
    decreases i,
{
    if i > 0 {
        lemma_run_to_end_plays_all(reset_on_full_packet, intervals, headers, i - 1);
    }
}

} // verus!
