//! Whole runs of a parser over its stream: where the stream is when a run has ended.

use crate::demofile::{DemoFile, DemoTape};
use crate::demostream::{DemoStream, SeekableDemoStream};
use crate::parser::ParserModel;
use crate::performance::Performance;
use crate::playback::{Action, CmdFlow, Event};
use crate::run::Run;
use vstd::prelude::*;

verus! {

/// The stream past its next `n` commands.
pub open spec fn after_cmds<D: DemoStream>(stream: D::Model, n: nat) -> D::Model
    decreases n,
{
    if n == 0 {
        stream
    } else {
        match D::header_read(stream) {
            (Ok(header), next) => after_cmds::<D>(
                D::body_skipped(next, header).1,
                (n - 1) as nat,
            ),
            (Err(_), _) => stream,
        }
    }
}

/// The parser once its run has ended, given what is reported of each command's actions. Each command is
/// begun by [`crate::parser::Parser::next_cmd_seekable`], and the body of one that is played is read.
pub open spec fn run_out<D: SeekableDemoStream, S, E>(
    parser: ParserModel<D::Model, S, E>,
    events: Seq<Seq<Event<S, E>>>,
) -> ParserModel<D::Model, S, E>
    decreases events.len(),
{
    let (next, _) = crate::parser::cmd_sought::<D, S, E>(parser);
    if next.playback.pending == Action::Idle || events.len() == 0 {
        next
    } else if next.playback.pending == Action::NextCmd {
        run_out::<D, S, E>(next, events.skip(1))
    } else {
        match D::body_read(next.stream, next.playback.plan->Some_0.header) {
            (Ok(_), stream) => run_out::<D, S, E>(
                ParserModel {
                    stream,
                    playback: crate::performance::stepped(
                        crate::performance::told(next.playback),
                        events[0],
                    ),
                },
                events.skip(1),
            ),
            (Err(_), stream) => ParserModel { stream, playback: next.playback.stopped() },
        }
    }
}

/// Whether the body of each command that the run plays can be read.
pub open spec fn reads_bodies<D: SeekableDemoStream, S, E>(
    parser: ParserModel<D::Model, S, E>,
    events: Seq<Seq<Event<S, E>>>,
) -> bool
    decreases events.len(),
{
    let (next, _) = crate::parser::cmd_sought::<D, S, E>(parser);
    if next.playback.pending == Action::Idle || events.len() == 0 {
        true
    } else if next.playback.pending == Action::NextCmd {
        reads_bodies::<D, S, E>(next, events.skip(1))
    } else {
        match D::body_read(next.stream, next.playback.plan->Some_0.header) {
            (Ok(_), stream) => reads_bodies::<D, S, E>(
                ParserModel {
                    stream,
                    playback: crate::performance::stepped(
                        crate::performance::told(next.playback),
                        events[0],
                    ),
                },
                events.skip(1),
            ),
            (Err(_), _) => false,
        }
    }
}

/// The run apart from its stream.
pub open spec fn performance_of<M, S, E>(
    parser: ParserModel<M, S, E>,
    events: Seq<Seq<Event<S, E>>>,
) -> Performance<S, E> {
    Performance { playback: parser.playback, events }
}

/// Whether the file is in order as far as the run goes: to its end, or to the command in front of
/// which the run ends.
pub open spec fn in_order<S, E>(
    parser: ParserModel<DemoTape, S, E>,
    events: Seq<Seq<Event<S, E>>>,
) -> bool {
    let listing = crate::parser::listing::<DemoFile>(parser.stream);
    let performance = performance_of(parser, events);
    listing.result is Ok || performance.passed(listing.headers) < listing.headers.len()
}

/// A run over a demo file ends right behind the commands that it plays or passes over: in front of the
/// command that ends it, or else at the end of the file.
pub proof fn lemma_run_out<S, E>(
    parser: ParserModel<DemoTape, S, E>,
    events: Seq<Seq<Event<S, E>>>,
)
    requires
        DemoFile::sound(parser.stream),
        crate::coherence::coherent(parser.playback),
        parser.playback.pending == Action::NextCmd,
        performance_of(parser, events).plays(
            crate::parser::listing::<DemoFile>(parser.stream).headers,
        ),
        in_order(parser, events),
        reads_bodies::<DemoFile, S, E>(parser, events),
    ensures
        ({
            let listing = crate::parser::listing::<DemoFile>(parser.stream);
            let performance = performance_of(parser, events);
            let passed = performance.passed(listing.headers);
            let end = run_out::<DemoFile, S, E>(parser, events);
            &&& passed <= listing.headers.len()
            &&& end.stream == if passed < listing.headers.len() {
                after_cmds::<DemoFile>(parser.stream, passed)
            } else {
                listing.stream
            }
            &&& end.playback == performance.end(listing.headers).stopped()
        }),
    decreases events.len(),
{
    let listing = crate::parser::listing::<DemoFile>(parser.stream);
    let headers = listing.headers;
    let performance = performance_of(parser, events);
    if headers.len() > 0 {
        let (read, body) = parser.stream.read_header();
        let header = headers[0];
        assert(read == Ok::<_, crate::demostream::ReadCmdHeaderError>(header));
        crate::demofile::lemma_header_extent(parser.stream.data, parser.stream.pos);
        let (next, flow) = parser.playback.on_cmd_header(header);
        crate::coherence::lemma_cmd_header_coherent(parser.playback, header);
        match flow {
            Ok(CmdFlow::Play) => {
                crate::performance::lemma_told(parser.playback, header);
                let told = crate::performance::told(next);
                crate::performance::lemma_plays_cmd(told, events[0]);
                crate::demofile::lemma_read_and_skip_agree(body, header);
                let rest = ParserModel {
                    stream: body.read_body(header).1,
                    playback: crate::performance::stepped(told, events[0]),
                };
                assert(headers.skip(1) =~= crate::parser::listing::<DemoFile>(
                    rest.stream,
                ).headers);
                lemma_run_out(rest, events.skip(1));
            },
            Ok(CmdFlow::Skip) => {
                let rest = ParserModel { stream: body.skip_body(header).1, playback: next };
                assert(headers.skip(1) =~= crate::parser::listing::<DemoFile>(
                    rest.stream,
                ).headers);
                lemma_run_out(rest, events.skip(1));
            },
            Ok(CmdFlow::Stop) => {
                DemoFile::lemma_unread(parser.stream);
            },
            Err(_) => {},
        }
    }
}

/// The parser at the beginning of `run` at the first command, once the visitor has been told whether to
/// record.
pub open spec fn begun<D: SeekableDemoStream, S, E>(
    parser: ParserModel<D::Model, S, E>,
    run: Run,
) -> ParserModel<D::Model, S, E> {
    let restarted = crate::parser::restarted::<D, S, E>(parser, run).0;
    ParserModel { playback: crate::performance::told(restarted.playback), ..restarted }
}

/// Whether the run of a parser over a demo file goes through: the commands are played to their ends,
/// their bodies can be read, and the number of ticks between two full packets is `interval` whenever it
/// counts.
pub open spec fn goes_through<S, E>(
    parser: ParserModel<DemoTape, S, E>,
    events: Seq<Seq<Event<S, E>>>,
    interval: i32,
) -> bool {
    let headers = crate::parser::listing::<DemoFile>(parser.stream).headers;
    &&& performance_of(parser, events).plays(headers)
    &&& performance_of(parser, events).keeps_interval(interval, headers)
    &&& in_order(parser, events)
    &&& reads_bodies::<DemoFile, S, E>(parser, events)
}

/// A run that starts over, such as one to a tick, does not depend on what was run before. Of two parsers
/// over the same file, whatever each of them has played or knows, both show their visitors the same,
/// and end at the same position of the file and at the same tick, with the same string tables and
/// entities, where they get the same reports.
pub proof fn lemma_restarted_runs_agree<S, E>(
    one: ParserModel<DemoTape, S, E>,
    other: ParserModel<DemoTape, S, E>,
    run: Run,
    interval: i32,
    one_events: Seq<Seq<Event<S, E>>>,
    other_events: Seq<Seq<Event<S, E>>>,
)
    requires
        DemoFile::sound(one.stream),
        DemoFile::sound(other.stream),
        one.stream.at(other.stream.pos) == other.stream,
        goes_through(begun::<DemoFile, S, E>(one, run), one_events, interval),
        goes_through(begun::<DemoFile, S, E>(other, run), other_events, interval),
        ({
            let headers = crate::parser::listing::<DemoFile>(
                begun::<DemoFile, S, E>(one, run).stream,
            ).headers;
            forall|i: int|
                0 <= i < headers.len() ==> #[trigger] crate::performance::same_reports(
                    performance_of(begun::<DemoFile, S, E>(one, run), one_events),
                    performance_of(begun::<DemoFile, S, E>(other, run), other_events),
                    headers,
                    i,
                )
        }),
    ensures
        ({
            let one_begun = begun::<DemoFile, S, E>(one, run);
            let other_begun = begun::<DemoFile, S, E>(other, run);
            let headers = crate::parser::listing::<DemoFile>(one_begun.stream).headers;
            let one_end = run_out::<DemoFile, S, E>(one_begun, one_events);
            let other_end = run_out::<DemoFile, S, E>(other_begun, other_events);
            &&& one_begun.stream == other_begun.stream
            &&& performance_of(one_begun, one_events).log(run.records(), headers)
                == performance_of(other_begun, other_events).log(run.records(), headers)
            &&& one_end.stream == other_end.stream
            &&& one_end.playback.ctx.tick == other_end.playback.ctx.tick
            &&& one_end.playback.ctx.string_tables == other_end.playback.ctx.string_tables
            &&& one_end.playback.ctx.entities == other_end.playback.ctx.entities
        }),
{
    let one_begun = begun::<DemoFile, S, E>(one, run);
    let other_begun = begun::<DemoFile, S, E>(other, run);
    let headers = crate::parser::listing::<DemoFile>(one_begun.stream).headers;
    crate::performance::lemma_restart_begins(one.playback, run, one_events);
    crate::performance::lemma_restart_begins(other.playback, run, other_events);
    assert(one_begun.stream == other_begun.stream);
    crate::performance::lemma_run_is_repeatable(
        performance_of(one_begun, one_events),
        performance_of(other_begun, other_events),
        run,
        interval,
        run.records(),
        headers,
    );
    lemma_run_out(one_begun, one_events);
    lemma_run_out(other_begun, other_events);
}

} // verus!
