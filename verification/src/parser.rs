//! Playing a demo from a stream.

use crate::context::Context;
use crate::demofile::{DemoFile, DemoHeaderError, DemoTape};
use crate::demostream::{
    CmdHeader, DemoStream, EDemoCommands, IoError, ReadCmdHeaderError, SeekFrom,
    SeekableDemoStream,
};
use crate::playback::{Action, CmdFlow, Event, ParserError, Playback, PlaybackModel};
use crate::run::{Cmd, Run};
use vstd::prelude::*;

verus! {

/// A stream, a visitor and how far the demo has been played.
#[derive(Debug)]
pub struct Parser<D, V, S, E> {
    demo_stream: D,
    visitor: V,
    playback: Playback<S, E>,
}

/// What a [`Parser`] stands for, apart from its visitor.
pub struct ParserModel<M, S, E> {
    pub stream: M,
    pub playback: PlaybackModel<S, E>,
}

/// The parser once it turns out that there is no next command.
pub open spec fn no_cmd<D: DemoStream, S, E>(
    parser: ParserModel<D::Model, S, E>,
    err: ReadCmdHeaderError,
) -> (ParserModel<D::Model, S, E>, Result<Action, ParserError>) {
    let (at_eof, stream) = D::eof_checked(parser.stream);
    let (playback, result) = parser.playback.no_cmd_header(err, at_eof == Ok::<bool, IoError>(true));
    (ParserModel { stream, playback }, result)
}

/// The parser once the next command's header has been read, and what is pending then, in a run that
/// plays every command.
pub open spec fn cmd_begun<D: DemoStream, S, E>(parser: ParserModel<D::Model, S, E>) -> (
    ParserModel<D::Model, S, E>,
    Result<Action, ParserError>,
) {
    let playback = parser.playback;
    match D::header_read(parser.stream) {
        (Err(err), stream) => no_cmd::<D, S, E>(ParserModel { stream, playback }, err),
        (Ok(header), stream) => match playback.on_cmd_header(header) {
            (playback, Err(err)) => (ParserModel { stream, playback }, Err(err)),
            (playback, Ok(_)) => (ParserModel { stream, playback }, Ok(playback.pending)),
        },
    }
}

/// The parser once the next command's header has been read, and what is pending then. A command that
/// is not to be played is passed over; in front of one that ends the run the stream goes back.
pub open spec fn cmd_sought<D: SeekableDemoStream, S, E>(parser: ParserModel<D::Model, S, E>) -> (
    ParserModel<D::Model, S, E>,
    Result<Action, ParserError>,
) {
    let playback = parser.playback;
    match D::header_read(parser.stream) {
        (Err(err), stream) => no_cmd::<D, S, E>(ParserModel { stream, playback }, err),
        (Ok(header), stream) => match playback.on_cmd_header(header) {
            (playback, Err(err)) => (ParserModel { stream, playback }, Err(err)),
            (playback, Ok(CmdFlow::Play)) => (
                ParserModel { stream, playback },
                Ok(playback.pending),
            ),
            (playback, Ok(CmdFlow::Skip)) => match D::body_skipped(stream, header) {
                (Ok(_), stream) => (ParserModel { stream, playback }, Ok(playback.pending)),
                (Err(err), stream) => (
                    ParserModel { stream, playback: playback.stopped() },
                    Err(ParserError::IoError(err)),
                ),
            },
            (playback, Ok(CmdFlow::Stop)) => match D::sought(
                stream,
                SeekFrom::Current((-header.size) as i64),
            ) {
                (Ok(_), stream) => (
                    ParserModel { stream, playback: playback.back_in_front() },
                    Ok(Action::Idle),
                ),
                (Err(err), stream) => (
                    ParserModel { stream, playback },
                    Err(ParserError::IoError(err)),
                ),
            },
        },
    }
}

/// The parser back at the first command.
pub open spec fn rewound<D: SeekableDemoStream, S, E>(parser: ParserModel<D::Model, S, E>) -> (
    ParserModel<D::Model, S, E>,
    Result<(), IoError>,
) {
    match D::sought(parser.stream, SeekFrom::Start(D::start(parser.stream))) {
        (Ok(_), stream) => (
            ParserModel {
                stream,
                playback: PlaybackModel {
                    ctx: parser.playback.ctx.rewound(),
                    ..parser.playback
                },
            },
            Ok(()),
        ),
        (Err(err), stream) => (ParserModel { stream, ..parser }, Err(err)),
    }
}

/// The parser at the beginning of `run`, which starts at the first command, and what is pending then.
pub open spec fn restarted<D: SeekableDemoStream, S, E>(
    parser: ParserModel<D::Model, S, E>,
    run: Run,
) -> (ParserModel<D::Model, S, E>, Result<Action, ParserError>) {
    match rewound::<D, S, E>(parser) {
        (parser, Ok(_)) => {
            let playback = parser.playback.started(run);
            (ParserModel { playback, ..parser }, Ok(playback.pending))
        },
        (parser, Err(err)) => (parser, Err(ParserError::IoError(err))),
    }
}

/// The headers of all commands of a stream.
pub struct Listing<M> {
    pub headers: Seq<CmdHeader>,
    /// Whether the listing goes to the end of the stream, or why not.
    pub result: Result<(), ParserError>,
    /// The stream after the last header.
    pub stream: M,
}

/// The headers of all commands that `stream` is yet to give, their bodies passed over.
pub open spec fn listing<D: SeekableDemoStream>(stream: D::Model) -> Listing<D::Model>
    decreases D::remaining(stream),
    via listing_ends::<D>
{
    match D::header_read(stream) {
        (Err(err), next) => match D::eof_checked(next) {
            (Ok(true), next) => Listing { headers: Seq::empty(), result: Ok(()), stream: next },
            (_, next) => Listing {
                headers: Seq::empty(),
                result: Err(ParserError::ReadCmdHeaderError(err)),
                stream: next,
            },
        },
        (Ok(header), next) => match D::body_skipped(next, header) {
            (Err(err), next) => Listing {
                headers: seq![header],
                result: Err(ParserError::IoError(err)),
                stream: next,
            },
            (Ok(_), next) => {
                let rest = listing::<D>(next);
                Listing { headers: seq![header] + rest.headers, ..rest }
            },
        },
    }
}

#[via_fn]
proof fn listing_ends<D: SeekableDemoStream>(stream: D::Model) {
    if let (Ok(header), next) = D::header_read(stream) {
        D::lemma_progress(stream, header);
        D::lemma_progress(next, header);
    }
}

/// The ticks of the full packets among `headers`.
pub open spec fn full_packet_ticks(headers: Seq<CmdHeader>) -> Seq<i32> {
    headers.filter(|header: CmdHeader| header.cmd == EDemoCommands::DemFullPacket).map_values(
        |header: CmdHeader| header.tick,
    )
}

proof fn lemma_full_packet_ticks_push(headers: Seq<CmdHeader>, header: CmdHeader)
    ensures
        full_packet_ticks(headers.push(header)) == if header.cmd == EDemoCommands::DemFullPacket {
            full_packet_ticks(headers).push(header.tick)
        } else {
            full_packet_ticks(headers)
        },
{
    reveal(Seq::filter);
    assert(headers.push(header).drop_last() =~= headers);
    assert(full_packet_ticks(headers.push(header)) =~= if header.cmd
        == EDemoCommands::DemFullPacket {
        full_packet_ticks(headers).push(header.tick)
    } else {
        full_packet_ticks(headers)
    });
}

/// The parser once it has listed the full packets, back at the first command, and their ticks.
pub open spec fn full_packets_scanned<D: SeekableDemoStream, S, E>(
    parser: ParserModel<D::Model, S, E>,
) -> (ParserModel<D::Model, S, E>, Result<Seq<i32>, ParserError>) {
    match rewound::<D, S, E>(parser) {
        (parser, Err(err)) => (parser, Err(ParserError::IoError(err))),
        (parser, Ok(_)) => {
            let listing = listing::<D>(parser.stream);
            let parser = ParserModel { stream: listing.stream, ..parser };
            match listing.result {
                Err(err) => (parser, Err(err)),
                Ok(_) => match rewound::<D, S, E>(parser) {
                    (parser, Err(err)) => (parser, Err(ParserError::IoError(err))),
                    (parser, Ok(_)) => (parser, Ok(full_packet_ticks(listing.headers))),
                },
            }
        },
    }
}

impl<D, V, S, E> Parser<D, V, S, E> {
    /// How far the demo has been played.
    pub closed spec fn played(self) -> PlaybackModel<S, E> {
        self.playback@
    }

    /// The stream.
    pub closed spec fn stream(self) -> D {
        self.demo_stream
    }

    /// The visitor.
    pub closed spec fn visitor(self) -> V {
        self.visitor
    }
}

impl<D: DemoStream, V, S, E> Parser<D, V, S, E> {
    /// The stream and how far the demo has been played.
    pub open spec fn view(self) -> ParserModel<D::Model, S, E> {
        ParserModel { stream: self.stream().model(), playback: self.played() }
    }

    /// A parser of the demo in `demo_stream`, none of which has been played.
    pub fn from_stream_with_visitor(demo_stream: D, visitor: V) -> (r: Result<
        Self,
        DemoHeaderError,
    >)
        ensures
            r is Ok,
            r->Ok_0.stream() == demo_stream,
            r->Ok_0.visitor() == visitor,
            r->Ok_0.played() == PlaybackModel::<S, E>::initial(),
    {
        Ok(Parser { demo_stream, visitor, playback: Playback::new() })
    }

    /// Starts to play all that is to come.
    pub fn run_to_end(&mut self) -> (r: Action)
        ensures
            r == Action::NextCmd,
            final(self).stream() == old(self).stream(),
            final(self).visitor() == old(self).visitor(),
            final(self).played() == old(self).played().started(
                Run::ToEnd { reset_on_full_packet: false },
            ),
    {
        self.playback.start_to_end(false)
    }

    pub fn demo_stream(&self) -> (r: &D)
        ensures
            *r == self.stream(),
    {
        &self.demo_stream
    }

    pub fn demo_stream_mut(&mut self) -> (r: &mut D)
        ensures
            *r == old(self).stream(),
            final(self).stream() == *final(r),
            final(self).visitor() == old(self).visitor(),
            final(self).played() == old(self).played(),
    {
        &mut self.demo_stream
    }

    /// What is known of the game.
    pub fn context(&self) -> (r: &Context<S, E>)
        ensures
            r@ == self.played().ctx,
    {
        self.playback.context()
    }

    pub fn into_visitor(self) -> (r: V)
        ensures
            r == self.visitor(),
    {
        self.visitor
    }

    pub fn visitor_mut(&mut self) -> (r: &mut V)
        ensures
            *r == old(self).visitor(),
            final(self).visitor() == *final(r),
            final(self).stream() == old(self).stream(),
            final(self).played() == old(self).played(),
    {
        &mut self.visitor
    }

    /// How far the demo has been played.
    pub fn playback(&self) -> (r: &Playback<S, E>)
        ensures
            r@ == self.played(),
    {
        &self.playback
    }

    pub fn playback_mut(&mut self) -> (r: &mut Playback<S, E>)
        ensures
            r@ == old(self).played(),
            final(self).played() == final(r)@,
            final(self).stream() == old(self).stream(),
            final(self).visitor() == old(self).visitor(),
    {
        &mut self.playback
    }

    /// The visitor together with what it is shown.
    pub fn visitor_and_playback(&mut self) -> (r: (&mut V, &Playback<S, E>))
        ensures
            *r.0 == old(self).visitor(),
            r.1@ == old(self).played(),
            final(self).visitor() == *final(r.0),
            final(self).stream() == old(self).stream(),
            final(self).played() == old(self).played(),
    {
        (&mut self.visitor, &self.playback)
    }

    fn no_cmd(&mut self, err: ReadCmdHeaderError) -> (r: Result<Action, ParserError>)
        ensures
            (final(self)@, r) == no_cmd::<D, S, E>(old(self)@, err),
            final(self).visitor() == old(self).visitor(),
    {
        let at_eof: bool = match self.demo_stream.is_at_eof() {
            Ok(at_eof) => at_eof,
            Err(_) => false,
        };
        self.playback.no_cmd_header(err, at_eof)
    }

    /// Reads the header of the next command, which is pending, in a run that plays every command.
    /// Other runs need [`Parser::next_cmd_seekable`].
    pub fn next_cmd(&mut self) -> (r: Result<Action, ParserError>)
        ensures
            final(self).visitor() == old(self).visitor(),
            if old(self).played().run is Some && old(self).played().run->Some_0 is ToEnd {
                (final(self)@, r) == cmd_begun::<D, S, E>(old(self)@)
            } else {
                &&& (final(self).played(), r) == old(self).played().fail(
                    ParserError::UnexpectedEvent,
                )
                &&& final(self).stream() == old(self).stream()
            },
    {
        if !self.playback.plays_everything() {
            return self.playback.fail(ParserError::UnexpectedEvent);
        }
        match self.demo_stream.read_cmd_header() {
            Err(err) => self.no_cmd(err),
            Ok(header) => match self.playback.on_cmd_header(&header) {
                Ok(_) => Ok(self.playback.pending()),
                Err(err) => Err(err),
            },
        }
    }

    /// Reads the body of the command that is to be shown to the visitor.
    pub fn read_cmd(&mut self) -> (r: Result<Vec<u8>, ParserError>)
        ensures
            final(self).visitor() == old(self).visitor(),
            match old(self).played().pending {
                Action::OnCmd { header } => match D::body_read(old(self)@.stream, header) {
                    (Ok(body), stream) => {
                        &&& r is Ok
                        &&& r->Ok_0@ == body
                        &&& final(self)@ == (ParserModel { stream, ..old(self)@ })
                    },
                    (Err(err), stream) => {
                        &&& r == Err::<Vec<u8>, ParserError>(ParserError::ReadCmdError(err))
                        &&& final(self)@ == (ParserModel {
                            stream,
                            playback: old(self).played().stopped(),
                        })
                    },
                },
                _ => {
                    &&& r == Err::<Vec<u8>, ParserError>(ParserError::UnexpectedEvent)
                    &&& final(self).stream() == old(self).stream()
                    &&& final(self).played() == old(self).played().stopped()
                },
            },
    {
        match self.playback.pending() {
            Action::OnCmd { header } => match self.demo_stream.read_cmd(&header) {
                Ok(body) => Ok(body),
                Err(err) => {
                    self.playback.stop();
                    Err(ParserError::ReadCmdError(err))
                },
            },
            _ => {
                self.playback.stop();
                Err(ParserError::UnexpectedEvent)
            },
        }
    }

    /// Goes on after `event`, which reports what came of the pending action.
    pub fn step(&mut self, event: Event<S, E>) -> (r: Result<Action, ParserError>)
        ensures
            (final(self).played(), r) == old(self).played().step(event),
            final(self).stream() == old(self).stream(),
            final(self).visitor() == old(self).visitor(),
    {
        self.playback.step(event)
    }
}

impl<D: SeekableDemoStream, V, S, E> Parser<D, V, S, E> {
    /// Reads the header of the next command, which is pending. A command that is not to be played is
    /// passed over; in front of one that ends the run the stream goes back.
    pub fn next_cmd_seekable(&mut self) -> (r: Result<Action, ParserError>)
        ensures
            (final(self)@, r) == cmd_sought::<D, S, E>(old(self)@),
            final(self).visitor() == old(self).visitor(),
    {
        let header: CmdHeader = match self.demo_stream.read_cmd_header() {
            Ok(header) => header,
            Err(err) => {
                return self.no_cmd(err);
            },
        };
        match self.playback.on_cmd_header(&header) {
            Err(err) => Err(err),
            Ok(CmdFlow::Play) => Ok(self.playback.pending()),
            Ok(CmdFlow::Skip) => match self.demo_stream.skip_cmd(&header) {
                Ok(_) => Ok(self.playback.pending()),
                Err(err) => self.playback.fail(ParserError::IoError(err)),
            },
            Ok(CmdFlow::Stop) => match self.demo_stream.unread_cmd_header(&header) {
                Ok(_) => {
                    self.playback.go_back_in_front();
                    Ok(Action::Idle)
                },
                Err(err) => Err(ParserError::IoError(err)),
            },
        }
    }

    /// Goes back to the first command, and forgets what changes in the course of the demo.
    fn reset(&mut self) -> (r: Result<(), IoError>)
        ensures
            (final(self)@, r) == rewound::<D, S, E>(old(self)@),
            final(self).visitor() == old(self).visitor(),
    {
        let start: u64 = self.demo_stream.start_position();
        match self.demo_stream.seek(SeekFrom::Start(start)) {
            Ok(_) => {
                self.playback.rewind();
                Ok(())
            },
            Err(err) => Err(err),
        }
    }

    /// Starts over, to play up to `target_tick`.
    pub fn run_to_tick(&mut self, target_tick: i32) -> (r: Result<Action, ParserError>)
        ensures
            (final(self)@, r) == restarted::<D, S, E>(
                old(self)@,
                Run::ToTick {
                    target_tick,
                    did_handle_first_sync_tick: false,
                    did_handle_last_full_packet: false,
                },
            ),
            final(self).visitor() == old(self).visitor(),
    {
        match self.reset() {
            Ok(_) => Ok(self.playback.start_to_tick(target_tick)),
            Err(err) => Err(ParserError::IoError(err)),
        }
    }

    /// Lists the ticks of all full packets, in the order in which they come. Bodies are passed over.
    /// Afterwards the stream is back at the first command.
    pub fn scan_full_packet_ticks(&mut self) -> (r: Result<Vec<i32>, ParserError>)
        ensures
            match full_packets_scanned::<D, S, E>(old(self)@) {
                (parser, Ok(ticks)) => r is Ok && r->Ok_0@ == ticks && final(self)@ == parser,
                (parser, Err(err)) => {
                    &&& r == Err::<Vec<i32>, ParserError>(err)
                    &&& final(self)@ == parser
                },
            },
            final(self).visitor() == old(self).visitor(),
    {
        if let Err(err) = self.reset() {
            return Err(ParserError::IoError(err));
        }
        let ghost begin = self@;
        let ghost whole = listing::<D>(begin.stream);
        let ghost mut seen = Seq::<CmdHeader>::empty();
        let mut ticks: Vec<i32> = Vec::new();
        proof {
            reveal(Seq::filter);
            assert(full_packet_ticks(seen) =~= ticks@);
            assert(seen + whole.headers =~= whole.headers);
        }
        loop
            invariant_except_break
                ticks@ == full_packet_ticks(seen),
                seen + listing::<D>(self@.stream).headers == whole.headers,
                listing::<D>(self@.stream).result == whole.result,
                listing::<D>(self@.stream).stream == whole.stream,
            invariant
                rewound::<D, S, E>(old(self)@) == (begin, Ok::<(), IoError>(())),
                self.visitor() == old(self).visitor(),
                self.played() == begin.playback,
                whole == listing::<D>(begin.stream),
            ensures
                ticks@ == full_packet_ticks(whole.headers),
                whole.result is Ok,
                self@.stream == whole.stream,
            decreases D::remaining(self@.stream),
        {
            let ghost before = self@.stream;
            match self.demo_stream.read_cmd_header() {
                Ok(header) => {
                    proof {
                        D::lemma_progress(before, header);
                        D::lemma_progress(self@.stream, header);
                        lemma_full_packet_ticks_push(seen, header);
                    }
                    if header.cmd == EDemoCommands::DemFullPacket {
                        ticks.push(header.tick);
                    }
                    if let Err(err) = self.demo_stream.skip_cmd(&header) {
                        return Err(ParserError::IoError(err));
                    }
                    proof {
                        let rest = listing::<D>(self@.stream).headers;
                        assert(seen + (seq![header] + rest) =~= seen.push(header) + rest);
                        seen = seen.push(header);
                    }
                },
                Err(err) => {
                    let at_eof: bool = match self.demo_stream.is_at_eof() {
                        Ok(at_eof) => at_eof,
                        Err(_) => false,
                    };
                    if !at_eof {
                        return Err(ParserError::ReadCmdHeaderError(err));
                    }
                    assert(seen + Seq::<CmdHeader>::empty() =~= seen);
                    break;
                },
            }
        }
        match self.reset() {
            Ok(_) => Ok(ticks),
            Err(err) => Err(ParserError::IoError(err)),
        }
    }

    /// Starts over, to play the full packet number `ordinal` and what follows it up to the next one.
    /// `ordinal` is a place in what [`Parser::scan_full_packet_ticks`] returns.
    ///
    /// Number zero comes with all that precedes it. For a later one only the initialization is played
    /// before it, without entities, and nothing of that is to be recorded.
    pub fn run_full_packet(&mut self, ordinal: usize) -> (r: Result<Action, ParserError>)
        ensures
            (final(self)@, r) == restarted::<D, S, E>(
                old(self)@,
                Run::full_packet_run(ordinal as nat),
            ),
            final(self).visitor() == old(self).visitor(),
    {
        match self.reset() {
            Ok(_) => Ok(self.playback.start_full_packet(ordinal)),
            Err(err) => Err(ParserError::IoError(err)),
        }
    }
}

pub(crate) proof fn lemma_full_packet_ticks_first(headers: Seq<CmdHeader>)
    requires
        headers.len() > 0,
    ensures
        full_packet_ticks(headers) == if headers[0].cmd == EDemoCommands::DemFullPacket {
            seq![headers[0].tick] + full_packet_ticks(headers.skip(1))
        } else {
            full_packet_ticks(headers.skip(1))
        },
{
    reveal_with_fuel(Seq::filter, 2);
    let is_full_packet = |header: CmdHeader| header.cmd == EDemoCommands::DemFullPacket;
    let first = seq![headers[0]];
    assert(headers =~= first + headers.skip(1));
    Seq::filter_distributes_over_add(first, headers.skip(1), is_full_packet);
    assert(first.drop_last() =~= Seq::empty());
    assert(full_packet_ticks(headers) =~= if headers[0].cmd == EDemoCommands::DemFullPacket {
        seq![headers[0].tick] + full_packet_ticks(headers.skip(1))
    } else {
        full_packet_ticks(headers.skip(1))
    });
}

/// The scan lists each full packet once.
pub proof fn lemma_scan_is_complete(headers: Seq<CmdHeader>)
    ensures
        full_packet_ticks(headers).len() == crate::run::full_packets(headers),
    decreases headers.len(),
{
    if headers.len() == 0 {
        reveal(Seq::filter);
    } else {
        lemma_full_packet_ticks_first(headers);
        lemma_scan_is_complete(headers.skip(1));
    }
}

proof fn lemma_segment_after(to_pass: usize, interval: i32, tick: i32, cmds: Seq<Cmd>)
    ensures
        ({
            let run = Run::FullPacket { to_pass, met: false, collecting: false };
            let recorded = crate::run::recorded(run, interval, tick, cmds);
            let ticks = full_packet_ticks(crate::run::headers_of(cmds));
            if to_pass < ticks.len() {
                &&& recorded.len() > 0
                &&& recorded[0].header.cmd == EDemoCommands::DemFullPacket
                &&& recorded[0].header.tick == ticks[to_pass as int]
            } else {
                recorded.len() == 0
            }
        }),
    decreases cmds.len(),
{
    let headers = crate::run::headers_of(cmds);
    if cmds.len() == 0 {
        reveal(Seq::filter);
    } else {
        let rest = cmds.skip(1);
        lemma_full_packet_ticks_first(headers);
        assert(headers.skip(1) =~= crate::run::headers_of(rest));
        if headers[0].cmd != EDemoCommands::DemFullPacket {
            lemma_segment_after(to_pass, interval, headers[0].tick, rest);
        } else if to_pass > 0 {
            lemma_segment_after((to_pass - 1) as usize, interval, headers[0].tick, rest);
        }
    }
}

/// The scan's list is what segments are numbered by: the segment of a full packet that is not the
/// first begins with that full packet, at the tick that the scan gives for it. Where the scan gives
/// none, nothing is recorded.
pub proof fn lemma_scan_numbers_segments(
    ordinal: usize,
    interval: i32,
    tick: i32,
    cmds: Seq<Cmd>,
)
    requires
        ordinal > 0,
    ensures
        ({
            let run = Run::full_packet_run(ordinal as nat);
            let recorded = crate::run::recorded(run, interval, tick, cmds);
            let ticks = full_packet_ticks(crate::run::headers_of(cmds));
            if ordinal < ticks.len() {
                &&& recorded.len() > 0
                &&& recorded[0].header.cmd == EDemoCommands::DemFullPacket
                &&& recorded[0].header.tick == ticks[ordinal as int]
            } else {
                recorded.len() == 0
            }
        }),
{
    lemma_segment_after(ordinal, interval, tick, cmds);
}

/// Whether a command's body is read or passed over, what follows is the rest of the listing, so a run
/// comes across the very commands that the scan does.
pub proof fn lemma_runs_follow_listing(tape: DemoTape)
    requires
        0 <= tape.pos <= u64::MAX,
        tape.data.len() <= u64::MAX,
        tape.read_header().0 is Ok,
    ensures
        ({
            let (header, body) = (tape.read_header().0->Ok_0, tape.read_header().1);
            let headers = listing::<DemoFile>(tape).headers;
            &&& headers.len() > 0
            &&& headers[0] == header
            &&& body.read_body(header).0 is Ok ==> headers.skip(1) == listing::<DemoFile>(
                body.read_body(header).1,
            ).headers
            &&& body.skip_body(header).0 is Ok ==> headers.skip(1) == listing::<DemoFile>(
                body.skip_body(header).1,
            ).headers
        }),
{
    let (header, body) = (tape.read_header().0->Ok_0, tape.read_header().1);
    crate::demofile::lemma_header_extent(tape.data, tape.pos);
    if body.read_body(header).0 is Ok {
        crate::demofile::lemma_read_and_skip_agree(body, header);
    }
    if body.skip_body(header).0 is Ok {
        let rest = listing::<DemoFile>(body.skip_body(header).1).headers;
        assert((seq![header] + rest).skip(1) =~= rest);
    }
}

/// Where a run ends in front of a command, the stream and the tick are left as they were, so that
/// another run can go on with that command.
pub proof fn lemma_stop_leaves_stream<D: SeekableDemoStream, S, E>(
    parser: ParserModel<D::Model, S, E>,
    header: CmdHeader,
)
    requires
        D::sound(parser.stream),
        D::header_read(parser.stream).0 == Ok::<CmdHeader, ReadCmdHeaderError>(header),
        parser.playback.on_cmd_header(header).1 == Ok::<CmdFlow, ParserError>(CmdFlow::Stop),
    ensures
        ({
            let (after, result) = cmd_sought::<D, S, E>(parser);
            &&& result == Ok::<Action, ParserError>(Action::Idle)
            &&& after.stream == parser.stream
            &&& after.playback.ctx.tick == parser.playback.ctx.tick
            &&& after.playback.run is None
        }),
{
    D::lemma_unread(parser.stream);
}

/// A run to the end neither passes over commands nor goes back, so that a stream that goes forward only
/// is enough for it: [`Parser::next_cmd`] and [`Parser::next_cmd_seekable`] do the same.
pub proof fn lemma_run_to_end_goes_forward<D: SeekableDemoStream, S, E>(
    parser: ParserModel<D::Model, S, E>,
)
    requires
        parser.playback.run is Some,
        parser.playback.run->Some_0 is ToEnd,
    ensures
        cmd_begun::<D, S, E>(parser) == cmd_sought::<D, S, E>(parser),
{
}

/// A run that starts over does not depend on what was played before: it begins in the same way for any
/// two parsers whose streams go back to the same place and that know the same of what never changes in
/// a demo.
pub proof fn lemma_restart_forgets<D: SeekableDemoStream, S, E>(
    one: ParserModel<D::Model, S, E>,
    other: ParserModel<D::Model, S, E>,
    run: Run,
)
    requires
        D::sought(one.stream, SeekFrom::Start(D::start(one.stream))) == D::sought(
            other.stream,
            SeekFrom::Start(D::start(other.stream)),
        ),
        one.playback.ctx.serializers == other.playback.ctx.serializers,
        one.playback.ctx.entity_classes == other.playback.ctx.entity_classes,
        one.playback.ctx.tick_interval == other.playback.ctx.tick_interval,
        one.playback.ctx.full_packet_interval == other.playback.ctx.full_packet_interval,
    ensures
        restarted::<D, S, E>(one, run).1 == restarted::<D, S, E>(other, run).1,
        restarted::<D, S, E>(one, run).1 is Ok ==> restarted::<D, S, E>(one, run) == restarted::<
            D,
            S,
            E,
        >(other, run),
{
}

/// A scan leaves the parser at the first command with nothing played, and the next scan finds the
/// same.
pub proof fn lemma_scan_is_repeatable<D: SeekableDemoStream, S, E>(
    parser: ParserModel<D::Model, S, E>,
)
    requires
        full_packets_scanned::<D, S, E>(parser).1 is Ok,
    ensures
        ({
            let (after, ticks) = full_packets_scanned::<D, S, E>(parser);
            &&& after == rewound::<D, S, E>(parser).0
            &&& after.playback.ctx.tick == -1
            &&& full_packets_scanned::<D, S, E>(after) == (after, ticks)
        }),
{
    let start = D::start(parser.stream);
    let begin = rewound::<D, S, E>(parser).0;
    let any = CmdHeader {
        cmd: EDemoCommands::DemStop,
        body_compressed: false,
        tick: 0,
        body_size: 0,
        size: 0,
    };
    D::lemma_start_stays(parser.stream, any, SeekFrom::Start(start), start);
    lemma_listing_keeps_start::<D>(begin.stream, start);
    let end = listing::<D>(begin.stream).stream;
    D::lemma_start_stays(end, any, SeekFrom::Start(start), start);
}

proof fn lemma_listing_keeps_start<D: SeekableDemoStream>(stream: D::Model, n: u64)
    ensures
        ({
            let end = listing::<D>(stream).stream;
            &&& D::start(end) == D::start(stream)
            &&& D::sought(end, SeekFrom::Start(n)) == D::sought(stream, SeekFrom::Start(n))
        }),
    decreases D::remaining(stream),
{
    let any = CmdHeader {
        cmd: EDemoCommands::DemStop,
        body_compressed: false,
        tick: 0,
        body_size: 0,
        size: 0,
    };
    let next = D::header_read(stream).1;
    D::lemma_start_stays(stream, any, SeekFrom::Start(n), n);
    D::lemma_start_stays(next, any, SeekFrom::Start(n), n);
    if let (Ok(header), next) = D::header_read(stream) {
        D::lemma_start_stays(next, header, SeekFrom::Start(n), n);
        D::lemma_progress(stream, header);
        D::lemma_progress(next, header);
        if D::body_skipped(next, header).0 is Ok {
            lemma_listing_keeps_start::<D>(D::body_skipped(next, header).1, n);
        }
    }
}

/// Where there is no way back to the first command, nothing is started, and the error is told. Otherwise the
/// run starts there.
pub proof fn lemma_restart_goes_to_start<D: SeekableDemoStream, S, E>(
    parser: ParserModel<D::Model, S, E>,
    run: Run,
)
    ensures
        ({
            let (sought, stream) = D::sought(
                parser.stream,
                SeekFrom::Start(D::start(parser.stream)),
            );
            let (after, result) = restarted::<D, S, E>(parser, run);
            &&& after.stream == stream
            &&& match sought {
                Ok(_) => {
                    &&& result == Ok::<Action, ParserError>(after.playback.pending)
                    &&& after.playback.run == Some(run)
                    &&& after.playback.ctx == parser.playback.ctx.rewound()
                },
                Err(err) => {
                    &&& result == Err::<Action, ParserError>(ParserError::IoError(err))
                    &&& after.playback == parser.playback
                },
            }
        }),
{
}

/// The next command: where there is no header the run is over, which is an error unless the stream is at
/// its end; a command that is not played is passed over, and in front of one that ends the run the stream
/// goes back. Where either fails, the run is over with that error.
pub proof fn lemma_next_cmd<D: SeekableDemoStream, S, E>(parser: ParserModel<D::Model, S, E>)
    requires
        parser.playback.pending == Action::NextCmd,
        parser.playback.run is Some,
    ensures
        ({
            let (after, result) = cmd_sought::<D, S, E>(parser);
            match D::header_read(parser.stream) {
                (Err(err), stream) => {
                    let (at_eof, stream) = D::eof_checked(stream);
                    &&& after.stream == stream
                    &&& after.playback.run is None
                    &&& after.playback.ctx == parser.playback.ctx
                    &&& result == if at_eof is Ok && at_eof->Ok_0 {
                        Ok::<Action, ParserError>(Action::Idle)
                    } else {
                        Err::<Action, ParserError>(ParserError::ReadCmdHeaderError(err))
                    }
                },
                (Ok(header), stream) => {
                    let (next, flow) = parser.playback.on_cmd_header(header);
                    let (skipped, behind) = D::body_skipped(stream, header);
                    let (unread, in_front) = D::sought(
                        stream,
                        SeekFrom::Current((-header.size) as i64),
                    );
                    &&& flow is Ok
                    &&& flow->Ok_0 == CmdFlow::Play ==> {
                        &&& after.stream == stream
                        &&& after.playback == next
                        &&& result == Ok::<Action, ParserError>(next.pending)
                    }
                    &&& flow->Ok_0 == CmdFlow::Skip ==> {
                        &&& after.stream == behind
                        &&& skipped is Ok ==> after.playback == next && result == Ok::<
                            Action,
                            ParserError,
                        >(Action::NextCmd)
                        &&& skipped is Err ==> after.playback.run is None && result == Err::<
                            Action,
                            ParserError,
                        >(ParserError::IoError(skipped->Err_0))
                    }
                    &&& flow->Ok_0 == CmdFlow::Stop ==> {
                        &&& after.stream == in_front
                        &&& after.playback.run is None
                        &&& unread is Ok ==> {
                            &&& result == Ok::<Action, ParserError>(Action::Idle)
                            &&& after.playback.ctx.tick == parser.playback.ctx.tick
                        }
                        &&& unread is Err ==> {
                            &&& result == Err::<Action, ParserError>(
                                ParserError::IoError(unread->Err_0),
                            )
                            &&& after.playback.ctx.tick == header.tick
                        }
                    }
                },
            }
        }),
{
}

} // verus!
