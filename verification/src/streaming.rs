//! Playing a demo from a stream that has to be waited for. Whoever drives the parser waits for the
//! stream, and hands over what came.

use crate::context::Context;
use crate::demofile::DemoHeaderError;
use crate::demostream::{CmdHeader, EDemoCommands, IoError, ReadCmdHeaderError};
use crate::playback::{Action, Event, ParserError, Playback, PlaybackModel};
use crate::run::Run;
use vstd::prelude::*;

verus! {

/// A stream, a visitor and how far the demo has been played.
#[derive(Debug)]
pub struct AsyncStreamingParser<D, V, S, E> {
    demo_stream: D,
    visitor: V,
    playback: Playback<S, E>,
}

/// The playback once the next command's header has come, or the error in its place, and what is
/// pending then. Where the stream ends, so does the run.
pub open spec fn header_received<S, E>(
    playback: PlaybackModel<S, E>,
    received: Result<CmdHeader, ReadCmdHeaderError>,
) -> (PlaybackModel<S, E>, Result<Action, ParserError>) {
    if !(playback.run is Some && playback.run->Some_0 is ToEnd) {
        playback.fail(ParserError::UnexpectedEvent)
    } else {
        match received {
            Err(err) => playback.no_cmd_header(
                err,
                err == ReadCmdHeaderError::IoError(IoError::UnexpectedEof),
            ),
            Ok(header) => match playback.on_cmd_header(header) {
                (playback, Err(err)) => (playback, Err(err)),
                (playback, Ok(_)) => (playback, Ok(playback.pending)),
            },
        }
    }
}

impl<D, V, S, E> AsyncStreamingParser<D, V, S, E> {
    /// How far the demo has been played.
    pub closed spec fn played(self) -> PlaybackModel<S, E> {
        self.playback@
    }

    /// The stream.
    pub closed spec fn stream(self) -> D {
        self.demo_stream
    }

    /// The visitor.
    pub closed spec fn visitor(self) -> V {
        self.visitor
    }

    /// A parser of the demo in `demo_stream`, none of which has been played.
    pub fn from_stream_with_visitor(demo_stream: D, visitor: V) -> (r: Result<
        Self,
        DemoHeaderError,
    >)
        ensures
            r is Ok,
            r->Ok_0.stream() == demo_stream,
            r->Ok_0.visitor() == visitor,
            r->Ok_0.played() == PlaybackModel::<S, E>::initial(),
    {
        Ok(AsyncStreamingParser { demo_stream, visitor, playback: Playback::new() })
    }

    pub fn into_visitor(self) -> (r: V)
        ensures
            r == self.visitor(),
    {
        self.visitor
    }

    pub fn visitor_mut(&mut self) -> (r: &mut V)
        ensures
            *r == old(self).visitor(),
            final(self).visitor() == *final(r),
            final(self).stream() == old(self).stream(),
            final(self).played() == old(self).played(),
    {
        &mut self.visitor
    }

    /// Starts to play all that is to come.
    pub fn run_to_end(&mut self) -> (r: Action)
        ensures
            r == Action::NextCmd,
            final(self).stream() == old(self).stream(),
            final(self).visitor() == old(self).visitor(),
            final(self).played() == old(self).played().started(
                Run::ToEnd { reset_on_full_packet: false },
            ),
    {
        self.playback.start_to_end(false)
    }

    /// Starts to play all that is to come, with the entities forgotten at each full packet, so that
    /// only those remain at the end that still exist.
    pub fn run_to_end_final_state(&mut self) -> (r: Action)
        ensures
            r == Action::NextCmd,
            final(self).stream() == old(self).stream(),
            final(self).visitor() == old(self).visitor(),
            final(self).played() == old(self).played().started(
                Run::ToEnd { reset_on_full_packet: true },
            ),
    {
        self.playback.start_to_end(true)
    }

    /// Takes the header of the next command, which is pending, or the error in its place.
    pub fn receive_cmd_header(&mut self, received: Result<CmdHeader, ReadCmdHeaderError>) -> (r:
        Result<Action, ParserError>)
        ensures
            (final(self).played(), r) == header_received(old(self).played(), received),
            final(self).stream() == old(self).stream(),
            final(self).visitor() == old(self).visitor(),
    {
        if !self.playback.plays_everything() {
            return self.playback.fail(ParserError::UnexpectedEvent);
        }
        match received {
            Err(err) => {
                let at_eof: bool = err == ReadCmdHeaderError::IoError(IoError::UnexpectedEof);
                self.playback.no_cmd_header(err, at_eof)
            },
            Ok(header) => match self.playback.on_cmd_header(&header) {
                Ok(_) => Ok(self.playback.pending()),
                Err(err) => Err(err),
            },
        }
    }

    /// Goes on after `event`, which reports what came of the pending action.
    pub fn step(&mut self, event: Event<S, E>) -> (r: Result<Action, ParserError>)
        ensures
            (final(self).played(), r) == old(self).played().step(event),
            final(self).stream() == old(self).stream(),
            final(self).visitor() == old(self).visitor(),
    {
        self.playback.step(event)
    }

    pub fn demo_stream(&self) -> (r: &D)
        ensures
            *r == self.stream(),
    {
        &self.demo_stream
    }

    pub fn demo_stream_mut(&mut self) -> (r: &mut D)
        ensures
            *r == old(self).stream(),
            final(self).stream() == *final(r),
            final(self).visitor() == old(self).visitor(),
            final(self).played() == old(self).played(),
    {
        &mut self.demo_stream
    }

    /// What is known of the game.
    pub fn context(&self) -> (r: &Context<S, E>)
        ensures
            r@ == self.played().ctx,
    {
        self.playback.context()
    }

    /// How far the demo has been played.
    pub fn playback(&self) -> (r: &Playback<S, E>)
        ensures
            r@ == self.played(),
    {
        &self.playback
    }

    pub fn playback_mut(&mut self) -> (r: &mut Playback<S, E>)
        ensures
            r@ == old(self).played(),
            final(self).played() == final(r)@,
            final(self).stream() == old(self).stream(),
            final(self).visitor() == old(self).visitor(),
    {
        &mut self.playback
    }

    /// The visitor together with what it is shown.
    pub fn visitor_and_playback(&mut self) -> (r: (&mut V, &Playback<S, E>))
        ensures
            *r.0 == old(self).visitor(),
            r.1@ == old(self).played(),
            final(self).visitor() == *final(r.0),
            final(self).stream() == old(self).stream(),
            final(self).played() == old(self).played(),
    {
        (&mut self.visitor, &self.playback)
    }
}

/// Where the stream ends instead of giving another header, the run is over with success. Any other error
/// ends it as what it is, also one in the middle of a header. What is known of the game stays.
pub proof fn lemma_stream_end_is_success<S, E>(
    playback: PlaybackModel<S, E>,
    reset_on_full_packet: bool,
    err: ReadCmdHeaderError,
)
    requires
        playback.pending == Action::NextCmd,
        playback.run == Some(Run::ToEnd { reset_on_full_packet }),
    ensures
        ({
            let (after, result) = header_received(playback, Err(err));
            &&& result == match err {
                ReadCmdHeaderError::IoError(IoError::UnexpectedEof) => Ok::<Action, ParserError>(
                    Action::Idle,
                ),
                _ => Err::<Action, ParserError>(ParserError::ReadCmdHeaderError(err)),
            }
            &&& after.run is None
            &&& after.pending == Action::Idle
            &&& after.ctx == playback.ctx
        }),
{
}

/// Every command that comes is shown, and brings its tick. Entities are forgotten at each full packet
/// where only those are wanted that exist at the end, and never otherwise.
pub proof fn lemma_received_cmd_is_shown<S, E>(
    playback: PlaybackModel<S, E>,
    reset_on_full_packet: bool,
    header: CmdHeader,
)
    requires
        playback.pending == Action::NextCmd,
        playback.run == Some(Run::ToEnd { reset_on_full_packet }),
    ensures
        ({
            let (after, result) = header_received(playback, Ok(header));
            &&& result == Ok::<Action, ParserError>(Action::OnCmd { header })
            &&& after.pending == Action::OnCmd { header }
            &&& after.run == playback.run
            &&& after.ctx.tick == header.tick
            &&& after.ctx.prev_tick == playback.ctx.tick
            &&& after.ctx.string_tables == playback.ctx.string_tables
            &&& after.ctx.instance_baseline == playback.ctx.instance_baseline
            &&& after.ctx.serializers == playback.ctx.serializers
            &&& after.ctx.entity_classes == playback.ctx.entity_classes
            &&& after.ctx.entities == if reset_on_full_packet && header.cmd
                == EDemoCommands::DemFullPacket {
                None
            } else {
                playback.ctx.entities
            }
        }),
{
}

} // verus!
