//! Commands, the units that a demo is made of, and how a command's header is laid out.

use crate::demofile::FileInfoError;
use crate::varint::VarintError;
use vstd::prelude::*;

verus! {

/// Set in a command's number where the command's body is compressed.
pub const DEM_IS_COMPRESSED: u32 = 64;

/// The kinds of commands.
#[derive(Debug, Clone, Copy, PartialEq, Eq, Structural)]
pub enum EDemoCommands {
    DemError,
    DemStop,
    DemFileHeader,
    DemFileInfo,
    DemSyncTick,
    DemSendTables,
    DemClassInfo,
    DemStringTables,
    DemPacket,
    DemSignonPacket,
    DemConsoleCmd,
    DemCustomData,
    DemCustomDataCallbacks,
    DemUserCmd,
    DemFullPacket,
    DemSaveGame,
    DemSpawnGroups,
    DemAnimationData,
    DemAnimationHeader,
    DemRecovery,
    DemMax,
    DemIsCompressed,
}

impl EDemoCommands {
    /// The number that stands for the command in a file.
    pub open spec fn number(self) -> int {
        match self {
            EDemoCommands::DemError => -1,
            EDemoCommands::DemStop => 0,
            EDemoCommands::DemFileHeader => 1,
            EDemoCommands::DemFileInfo => 2,
            EDemoCommands::DemSyncTick => 3,
            EDemoCommands::DemSendTables => 4,
            EDemoCommands::DemClassInfo => 5,
            EDemoCommands::DemStringTables => 6,
            EDemoCommands::DemPacket => 7,
            EDemoCommands::DemSignonPacket => 8,
            EDemoCommands::DemConsoleCmd => 9,
            EDemoCommands::DemCustomData => 10,
            EDemoCommands::DemCustomDataCallbacks => 11,
            EDemoCommands::DemUserCmd => 12,
            EDemoCommands::DemFullPacket => 13,
            EDemoCommands::DemSaveGame => 14,
            EDemoCommands::DemSpawnGroups => 15,
            EDemoCommands::DemAnimationData => 16,
            EDemoCommands::DemAnimationHeader => 17,
            EDemoCommands::DemRecovery => 18,
            EDemoCommands::DemMax => 19,
            EDemoCommands::DemIsCompressed => 64,
        }
    }

    /// The command that has the number `n`, if one has.
    pub open spec fn with_number(n: int) -> Option<EDemoCommands> {
        if n == -1 {
            Some(EDemoCommands::DemError)
        } else if n == 0 {
            Some(EDemoCommands::DemStop)
        } else if n == 1 {
            Some(EDemoCommands::DemFileHeader)
        } else if n == 2 {
            Some(EDemoCommands::DemFileInfo)
        } else if n == 3 {
            Some(EDemoCommands::DemSyncTick)
        } else if n == 4 {
            Some(EDemoCommands::DemSendTables)
        } else if n == 5 {
            Some(EDemoCommands::DemClassInfo)
        } else if n == 6 {
            Some(EDemoCommands::DemStringTables)
        } else if n == 7 {
            Some(EDemoCommands::DemPacket)
        } else if n == 8 {
            Some(EDemoCommands::DemSignonPacket)
        } else if n == 9 {
            Some(EDemoCommands::DemConsoleCmd)
        } else if n == 10 {
            Some(EDemoCommands::DemCustomData)
        } else if n == 11 {
            Some(EDemoCommands::DemCustomDataCallbacks)
        } else if n == 12 {
            Some(EDemoCommands::DemUserCmd)
        } else if n == 13 {
            Some(EDemoCommands::DemFullPacket)
        } else if n == 14 {
            Some(EDemoCommands::DemSaveGame)
        } else if n == 15 {
            Some(EDemoCommands::DemSpawnGroups)
        } else if n == 16 {
            Some(EDemoCommands::DemAnimationData)
        } else if n == 17 {
            Some(EDemoCommands::DemAnimationHeader)
        } else if n == 18 {
            Some(EDemoCommands::DemRecovery)
        } else if n == 19 {
            Some(EDemoCommands::DemMax)
        } else if n == 64 {
            Some(EDemoCommands::DemIsCompressed)
        } else {
            None
        }
    }

    /// A number stands for a command exactly if it is the command's number; so no two commands
    /// share one.
    pub proof fn lemma_number(cmd: EDemoCommands, n: int)
        ensures
            Self::with_number(n) == Some(cmd) <==> cmd.number() == n,
    {
    }

    /// The command that `value` stands for.
    pub fn from_number(value: i32) -> (r: Option<EDemoCommands>)
        ensures
            r == Self::with_number(value as int),
    {
        match value {
            -1 => Some(EDemoCommands::DemError),
            0 => Some(EDemoCommands::DemStop),
            1 => Some(EDemoCommands::DemFileHeader),
            2 => Some(EDemoCommands::DemFileInfo),
            3 => Some(EDemoCommands::DemSyncTick),
            4 => Some(EDemoCommands::DemSendTables),
            5 => Some(EDemoCommands::DemClassInfo),
            6 => Some(EDemoCommands::DemStringTables),
            7 => Some(EDemoCommands::DemPacket),
            8 => Some(EDemoCommands::DemSignonPacket),
            9 => Some(EDemoCommands::DemConsoleCmd),
            10 => Some(EDemoCommands::DemCustomData),
            11 => Some(EDemoCommands::DemCustomDataCallbacks),
            12 => Some(EDemoCommands::DemUserCmd),
            13 => Some(EDemoCommands::DemFullPacket),
            14 => Some(EDemoCommands::DemSaveGame),
            15 => Some(EDemoCommands::DemSpawnGroups),
            16 => Some(EDemoCommands::DemAnimationData),
            17 => Some(EDemoCommands::DemAnimationHeader),
            18 => Some(EDemoCommands::DemRecovery),
            19 => Some(EDemoCommands::DemMax),
            64 => Some(EDemoCommands::DemIsCompressed),
            _ => None,
        }
    }
}

/// What precedes the body of a command.
#[derive(Debug, Clone, Copy, PartialEq, Eq, Structural)]
pub struct CmdHeader {
    pub cmd: EDemoCommands,
    pub body_compressed: bool,
    pub tick: i32,
    pub body_size: u32,
    /// The number of bytes that the header takes. Going back as many undoes its reading.
    pub size: u8,
}

/// An error of the stream itself.
#[derive(Debug, Clone, Copy, PartialEq, Eq, Structural)]
pub enum IoError {
    /// The stream ends before what was to be read does.
    UnexpectedEof,
    /// A position before the start of the stream, or beyond what a position can be.
    InvalidInput,
    /// What the stream is read from has failed in some other way.
    Other,
}

/// Why a command's header could not be read.
#[derive(Debug, Clone, Copy, PartialEq, Eq, Structural)]
pub enum ReadCmdHeaderError {
    IoError(IoError),
    ReadVarintError(VarintError),
    /// The number, as it was read and without the mark of compression, stands for no command.
    UnknownCmd { raw: u32, uncompressed: u32 },
}

/// Why a command's body could not be read.
#[derive(Debug)]
pub enum ReadCmdError {
    IoError(IoError),
    DecompressError(snap::Error),
    /// The body is larger than the largest that a demo's recorder writes.
    BodyTooLarge { body_size: u32 },
}

/// A place to go to in a stream.
#[derive(Debug, Clone, Copy, PartialEq, Eq, Structural)]
pub enum SeekFrom {
    Start(u64),
    End(i64),
    Current(i64),
}

/// The signed number with the same 32 bits.
pub open spec fn same_bits_i32(value: nat) -> int {
    if value < 0x8000_0000 {
        value as int
    } else {
        value - 0x1_0000_0000
    }
}

/// Reads 32 bits as a signed number.
pub fn reinterpret_i32(value: u32) -> (r: i32)
    ensures
        r == same_bits_i32(value as nat),
{
    if value < 0x8000_0000 {
        value as i32
    } else {
        -((u32::MAX - value) as i32) - 1
    }
}

/// The part of `data` from `pos` on.
pub open spec fn rest(data: Seq<u8>, pos: int) -> Seq<u8> {
    if 0 <= pos <= data.len() {
        data.skip(pos)
    } else {
        Seq::empty()
    }
}

/// The variable-length integer at `pos`: its value and its size or why there is none, and the
/// position after what was read.
pub open spec fn varint_at(data: Seq<u8>, pos: int) -> (Result<(nat, nat), VarintError>, int) {
    match crate::varint::uvarint32(rest(data, pos)) {
        crate::varint::Uvarint::Value { value, size } => (Ok((value, size)), pos + size),
        crate::varint::Uvarint::Malformed => (
            Err(VarintError::MalformedVarint),
            pos + crate::varint::MAX_VARINT32_BYTES,
        ),
        crate::varint::Uvarint::Short => (
            Err(VarintError::IoError(IoError::UnexpectedEof)),
            pos + rest(data, pos).len(),
        ),
    }
}

/// Whether the number of a command, as it is stored, says that the body is compressed.
pub open spec fn is_compressed(raw: nat) -> bool {
    (raw / DEM_IS_COMPRESSED as nat) % 2 == 1
}

/// The number of a command without the mark of compression.
pub open spec fn uncompressed(raw: nat) -> nat {
    if is_compressed(raw) {
        (raw - DEM_IS_COMPRESSED) as nat
    } else {
        raw
    }
}

/// The command that a stored number stands for.
pub open spec fn command_of(raw: nat) -> Option<EDemoCommands> {
    EDemoCommands::with_number(same_bits_i32(uncompressed(raw)))
}

/// The header at `pos`, or why there is none, and the position after what was read: the command's
/// number, the tick and the size of the body, each a variable-length integer. The tick is stored
/// with the bits of a signed number, so that what comes before the game has the tick -1.
pub open spec fn header_at(data: Seq<u8>, pos: int) -> (Result<CmdHeader, ReadCmdHeaderError>, int) {
    match varint_at(data, pos) {
        (Err(err), next) => (Err(ReadCmdHeaderError::ReadVarintError(err)), next),
        (Ok((raw, cmd_n)), next) => match command_of(raw) {
            None => (
                Err(
                    ReadCmdHeaderError::UnknownCmd {
                        raw: raw as u32,
                        uncompressed: uncompressed(raw) as u32,
                    },
                ),
                next,
            ),
            Some(cmd) => match varint_at(data, next) {
                (Err(err), next) => (Err(ReadCmdHeaderError::ReadVarintError(err)), next),
                (Ok((tick, tick_n)), next) => match varint_at(data, next) {
                    (Err(err), next) => (Err(ReadCmdHeaderError::ReadVarintError(err)), next),
                    (Ok((body_size, body_size_n)), next) => (
                        Ok(
                            CmdHeader {
                                cmd,
                                body_compressed: is_compressed(raw),
                                tick: same_bits_i32(tick) as i32,
                                body_size: body_size as u32,
                                size: (cmd_n + tick_n + body_size_n) as u8,
                            },
                        ),
                        next,
                    ),
                },
            },
        },
    }
}

/// Where `to` leads from `pos` in a stream of `len` bytes, if anywhere.
pub open spec fn seek_target(len: int, pos: int, to: SeekFrom) -> Option<int> {
    let target = match to {
        SeekFrom::Start(n) => n as int,
        SeekFrom::End(n) => len + n,
        SeekFrom::Current(n) => pos + n,
    };
    if 0 <= target <= u64::MAX {
        Some(target)
    } else {
        None
    }
}

/// A stream of commands that goes forward only.
///
/// What a method does is a function of [`DemoStream::Model`], which stands for all that the stream is
/// yet to give.
pub trait DemoStream: Sized {
    type Model;

    spec fn model(&self) -> Self::Model;

    /// Whether the stream is at its end.
    spec fn eof_checked(stream: Self::Model) -> (Result<bool, IoError>, Self::Model);

    /// The header of the next command.
    spec fn header_read(stream: Self::Model) -> (
        Result<CmdHeader, ReadCmdHeaderError>,
        Self::Model,
    );

    /// The body of the command whose header was read last.
    spec fn body_read(stream: Self::Model, cmd_header: CmdHeader) -> (
        Result<Seq<u8>, ReadCmdError>,
        Self::Model,
    );

    /// The stream past the body of the command whose header was read last.
    spec fn body_skipped(stream: Self::Model, cmd_header: CmdHeader) -> (
        Result<(), IoError>,
        Self::Model,
    );

    /// Whether the stream is at its end.
    fn is_at_eof(&mut self) -> (r: Result<bool, IoError>)
        ensures
            (r, final(self).model()) == Self::eof_checked(old(self).model()),
    ;

    /// Reads the header of the next command.
    fn read_cmd_header(&mut self) -> (r: Result<CmdHeader, ReadCmdHeaderError>)
        ensures
            (r, final(self).model()) == Self::header_read(old(self).model()),
    ;

    /// Reads the body of the command whose header was read last, and decompresses it where the
    /// header says that it is compressed.
    fn read_cmd(&mut self, cmd_header: &CmdHeader) -> (r: Result<Vec<u8>, ReadCmdError>)
        ensures
            match Self::body_read(old(self).model(), *cmd_header) {
                (Ok(body), next) => r is Ok && r->Ok_0@ == body && final(self).model() == next,
                (Err(err), next) => {
                    &&& r == Err::<Vec<u8>, ReadCmdError>(err)
                    &&& final(self).model() == next
                },
            },
    ;

    /// Goes past the body of the command whose header was read last.
    fn skip_cmd(&mut self, cmd_header: &CmdHeader) -> (r: Result<(), IoError>)
        ensures
            (r, final(self).model()) == Self::body_skipped(old(self).model(), *cmd_header),
    ;
}

/// Where the number of ticks in a demo is to be had.
#[derive(Debug)]
pub enum TotalTicks {
    /// It is known.
    Known(i32),
    /// It is told by the summary that is encoded in `data`. Reading it has moved the stream from
    /// `backup`.
    Encoded { data: Vec<u8>, backup: u64 },
}

/// What a [`TotalTicks`] stands for.
pub enum TotalTicksModel {
    Known(i32),
    Encoded { data: Seq<u8>, backup: u64 },
}

impl View for TotalTicks {
    type V = TotalTicksModel;

    open spec fn view(&self) -> TotalTicksModel {
        match *self {
            TotalTicks::Known(ticks) => TotalTicksModel::Known(ticks),
            TotalTicks::Encoded { data, backup } => TotalTicksModel::Encoded {
                data: data@,
                backup,
            },
        }
    }
}

/// A [`DemoStream`] of which any position can be gone to. It is finite.
pub trait SeekableDemoStream: DemoStream {
    spec fn position_read(stream: Self::Model) -> (Result<u64, IoError>, Self::Model);

    /// The position that was gone to, and the stream there.
    spec fn sought(stream: Self::Model, pos: SeekFrom) -> (Result<u64, IoError>, Self::Model);

    /// The position of the first command.
    spec fn start(stream: Self::Model) -> u64;

    /// The number of ticks in the demo, or where it is to be had.
    spec fn ticks_read(stream: Self::Model) -> (
        Result<TotalTicksModel, FileInfoError>,
        Self::Model,
    );

    /// A bound on how much there is to read.
    spec fn remaining(stream: Self::Model) -> nat;

    /// With each header there is less to read, and skipping a body gives no more.
    proof fn lemma_progress(stream: Self::Model, cmd_header: CmdHeader)
        ensures
            Self::header_read(stream).0 is Ok ==> Self::remaining(Self::header_read(stream).1)
                < Self::remaining(stream),
            Self::remaining(Self::body_skipped(stream, cmd_header).1) <= Self::remaining(stream),
    ;

    /// Whether a stream can be in such a state.
    spec fn sound(stream: Self::Model) -> bool;

    /// Every stream is in such a state.
    proof fn lemma_sound(&self)
        ensures
            Self::sound(self.model()),
    ;

    /// Going back as many bytes as a header takes undoes its reading.
    proof fn lemma_unread(stream: Self::Model)
        requires
            Self::sound(stream),
            Self::header_read(stream).0 is Ok,
        ensures
            ({
                let (header, next) = Self::header_read(stream);
                let back = SeekFrom::Current((-header->Ok_0.size) as i64);
                Self::sought(next, back).0 is Ok && Self::sought(next, back).1 == stream
            }),
    ;

    /// Where a position counted from the start leads to does not depend on what has been read or
    /// where else the stream has gone.
    proof fn lemma_start_stays(stream: Self::Model, cmd_header: CmdHeader, pos: SeekFrom, n: u64)
        ensures
            ({
                let reached = |next: Self::Model|
                    Self::start(next) == Self::start(stream) && Self::sought(
                        next,
                        SeekFrom::Start(n),
                    ) == Self::sought(stream, SeekFrom::Start(n));
                &&& reached(Self::eof_checked(stream).1)
                &&& reached(Self::header_read(stream).1)
                &&& reached(Self::body_read(stream, cmd_header).1)
                &&& reached(Self::body_skipped(stream, cmd_header).1)
                &&& reached(Self::sought(stream, pos).1)
            }),
    ;

    /// Goes to another position.
    fn seek(&mut self, pos: SeekFrom) -> (r: Result<u64, IoError>)
        ensures
            (r, final(self).model()) == Self::sought(old(self).model(), pos),
    ;

    /// The position in the stream.
    fn stream_position(&mut self) -> (r: Result<u64, IoError>)
        ensures
            (r, final(self).model()) == Self::position_read(old(self).model()),
    ;

    /// The position of the first command.
    fn start_position(&self) -> (r: u64)
        ensures
            r == Self::start(self.model()),
    ;

    /// The number of ticks in the demo, or where it is to be had.
    fn total_ticks(&mut self) -> (r: Result<TotalTicks, FileInfoError>)
        ensures
            match Self::ticks_read(old(self).model()) {
                (Ok(ticks), next) => r is Ok && r->Ok_0@ == ticks && final(self).model() == next,
                (Err(err), next) => {
                    &&& r == Err::<TotalTicks, FileInfoError>(err)
                    &&& final(self).model() == next
                },
            },
    ;

    /// The length of the stream. The position stays where it is.
    fn stream_len(&mut self) -> (r: Result<u64, IoError>)
        ensures
            (r, final(self).model()) == match Self::position_read(old(self).model()) {
                (Err(err), next) => (Err(err), next),
                (Ok(pos), next) => match Self::sought(next, SeekFrom::End(0)) {
                    (Err(err), next) => (Err(err), next),
                    (Ok(len), next) => if pos == len {
                        (Ok(len), next)
                    } else {
                        match Self::sought(next, SeekFrom::Start(pos)) {
                            (Err(err), next) => (Err(err), next),
                            (Ok(_), next) => (Ok(len), next),
                        }
                    },
                },
            },
    {
        let old_pos: u64 = self.stream_position()?;
        let len: u64 = self.seek(SeekFrom::End(0))?;
        // The branch is cheaper than going back to where the position is already.
        if old_pos != len {
            self.seek(SeekFrom::Start(old_pos))?;
        }
        Ok(len)
    }

    /// Goes back to before the header that was read last.
    fn unread_cmd_header(&mut self, cmd_header: &CmdHeader) -> (r: Result<(), IoError>)
        ensures
            (r, final(self).model()) == match Self::sought(
                old(self).model(),
                SeekFrom::Current((-cmd_header.size) as i64),
            ) {
                (Err(err), next) => (Err(err), next),
                (Ok(_), next) => (Ok(()), next),
            },
    {
        match self.seek(SeekFrom::Current(-(cmd_header.size as i64))) {
            Ok(_) => Ok(()),
            Err(err) => Err(err),
        }
    }
}

/// Going back over a header undoes its reading: [`SeekableDemoStream::unread_cmd_header`] after
/// [`DemoStream::read_cmd_header`] succeeds and leaves the stream as it was, so that reading again
/// gives the same header.
pub proof fn lemma_unread_undoes_read<D: SeekableDemoStream>(stream: D::Model, header: CmdHeader)
    requires
        D::sound(stream),
        D::header_read(stream).0 == Ok::<CmdHeader, ReadCmdHeaderError>(header),
    ensures
        ({
            let next = D::header_read(stream).1;
            let (result, back) = D::sought(next, SeekFrom::Current((-header.size) as i64));
            &&& result is Ok
            &&& back == stream
            &&& D::header_read(back).0 == Ok::<CmdHeader, ReadCmdHeaderError>(header)
        }),
{
    D::lemma_unread(stream);
}

} // verus!
