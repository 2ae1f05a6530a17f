//! A demo file held in memory: its header, and the commands after it.

use crate::demostream::{
    reinterpret_i32, CmdHeader, DemoStream, EDemoCommands, IoError, ReadCmdError,
    ReadCmdHeaderError, SeekFrom, SeekableDemoStream, TotalTicks, TotalTicksModel,
    DEM_IS_COMPRESSED,
};
use crate::snappy::unpack;
use crate::varint::{read_uvarint32, VarintError};
use vstd::prelude::*;
use vstd::slice::{slice_subrange, slice_to_vec};

verus! {

/// The most that the body of a command takes, together with its decompressed form.
pub const DEMO_RECORD_BUFFER_SIZE: usize = 2 * 1024 * 1024;

/// The size of the stamp that a demo file starts with.
pub const DEMO_HEADER_ID_SIZE: usize = 8;

/// The size of a demo file's header; the first command follows it.
pub const DEMO_HEADER_SIZE: usize = 16;

/// The stamp that a demo file starts with: `PBDEMS2` and a null byte.
pub open spec fn demo_header_id() -> Seq<u8> {
    seq![0x50, 0x42, 0x44, 0x45, 0x4d, 0x53, 0x32, 0x00]
}

/// What a demo file starts with.
#[derive(Debug, Clone, Copy)]
pub struct DemoHeader {
    pub demofilestamp: [u8; 8],
    pub fileinfo_offset: i32,
    pub spawngroups_offset: i32,
}

/// Why a demo file's header could not be read.
#[derive(Debug, Clone, Copy)]
pub enum DemoHeaderError {
    IoError(IoError),
    InvalidDemoFileStamp { got: [u8; 8] },
}

/// The signed number stored at `pos` in four bytes, the lowest first.
pub open spec fn i32_at(data: Seq<u8>, pos: int) -> int {
    crate::demostream::same_bits_i32(
        (data[pos] + 0x100 * data[pos + 1] + 0x1_0000 * data[pos + 2] + 0x100_0000 * data[pos
            + 3]) as nat,
    )
}

fn read_i32(data: &[u8], pos: usize) -> (r: i32)
    requires
        pos + 4 <= data@.len(),
    ensures
        r == i32_at(data@, pos as int),
{
    let value: u32 = data[pos] as u32 + 0x100 * (data[pos + 1] as u32) + 0x1_0000 * (data[pos
        + 2] as u32) + 0x100_0000 * (data[pos + 3] as u32);
    reinterpret_i32(value)
}

/// The position that a stored offset means. A negative one lies far past the end of any file.
pub open spec fn offset_position(offset: int) -> int {
    if offset >= 0 {
        offset
    } else {
        offset + 0x1_0000_0000_0000_0000
    }
}

/// Reads the header that `data` starts with.
pub fn read_demo_header(data: &[u8]) -> (r: Result<DemoHeader, DemoHeaderError>)
    ensures
        match r {
            Ok(header) => {
                &&& data@.len() >= DEMO_HEADER_SIZE
                &&& data@.take(8) == demo_header_id()
                &&& header.demofilestamp@ == demo_header_id()
                &&& header.fileinfo_offset == i32_at(data@, 8)
                &&& header.spawngroups_offset == i32_at(data@, 12)
            },
            Err(DemoHeaderError::InvalidDemoFileStamp { got }) => {
                &&& data@.len() >= DEMO_HEADER_ID_SIZE
                &&& data@.take(8) != demo_header_id()
                &&& got@ == data@.take(8)
            },
            Err(DemoHeaderError::IoError(err)) => {
                &&& err == IoError::UnexpectedEof
                &&& data@.len() < DEMO_HEADER_ID_SIZE || (data@.len() < DEMO_HEADER_SIZE
                    && data@.take(8) == demo_header_id())
            },
        },
{
    if data.len() < DEMO_HEADER_ID_SIZE {
        return Err(DemoHeaderError::IoError(IoError::UnexpectedEof));
    }
    let demofilestamp: [u8; 8] = [
        data[0],
        data[1],
        data[2],
        data[3],
        data[4],
        data[5],
        data[6],
        data[7],
    ];
    assert(demofilestamp@ =~= data@.take(8));
    let matches: bool = data[0] == 0x50 && data[1] == 0x42 && data[2] == 0x44 && data[3] == 0x45
        && data[4] == 0x4d && data[5] == 0x53 && data[6] == 0x32 && data[7] == 0x00;
    if !matches {
        proof {
            if data@.take(8) == demo_header_id() {
                assert forall|i: int| 0 <= i < 8 implies data@[i] == demo_header_id()[i] by {
                    assert(data@.take(8)[i] == data@[i]);
                }
            }
        }
        return Err(DemoHeaderError::InvalidDemoFileStamp { got: demofilestamp });
    }
    assert(data@.take(8) =~= demo_header_id());
    if data.len() < DEMO_HEADER_SIZE {
        return Err(DemoHeaderError::IoError(IoError::UnexpectedEof));
    }
    Ok(
        DemoHeader {
            demofilestamp,
            fileinfo_offset: read_i32(data, 8),
            spawngroups_offset: read_i32(data, 12),
        },
    )
}

/// The part of a demo's summary that is of use here.
#[derive(Debug, Clone, Copy, PartialEq, Eq, Structural)]
pub struct CDemoFileInfo {
    pub playback_ticks: i32,
}

/// Where the summary of a demo is to be had.
#[derive(Debug)]
pub enum FileInfoSource {
    /// It is known already.
    Known(CDemoFileInfo),
    /// It is encoded in `data`. Reading it has moved the stream from `backup`.
    Encoded { data: Vec<u8>, backup: u64 },
}

/// Why the summary of a demo could not be read.
#[derive(Debug)]
pub enum FileInfoError {
    ReadCmdHeaderError(ReadCmdHeaderError),
    ReadCmdError(ReadCmdError),
}

/// What a [`DemoFile`] stands for: the bytes of the file, the position in them, and what is known of
/// the file.
pub struct DemoTape {
    pub data: Seq<u8>,
    pub pos: int,
    pub demo_header: DemoHeader,
    pub file_info: Option<CDemoFileInfo>,
}

impl DemoTape {
    /// The same file at the position `pos`.
    pub open spec fn at(self, pos: int) -> DemoTape {
        DemoTape { pos, ..self }
    }

    /// The header at the position, or why there is none, and the file after what was read.
    pub open spec fn read_header(self) -> (Result<CmdHeader, ReadCmdHeaderError>, DemoTape) {
        let (result, next) = crate::demostream::header_at(self.data, self.pos);
        (result, self.at(next))
    }

    /// The body at the position of the command with the header `cmd_header`, or why there is none,
    /// and the file after what was read. A compressed body and its decompressed form share the
    /// room that there is for one command.
    pub open spec fn read_body(self, cmd_header: CmdHeader) -> (
        Result<Seq<u8>, ReadCmdError>,
        DemoTape,
    ) {
        let size = cmd_header.body_size as int;
        let rest = crate::demostream::rest(self.data, self.pos);
        if size > DEMO_RECORD_BUFFER_SIZE {
            (Err(ReadCmdError::BodyTooLarge { body_size: cmd_header.body_size }), self)
        } else if rest.len() < size {
            (Err(ReadCmdError::IoError(IoError::UnexpectedEof)), self.at(self.pos + rest.len()))
        } else if !cmd_header.body_compressed {
            (Ok(rest.take(size)), self.at(self.pos + size))
        } else {
            (
                match crate::snappy::unpacked(
                    rest.take(size),
                    (DEMO_RECORD_BUFFER_SIZE - size) as nat,
                ) {
                    Ok(body) => Ok(body),
                    Err(err) => Err(ReadCmdError::DecompressError(err)),
                },
                self.at(self.pos + size),
            )
        }
    }

    /// The encoded summary, or why there is none, and the file after what was read.
    pub open spec fn encoded_file_info(self) -> (Result<Seq<u8>, FileInfoError>, DemoTape) {
        match self.at(offset_position(self.demo_header.fileinfo_offset as int)).read_header() {
            (Err(err), next) => (Err(FileInfoError::ReadCmdHeaderError(err)), next),
            (Ok(cmd_header), next) => match next.read_body(cmd_header) {
                (Err(err), next) => (Err(FileInfoError::ReadCmdError(err)), next),
                (Ok(body), next) => (Ok(body), next),
            },
        }
    }

    /// The number of ticks in the demo where its summary is known, and otherwise the encoded summary,
    /// or why there is none, and the file after what was read.
    pub open spec fn total_ticks(self) -> (Result<TotalTicksModel, FileInfoError>, DemoTape) {
        match self.file_info {
            Some(info) => (Ok(TotalTicksModel::Known(info.playback_ticks)), self),
            None => match self.encoded_file_info() {
                (Ok(data), next) => (
                    Ok(TotalTicksModel::Encoded { data, backup: self.pos as u64 }),
                    next,
                ),
                (Err(err), next) => (Err(err), next),
            },
        }
    }

    /// The position that `to` leads to, or why there is none, and the file there. The position may
    /// lie past the end of the file.
    pub open spec fn seek(self, to: SeekFrom) -> (Result<u64, IoError>, DemoTape) {
        match crate::demostream::seek_target(self.data.len() as int, self.pos, to) {
            Some(target) => (Ok(target as u64), self.at(target)),
            None => (Err(IoError::InvalidInput), self),
        }
    }

    /// The file past the body of the command with the header `cmd_header`.
    pub open spec fn skip_body(self, cmd_header: CmdHeader) -> (Result<(), IoError>, DemoTape) {
        match self.seek(SeekFrom::Current(cmd_header.body_size as i64)) {
            (Ok(_), next) => (Ok(()), next),
            (Err(err), next) => (Err(err), next),
        }
    }
}

/// A demo file and a position in it.
#[derive(Debug)]
pub struct DemoFile {
    data: Vec<u8>,
    pos: u64,
    demo_header: DemoHeader,
    file_info: Option<CDemoFileInfo>,
}

impl DemoFile {
    /// The file, the position and what is known.
    pub closed spec fn view(self) -> DemoTape {
        DemoTape {
            data: self.data@,
            pos: self.pos as int,
            demo_header: self.demo_header,
            file_info: self.file_info,
        }
    }

    /// A file fits in memory, and a position in 64 bits.
    pub proof fn lemma_bounds(self)
        ensures
            self@.data.len() <= usize::MAX,
            0 <= self@.pos <= u64::MAX,
    {
        assert(self.data.len() == self.data@.len());
    }

    /// Checks the header that the file `data` starts with, and goes to the first command.
    pub fn start_reading(data: Vec<u8>) -> (r: Result<DemoFile, DemoHeaderError>)
        ensures
            match r {
                Ok(file) => {
                    &&& data@.len() >= DEMO_HEADER_SIZE
                    &&& data@.take(8) == demo_header_id()
                    &&& file@.data == data@
                    &&& file@.pos == DEMO_HEADER_SIZE
                    &&& file@.demo_header.demofilestamp@ == demo_header_id()
                    &&& file@.demo_header.fileinfo_offset == i32_at(data@, 8)
                    &&& file@.demo_header.spawngroups_offset == i32_at(data@, 12)
                    &&& file@.file_info is None
                },
                Err(DemoHeaderError::InvalidDemoFileStamp { got }) => {
                    &&& data@.len() >= DEMO_HEADER_ID_SIZE
                    &&& data@.take(8) != demo_header_id()
                    &&& got@ == data@.take(8)
                },
                Err(DemoHeaderError::IoError(err)) => {
                    &&& err == IoError::UnexpectedEof
                    &&& data@.len() < DEMO_HEADER_ID_SIZE || (data@.len() < DEMO_HEADER_SIZE
                        && data@.take(8) == demo_header_id())
                },
            },
    {
        match read_demo_header(data.as_slice()) {
            Ok(demo_header) => Ok(
                DemoFile { data, pos: DEMO_HEADER_SIZE as u64, demo_header, file_info: None },
            ),
            Err(err) => Err(err),
        }
    }

    /// What the file starts with.
    pub fn demo_header(&self) -> (r: &DemoHeader)
        ensures
            *r == self@.demo_header,
    {
        &self.demo_header
    }

    /// Reads the variable-length integer at the position.
    fn read_varint(&mut self) -> (r: Result<(u32, usize), VarintError>)
        ensures
            match crate::demostream::varint_at(old(self)@.data, old(self)@.pos) {
                (Ok((value, size)), next) => {
                    &&& r is Ok
                    &&& r->Ok_0.0 == value
                    &&& r->Ok_0.1 == size
                    &&& 1 <= size <= 5
                    &&& final(self)@ == old(self)@.at(next)
                },
                (Err(err), next) => {
                    &&& r == Err::<(u32, usize), VarintError>(err)
                    &&& final(self)@ == old(self)@.at(next)
                },
            },
    {
        proof {
            self.lemma_bounds();
        }
        if self.pos > self.data.len() as u64 {
            return Err(VarintError::IoError(IoError::UnexpectedEof));
        }
        let mut pos: usize = self.pos as usize;
        let r = read_uvarint32(self.data.as_slice(), &mut pos);
        self.pos = pos as u64;
        r
    }

    /// The body stored between two positions.
    fn body_of(&self, cmd_header: &CmdHeader, start: usize, end: usize) -> (r: Result<
        Vec<u8>,
        ReadCmdError,
    >)
        requires
            start <= end <= self@.data.len(),
            end - start <= DEMO_RECORD_BUFFER_SIZE,
        ensures
            ({
                let stored = self@.data.subrange(start as int, end as int);
                if !cmd_header.body_compressed {
                    r is Ok && r->Ok_0@ == stored
                } else {
                    match crate::snappy::unpacked(
                        stored,
                        (DEMO_RECORD_BUFFER_SIZE - (end - start)) as nat,
                    ) {
                        Ok(body) => r is Ok && r->Ok_0@ == body,
                        Err(err) => r == Err::<Vec<u8>, ReadCmdError>(
                            ReadCmdError::DecompressError(err),
                        ),
                    }
                }
            }),
    {
        let stored: &[u8] = slice_subrange(self.data.as_slice(), start, end);
        if !cmd_header.body_compressed {
            return Ok(slice_to_vec(stored));
        }
        match unpack(stored, DEMO_RECORD_BUFFER_SIZE - (end - start)) {
            Ok(body) => Ok(body),
            Err(err) => Err(ReadCmdError::DecompressError(err)),
        }
    }

    /// Looks for the summary of the demo. Unless it is known, the encoded summary is read from where
    /// the file's header says that it is; the caller decodes it and hands it to
    /// [`DemoFile::set_file_info`], which also goes back to where the stream was.
    pub fn file_info(&mut self) -> (r: Result<FileInfoSource, FileInfoError>)
        ensures
            match (r, old(self)@.encoded_file_info()) {
                (Ok(FileInfoSource::Known(info)), _) => {
                    &&& old(self)@.file_info == Some(info)
                    &&& final(self)@ == old(self)@
                },
                (Ok(FileInfoSource::Encoded { data, backup }), (Ok(body), next)) => {
                    &&& old(self)@.file_info is None
                    &&& data@ == body
                    &&& backup == old(self)@.pos
                    &&& final(self)@ == next
                },
                (Err(err), (Err(expected), next)) => {
                    &&& old(self)@.file_info is None
                    &&& err == expected
                    &&& final(self)@ == next
                },
                _ => false,
            },
    {
        if let Some(info) = self.file_info {
            return Ok(FileInfoSource::Known(info));
        }
        let backup: u64 = self.pos;
        let offset: i32 = self.demo_header.fileinfo_offset;
        self.pos = if offset >= 0 {
            offset as u64
        } else {
            u64::MAX - ((-(offset + 1)) as u64)
        };
        let cmd_header: CmdHeader = match self.read_cmd_header() {
            Ok(cmd_header) => cmd_header,
            Err(err) => {
                return Err(FileInfoError::ReadCmdHeaderError(err));
            },
        };
        match self.read_cmd(&cmd_header) {
            Ok(data) => Ok(FileInfoSource::Encoded { data, backup }),
            Err(err) => Err(FileInfoError::ReadCmdError(err)),
        }
    }

    /// Keeps the summary of the demo, and goes back to `backup`.
    pub fn set_file_info(&mut self, file_info: CDemoFileInfo, backup: u64)
        ensures
            final(self)@ == (DemoTape {
                file_info: Some(file_info),
                pos: backup as int,
                ..old(self)@
            }),
    {
        self.file_info = Some(file_info);
        self.pos = backup;
    }
}

impl DemoStream for DemoFile {
    type Model = DemoTape;

    open spec fn model(&self) -> DemoTape {
        self@
    }

    open spec fn eof_checked(stream: DemoTape) -> (Result<bool, IoError>, DemoTape) {
        (Ok(stream.pos == stream.data.len()), stream)
    }

    open spec fn header_read(stream: DemoTape) -> (
        Result<CmdHeader, ReadCmdHeaderError>,
        DemoTape,
    ) {
        stream.read_header()
    }

    open spec fn body_read(stream: DemoTape, cmd_header: CmdHeader) -> (
        Result<Seq<u8>, ReadCmdError>,
        DemoTape,
    ) {
        stream.read_body(cmd_header)
    }

    open spec fn body_skipped(stream: DemoTape, cmd_header: CmdHeader) -> (
        Result<(), IoError>,
        DemoTape,
    ) {
        stream.skip_body(cmd_header)
    }

    fn is_at_eof(&mut self) -> (r: Result<bool, IoError>)
    {
        Ok(self.pos == self.data.len() as u64)
    }

    fn read_cmd_header(&mut self) -> (r: Result<CmdHeader, ReadCmdHeaderError>)
    {
        let (raw, cmd_n): (u32, usize) = match self.read_varint() {
            Ok(read) => read,
            Err(err) => {
                return Err(ReadCmdHeaderError::ReadVarintError(err));
            },
        };
        let body_compressed: bool = (raw / DEM_IS_COMPRESSED) % 2 == 1;
        let uncompressed: u32 = if body_compressed {
            raw - DEM_IS_COMPRESSED
        } else {
            raw
        };
        let cmd: EDemoCommands = match EDemoCommands::from_number(reinterpret_i32(uncompressed)) {
            Some(cmd) => cmd,
            None => {
                return Err(ReadCmdHeaderError::UnknownCmd { raw, uncompressed });
            },
        };
        let (tick, tick_n): (u32, usize) = match self.read_varint() {
            Ok(read) => read,
            Err(err) => {
                return Err(ReadCmdHeaderError::ReadVarintError(err));
            },
        };
        let (body_size, body_size_n): (u32, usize) = match self.read_varint() {
            Ok(read) => read,
            Err(err) => {
                return Err(ReadCmdHeaderError::ReadVarintError(err));
            },
        };
        Ok(
            CmdHeader {
                cmd,
                body_compressed,
                tick: reinterpret_i32(tick),
                body_size,
                size: (cmd_n + tick_n + body_size_n) as u8,
            },
        )
    }

    fn read_cmd(&mut self, cmd_header: &CmdHeader) -> (r: Result<Vec<u8>, ReadCmdError>)
    {
        proof {
            self.lemma_bounds();
        }
        if cmd_header.body_size > DEMO_RECORD_BUFFER_SIZE as u32 {
            return Err(ReadCmdError::BodyTooLarge { body_size: cmd_header.body_size });
        }
        let size: usize = cmd_header.body_size as usize;
        let len: usize = self.data.len();
        if self.pos > len as u64 {
            if size == 0 {
                assert(self@.data.subrange(len as int, len as int) =~= Seq::<u8>::empty().take(0));
                return self.body_of(cmd_header, len, len);
            }
            return Err(ReadCmdError::IoError(IoError::UnexpectedEof));
        }
        let start: usize = self.pos as usize;
        if len - start < size {
            self.pos = len as u64;
            return Err(ReadCmdError::IoError(IoError::UnexpectedEof));
        }
        self.pos = (start + size) as u64;
        assert(self@.data.subrange(start as int, start + size) =~= self@.data.skip(
            start as int,
        ).take(size as int));
        self.body_of(cmd_header, start, start + size)
    }

    fn skip_cmd(&mut self, cmd_header: &CmdHeader) -> (r: Result<(), IoError>)
    {
        match self.pos.checked_add(cmd_header.body_size as u64) {
            Some(target) => {
                self.pos = target;
                Ok(())
            },
            None => Err(IoError::InvalidInput),
        }
    }
}

impl SeekableDemoStream for DemoFile {
    open spec fn position_read(stream: DemoTape) -> (Result<u64, IoError>, DemoTape) {
        (Ok(stream.pos as u64), stream)
    }

    open spec fn sought(stream: DemoTape, pos: SeekFrom) -> (Result<u64, IoError>, DemoTape) {
        stream.seek(pos)
    }

    open spec fn start(stream: DemoTape) -> u64 {
        DEMO_HEADER_SIZE as u64
    }

    open spec fn ticks_read(stream: DemoTape) -> (
        Result<TotalTicksModel, FileInfoError>,
        DemoTape,
    ) {
        stream.total_ticks()
    }

    open spec fn remaining(stream: DemoTape) -> nat {
        if stream.pos < stream.data.len() {
            (stream.data.len() - stream.pos) as nat
        } else {
            0
        }
    }

    open spec fn sound(stream: DemoTape) -> bool {
        0 <= stream.pos <= u64::MAX && stream.data.len() <= u64::MAX
    }

    proof fn lemma_sound(&self) {
        self.lemma_bounds();
    }

    proof fn lemma_unread(stream: DemoTape) {
        lemma_header_extent(stream.data, stream.pos);
    }

    proof fn lemma_start_stays(stream: DemoTape, cmd_header: CmdHeader, pos: SeekFrom, n: u64) {
    }

    proof fn lemma_progress(stream: DemoTape, cmd_header: CmdHeader) {
        if stream.pos >= 0 && stream.read_header().0 is Ok {
            lemma_header_extent(stream.data, stream.pos);
        }
    }

    fn seek(&mut self, pos: SeekFrom) -> (r: Result<u64, IoError>)
    {
        let (base, offset): (u64, i64) = match pos {
            SeekFrom::Start(n) => {
                self.pos = n;
                return Ok(n);
            },
            SeekFrom::End(n) => (self.data.len() as u64, n),
            SeekFrom::Current(n) => (self.pos, n),
        };
        match base.checked_add_signed(offset) {
            Some(target) => {
                self.pos = target;
                Ok(target)
            },
            None => Err(IoError::InvalidInput),
        }
    }

    fn stream_position(&mut self) -> (r: Result<u64, IoError>)
    {
        Ok(self.pos)
    }

    fn total_ticks(&mut self) -> (r: Result<TotalTicks, FileInfoError>)
    {
        match self.file_info() {
            Ok(FileInfoSource::Known(info)) => Ok(TotalTicks::Known(info.playback_ticks)),
            Ok(FileInfoSource::Encoded { data, backup }) => Ok(
                TotalTicks::Encoded { data, backup },
            ),
            Err(err) => Err(err),
        }
    }

    fn start_position(&self) -> (r: u64)
    {
        DEMO_HEADER_SIZE as u64
    }
}

/// A header that was read takes at least three bytes, all of them in the file, and its size is the
/// distance that reading it has gone.
pub proof fn lemma_header_extent(data: Seq<u8>, pos: int)
    requires
        0 <= pos,
        crate::demostream::header_at(data, pos).0 is Ok,
    ensures
        ({
            let (result, next) = crate::demostream::header_at(data, pos);
            &&& 3 <= result->Ok_0.size <= 15
            &&& next == pos + result->Ok_0.size
            &&& next <= data.len()
        }),
{
    lemma_varint_extent(data, pos);
    let (_, second) = crate::demostream::varint_at(data, pos);
    lemma_varint_extent(data, second);
    let (_, third) = crate::demostream::varint_at(data, second);
    lemma_varint_extent(data, third);
}

proof fn lemma_varint_extent(data: Seq<u8>, pos: int)
    requires
        0 <= pos,
    ensures
        ({
            let (result, next) = crate::demostream::varint_at(data, pos);
            &&& pos <= next
            &&& pos <= data.len() ==> next <= data.len()
            &&& result is Ok ==> {
                &&& 1 <= result->Ok_0.1 <= 5
                &&& next == pos + result->Ok_0.1
                &&& next <= data.len()
            }
        }),
{
    crate::varint::lemma_continued_bound(crate::demostream::rest(data, pos), 5);
}

/// Reading a body and passing over it lead to the same place: after a body that could be read the file
/// is where [`DemoStream::skip_cmd`] would have led.
pub proof fn lemma_read_and_skip_agree(tape: DemoTape, cmd_header: CmdHeader)
    requires
        0 <= tape.pos <= u64::MAX,
        tape.data.len() <= u64::MAX,
        tape.read_body(cmd_header).0 is Ok,
    ensures
        tape.skip_body(cmd_header) == (Ok::<(), IoError>(()), tape.read_body(cmd_header).1),
{
}

/// Asking for the length leaves the stream where it was: going to the end and then back to the
/// position that was left gives the file as it was.
pub proof fn lemma_seek_end_and_back(tape: DemoTape)
    requires
        0 <= tape.pos <= u64::MAX,
        tape.data.len() <= u64::MAX,
    ensures
        ({
            let (result, end) = tape.seek(SeekFrom::End(0));
            &&& result == Ok::<u64, IoError>(tape.data.len() as u64)
            &&& end.seek(SeekFrom::Start(tape.pos as u64)) == (
                Ok::<u64, IoError>(tape.pos as u64),
                tape,
            )
        }),
{
}

/// Fetching the summary leaves the stream where it was: once the encoded summary has been read and
/// handed back with the position that came with it, only the summary has changed, and the number of
/// ticks is the one that it tells.
pub proof fn lemma_file_info_restores(tape: DemoTape, info: CDemoFileInfo)
    ensures
        ({
            let (_, next) = tape.encoded_file_info();
            let known = DemoTape { file_info: Some(info), pos: tape.pos, ..next };
            &&& known == (DemoTape { file_info: Some(info), ..tape })
            &&& known.total_ticks() == (
                Ok::<TotalTicksModel, FileInfoError>(TotalTicksModel::Known(info.playback_ticks)),
                known,
            )
        }),
{
}

/// The mark of compression does not change which command a number stands for, and a command that was
/// read is never the mark itself.
pub proof fn lemma_compression_mark(raw: u32)
    requires
        !crate::demostream::is_compressed(raw as nat),
    ensures
        raw + DEM_IS_COMPRESSED <= u32::MAX,
        crate::demostream::is_compressed((raw + DEM_IS_COMPRESSED) as nat),
        crate::demostream::command_of((raw + DEM_IS_COMPRESSED) as nat)
            == crate::demostream::command_of(raw as nat),
        crate::demostream::command_of(raw as nat) != Some(EDemoCommands::DemIsCompressed),
        crate::demostream::command_of(raw as nat) != Some(EDemoCommands::DemError),
{
}

} // verus!
