//! How a demo file is written, and that reading gives back what was written.

use crate::demofile::{CDemoFileInfo, DemoFile, DemoTape, FileInfoError};
use crate::demostream::{
    CmdHeader, DemoStream, EDemoCommands, IoError, ReadCmdError, ReadCmdHeaderError, SeekFrom,
    SeekableDemoStream, TotalTicksModel,
};
use crate::parser::ParserModel;
use crate::playback::ParserError;
use crate::varint::VarintError;
use vstd::prelude::*;

verus! {

/// The 32 bits of a signed number as an unsigned one.
pub open spec fn bits_of_i32(value: i32) -> nat {
    if value < 0 {
        (value + 0x1_0000_0000) as nat
    } else {
        value as nat
    }
}

/// A header as it is written: the command's number, with 64 added where the body is compressed, the bits
/// of the tick, and the size of the body.
pub open spec fn header_bytes(header: CmdHeader) -> Seq<u8> {
    crate::varint::encode(
        (header.cmd.number() + if header.body_compressed {
            64int
        } else {
            0int
        }) as nat,
    ) + crate::varint::encode(bits_of_i32(header.tick)) + crate::varint::encode(
        header.body_size as nat,
    )
}

/// Whether a header can stand in a file: its command is one of those that do, and its size is that of
/// its bytes.
pub open spec fn is_writable(header: CmdHeader) -> bool {
    &&& header.cmd != EDemoCommands::DemError
    &&& header.cmd != EDemoCommands::DemIsCompressed
    &&& header.size == header_bytes(header).len()
}

/// Each command has its number.
pub proof fn lemma_commands_by_number()
    ensures
        EDemoCommands::with_number(-1) == Some(EDemoCommands::DemError),
        EDemoCommands::with_number(0) == Some(EDemoCommands::DemStop),
        EDemoCommands::with_number(1) == Some(EDemoCommands::DemFileHeader),
        EDemoCommands::with_number(2) == Some(EDemoCommands::DemFileInfo),
        EDemoCommands::with_number(3) == Some(EDemoCommands::DemSyncTick),
        EDemoCommands::with_number(4) == Some(EDemoCommands::DemSendTables),
        EDemoCommands::with_number(5) == Some(EDemoCommands::DemClassInfo),
        EDemoCommands::with_number(6) == Some(EDemoCommands::DemStringTables),
        EDemoCommands::with_number(7) == Some(EDemoCommands::DemPacket),
        EDemoCommands::with_number(8) == Some(EDemoCommands::DemSignonPacket),
        EDemoCommands::with_number(9) == Some(EDemoCommands::DemConsoleCmd),
        EDemoCommands::with_number(10) == Some(EDemoCommands::DemCustomData),
        EDemoCommands::with_number(11) == Some(EDemoCommands::DemCustomDataCallbacks),
        EDemoCommands::with_number(12) == Some(EDemoCommands::DemUserCmd),
        EDemoCommands::with_number(13) == Some(EDemoCommands::DemFullPacket),
        EDemoCommands::with_number(14) == Some(EDemoCommands::DemSaveGame),
        EDemoCommands::with_number(15) == Some(EDemoCommands::DemSpawnGroups),
        EDemoCommands::with_number(16) == Some(EDemoCommands::DemAnimationData),
        EDemoCommands::with_number(17) == Some(EDemoCommands::DemAnimationHeader),
        EDemoCommands::with_number(18) == Some(EDemoCommands::DemRecovery),
        EDemoCommands::with_number(19) == Some(EDemoCommands::DemMax),
        EDemoCommands::with_number(64) == Some(EDemoCommands::DemIsCompressed),
        forall|n: int| n < -1 || 19 < n < 64 || n > 64 ==> #[trigger]
            EDemoCommands::with_number(n) is None,
{
}

/// Every signed number is read from its own 32 bits.
pub proof fn lemma_signed_round_trip(value: i32)
    ensures
        crate::demostream::same_bits_i32(bits_of_i32(value)) == value,
        bits_of_i32(value) <= u32::MAX,
{
}

proof fn lemma_varint_read(data: Seq<u8>, pos: int, value: u32, tail: Seq<u8>)
    requires
        0 <= pos <= data.len(),
        data.skip(pos) == crate::varint::encode(value as nat) + tail,
    ensures
        ({
            let code = crate::varint::encode(value as nat);
            &&& crate::demostream::varint_at(data, pos) == (
                Ok::<(nat, nat), VarintError>((value as nat, code.len())),
                pos + code.len(),
            )
            &&& pos + code.len() <= data.len()
            &&& data.skip(pos + code.len()) == tail
        }),
{
    let code = crate::varint::encode(value as nat);
    crate::varint::lemma_uvarint32_round_trip(value, tail);
    assert(data.skip(pos).len() == code.len() + tail.len());
    assert(data.skip(pos + code.len()) =~= data.skip(pos).skip(code.len() as int));
    assert((code + tail).skip(code.len() as int) =~= tail);
}

/// A header that has been written reads as itself, in exactly its bytes, whatever stands around it.
pub proof fn lemma_header_round_trip(before: Seq<u8>, header: CmdHeader, after: Seq<u8>)
    requires
        is_writable(header),
    ensures
        crate::demostream::header_at(
            before + header_bytes(header) + after,
            before.len() as int,
        ) == (
            Ok::<CmdHeader, ReadCmdHeaderError>(header),
            (before.len() + header_bytes(header).len()) as int,
        ),
{
    let raw = (header.cmd.number() + if header.body_compressed {
        64int
    } else {
        0int
    }) as u32;
    let tick = bits_of_i32(header.tick) as u32;
    let a = crate::varint::encode(raw as nat);
    let b = crate::varint::encode(tick as nat);
    let c = crate::varint::encode(header.body_size as nat);
    let data = before + header_bytes(header) + after;
    let pos = before.len() as int;
    assert(data.skip(pos) =~= a + (b + c + after));
    lemma_varint_read(data, pos, raw, b + c + after);
    assert(b + c + after =~= b + (c + after));
    lemma_varint_read(data, pos + a.len(), tick, c + after);
    lemma_varint_read(data, pos + a.len() + b.len(), header.body_size, after);
    lemma_commands_by_number();
    EDemoCommands::lemma_number(header.cmd, header.cmd.number());
    lemma_signed_round_trip(header.tick);
    assert(crate::demostream::uncompressed(raw as nat) == header.cmd.number());
    assert(crate::demostream::is_compressed(raw as nat) == header.body_compressed);
}

/// A number of which no command is the number is refused, whether or not it has the mark of compression,
/// and both forms of it are told.
pub proof fn lemma_unknown_command_is_refused(
    before: Seq<u8>,
    number: u32,
    compressed: bool,
    after: Seq<u8>,
)
    requires
        19 < number < 64 || number > 127,
        (number / 64) % 2 == 0,
        number < 0x8000_0000,
    ensures
        ({
            let raw = (number + if compressed {
                64int
            } else {
                0int
            }) as u32;
            crate::demostream::header_at(
                before + crate::varint::encode(raw as nat) + after,
                before.len() as int,
            ).0 == Err::<CmdHeader, ReadCmdHeaderError>(
                ReadCmdHeaderError::UnknownCmd { raw, uncompressed: number },
            )
        }),
{
    let raw = (number + if compressed {
        64int
    } else {
        0int
    }) as u32;
    let data = before + crate::varint::encode(raw as nat) + after;
    assert(data.skip(before.len() as int) =~= crate::varint::encode(raw as nat) + after);
    lemma_varint_read(data, before.len() as int, raw, after);
    assert(crate::demostream::uncompressed(raw as nat) == number);
    assert(EDemoCommands::with_number(number as int) is None);
}

/// A body that has been written reads as itself, and the stream ends right behind it. Where it is
/// compressed it reads as what it decompresses to, for which the room is left that the body leaves of
/// two mebibytes.
pub proof fn lemma_body_round_trip(
    tape: DemoTape,
    before: Seq<u8>,
    body: Seq<u8>,
    after: Seq<u8>,
    header: CmdHeader,
)
    requires
        tape.data == before + body + after,
        tape.pos == before.len(),
        header.body_size == body.len(),
        body.len() <= 2 * 1024 * 1024,
    ensures
        ({
            let (read, next) = tape.read_body(header);
            let unpacked = crate::snappy::unpacked(
                body,
                (2 * 1024 * 1024 - body.len()) as nat,
            );
            &&& next == tape.at((before.len() + body.len()) as int)
            &&& !header.body_compressed ==> read == Ok::<Seq<u8>, ReadCmdError>(body)
            &&& header.body_compressed && unpacked is Ok ==> read == Ok::<Seq<u8>, ReadCmdError>(
                unpacked->Ok_0,
            )
            &&& header.body_compressed && unpacked is Err ==> read == Err::<
                Seq<u8>,
                ReadCmdError,
            >(ReadCmdError::DecompressError(unpacked->Err_0))
        }),
{
    let rest = crate::demostream::rest(tape.data, tape.pos);
    assert(rest =~= body + after);
    assert(rest.take(body.len() as int) =~= body);
}

/// A body of which part is missing is refused, and with it the file has been read to its end. A body that
/// is larger than there is room for is refused before it is read.
pub proof fn lemma_cut_body_is_refused(tape: DemoTape, header: CmdHeader)
    requires
        0 <= tape.pos <= tape.data.len(),
    ensures
        header.body_size <= 2 * 1024 * 1024 && tape.pos + header.body_size > tape.data.len()
            ==> tape.read_body(header) == (
            Err::<Seq<u8>, ReadCmdError>(ReadCmdError::IoError(IoError::UnexpectedEof)),
            tape.at(tape.data.len() as int),
        ),
        header.body_size > 2 * 1024 * 1024 ==> tape.read_body(header) == (
            Err::<Seq<u8>, ReadCmdError>(
                ReadCmdError::BodyTooLarge { body_size: header.body_size },
            ),
            tape,
        ),
{
}

/// Positions are counted from the start, from the end or from where the stream is. One before the start,
/// or beyond what can be counted, is refused, and the stream stays.
pub proof fn lemma_seek_goes_there(tape: DemoTape, n: u64, offset: i64)
    requires
        0 <= tape.pos <= u64::MAX,
        tape.data.len() <= u64::MAX,
    ensures
        tape.seek(SeekFrom::Start(n)) == (Ok::<u64, IoError>(n), tape.at(n as int)),
        0 <= tape.pos + offset <= u64::MAX ==> tape.seek(SeekFrom::Current(offset)) == (
            Ok::<u64, IoError>((tape.pos + offset) as u64),
            tape.at(tape.pos + offset),
        ),
        !(0 <= tape.pos + offset <= u64::MAX) ==> tape.seek(SeekFrom::Current(offset)) == (
            Err::<u64, IoError>(IoError::InvalidInput),
            tape,
        ),
        0 <= tape.data.len() + offset <= u64::MAX ==> tape.seek(SeekFrom::End(offset)) == (
            Ok::<u64, IoError>((tape.data.len() + offset) as u64),
            tape.at(tape.data.len() + offset),
        ),
        !(0 <= tape.data.len() + offset <= u64::MAX) ==> tape.seek(SeekFrom::End(offset)) == (
            Err::<u64, IoError>(IoError::InvalidInput),
            tape,
        ),
        DemoFile::eof_checked(tape) == (Ok::<bool, IoError>(tape.pos == tape.data.len()), tape),
        DemoFile::position_read(tape) == (Ok::<u64, IoError>(tape.pos as u64), tape),
        DemoFile::start(tape) == 16,
{
}

/// The four bytes of a signed number, the lowest first.
pub open spec fn i32_bytes(value: i32) -> Seq<u8> {
    let bits = bits_of_i32(value);
    seq![
        (bits % 256) as u8,
        (bits / 256 % 256) as u8,
        (bits / 65536 % 256) as u8,
        (bits / 16777216) as u8,
    ]
}

/// A signed number that has been written in four bytes reads as itself.
pub proof fn lemma_i32_round_trip(data: Seq<u8>, pos: int, value: i32)
    requires
        0 <= pos,
        pos + 4 <= data.len(),
        data.subrange(pos, pos + 4) == i32_bytes(value),
    ensures
        crate::demofile::i32_at(data, pos) == value,
{
    let bytes = data.subrange(pos, pos + 4);
    assert(bytes[0] == data[pos] && bytes[1] == data[pos + 1] && bytes[2] == data[pos + 2]
        && bytes[3] == data[pos + 3]);
    lemma_signed_round_trip(value);
}

/// The summary is the body of the command that stands where the file's header says, whatever is known of
/// the file otherwise. Where the header names a place before the start, there is none.
pub proof fn lemma_summary_is_found(
    tape: DemoTape,
    before: Seq<u8>,
    header: CmdHeader,
    body: Seq<u8>,
    after: Seq<u8>,
)
    requires
        0 <= tape.pos <= u64::MAX,
        is_writable(header),
        !header.body_compressed,
        header.body_size == body.len(),
        body.len() <= 2 * 1024 * 1024,
        tape.data == before + header_bytes(header) + (body + after),
    ensures
        tape.demo_header.fileinfo_offset == before.len() ==> {
            &&& tape.encoded_file_info().0 == Ok::<Seq<u8>, FileInfoError>(body)
            &&& tape.file_info is None ==> tape.total_ticks().0 == Ok::<
                TotalTicksModel,
                FileInfoError,
            >(TotalTicksModel::Encoded { data: body, backup: tape.pos as u64 })
        },
        tape.demo_header.fileinfo_offset < 0 && tape.data.len() <= i64::MAX
            ==> tape.encoded_file_info().0 == Err::<Seq<u8>, FileInfoError>(
            FileInfoError::ReadCmdHeaderError(
                ReadCmdHeaderError::ReadVarintError(
                    VarintError::IoError(IoError::UnexpectedEof),
                ),
            ),
        ),
        forall|info: CDemoFileInfo|
            tape.file_info == Some(info) ==> #[trigger] tape.total_ticks() == (
                Ok::<TotalTicksModel, FileInfoError>(TotalTicksModel::Known(info.playback_ticks)),
                tape,
            ),
{
    lemma_header_round_trip(before, header, body + after);
    let at_body = tape.at((before.len() + header_bytes(header).len()) as int);
    assert(tape.data =~= (before + header_bytes(header)) + body + after);
    lemma_body_round_trip(at_body, before + header_bytes(header), body, after, header);
    if tape.demo_header.fileinfo_offset < 0 && tape.data.len() <= i64::MAX {
        let pos = crate::demofile::offset_position(tape.demo_header.fileinfo_offset as int);
        assert(crate::demostream::rest(tape.data, pos) =~= Seq::<u8>::empty());
        crate::varint::lemma_endless_is_refused(Seq::<u8>::empty(), 5, 32);
    }
}

/// Commands as they are written, one after the other, each with its body.
pub open spec fn cmds_bytes(cmds: Seq<(CmdHeader, Seq<u8>)>) -> Seq<u8>
    decreases cmds.len(),
{
    if cmds.len() == 0 {
        Seq::empty()
    } else {
        header_bytes(cmds[0].0) + cmds[0].1 + cmds_bytes(cmds.skip(1))
    }
}

proof fn lemma_cmds_bytes_first(
    before: Seq<u8>,
    cmds: Seq<(CmdHeader, Seq<u8>)>,
    after: Seq<u8>,
)
    requires
        cmds.len() > 0,
    ensures
        ({
            let (header, body) = cmds[0];
            let rest = cmds_bytes(cmds.skip(1));
            let data = before + cmds_bytes(cmds) + after;
            &&& data == before + header_bytes(header) + (body + rest + after)
            &&& data == (before + header_bytes(header) + body) + rest + after
        }),
{
    let (header, body) = cmds[0];
    let code = header_bytes(header);
    let rest = cmds_bytes(cmds.skip(1));
    let data = before + cmds_bytes(cmds) + after;
    assert(cmds_bytes(cmds) == code + body + rest);
    assert(data =~= before + code + (body + rest + after));
    assert(data =~= (before + code + body) + rest + after);
}

#[verifier::opaque]
spec fn listed(tape: DemoTape) -> crate::parser::Listing<DemoTape> {
    crate::parser::listing::<DemoFile>(tape)
}

#[verifier::opaque]
spec fn read_at(data: Seq<u8>, pos: int) -> (Result<CmdHeader, ReadCmdHeaderError>, int) {
    crate::demostream::header_at(data, pos)
}

proof fn lemma_listing_first(
    tape: DemoTape,
    before: Seq<u8>,
    header: CmdHeader,
    after: Seq<u8>,
)
    requires
        is_writable(header),
        tape.data == before + header_bytes(header) + after,
        tape.pos == before.len(),
        header.body_size <= after.len(),
        tape.data.len() <= u64::MAX,
    ensures
        ({
            let rest = listed(
                tape.at((before.len() + header_bytes(header).len() + header.body_size) as int),
            );
            &&& listed(tape).headers == seq![header] + rest.headers
            &&& listed(tape).result == rest.result
            &&& listed(tape).stream == rest.stream
        }),
{
    reveal(listed);
    lemma_header_round_trip(before, header, after);
    let next = (before.len() + header_bytes(header).len()) as int;
    assert(tape.read_header() == (
        Ok::<CmdHeader, ReadCmdHeaderError>(header),
        tape.at(next),
    ));
    assert(tape.at(next).skip_body(header) == (
        Ok::<(), IoError>(()),
        tape.at(next + header.body_size),
    ));
}

proof fn lemma_listing_last(tape: DemoTape)
    requires
        read_at(tape.data, tape.pos).0 is Err,
    ensures
        ({
            let (err, end) = read_at(tape.data, tape.pos);
            &&& listed(tape).headers == Seq::<CmdHeader>::empty()
            &&& listed(tape).result == if end == tape.data.len() {
                Ok::<(), ParserError>(())
            } else {
                Err::<(), ParserError>(ParserError::ReadCmdHeaderError(err->Err_0))
            }
            &&& listed(tape).stream == tape.at(end)
        }),
{
    reveal(listed);
    reveal(read_at);
}

proof fn lemma_listing_of_cmds(
    tape: DemoTape,
    before: Seq<u8>,
    cmds: Seq<(CmdHeader, Seq<u8>)>,
    after: Seq<u8>,
)
    requires
        tape.data == before + cmds_bytes(cmds) + after,
        tape.pos == before.len(),
        tape.data.len() <= u64::MAX,
        forall|i: int|
            0 <= i < cmds.len() ==> is_writable((#[trigger] cmds[i]).0) && cmds[i].0.body_size
                == cmds[i].1.len(),
        read_at(tape.data, tape.data.len() - after.len()).0 is Err,
    ensures
        ({
            let (err, end) = read_at(tape.data, tape.data.len() - after.len());
            &&& listed(tape).headers == cmds.map_values(|cmd: (CmdHeader, Seq<u8>)| cmd.0)
            &&& listed(tape).result == if end == tape.data.len() {
                Ok::<(), ParserError>(())
            } else {
                Err::<(), ParserError>(ParserError::ReadCmdHeaderError(err->Err_0))
            }
            &&& listed(tape).stream == tape.at(end)
        }),
    decreases cmds.len(),
{
    let headers = cmds.map_values(|cmd: (CmdHeader, Seq<u8>)| cmd.0);
    if cmds.len() == 0 {
        assert(before + cmds_bytes(cmds) =~= before);
        lemma_listing_last(tape);
        assert(listed(tape).headers =~= headers);
    } else {
        let (header, body) = cmds[0];
        let code = header_bytes(header);
        let rest = cmds_bytes(cmds.skip(1));
        let behind = before + code + body;
        lemma_cmds_bytes_first(before, cmds, after);
        lemma_listing_first(tape, before, header, body + rest + after);
        assert forall|i: int| 0 <= i < cmds.skip(1).len() implies is_writable(
            (#[trigger] cmds.skip(1)[i]).0,
        ) && cmds.skip(1)[i].0.body_size == cmds.skip(1)[i].1.len() by {
            assert(cmds.skip(1)[i] == cmds[i + 1]);
        }
        lemma_listing_of_cmds(tape.at(behind.len() as int), behind, cmds.skip(1), after);
        assert(headers =~= seq![header] + cmds.skip(1).map_values(
            |cmd: (CmdHeader, Seq<u8>)| cmd.0,
        ));
    }
}

/// A listing finds exactly the commands that have been written, in their order. Behind them no header can
/// be read: that is the end where the file is read to its end with that, and otherwise an error.
pub proof fn lemma_listing_round_trip(
    tape: DemoTape,
    before: Seq<u8>,
    cmds: Seq<(CmdHeader, Seq<u8>)>,
    after: Seq<u8>,
)
    requires
        tape.data == before + cmds_bytes(cmds) + after,
        tape.pos == before.len(),
        tape.data.len() <= u64::MAX,
        forall|i: int|
            0 <= i < cmds.len() ==> is_writable((#[trigger] cmds[i]).0) && cmds[i].0.body_size
                == cmds[i].1.len(),
        crate::demostream::header_at(tape.data, tape.data.len() - after.len()).0 is Err,
    ensures
        ({
            let listing = crate::parser::listing::<DemoFile>(tape);
            let (err, end) = crate::demostream::header_at(
                tape.data,
                tape.data.len() - after.len(),
            );
            &&& listing.headers == cmds.map_values(|cmd: (CmdHeader, Seq<u8>)| cmd.0)
            &&& listing.result == if end == tape.data.len() {
                Ok::<(), ParserError>(())
            } else {
                Err::<(), ParserError>(ParserError::ReadCmdHeaderError(err->Err_0))
            }
            &&& listing.stream == tape.at(end)
        }),
{
    reveal(read_at);
    reveal(listed);
    lemma_listing_of_cmds(tape, before, cmds, after);
}

/// Where nothing follows, no header can be read, and that is the end of the file.
pub proof fn lemma_end_of_file(data: Seq<u8>)
    ensures
        crate::demostream::header_at(data, data.len() as int) == (
            Err::<CmdHeader, ReadCmdHeaderError>(
                ReadCmdHeaderError::ReadVarintError(
                    VarintError::IoError(IoError::UnexpectedEof),
                ),
            ),
            data.len() as int,
        ),
{
    assert(crate::demostream::rest(data, data.len() as int) =~= Seq::<u8>::empty());
    crate::varint::lemma_endless_is_refused(Seq::<u8>::empty(), 5, 32);
}

/// The ticks that a scan gives are those of the full packets, each at the place of its number, and of
/// nothing else.
pub proof fn lemma_ticks_by_number(headers: Seq<CmdHeader>, i: int)
    requires
        0 <= i < headers.len(),
        headers[i].cmd == EDemoCommands::DemFullPacket,
    ensures
        ({
            let number = crate::run::full_packets(headers.take(i)) as int;
            let ticks = crate::parser::full_packet_ticks(headers);
            &&& ticks.len() == crate::run::full_packets(headers)
            &&& number < ticks.len()
            &&& ticks[number] == headers[i].tick
        }),
    decreases headers.len(),
{
    crate::parser::lemma_scan_is_complete(headers);
    crate::parser::lemma_full_packet_ticks_first(headers);
    if i == 0 {
        assert(headers.take(0).len() == 0);
    } else {
        lemma_ticks_by_number(headers.skip(1), i - 1);
        assert(headers.take(i).skip(1) =~= headers.skip(1).take(i - 1));
    }
}

/// A scan of a file gives the ticks of all full packets that have been written, in their order, whatever
/// had been played before, and leaves the parser at the first command with nothing played. Where what
/// follows the last command is no header, and is not just cut off by the end of the file, the scan fails.
pub proof fn lemma_scan_of_file<S, E>(
    parser: ParserModel<DemoTape, S, E>,
    start: Seq<u8>,
    cmds: Seq<(CmdHeader, Seq<u8>)>,
    rest: Seq<u8>,
)
    requires
        start.len() == 16,
        parser.stream.data == start + cmds_bytes(cmds) + rest,
        parser.stream.data.len() <= u64::MAX,
        forall|i: int|
            0 <= i < cmds.len() ==> is_writable((#[trigger] cmds[i]).0) && cmds[i].0.body_size
                == cmds[i].1.len(),
        ({
            let data = parser.stream.data;
            crate::demostream::header_at(data, data.len() - rest.len()).0 is Err
        }),
    ensures
        ({
            let data = parser.stream.data;
            let (err, end) = crate::demostream::header_at(data, data.len() - rest.len());
            let (after, ticks) = crate::parser::full_packets_scanned::<DemoFile, S, E>(parser);
            &&& end != data.len() ==> ticks == Err::<Seq<i32>, ParserError>(
                ParserError::ReadCmdHeaderError(err->Err_0),
            )
            &&& end == data.len() ==> {
                &&& ticks is Ok
                &&& ticks->Ok_0 == crate::parser::full_packet_ticks(
                    cmds.map_values(|cmd: (CmdHeader, Seq<u8>)| cmd.0),
                )
                &&& after.stream == parser.stream.at(16)
                &&& after.playback.ctx.tick == -1
                &&& after.playback.ctx.prev_tick == -1
                &&& after.playback.ctx.string_tables.len() == 0
                &&& after.playback.ctx.instance_baseline.len() == 0
                &&& after.playback.ctx.entities is None
                &&& after.playback.ctx.serializers == parser.playback.ctx.serializers
                &&& after.playback.ctx.entity_classes == parser.playback.ctx.entity_classes
                &&& after.playback.ctx.tick_interval == parser.playback.ctx.tick_interval
                &&& after.playback.ctx.full_packet_interval
                    == parser.playback.ctx.full_packet_interval
            }
        }),
{
    lemma_listing_round_trip(parser.stream.at(16), start, cmds, rest);
}

/// A header that the end of the file cuts off is no header, and with it the file has been read to its end.
pub proof fn lemma_cut_header_is_end(before: Seq<u8>, header: CmdHeader, n: int)
    requires
        is_writable(header),
        0 <= n < header_bytes(header).len(),
    ensures
        ({
            let data = before + header_bytes(header).take(n);
            crate::demostream::header_at(data, before.len() as int) == (
                Err::<CmdHeader, ReadCmdHeaderError>(
                    ReadCmdHeaderError::ReadVarintError(
                        VarintError::IoError(IoError::UnexpectedEof),
                    ),
                ),
                data.len() as int,
            )
        }),
{
    let raw = (header.cmd.number() + if header.body_compressed {
        64int
    } else {
        0int
    }) as u32;
    let tick = bits_of_i32(header.tick) as u32;
    let a = crate::varint::encode(raw as nat);
    let b = crate::varint::encode(tick as nat);
    let c = crate::varint::encode(header.body_size as nat);
    let code = header_bytes(header);
    let data = before + code.take(n);
    let pos = before.len() as int;
    assert(code =~= a + (b + c));
    if n < a.len() {
        assert(data.skip(pos) =~= a.take(n));
        lemma_cut_varint(data, pos, raw, n);
    } else {
        assert(data.skip(pos) =~= a + (b + c).take(n - a.len()));
        lemma_varint_read(data, pos, raw, (b + c).take(n - a.len()));
        lemma_commands_by_number();
        EDemoCommands::lemma_number(header.cmd, header.cmd.number());
        assert(crate::demostream::uncompressed(raw as nat) == header.cmd.number());
        let pos = pos + a.len();
        let n = n - a.len();
        if n < b.len() {
            assert(data.skip(pos) =~= b.take(n));
            lemma_cut_varint(data, pos, tick, n);
        } else {
            assert(data.skip(pos) =~= b + c.take(n - b.len()));
            lemma_varint_read(data, pos, tick, c.take(n - b.len()));
            lemma_cut_varint(data, pos + b.len(), header.body_size, n - b.len());
        }
    }
}

proof fn lemma_cut_varint(data: Seq<u8>, pos: int, value: u32, n: int)
    requires
        0 <= pos <= data.len(),
        0 <= n < crate::varint::encode(value as nat).len(),
        data.skip(pos) == crate::varint::encode(value as nat).take(n),
    ensures
        crate::demostream::varint_at(data, pos) == (
            Err::<(nat, nat), VarintError>(VarintError::IoError(IoError::UnexpectedEof)),
            data.len() as int,
        ),
{
    let code = crate::varint::encode(value as nat);
    crate::varint::lemma_encode_continues(value as nat);
    crate::varint::lemma_uvarint32_round_trip(value, Seq::empty());
    crate::varint::lemma_continued_bound(code + Seq::<u8>::empty(), 5);
    assert(data.skip(pos).len() == n);
    assert forall|i: int| 0 <= i < n implies (#[trigger] data.skip(pos)[i]) >= 0x80 by {
        assert(code[i] >= 0x80);
    }
    crate::varint::lemma_endless_is_refused(data.skip(pos), 5, 32);
}

/// An integer that is too long is refused, and has been read as far as is allowed.
pub proof fn lemma_endless_header_is_refused(data: Seq<u8>, pos: int)
    requires
        0 <= pos,
        pos + 5 <= data.len(),
        forall|i: int| pos <= i < pos + 5 ==> (#[trigger] data[i]) >= 0x80,
    ensures
        crate::demostream::header_at(data, pos) == (
            Err::<CmdHeader, ReadCmdHeaderError>(
                ReadCmdHeaderError::ReadVarintError(VarintError::MalformedVarint),
            ),
            pos + 5,
        ),
{
    assert forall|i: int| 0 <= i < 5 implies (#[trigger] data.skip(pos)[i]) >= 0x80 by {
        assert(data[pos + i] >= 0x80);
    }
    crate::varint::lemma_too_long_is_refused(data.skip(pos));
}

} // verus!
