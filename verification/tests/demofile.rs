use haste::demofile::{
    read_demo_header, CDemoFileInfo, DemoFile, DemoHeaderError, FileInfoError, FileInfoSource,
    DEMO_HEADER_SIZE, DEMO_RECORD_BUFFER_SIZE,
};
use haste::demostream::{
    CmdHeader, DemoStream, EDemoCommands, IoError, ReadCmdError, ReadCmdHeaderError, SeekFrom,
    SeekableDemoStream, TotalTicks,
};
use haste::snappy::unpack;
use haste::varint::{read_uvarint32, VarintError};

fn varint(mut value: u32) -> Vec<u8> {
    let mut bytes = Vec::new();
    while value >= 0x80 {
        bytes.push((value % 0x80) as u8 + 0x80);
        value /= 0x80;
    }
    bytes.push(value as u8);
    bytes
}

fn cmd(number: u32, tick: i32, body: &[u8]) -> Vec<u8> {
    let mut bytes = varint(number);
    bytes.extend(varint(tick as u32));
    bytes.extend(varint(body.len() as u32));
    bytes.extend_from_slice(body);
    bytes
}

fn file(fileinfo_offset: i32, cmds: &[Vec<u8>]) -> Vec<u8> {
    let mut bytes = b"PBDEMS2\0".to_vec();
    bytes.extend_from_slice(&fileinfo_offset.to_le_bytes());
    bytes.extend_from_slice(&(-7i32).to_le_bytes());
    for cmd in cmds {
        bytes.extend_from_slice(cmd);
    }
    bytes
}

fn compress(bytes: &[u8]) -> Vec<u8> {
    snap::raw::Encoder::new().compress_vec(bytes).unwrap()
}

#[test]
fn demo_header_is_read() {
    let data = file(0x0102_0304, &[]);
    let header = read_demo_header(&data).unwrap();
    assert_eq!(&header.demofilestamp, b"PBDEMS2\0");
    assert_eq!(header.fileinfo_offset, 0x0102_0304);
    assert_eq!(header.spawngroups_offset, -7);

    let demo = DemoFile::start_reading(data).unwrap();
    assert_eq!(demo.demo_header().fileinfo_offset, 0x0102_0304);
    assert_eq!(demo.start_position(), 16);
    assert_eq!(DEMO_HEADER_SIZE, 16);
}

#[test]
fn wrong_stamp_is_refused() {
    let mut data = file(0, &[]);
    data[6] = b'1';
    match DemoFile::start_reading(data) {
        Err(DemoHeaderError::InvalidDemoFileStamp { got }) => assert_eq!(&got, b"PBDEMS1\0"),
        other => panic!("{:?}", other),
    }
}

#[test]
fn short_header_is_refused() {
    for len in [0, 7, 8, 12, 15] {
        let mut data = file(0, &[]);
        data.truncate(len);
        assert!(matches!(
            DemoFile::start_reading(data),
            Err(DemoHeaderError::IoError(IoError::UnexpectedEof))
        ));
    }
}

#[test]
fn wrong_stamp_comes_before_short_header() {
    let data = b"HL2DEMO\0".to_vec();
    assert!(matches!(
        DemoFile::start_reading(data),
        Err(DemoHeaderError::InvalidDemoFileStamp { .. })
    ));
}

#[test]
fn commands_are_read_in_turn() {
    let data = file(0, &[cmd(1, -1, b"one"), cmd(7, 300, b"seven!"), cmd(0, 301, b"")]);
    let mut demo = DemoFile::start_reading(data).unwrap();

    let header = demo.read_cmd_header().unwrap();
    assert_eq!(
        header,
        CmdHeader {
            cmd: EDemoCommands::DemFileHeader,
            body_compressed: false,
            tick: -1,
            body_size: 3,
            size: 7,
        }
    );
    assert_eq!(demo.read_cmd(&header).unwrap(), b"one");

    let header = demo.read_cmd_header().unwrap();
    assert_eq!(header.cmd, EDemoCommands::DemPacket);
    assert_eq!(header.tick, 300);
    assert_eq!(header.size, 4);
    assert_eq!(demo.skip_cmd(&header), Ok(()));

    assert_eq!(demo.is_at_eof(), Ok(false));
    let header = demo.read_cmd_header().unwrap();
    assert_eq!(header.cmd, EDemoCommands::DemStop);
    assert_eq!(demo.read_cmd(&header).unwrap(), b"");
    assert_eq!(demo.is_at_eof(), Ok(true));

    assert_eq!(
        demo.read_cmd_header(),
        Err(ReadCmdHeaderError::ReadVarintError(VarintError::IoError(IoError::UnexpectedEof)))
    );
    assert_eq!(demo.is_at_eof(), Ok(true));
}

#[test]
fn compressed_body_is_decompressed() {
    let body: Vec<u8> = (0..1000u32).map(|i| (i % 7) as u8).collect();
    let packed = compress(&body);
    assert_ne!(packed, body);
    let mut demo = DemoFile::start_reading(file(0, &[cmd(7 + 64, 5, &packed)])).unwrap();
    let header = demo.read_cmd_header().unwrap();
    assert_eq!(header.cmd, EDemoCommands::DemPacket);
    assert!(header.body_compressed);
    assert_eq!(header.body_size as usize, packed.len());
    assert_eq!(demo.read_cmd(&header).unwrap(), body);
    assert_eq!(demo.is_at_eof(), Ok(true));
}

#[test]
fn body_that_does_not_decompress_is_refused() {
    let mut demo = DemoFile::start_reading(file(0, &[cmd(7 + 64, 5, b"\xff\xff")])).unwrap();
    let header = demo.read_cmd_header().unwrap();
    assert!(matches!(demo.read_cmd(&header), Err(ReadCmdError::DecompressError(_))));
}

#[test]
fn compressed_and_decompressed_share_the_room() {
    let body = vec![0u8; DEMO_RECORD_BUFFER_SIZE];
    let packed = compress(&body);
    let mut demo = DemoFile::start_reading(file(0, &[cmd(7 + 64, 5, &packed)])).unwrap();
    let header = demo.read_cmd_header().unwrap();
    assert!(matches!(demo.read_cmd(&header), Err(ReadCmdError::DecompressError(_))));

    let mut shorter = DEMO_RECORD_BUFFER_SIZE - packed.len();
    let mut packed = compress(&body[..shorter]);
    while packed.len() + shorter > DEMO_RECORD_BUFFER_SIZE {
        shorter -= 1;
        packed = compress(&body[..shorter]);
    }
    let mut demo = DemoFile::start_reading(file(0, &[cmd(7 + 64, 5, &packed)])).unwrap();
    let header = demo.read_cmd_header().unwrap();
    assert_eq!(demo.read_cmd(&header).unwrap().len(), shorter);
}

#[test]
fn decompressed_data_has_the_announced_length() {
    let body = vec![7u8; 300];
    let packed = compress(&body);
    assert_eq!(packed[..2], [0xac, 0x02]);
    assert_eq!(unpack(&packed, 300).unwrap(), body);
    assert_eq!(unpack(&packed, 1000).unwrap(), body);
    assert!(matches!(
        unpack(&packed, 299),
        Err(snap::Error::BufferTooSmall { given: 299, min: 300 })
    ));
    assert!(matches!(unpack(&[], 10), Err(snap::Error::Empty)));
    assert!(matches!(unpack(&[0x80; 6], 10), Err(snap::Error::Header)));
    assert!(matches!(unpack(&[0x80], 10), Err(snap::Error::Header)));
    assert!(matches!(
        unpack(&[0x80, 0x80, 0x80, 0x80, 0x10], 10),
        Err(snap::Error::TooBig { given: 4294967296, max: 4294967295 })
    ));
}

#[test]
fn oversized_body_is_refused() {
    let mut bytes = varint(7);
    bytes.extend(varint(1));
    bytes.extend(varint(DEMO_RECORD_BUFFER_SIZE as u32 + 1));
    let mut demo = DemoFile::start_reading(file(0, &[bytes])).unwrap();
    let header = demo.read_cmd_header().unwrap();
    assert!(matches!(
        demo.read_cmd(&header),
        Err(ReadCmdError::BodyTooLarge { body_size: 2097153 })
    ));
}

#[test]
fn truncated_body_is_refused() {
    let mut data = file(0, &[cmd(7, 1, b"abcdef")]);
    data.pop();
    let mut demo = DemoFile::start_reading(data).unwrap();
    let header = demo.read_cmd_header().unwrap();
    assert!(matches!(
        demo.read_cmd(&header),
        Err(ReadCmdError::IoError(IoError::UnexpectedEof))
    ));
    assert_eq!(demo.is_at_eof(), Ok(true));
}

#[test]
fn unknown_command_is_refused() {
    let mut demo = DemoFile::start_reading(file(0, &[cmd(20 + 64, 1, b"")])).unwrap();
    assert_eq!(
        demo.read_cmd_header(),
        Err(ReadCmdHeaderError::UnknownCmd { raw: 84, uncompressed: 20 })
    );
}

#[test]
fn endless_varint_is_refused() {
    let mut demo = DemoFile::start_reading(file(0, &[vec![0xff; 6]])).unwrap();
    assert_eq!(
        demo.read_cmd_header(),
        Err(ReadCmdHeaderError::ReadVarintError(VarintError::MalformedVarint))
    );
}

#[test]
fn commands_by_number() {
    assert_eq!(EDemoCommands::from_number(-1), Some(EDemoCommands::DemError));
    assert_eq!(EDemoCommands::from_number(0), Some(EDemoCommands::DemStop));
    assert_eq!(EDemoCommands::from_number(3), Some(EDemoCommands::DemSyncTick));
    assert_eq!(EDemoCommands::from_number(4), Some(EDemoCommands::DemSendTables));
    assert_eq!(EDemoCommands::from_number(5), Some(EDemoCommands::DemClassInfo));
    assert_eq!(EDemoCommands::from_number(8), Some(EDemoCommands::DemSignonPacket));
    assert_eq!(EDemoCommands::from_number(13), Some(EDemoCommands::DemFullPacket));
    assert_eq!(EDemoCommands::from_number(64), Some(EDemoCommands::DemIsCompressed));
    assert_eq!(EDemoCommands::from_number(20), None);
    assert_eq!(EDemoCommands::from_number(-2), None);
}

#[test]
fn unreading_a_header_goes_back() {
    let data = file(0, &[cmd(7, 300, b"body"), cmd(7, 301, b"next")]);
    let mut demo = DemoFile::start_reading(data).unwrap();
    let header = demo.read_cmd_header().unwrap();
    assert_eq!(demo.stream_position(), Ok(20));
    assert_eq!(demo.unread_cmd_header(&header), Ok(()));
    assert_eq!(demo.stream_position(), Ok(16));
    assert_eq!(demo.read_cmd_header(), Ok(header));
}

#[test]
fn reading_and_skipping_lead_to_the_same_place() {
    let packed = compress(b"some body some body some body");
    let data = file(0, &[cmd(7 + 64, 300, &packed), cmd(7, 301, b"next")]);
    let mut reads = DemoFile::start_reading(data.clone()).unwrap();
    let mut skips = DemoFile::start_reading(data).unwrap();
    let header = reads.read_cmd_header().unwrap();
    reads.read_cmd(&header).unwrap();
    let header = skips.read_cmd_header().unwrap();
    skips.skip_cmd(&header).unwrap();
    assert_eq!(reads.stream_position(), skips.stream_position());
}

#[test]
fn seeking() {
    let data = file(0, &[cmd(7, 1, b"abc")]);
    let len = data.len() as u64;
    let mut demo = DemoFile::start_reading(data).unwrap();
    assert_eq!(demo.stream_position(), Ok(16));
    assert_eq!(demo.seek(SeekFrom::Current(2)), Ok(18));
    assert_eq!(demo.seek(SeekFrom::Current(-19)), Err(IoError::InvalidInput));
    assert_eq!(demo.stream_position(), Ok(18));
    assert_eq!(demo.seek(SeekFrom::End(-1)), Ok(len - 1));
    assert_eq!(demo.stream_len(), Ok(len));
    assert_eq!(demo.stream_position(), Ok(len - 1));
    assert_eq!(demo.seek(SeekFrom::Start(u64::MAX)), Ok(u64::MAX));
    assert_eq!(demo.is_at_eof(), Ok(false));
    assert_eq!(demo.seek(SeekFrom::Current(1)), Err(IoError::InvalidInput));
    let header = CmdHeader {
        cmd: EDemoCommands::DemPacket,
        body_compressed: false,
        tick: 0,
        body_size: 1,
        size: 3,
    };
    assert_eq!(demo.skip_cmd(&header), Err(IoError::InvalidInput));
}

#[test]
fn file_info_is_read_from_its_offset_and_the_stream_goes_back() {
    let first = cmd(7, 1, b"abc");
    let offset = 16 + first.len() as i32;
    let data = file(offset, &[first, cmd(2, 900, b"the summary")]);
    let mut demo = DemoFile::start_reading(data).unwrap();
    demo.read_cmd_header().unwrap();
    match demo.total_ticks() {
        Ok(TotalTicks::Encoded { data, backup }) => {
            assert_eq!(data, b"the summary");
            assert_eq!(backup, 19);
            demo.seek(SeekFrom::Start(backup)).unwrap();
        }
        other => panic!("{:?}", other),
    }
    match demo.file_info() {
        Ok(FileInfoSource::Encoded { data, backup }) => {
            assert_eq!(data, b"the summary");
            assert_eq!(backup, 19);
            demo.set_file_info(CDemoFileInfo { playback_ticks: 900 }, backup);
        }
        other => panic!("{:?}", other),
    }
    assert_eq!(demo.stream_position(), Ok(19));
    assert!(matches!(demo.total_ticks(), Ok(TotalTicks::Known(900))));
    assert_eq!(demo.stream_position(), Ok(19));
    match demo.file_info() {
        Ok(FileInfoSource::Known(info)) => assert_eq!(info.playback_ticks, 900),
        other => panic!("{:?}", other),
    }
}

#[test]
fn file_info_beyond_the_file() {
    for offset in [-1, 1000] {
        let mut demo = DemoFile::start_reading(file(offset, &[])).unwrap();
        assert!(matches!(
            demo.file_info(),
            Err(FileInfoError::ReadCmdHeaderError(ReadCmdHeaderError::ReadVarintError(
                VarintError::IoError(IoError::UnexpectedEof)
            )))
        ));
        let mut demo = DemoFile::start_reading(file(offset, &[])).unwrap();
        assert!(matches!(demo.total_ticks(), Err(FileInfoError::ReadCmdHeaderError(_))));
    }
}

#[test]
fn file_info_with_truncated_body() {
    let mut data = file(16, &[cmd(2, 900, b"the summary")]);
    data.pop();
    let mut demo = DemoFile::start_reading(data).unwrap();
    assert!(matches!(
        demo.file_info(),
        Err(FileInfoError::ReadCmdError(ReadCmdError::IoError(IoError::UnexpectedEof)))
    ));
}

#[test]
fn varint_round_trip() {
    for value in [0u32, 1, 127, 128, 300, 16383, 16384, 1 << 28, u32::MAX] {
        let bytes = varint(value);
        let mut pos = 0;
        assert_eq!(read_uvarint32(&bytes, &mut pos), Ok((value, bytes.len())));
        assert_eq!(pos, bytes.len());
    }
}

#[test]
fn varint_ends_early() {
    let mut pos = 0;
    assert_eq!(
        read_uvarint32(&[0x80, 0x80], &mut pos),
        Err(VarintError::IoError(IoError::UnexpectedEof))
    );
    assert_eq!(pos, 2);
}
