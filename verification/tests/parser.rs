use haste::demofile::DemoFile;
use haste::demostream::{
    CmdHeader, DemoStream, EDemoCommands, IoError, ReadCmdError, ReadCmdHeaderError,
    SeekableDemoStream,
};
use haste::bitreader::BitError;
use haste::instancebaseline::UpdateBaselineError;
use haste::messages::{
    CDemoFullPacket, CDemoPacket, CsvcMsgCreateStringTable, CsvcMsgPacketEntities,
    CsvcMsgUpdateStringTable, DeltaHeader, EntityClasses, TickInterval, SVC_CREATE_STRING_TABLE,
    SVC_PACKET_ENTITIES, SVC_SERVER_INFO, SVC_UPDATE_STRING_TABLE,
};
use haste::parser::Parser;
use haste::playback::{Action, CmdFlow, Event, ParserError, Playback};
use haste::streaming::AsyncStreamingParser;
use haste::stringtables::{StringTableContainer, StringTableItem, TableLayout};
use haste::varint::VarintError;

/// A visitor that writes down what it is shown while it is told to.
#[derive(Debug)]
struct Notes {
    collecting: bool,
    lines: Vec<String>,
}

impl Notes {
    fn new() -> Self {
        Notes { collecting: true, lines: Vec::new() }
    }

    fn note(&mut self, line: String) {
        if self.collecting {
            self.lines.push(line);
        }
    }
}

type Player = Parser<DemoFile, Notes, u32, Vec<i32>>;

#[derive(Default)]
struct Bits {
    bits: Vec<bool>,
}

impl Bits {
    fn put(mut self, value: u64, width: usize) -> Self {
        for i in 0..width {
            self.bits.push((value >> i) & 1 == 1);
        }
        self
    }

    /// A number of at most 32 bits, in its longest form.
    fn put_ubitvar(self, value: u32) -> Self {
        self.put((value % 16) as u64, 4).put(3, 2).put((value / 16) as u64, 28)
    }

    fn message(self, command: u32, body: &[u8]) -> Self {
        assert!(body.len() < 128);
        let mut bits = self.put_ubitvar(command).put(body.len() as u64, 8);
        for byte in body {
            bits = bits.put(*byte as u64, 8);
        }
        bits
    }

    fn bytes(self) -> Vec<u8> {
        let mut bytes = vec![0u8; (self.bits.len() + 7) / 8];
        for (i, bit) in self.bits.iter().enumerate() {
            if *bit {
                bytes[i / 8] |= 1 << (i % 8);
            }
        }
        bytes
    }
}

fn varint(mut value: u32) -> Vec<u8> {
    let mut bytes = Vec::new();
    while value >= 0x80 {
        bytes.push((value % 0x80) as u8 + 0x80);
        value /= 0x80;
    }
    bytes.push(value as u8);
    bytes
}

fn cmd(number: u32, tick: i32, body: &[u8]) -> Vec<u8> {
    let mut bytes = varint(number);
    bytes.extend(varint(tick as u32));
    bytes.extend(varint(body.len() as u32));
    bytes.extend_from_slice(body);
    bytes
}

fn player(cmds: &[Vec<u8>]) -> Player {
    let mut bytes = b"PBDEMS2\0\0\0\0\0\0\0\0\0".to_vec();
    for cmd in cmds {
        bytes.extend_from_slice(cmd);
    }
    let file = DemoFile::start_reading(bytes).unwrap();
    Parser::from_stream_with_visitor(file, Notes::new()).unwrap()
}

/// What comes of an action in these tests: bodies are packets as they are, and messages are plain
/// bytes.
fn outcome(action: Action, body: &[u8], message: &[u8]) -> Event<u32, Vec<i32>> {
    let layout = TableLayout {
        user_data_fixed_size: false,
        user_data_size: 0,
        user_data_size_bits: 0,
        flags: 0,
        using_varint_bitcounts: false,
    };
    match action {
        Action::DecodePacket => Event::Packet(CDemoPacket { data: Some(body.to_vec()) }),
        Action::DecodeSendTables => Event::SendTables(body.len() as u32),
        Action::DecodeClassInfo => Event::ClassInfo(EntityClasses { classes: body[0] as usize }),
        Action::DecodeFullPacket => Event::FullPacket(CDemoFullPacket {
            has_string_table: body.get(0) == Some(&1),
            packet: Some(CDemoPacket { data: body.get(1..).map(|bytes| bytes.to_vec()) }),
        }),
        Action::UpdateAllTables => {
            let mut tables = StringTableContainer::new();
            tables.create_string_table("instancebaseline".to_string(), layout);
            tables.set_items(
                0,
                vec![StringTableItem {
                    string: Some(b"1".to_vec()),
                    user_data: Some(b"snapshot".to_vec()),
                }],
            );
            Event::AllTables(tables)
        }
        Action::DecodeCreateStringTable => Event::CreateStringTable(CsvcMsgCreateStringTable {
            name: "instancebaseline".to_string(),
            layout,
            num_entries: 1,
            data_compressed: message[0] == 1,
            string_data: message[1..].to_vec(),
        }),
        Action::DecodeUpdateStringTable => Event::UpdateStringTable(CsvcMsgUpdateStringTable {
            table_id: message[0] as i8 as i32,
            num_changed_entries: 1,
            string_data: message[1..].to_vec(),
        }),
        Action::DecodeServerInfo => Event::ServerInfo(if message.is_empty() {
            None
        } else {
            Some(TickInterval { bits: 0x3c88_8889, ratio: message[0] as i32 * 1000 })
        }),
        Action::DecodePacketEntities => Event::PacketEntities(CsvcMsgPacketEntities {
            updated_entries: message[0] as i32,
            entity_data: message[1..].to_vec(),
        }),
        other => panic!("{:?}", other),
    }
}

/// Performs `action` and all that follow, until nothing is pending.
fn drive(player: &mut Player, mut action: Action) -> Result<(), ParserError> {
    let mut body: Vec<u8> = Vec::new();
    loop {
        action = match action {
            Action::Idle => return Ok(()),
            Action::NextCmd => player.next_cmd_seekable()?,
            Action::SetCollecting { collecting } => {
                player.visitor_mut().collecting = collecting;
                player.step(Event::Done)?
            }
            Action::OnCmd { header } => {
                body = player.read_cmd()?;
                player.visitor_mut().note(format!("{:?}@{}", header.cmd, header.tick));
                player.step(Event::Done)?
            }
            Action::OnPacket { command } => {
                let (notes, playback) = player.visitor_and_playback();
                let line = format!("message {} {:?}", command, playback.message());
                notes.note(line);
                player.step(Event::Done)?
            }
            Action::OnEntity { entity_index, delta_header } => {
                player.visitor_mut().note(format!("{:?} {}", delta_header, entity_index));
                player.step(Event::Done)?
            }
            Action::OnTickEnd => {
                let tick = player.context().tick();
                player.visitor_mut().note(format!("end of {}", tick));
                player.step(Event::Done)?
            }
            Action::ParseTableUpdate { .. } => {
                let data = player.playback().string_data().clone();
                let position = 8 * data.len();
                let name = vec![data[0]];
                let items = vec![StringTableItem {
                    string: Some(name),
                    user_data: Some(data[1..].to_vec()),
                }];
                player.step(Event::TableUpdated { items, position })?
            }
            Action::ReadDeltaHeader { .. } => {
                let cursor = player.playback().entity_data();
                let mut br = cursor.reader();
                let delta_header = match br.read_ubit64(2).unwrap() {
                    0 => DeltaHeader::Update,
                    1 => DeltaHeader::Leave,
                    2 => DeltaHeader::Create,
                    _ => DeltaHeader::Delete,
                };
                let position = br.position();
                player.step(Event::DeltaHeaderRead { delta_header, position })?
            }
            Action::CreateEntity { entity_index } => {
                let position = player.playback().entity_data().position();
                let mut entities = player.playback_mut().take_entities().unwrap_or_default();
                entities.push(entity_index);
                player.step(Event::EntityCreated {
                    entity_index: Some(entity_index),
                    present: true,
                    position,
                    entities: Some(entities),
                })?
            }
            Action::UpdateEntity { entity_index } => {
                let position = player.playback().entity_data().position();
                let entities = player.playback_mut().take_entities();
                let present = match &entities {
                    Some(entities) => entities.contains(&entity_index),
                    None => false,
                };
                player.step(Event::EntityUpdated { present, position, entities })?
            }
            Action::DeleteEntity { entity_index } | Action::LeaveEntity { entity_index } => {
                let mut entities = player.playback_mut().take_entities().unwrap_or_default();
                let present = entities.contains(&entity_index);
                entities.retain(|index| *index != entity_index);
                let entities = if entities.is_empty() { None } else { Some(entities) };
                player.step(Event::EntityGone { present, entities })?
            }
            other => {
                let message = player.playback().message().clone();
                player.step(outcome(other, &body, &message))?
            }
        };
    }
}

fn lines(player: Player) -> Vec<String> {
    player.into_visitor().lines
}

const PACKET: u32 = 7;
const SIGNON: u32 = 8;
const SYNC: u32 = 3;
const SEND_TABLES: u32 = 4;
const CLASS_INFO: u32 = 5;
const FULL: u32 = 13;

/// A demo with three full packets.
fn segmented() -> Vec<Vec<u8>> {
    let hello = Bits::default().message(200, b"hi").bytes();
    let full: Vec<u8> = [vec![1], Bits::default().message(201, b"full").bytes()].concat();
    vec![
        cmd(SIGNON, -1, &[]),
        cmd(SEND_TABLES, -1, b"tables"),
        cmd(CLASS_INFO, -1, &[2]),
        cmd(SYNC, -1, &[]),
        cmd(PACKET, 1, &hello),
        cmd(FULL, 1, &full),
        cmd(PACKET, 2, &hello),
        cmd(PACKET, 2, &[]),
        cmd(FULL, 1800, &full),
        cmd(SIGNON, 1801, &hello),
        cmd(PACKET, 1801, &hello),
        cmd(FULL, 3600, &full),
        cmd(PACKET, 3601, &hello),
    ]
}

#[test]
fn empty_demo() {
    let mut player = player(&[]);
    let action = player.run_to_end();
    assert_eq!(action, Action::NextCmd);
    assert!(drive(&mut player, action).is_ok());
    assert_eq!(player.context().tick(), -1);
    assert!(lines(player).is_empty());
}

#[test]
fn whole_demo_in_order() {
    let mut player = player(&segmented());
    let action = player.run_to_end();
    drive(&mut player, action).unwrap();
    assert_eq!(player.context().tick(), 3601);
    assert_eq!(player.context().serializers(), Some(&6));
    assert_eq!(player.context().entity_classes().unwrap().classes, 2);
    assert_eq!(player.context().instance_baseline().by_id(1), b"snapshot");
    assert!(player.context().string_tables().is_some());
    let lines = lines(player);
    assert_eq!(lines[..4], ["DemSignonPacket@-1", "DemSendTables@-1", "DemClassInfo@-1", "DemSyncTick@-1"]);
    assert_eq!(lines[4..7], ["DemPacket@1", "message 200 [104, 105]", "end of 1"]);
    assert_eq!(lines[7..9], ["DemFullPacket@1", "message 201 [102, 117, 108, 108]"]);
    assert_eq!(lines.len(), 27);
}

#[test]
fn segments_add_up_to_the_whole() {
    let mut whole = player(&segmented());
    let action = whole.run_to_end();
    drive(&mut whole, action).unwrap();

    let mut parts: Vec<String> = Vec::new();
    for ordinal in 0..3usize {
        let mut player = player(&segmented());
        let ticks = player.scan_full_packet_ticks().unwrap();
        assert_eq!(ticks, [1, 1800, 3600]);
        let action = player.run_full_packet(ordinal).unwrap();
        drive(&mut player, action).unwrap();
        let lines = lines(player);
        if ordinal > 0 {
            assert_eq!(lines[0], format!("DemFullPacket@{}", ticks[ordinal]));
        }
        parts.extend(lines);
    }
    assert_eq!(parts, lines(whole));
}

#[test]
fn segment_that_is_not_there() {
    let mut player = player(&segmented());
    let action = player.run_full_packet(3).unwrap();
    assert_eq!(action, Action::SetCollecting { collecting: false });
    drive(&mut player, action).unwrap();
    assert!(lines(player).is_empty());
}

#[test]
fn segment_ends_in_front_of_the_next_full_packet() {
    let mut player = player(&segmented());
    let action = player.run_full_packet(1).unwrap();
    drive(&mut player, action).unwrap();
    assert_eq!(player.context().tick(), 1801);
    let header = player.demo_stream_mut().read_cmd_header().unwrap();
    assert_eq!(header.cmd, EDemoCommands::DemFullPacket);
    assert_eq!(header.tick, 3600);
}

#[test]
fn entities_are_left_alone_in_warm_up() {
    let entities = Bits::default().message(SVC_PACKET_ENTITIES, &[0]).bytes();
    let cmds = vec![
        cmd(SIGNON, -1, &entities),
        cmd(FULL, 1, &[0]),
        cmd(FULL, 2, &[0]),
    ];
    // Without serializers the message could not be played.
    let mut first = player(&cmds);
    let action = first.run_full_packet(0).unwrap();
    assert!(matches!(
        drive(&mut first, action),
        Err(ParserError::EntityClassesNotAvailable)
    ));
    let mut second = player(&cmds);
    let action = second.run_full_packet(1).unwrap();
    drive(&mut second, action).unwrap();
    assert_eq!(lines(second), ["DemFullPacket@2", "end of 2"]);
}

#[test]
fn scan_leaves_the_stream_at_the_first_command() {
    let mut player = player(&segmented());
    let action = player.run_to_end();
    drive(&mut player, action).unwrap();
    assert_eq!(player.scan_full_packet_ticks().unwrap(), [1, 1800, 3600]);
    assert_eq!(player.scan_full_packet_ticks().unwrap(), [1, 1800, 3600]);
    assert_eq!(player.demo_stream_mut().stream_position(), Ok(16));
    assert_eq!(player.context().tick(), -1);
    assert!(player.context().string_tables().is_none());
    assert_eq!(player.context().serializers(), Some(&6));
}

#[test]
fn scan_of_a_broken_demo() {
    let mut cmds = segmented();
    cmds.push(vec![21, 0, 0]);
    let mut broken = player(&cmds);
    assert!(matches!(
        broken.scan_full_packet_ticks(),
        Err(ParserError::ReadCmdHeaderError(ReadCmdHeaderError::UnknownCmd {
            raw: 21,
            uncompressed: 21
        }))
    ));
    let mut cmds = segmented();
    let mut cut = cmd(PACKET, 3602, b"body");
    cut.truncate(5);
    cmds.push(cut);
    assert!(matches!(
        player(&cmds).scan_full_packet_ticks(),
        Err(ParserError::ReadCmdHeaderError(ReadCmdHeaderError::ReadVarintError(
            VarintError::IoError(IoError::UnexpectedEof)
        )))
    ));
}

#[test]
fn truncated_header_at_the_end_is_the_end() {
    let mut cmds = segmented();
    cmds.push(vec![7, 0x80]);
    assert_eq!(player(&cmds).scan_full_packet_ticks().unwrap(), [1, 1800, 3600]);
    let mut player = player(&cmds);
    let action = player.run_to_end();
    assert!(drive(&mut player, action).is_ok());
}

#[test]
fn unknown_command_ends_the_run() {
    let mut player = player(&[cmd(PACKET, 1, &[]), vec![21, 0, 0]]);
    let action = player.run_to_end();
    assert!(matches!(
        drive(&mut player, action),
        Err(ParserError::ReadCmdHeaderError(ReadCmdHeaderError::UnknownCmd { .. }))
    ));
    assert_eq!(player.playback().pending(), Action::Idle);
}

#[test]
fn body_that_is_cut_off_ends_the_run() {
    let mut body = cmd(PACKET, 1, b"abc");
    body.pop();
    let mut player = player(&[body]);
    let action = player.run_to_end();
    assert!(matches!(
        drive(&mut player, action),
        Err(ParserError::ReadCmdError(ReadCmdError::IoError(IoError::UnexpectedEof)))
    ));
}

#[test]
fn run_to_tick_by_way_of_full_packets() {
    // The server announces a full packet every 1000 * 1800 ticks.
    let info = Bits::default().message(SVC_SERVER_INFO, &[0]).bytes();
    let note = Bits::default().message(200, b"").bytes();
    let full: Vec<u8> = [vec![1], Bits::default().message(201, b"").bytes()].concat();
    let cmds = vec![
        cmd(SIGNON, -1, &info),
        cmd(SEND_TABLES, -1, b"t"),
        cmd(CLASS_INFO, -1, &[2]),
        cmd(SYNC, -1, &[]),
        cmd(PACKET, 1, &note),
        cmd(FULL, 10, &full),
        cmd(PACKET, 11, &note),
        cmd(FULL, 150, &full),
        cmd(PACKET, 151, &note),
        cmd(PACKET, 152, &note),
        cmd(PACKET, 200, &note),
    ];
    let mut player = player(&cmds);
    let action = player.run_to_tick(151).unwrap();
    drive(&mut player, action).unwrap();
    assert_eq!(player.context().tick(), 151);
    assert_eq!(
        player.visitor_mut().lines,
        [
            "DemSignonPacket@-1",
            "message 40 [0]",
            "DemSendTables@-1",
            "DemClassInfo@-1",
            "DemSyncTick@-1",
            // Another full packet lies ahead, so the packet in this one is left out.
            "DemFullPacket@10",
            "end of 10",
            "DemFullPacket@150",
            "message 201 []",
            "end of 150",
            "DemPacket@151",
            "message 200 []",
            "end of 151",
        ]
    );

    // The next run goes on in front of the command that ended this one.
    player.visitor_mut().lines.clear();
    let action = player.run_to_end();
    drive(&mut player, action).unwrap();
    assert_eq!(
        player.visitor_mut().lines,
        ["DemPacket@152", "message 200 []", "end of 152", "DemPacket@200", "message 200 []", "end of 200"]
    );

    // Going back starts over.
    let action = player.run_to_tick(-1).unwrap();
    drive(&mut player, action).unwrap();
    assert_eq!(player.context().tick(), -1);
    let header = player.demo_stream_mut().read_cmd_header().unwrap();
    assert_eq!(header.tick, 1);
}

#[test]
fn run_to_tick_counts_the_interval_from_the_server() {
    let full: Vec<u8> = [vec![1], Bits::default().message(201, b"").bytes()].concat();
    let run = |info: &[u8]| {
        let info = Bits::default().message(SVC_SERVER_INFO, info).bytes();
        let cmds = vec![
            cmd(SIGNON, -1, &info),
            cmd(CLASS_INFO, -1, &[2]),
            cmd(SYNC, -1, &[]),
            cmd(FULL, 10, &full),
        ];
        let mut player = player(&cmds);
        let action = player.run_to_tick(111).unwrap();
        drive(&mut player, action).unwrap();
        let seconds = player.context().tick_interval();
        (lines(player).contains(&"message 201 []".to_string()), seconds)
    };
    assert_eq!(run(&[]), (false, 0));
    assert_eq!(run(&[1]), (true, 0x3c88_8889));
}

#[test]
fn interval_that_cannot_be_counted() {
    let mut parser: AsyncStreamingParser<(), (), u32, ()> =
        AsyncStreamingParser::from_stream_with_visitor((), ()).unwrap();
    parser.run_to_end();
    let header = haste::demostream::CmdHeader {
        cmd: EDemoCommands::DemPacket,
        body_compressed: false,
        tick: 1,
        body_size: 0,
        size: 3,
    };
    parser.receive_cmd_header(Ok(header)).unwrap();
    assert_eq!(parser.step(Event::Done).unwrap(), Action::DecodePacket);
    let data = Bits::default().message(SVC_SERVER_INFO, b"").bytes();
    assert_eq!(
        parser.step(Event::Packet(CDemoPacket { data: Some(data) })).unwrap(),
        Action::OnPacket { command: 40 }
    );
    assert_eq!(parser.step(Event::Done).unwrap(), Action::DecodeServerInfo);
    assert!(matches!(
        parser.step(Event::ServerInfo(Some(TickInterval { bits: 1, ratio: i32::MAX }))),
        Err(ParserError::TickIntervalOverflow)
    ));
    assert_eq!(parser.playback().pending(), Action::Idle);
}

#[test]
fn entities_of_a_message() {
    let changes = Bits::default()
        .put_ubitvar(4)
        .put(2, 2)
        .put_ubitvar(0)
        .put(2, 2)
        .put_ubitvar(0)
        .put(0, 2)
        .bytes();
    let leaves = Bits::default()
        .put_ubitvar(4)
        .put(1, 2)
        .put_ubitvar(0)
        .put(0, 2)
        .put_ubitvar(2)
        .put(3, 2)
        .bytes();
    let packet = |count: u8, data: &[u8]| {
        let body: Vec<u8> = [vec![count], data.to_vec()].concat();
        Bits::default().message(SVC_PACKET_ENTITIES, &body).bytes()
    };
    let cmds = vec![
        cmd(SEND_TABLES, -1, b"t"),
        cmd(CLASS_INFO, -1, &[2]),
        cmd(PACKET, 1, &packet(3, &changes)),
        cmd(PACKET, 2, &packet(3, &leaves)),
    ];
    let mut player = player(&cmds);
    let action = player.run_to_end();
    drive(&mut player, action).unwrap();
    assert_eq!(player.context().entities(), Some(&vec![5]));
    let entity_lines: Vec<String> = lines(player)
        .into_iter()
        .filter(|line| !line.starts_with("Dem") && !line.starts_with("message"))
        .collect();
    assert_eq!(
        entity_lines,
        ["Create 4", "Create 5", "end of 1", "Leave 4", "Update 5", "end of 2"]
    );
}

#[test]
fn entities_need_classes_and_serializers() {
    let packet = Bits::default().message(SVC_PACKET_ENTITIES, &[0]).bytes();
    let mut without_classes = player(&[cmd(SEND_TABLES, -1, b"t"), cmd(PACKET, 1, &packet)]);
    let action = without_classes.run_to_end();
    assert!(matches!(
        drive(&mut without_classes, action),
        Err(ParserError::EntityClassesNotAvailable)
    ));
    let mut without_serializers = player(&[cmd(CLASS_INFO, -1, &[2]), cmd(PACKET, 1, &packet)]);
    let action = without_serializers.run_to_end();
    assert!(matches!(
        drive(&mut without_serializers, action),
        Err(ParserError::SerializersNotAvailable)
    ));
}

#[test]
fn entity_data_that_ends_early() {
    let packet = Bits::default().message(SVC_PACKET_ENTITIES, &[1]).bytes();
    let mut player = player(&[
        cmd(SEND_TABLES, -1, b"t"),
        cmd(CLASS_INFO, -1, &[2]),
        cmd(PACKET, 1, &packet),
    ]);
    let action = player.run_to_end();
    assert!(matches!(
        drive(&mut player, action),
        Err(ParserError::BitError(BitError::Overflow))
    ));
}

#[test]
fn entity_number_out_of_range() {
    let data = Bits::default().put_ubitvar(i32::MAX as u32).bytes();
    let body: Vec<u8> = [vec![1], data].concat();
    let packet = Bits::default().message(SVC_PACKET_ENTITIES, &body).bytes();
    let mut player = player(&[
        cmd(SEND_TABLES, -1, b"t"),
        cmd(CLASS_INFO, -1, &[2]),
        cmd(PACKET, 1, &packet),
    ]);
    let action = player.run_to_end();
    assert!(matches!(drive(&mut player, action), Err(ParserError::EntityIndexOverflow)));
}

#[test]
fn created_entity_must_be_there() {
    let data = Bits::default().put_ubitvar(0).put(2, 2).bytes();
    let body: Vec<u8> = [vec![1], data].concat();
    let packet = Bits::default().message(SVC_PACKET_ENTITIES, &body).bytes();
    let mut player = player(&[
        cmd(SEND_TABLES, -1, b"t"),
        cmd(CLASS_INFO, -1, &[2]),
        cmd(PACKET, 1, &packet),
    ]);
    let mut action = player.run_to_end();
    let mut body: Vec<u8> = Vec::new();
    loop {
        action = match action {
            Action::NextCmd => player.next_cmd().unwrap(),
            Action::OnCmd { .. } => {
                body = player.read_cmd().unwrap();
                player.step(Event::Done).unwrap()
            }
            Action::OnPacket { .. } => player.step(Event::Done).unwrap(),
            Action::ReadDeltaHeader { entity_index } => {
                assert_eq!(entity_index, 0);
                player
                    .step(Event::DeltaHeaderRead { delta_header: DeltaHeader::Create, position: 36 })
                    .unwrap()
            }
            Action::CreateEntity { .. } => break,
            other => {
                let message = player.playback().message().clone();
                player.step(outcome(other, &body, &message)).unwrap()
            }
        };
    }
    assert!(matches!(
        player.step(Event::EntityCreated {
            entity_index: Some(0),
            present: false,
            position: 40,
            entities: None,
        }),
        Err(ParserError::EntityNotFound)
    ));
}

#[test]
fn string_tables_and_baselines() {
    let packed = snap::raw::Encoder::new().compress_vec(b"1aaaaaaaaaaaaaaaaaaaa").unwrap();
    let create: Vec<u8> = [vec![1], packed].concat();
    let cmds = vec![
        cmd(SIGNON, -1, &Bits::default().message(SVC_CREATE_STRING_TABLE, &create).bytes()),
        cmd(CLASS_INFO, -1, &[2]),
    ];
    let mut player = player(&cmds);
    let action = player.run_to_end();
    drive(&mut player, action).unwrap();
    assert_eq!(player.context().instance_baseline().by_id(1), b"aaaaaaaaaaaaaaaaaaaa");
    let tables = player.context().string_tables().unwrap();
    assert!(tables.find_table("instancebaseline").is_some());
}

#[test]
fn baselines_follow_an_updated_table() {
    let packet = Bits::default()
        .message(SVC_CREATE_STRING_TABLE, b"\x000zero")
        .message(SVC_UPDATE_STRING_TABLE, b"\x001one")
        .bytes();
    let cmds = vec![cmd(CLASS_INFO, -1, &[2]), cmd(SIGNON, -1, &packet)];
    let mut player = player(&cmds);
    let action = player.run_to_end();
    drive(&mut player, action).unwrap();
    assert_eq!(player.context().instance_baseline().by_id(0), b"zero");
    assert_eq!(player.context().instance_baseline().by_id(1), b"one");
}

#[test]
fn update_of_a_table_that_is_not_there() {
    for id in [0u8, 1, 255] {
        let packet = Bits::default().message(SVC_UPDATE_STRING_TABLE, &[id, b'x']).bytes();
        let mut player = player(&[cmd(PACKET, 1, &packet)]);
        let action = player.run_to_end();
        assert!(matches!(drive(&mut player, action), Err(ParserError::StringTableNotFound)));
    }
}

#[test]
fn baseline_of_no_class_ends_the_run() {
    let packet = Bits::default().message(SVC_CREATE_STRING_TABLE, b"\x009nine").bytes();
    let mut player = player(&[cmd(CLASS_INFO, -1, &[2]), cmd(PACKET, 1, &packet)]);
    let action = player.run_to_end();
    assert!(matches!(
        drive(&mut player, action),
        Err(ParserError::UpdateBaselineError(UpdateBaselineError::UnknownClass { class_id: 9 }))
    ));
}

#[test]
fn table_that_does_not_decompress_ends_the_run() {
    let packet = Bits::default().message(SVC_CREATE_STRING_TABLE, b"\x01\xff\xff").bytes();
    let mut player = player(&[cmd(PACKET, 1, &packet)]);
    let action = player.run_to_end();
    assert!(matches!(drive(&mut player, action), Err(ParserError::DecompressError(_))));
}

#[test]
fn string_tables_of_a_full_packet_need_classes() {
    let mut player = player(&[cmd(FULL, 1, &[1])]);
    let action = player.run_to_end();
    assert!(matches!(
        drive(&mut player, action),
        Err(ParserError::EntityClassesNotAvailable)
    ));
}

#[test]
fn message_larger_than_its_packet_ends_the_run() {
    let packet = Bits::default().put_ubitvar(200).put(50, 8).put(0, 8).bytes();
    let mut cut = player(&[cmd(PACKET, 1, &packet)]);
    let action = cut.run_to_end();
    assert!(matches!(drive(&mut cut, action), Err(ParserError::BitError(BitError::Overflow))));

    // Four bytes of a size that is larger than any message.
    let packet = Bits::default().put_ubitvar(200).put(0x7fff_ffff, 32).put(0, 8).bytes();
    let mut huge = player(&[cmd(PACKET, 1, &packet)]);
    let action = huge.run_to_end();
    assert!(matches!(
        drive(&mut huge, action),
        Err(ParserError::BitError(BitError::BufferTooSmall))
    ));
}

#[test]
fn serializers_and_classes_are_read_once() {
    let cmds = vec![
        cmd(SEND_TABLES, -1, b"first"),
        cmd(CLASS_INFO, -1, &[2]),
        cmd(SEND_TABLES, 1, b"the second"),
        cmd(CLASS_INFO, 1, &[9]),
    ];
    let mut player = player(&cmds);
    let action = player.run_to_end();
    drive(&mut player, action).unwrap();
    assert_eq!(player.context().serializers(), Some(&5));
    assert_eq!(player.context().entity_classes().unwrap().classes, 2);
}

#[test]
fn event_that_answers_nothing() {
    let mut player = player(&[cmd(PACKET, 1, &[])]);
    player.run_to_end();
    assert!(matches!(
        player.step(Event::SendTables(1)),
        Err(ParserError::UnexpectedEvent)
    ));
    assert_eq!(player.playback().pending(), Action::Idle);
    assert!(matches!(player.next_cmd(), Err(ParserError::UnexpectedEvent)));
    assert!(matches!(player.read_cmd(), Err(ParserError::UnexpectedEvent)));
    assert!(matches!(player.next_cmd_seekable(), Err(ParserError::UnexpectedEvent)));
}

#[test]
fn forward_reading_is_for_runs_to_the_end() {
    let mut player = player(&segmented());
    player.run_to_tick(5).unwrap();
    assert!(matches!(player.next_cmd(), Err(ParserError::UnexpectedEvent)));
    assert_eq!(player.demo_stream_mut().stream_position(), Ok(16));
}

#[test]
fn streaming_run_ends_with_the_stream() {
    let mut parser: AsyncStreamingParser<&str, Notes, u32, Vec<i32>> =
        AsyncStreamingParser::from_stream_with_visitor("stream", Notes::new()).unwrap();
    assert_eq!(*parser.demo_stream(), "stream");
    *parser.demo_stream_mut() = "other";
    assert_eq!(*parser.demo_stream(), "other");
    assert_eq!(parser.run_to_end(), Action::NextCmd);
    let end = ReadCmdHeaderError::IoError(IoError::UnexpectedEof);
    assert!(matches!(parser.receive_cmd_header(Err(end)), Ok(Action::Idle)));

    assert_eq!(parser.run_to_end(), Action::NextCmd);
    let cut = ReadCmdHeaderError::ReadVarintError(VarintError::IoError(IoError::UnexpectedEof));
    assert!(matches!(
        parser.receive_cmd_header(Err(cut)),
        Err(ParserError::ReadCmdHeaderError(_))
    ));
    assert!(matches!(
        parser.receive_cmd_header(Err(end)),
        Err(ParserError::UnexpectedEvent)
    ));
    assert!(parser.into_visitor().lines.is_empty());
}

#[test]
fn final_state_forgets_entities_at_full_packets() {
    let header = |cmd: EDemoCommands, tick: i32| haste::demostream::CmdHeader {
        cmd,
        body_compressed: false,
        tick,
        body_size: 0,
        size: 3,
    };
    for (final_state, left) in [(true, None), (false, Some(vec![3, 4]))] {
        let mut parser: AsyncStreamingParser<(), (), u32, Vec<i32>> =
            AsyncStreamingParser::from_stream_with_visitor((), ()).unwrap();
        if final_state {
            parser.run_to_end_final_state();
        } else {
            parser.run_to_end();
        }
        parser.playback_mut().set_entities(Some(vec![3, 4]));
        let stop = header(EDemoCommands::DemStop, 1);
        assert_eq!(
            parser.receive_cmd_header(Ok(stop)).unwrap(),
            Action::OnCmd { header: stop }
        );
        assert_eq!(parser.context().entities(), Some(&vec![3, 4]));
        assert_eq!(parser.step(Event::Done).unwrap(), Action::OnTickEnd);
        assert_eq!(parser.step(Event::Done).unwrap(), Action::NextCmd);
        parser.receive_cmd_header(Ok(header(EDemoCommands::DemFullPacket, 2))).unwrap();
        assert_eq!(parser.context().entities(), left.as_ref());
        assert_eq!(parser.context().tick(), 2);
    }
}

#[test]
fn tick_goes_back_once_the_header_is_unread() {
    let header = CmdHeader {
        cmd: EDemoCommands::DemPacket,
        body_compressed: false,
        tick: 7,
        body_size: 0,
        size: 3,
    };
    let mut playback: Playback<u32, ()> = Playback::new();
    playback.start_to_tick(3);
    assert!(matches!(playback.on_cmd_header(&header), Ok(CmdFlow::Stop)));
    assert_eq!(playback.pending(), Action::Idle);
    assert_eq!(playback.context().tick(), 7);
    playback.go_back_in_front();
    assert_eq!(playback.context().tick(), -1);

    let mut player = player(&[cmd(PACKET, 7, &[])]);
    let action = player.run_to_tick(3).unwrap();
    drive(&mut player, action).unwrap();
    assert_eq!(player.context().tick(), -1);
    assert_eq!(player.demo_stream_mut().stream_position(), Ok(16));
}

#[test]
fn run_to_tick_does_not_depend_on_earlier_runs() {
    let mut used = player(&segmented());
    for tick in [2, 3601, 1] {
        let action = used.run_to_tick(tick).unwrap();
        drive(&mut used, action).unwrap();
    }
    used.visitor_mut().lines.clear();
    let mut fresh = player(&segmented());
    for player in [&mut used, &mut fresh] {
        let action = player.run_to_tick(1801).unwrap();
        drive(player, action).unwrap();
        assert_eq!(player.context().tick(), 1801);
    }
    assert_eq!(
        used.demo_stream_mut().stream_position(),
        fresh.demo_stream_mut().stream_position()
    );
    assert_eq!(used.context().entities(), fresh.context().entities());
    assert_eq!(lines(used), lines(fresh));
}

#[test]
fn baselines_in_either_order() {
    let packet = Bits::default().message(SVC_CREATE_STRING_TABLE, b"\x001one").bytes();
    let table = cmd(SIGNON, -1, &packet);
    let classes = cmd(CLASS_INFO, -1, &[2]);
    for cmds in [[table.clone(), classes.clone()], [classes, table]] {
        let mut player = player(&cmds);
        let action = player.run_to_end();
        drive(&mut player, action).unwrap();
        assert_eq!(player.context().instance_baseline().by_id(1), b"one");
        assert_eq!(player.context().instance_baseline().by_id(0), b"");
        assert!(player.context().entity_classes().is_some());
    }
}
