use lavagna::collab::{channel_kind, AddressedEvent, ChannelKind, Event, MoveEvent, Room};
use lavagna::color::Color;
use lavagna::doc::CursorPos;
use lavagna::document::{Command, Cursor, PenCommand, PenId};
use lavagna::painter::PenSize;

fn mv(x: i16, y: i16, pressed: bool) -> MoveEvent {
    MoveEvent { color: 0xff00_00ff, line_width: 6, x, y, pressed }
}

#[test]
fn own_events_are_never_turned_into_commands() {
    let mut room = Room::new(PenId(1));
    let events = vec![
        AddressedEvent { src: PenId(1), event: Event::Move(mv(3, 4, true)) },
        AddressedEvent { src: PenId(1), event: Event::Clear },
        AddressedEvent { src: PenId(1), event: Event::Release },
    ];
    assert!(room.receive(&events, 0).is_empty());
    assert!(room.peers.is_empty());
}

#[test]
fn first_move_creates_one_peer_seeded_from_the_event() {
    let mut room = Room::new(PenId(1));
    let src = PenId(2);
    let cmds = room.receive(&vec![AddressedEvent { src, event: Event::Move(mv(3, -4, true)) }], 10);
    let pos = CursorPos { x: 3, y: -4 };
    assert_eq!(
        cmds,
        vec![
            Command::PenCommand(src, PenCommand::ChangeColor(Color::new(0xff, 0, 0, 0xff))),
            Command::PenCommand(src, PenCommand::ChangeSize(PenSize(6))),
            Command::PenCommand(src, PenCommand::MoveCursor(Cursor { pressed: true, pos })),
        ]
    );
    assert_eq!(room.peers.len(), 1);
    let cmds = room.receive(&vec![AddressedEvent { src, event: Event::Move(mv(5, 5, true)) }], 20);
    assert_eq!(room.peers.len(), 1);
    assert_eq!(
        cmds,
        vec![Command::PenCommand(
            src,
            PenCommand::MoveCursor(Cursor { pressed: true, pos: CursorPos { x: 5, y: 5 } })
        )]
    );
}

#[test]
fn changed_color_and_width_are_sent_again() {
    let mut room = Room::new(PenId(1));
    let src = PenId(2);
    room.receive(&vec![AddressedEvent { src, event: Event::Move(mv(0, 0, false)) }], 0);
    let e = MoveEvent { color: 0x0102_0304, line_width: 9, x: 1, y: 1, pressed: false };
    let cmds = room.receive(&vec![AddressedEvent { src, event: Event::Move(e) }], 0);
    assert_eq!(cmds.len(), 3);
    assert_eq!(cmds[0], Command::PenCommand(src, PenCommand::ChangeColor(Color::new(4, 3, 2, 1))));
    assert_eq!(cmds[1], Command::PenCommand(src, PenCommand::ChangeSize(PenSize(9))));
}

#[test]
fn release_lifts_a_known_peer_where_it_was() {
    let mut room = Room::new(PenId(1));
    let src = PenId(2);
    assert!(room.receive(&vec![AddressedEvent { src, event: Event::Release }], 0).is_empty());
    room.receive(&vec![AddressedEvent { src, event: Event::Move(mv(7, 8, true)) }], 0);
    let cmds = room.receive(&vec![AddressedEvent { src, event: Event::Release }], 0);
    assert_eq!(
        cmds,
        vec![Command::PenCommand(
            src,
            PenCommand::MoveCursor(Cursor { pressed: false, pos: CursorPos { x: 7, y: 8 } })
        )]
    );
}

#[test]
fn remote_clear_becomes_a_clear_command() {
    let mut room = Room::new(PenId(1));
    let cmds = room.receive(&vec![AddressedEvent { src: PenId(5), event: Event::Clear }], 0);
    assert_eq!(cmds, vec![Command::ClearAll]);
}

#[test]
fn local_commands_become_events() {
    let mut room = Room::new(PenId(1));
    let me = PenId(1);
    let at = |x, y, pressed| PenCommand::MoveCursor(Cursor { pressed, pos: CursorPos { x, y } });
    let cmds = vec![
        Command::PenCommand(me, PenCommand::ChangeColor(Color::new(1, 2, 3, 4))),
        Command::PenCommand(me, PenCommand::ChangeSize(PenSize(300))),
        Command::PenCommand(me, at(40_000, -2, true)),
        Command::PenCommand(me, at(40_000, -2, true)),
        Command::TakeSnapshot,
        Command::PenCommand(PenId(8), at(1, 1, true)),
        Command::PenCommand(me, at(5, 5, false)),
        Command::ClearAll,
    ];
    let events = room.send(&cmds);
    let first = MoveEvent { color: 0x0403_0201, line_width: 255, x: 32767, y: -2, pressed: true };
    let second = MoveEvent { color: 0x0403_0201, line_width: 255, x: 5, y: 5, pressed: false };
    assert_eq!(
        events,
        vec![
            AddressedEvent { src: me, event: Event::Move(first) },
            AddressedEvent { src: me, event: Event::Move(second) },
            AddressedEvent { src: me, event: Event::Release },
            AddressedEvent { src: me, event: Event::Clear },
        ]
    );
}

#[test]
fn peer_cursor_goes_idle_after_a_second() {
    let mut room = Room::new(PenId(1));
    let src = PenId(2);
    assert!(!room.is_active(src, 0));
    room.receive(&vec![AddressedEvent { src, event: Event::Move(mv(0, 0, true)) }], 5_000);
    assert!(room.is_active(src, 5_000));
    assert!(room.is_active(src, 5_999));
    assert!(!room.is_active(src, 6_000));
    room.receive(&vec![AddressedEvent { src, event: Event::Release }], 6_500);
    assert!(room.is_active(src, 7_000));
}

#[test]
fn collaboration_address_selects_the_transport() {
    assert_eq!(channel_kind("ws://127.0.0.1:3536/room"), ChannelKind::WebRtc(0));
    assert_eq!(channel_kind("wss://example.org/room"), ChannelKind::WebRtc(0));
    assert_eq!(channel_kind("lavagna+wss://example.org/room"), ChannelKind::WebRtc(8));
    assert_eq!(channel_kind(""), ChannelKind::Offline);
    assert_eq!(channel_kind("lavagna+"), ChannelKind::Offline);
    assert_eq!(channel_kind("http://example.org"), ChannelKind::Offline);
    assert_eq!(channel_kind("ws:/"), ChannelKind::Offline);
}
