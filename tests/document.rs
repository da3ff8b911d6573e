use lavagna::color::Color;
use lavagna::doc::{CursorPos, MutSketch};
use lavagna::document::{App, Command, CommandSender, Cursor, PenCommand, PenId, Segment};
use lavagna::painter::PenSize;

const W: usize = 8;
const H: usize = 6;

fn tick(app: &mut App, frame: &mut Vec<u8>) -> Vec<Segment> {
    app.update(MutSketch::new(frame.as_mut_slice(), W, H))
}

fn pressed_at(x: isize, y: isize) -> Cursor {
    Cursor { pressed: true, pos: CursorPos { x, y } }
}

fn lit(frame: &[u8]) -> usize {
    frame.chunks(4).filter(|p| p.iter().any(|b| *b != 0)).count()
}

#[test]
fn stroke_draws_one_segment_per_move() {
    let mut app = App::new(PenId(7));
    let mut frame = vec![0u8; 4 * W * H];
    app.move_cursor(pressed_at(1, 1));
    assert!(tick(&mut app, &mut frame).is_empty());
    app.move_cursor(pressed_at(4, 1));
    let segs = tick(&mut app, &mut frame);
    assert_eq!(segs.len(), 1);
    assert_eq!(segs[0].pen, PenId(7));
    assert_eq!(segs[0].from, CursorPos { x: 1, y: 1 });
    assert_eq!(segs[0].to, CursorPos { x: 4, y: 1 });
    assert_eq!(segs[0].color, Color::white());
    assert_eq!(lit(&frame), 4);
    app.move_cursor(pressed_at(4, 1));
    assert!(tick(&mut app, &mut frame).is_empty());
    app.move_cursor(pressed_at(4, 3));
    let segs = tick(&mut app, &mut frame);
    assert_eq!(segs.len(), 1);
    assert_eq!(segs[0].from, CursorPos { x: 4, y: 1 });
    assert_eq!(lit(&frame), 6);
}

#[test]
fn released_pen_draws_nothing() {
    let mut app = App::new(PenId(1));
    let mut frame = vec![0u8; 4 * W * H];
    app.move_cursor(Cursor { pressed: false, pos: CursorPos { x: 1, y: 1 } });
    tick(&mut app, &mut frame);
    app.move_cursor(Cursor { pressed: false, pos: CursorPos { x: 5, y: 5 } });
    assert!(tick(&mut app, &mut frame).is_empty());
    assert_eq!(lit(&frame), 0);
}

#[test]
fn second_tick_without_commands_is_a_no_op() {
    let mut app = App::new(PenId(1));
    let mut frame = vec![0u8; 4 * W * H];
    app.move_cursor(pressed_at(0, 0));
    tick(&mut app, &mut frame);
    app.move_cursor(pressed_at(3, 3));
    assert_eq!(tick(&mut app, &mut frame).len(), 1);
    let after_first = frame.clone();
    assert!(!app.needs_update());
    assert!(tick(&mut app, &mut frame).is_empty());
    assert!(tick(&mut app, &mut frame).is_empty());
    assert_eq!(frame, after_first);
}

#[test]
fn undo_restores_the_snapshot_byte_for_byte() {
    let mut app = App::new(PenId(1));
    let mut frame: Vec<u8> = (0..4 * W * H).map(|i| (i % 251) as u8).collect();
    let saved = frame.clone();
    app.take_snapshot();
    app.move_cursor(pressed_at(0, 0));
    tick(&mut app, &mut frame);
    app.move_cursor(pressed_at(7, 5));
    tick(&mut app, &mut frame);
    assert_ne!(frame, saved);
    app.move_cursor(Cursor { pressed: false, pos: CursorPos { x: 7, y: 5 } });
    app.resume_last_snapshot();
    tick(&mut app, &mut frame);
    assert_eq!(frame, saved);
}

#[test]
fn clear_zero_fills_and_can_be_undone() {
    let mut app = App::new(PenId(1));
    let mut frame: Vec<u8> = (0..4 * W * H).map(|i| (i % 7 + 1) as u8).collect();
    let saved = frame.clone();
    app.clear_all();
    tick(&mut app, &mut frame);
    assert!(frame.iter().all(|b| *b == 0));
    app.resume_last_snapshot();
    tick(&mut app, &mut frame);
    assert_eq!(frame, saved);
}

#[test]
fn resume_with_empty_history_changes_nothing() {
    let mut app = App::new(PenId(1));
    let mut frame: Vec<u8> = (0..4 * W * H).map(|i| (i % 5) as u8).collect();
    let before = frame.clone();
    app.resume_last_snapshot();
    assert!(tick(&mut app, &mut frame).is_empty());
    assert_eq!(frame, before);
}

#[test]
fn same_commands_give_same_canvas() {
    let run = || {
        let mut app = App::new(PenId(3));
        let mut frame = vec![0u8; 4 * W * H];
        let mut all = Vec::new();
        app.change_color();
        app.change_color();
        app.grow_pen();
        app.move_cursor(pressed_at(1, 1));
        all.extend(tick(&mut app, &mut frame));
        app.send_command(Command::PenCommand(PenId(9), PenCommand::MoveCursor(pressed_at(6, 0))));
        app.move_cursor(pressed_at(5, 4));
        all.extend(tick(&mut app, &mut frame));
        app.send_command(Command::PenCommand(PenId(9), PenCommand::MoveCursor(pressed_at(0, 5))));
        all.extend(tick(&mut app, &mut frame));
        (frame, all, app.pens.clone())
    };
    assert_eq!(run(), run());
}

#[test]
fn pens_are_created_once_and_draw_in_their_own_color() {
    let mut app = App::new(PenId(1));
    let mut frame = vec![0u8; 4 * W * H];
    let red = Color::new(0xff, 0, 0, 0xff);
    app.send_command(Command::PenCommand(PenId(2), PenCommand::ChangeColor(red)));
    app.send_command(Command::PenCommand(PenId(2), PenCommand::MoveCursor(pressed_at(0, 2))));
    tick(&mut app, &mut frame);
    assert_eq!(app.pens.len(), 1);
    app.send_command(Command::PenCommand(PenId(2), PenCommand::MoveCursor(pressed_at(2, 2))));
    let segs = tick(&mut app, &mut frame);
    assert_eq!(app.pens.len(), 1);
    assert_eq!(segs.len(), 1);
    assert_eq!(segs[0].color, red);
    let i = 4 * (W * 2 + 1);
    assert_eq!(&frame[i..i + 4], &[0xff, 0, 0, 0xff]);
}

#[test]
fn local_input_is_kept_for_collaborators_but_received_commands_are_not() {
    let mut app = App::new(PenId(1));
    app.clear_all();
    app.send_command(Command::ClearAll);
    app.move_cursor(pressed_at(1, 2));
    let out = app.drain_outgoing();
    assert_eq!(
        out,
        vec![
            Command::ClearAll,
            Command::PenCommand(PenId(1), PenCommand::MoveCursor(pressed_at(1, 2)))
        ]
    );
    assert!(app.drain_outgoing().is_empty());
    assert_eq!(app.commands.len(), 3);
}

#[test]
fn palette_and_size_commands_address_the_local_pen() {
    let mut app = App::new(PenId(4));
    app.change_color();
    app.change_color();
    app.grow_pen();
    app.shrink_pen();
    let out = app.drain_outgoing();
    assert_eq!(out[0], Command::PenCommand(PenId(4), PenCommand::ChangeColor(Color::white())));
    assert_eq!(
        out[1],
        Command::PenCommand(PenId(4), PenCommand::ChangeColor(Color::new(0x00, 0x6f, 0xff, 0xff)))
    );
    assert_eq!(out[2], Command::PenCommand(PenId(4), PenCommand::ChangeSize(PenSize(2))));
    assert_eq!(out[3], Command::PenCommand(PenId(4), PenCommand::ChangeSize(PenSize(1))));
}

#[test]
fn force_release_lifts_the_local_pen_where_it_is() {
    let mut app = App::new(PenId(4));
    let mut frame = vec![0u8; 4 * W * H];
    app.move_cursor(pressed_at(3, 2));
    tick(&mut app, &mut frame);
    app.force_release();
    assert_eq!(
        app.drain_outgoing().last(),
        Some(&Command::PenCommand(
            PenId(4),
            PenCommand::MoveCursor(Cursor { pressed: false, pos: CursorPos { x: 3, y: 2 } })
        ))
    );
}

#[test]
fn pen_id_from_integer() {
    assert_eq!(PenId::from(42u32), PenId(42));
}

#[test]
fn received_command_is_queued_but_not_kept_for_collaborators() {
    let mut app = App::new(PenId(1));
    let cmd = Command::PenCommand(PenId(2), PenCommand::MoveCursor(pressed_at(1, 1)));
    app.send_command(cmd);
    assert!(app.needs_update());
    assert_eq!(app.commands.iter().copied().collect::<Vec<_>>(), vec![cmd]);
    assert!(app.drain_outgoing().is_empty());
    assert!(app.pens.is_empty());
}
