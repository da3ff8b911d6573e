use vstd::prelude::*;
use vstd::string::StringSliceAdditionalSpecFns;

use crate::color::{packed, unpacked, Color};
use crate::doc::CursorPos;
use crate::document::{
    apply_commands, find, fresh_pen, unique_ids, Command, Cursor, Model, PenCommand, PenId,
};
use crate::doc::Size;
use crate::painter::PenSize;

verus! {

/// A peer's cursor is shown for this long after its last event, in milliseconds.
pub const PEER_TIMEOUT_MS: u64 = 1000;

/// Where a pen is, with its color (packed, red in the lowest byte) and width.
/// Positions travel as signed 16-bit numbers; wider ones are clamped.
#[derive(Clone, Copy, Debug, PartialEq, Eq, Structural)]
pub struct MoveEvent {
    pub color: u32,
    pub line_width: u8,
    pub x: i16,
    pub y: i16,
    pub pressed: bool,
}

/// What one participant tells the others.
#[derive(Clone, Copy, Debug, PartialEq, Eq, Structural)]
pub enum Event {
    Move(MoveEvent),
    Release,
    Clear,
}

/// An event with the participant it comes from.
#[derive(Clone, Copy, Debug, PartialEq, Eq, Structural)]
pub struct AddressedEvent {
    pub src: PenId,
    pub event: Event,
}

/// What the room knows of a remote participant.
#[derive(Clone, Copy, Debug, PartialEq, Eq, Structural)]
pub struct Peer {
    pub id: PenId,
    pub color: u32,
    pub line_width: u8,
    pub pos: CursorPos,
    /// When its last event came, in milliseconds.
    pub last_seen: u64,
}

/// What the room last told collaborators of the local pen.
#[derive(Clone, Copy, Debug, PartialEq, Eq, Structural)]
pub struct LocalPen {
    pub color: u32,
    pub line_width: u8,
    pub cursor: Cursor,
}

/// Index of the peer `id` in `peers`, or -1.
pub open spec fn find_peer(peers: Seq<Peer>, id: PenId) -> int
    decreases peers.len(),
{
    if peers.len() == 0 {
        -1
    } else if peers.last().id == id {
        peers.len() - 1
    } else {
        find_peer(peers.drop_last(), id)
    }
}

pub open spec fn unique_peers(peers: Seq<Peer>) -> bool {
    forall|i: int, j: int|
        0 <= i < peers.len() && 0 <= j < peers.len() && i != j ==> #[trigger] peers[i].id
            != #[trigger] peers[j].id
}

pub open spec fn event_pos(e: MoveEvent) -> CursorPos {
    CursorPos { x: e.x as isize, y: e.y as isize }
}

pub open spec fn move_command(src: PenId, e: MoveEvent) -> Command {
    let cursor = Cursor { pressed: e.pressed, pos: event_pos(e) };
    Command::PenCommand(src, PenCommand::MoveCursor(cursor))
}

pub open spec fn color_command(src: PenId, e: MoveEvent) -> Command {
    Command::PenCommand(src, PenCommand::ChangeColor(unpacked(e.color)))
}

pub open spec fn size_command(src: PenId, e: MoveEvent) -> Command {
    Command::PenCommand(src, PenCommand::ChangeSize(PenSize(e.line_width as u32)))
}

/// The peers and the commands after one received event, at time `now`.
/// The local participant's own events are ignored. The first move of a participant adds it,
/// and sets its pen's color and size from the event; a later one sets them where they
/// changed. A release lifts a known participant's pen where it is.
pub open spec fn receive_one(
    peers: Seq<Peer>,
    local: PenId,
    ev: AddressedEvent,
    now: u64,
) -> (Seq<Peer>, Seq<Command>) {
    let src = ev.src;
    let i = find_peer(peers, src);
    if src == local {
        (peers, seq![])
    } else {
        match ev.event {
            Event::Move(e) => {
                let peer = Peer {
                    id: src,
                    color: e.color,
                    line_width: e.line_width,
                    pos: event_pos(e),
                    last_seen: now,
                };
                if i < 0 {
                    let cmds = seq![
                        color_command(src, e),
                        size_command(src, e),
                        move_command(src, e),
                    ];
                    (peers.push(peer), cmds)
                } else {
                    let known = peers[i];
                    let c = if known.color != e.color {
                        seq![color_command(src, e)]
                    } else {
                        seq![]
                    };
                    let s = if known.line_width != e.line_width {
                        seq![size_command(src, e)]
                    } else {
                        seq![]
                    };
                    (peers.update(i, peer), c + s + seq![move_command(src, e)])
                }
            },
            Event::Release => {
                if i < 0 {
                    (peers, seq![])
                } else {
                    let known = peers[i];
                    let lift = Cursor { pressed: false, pos: known.pos };
                    (
                        peers.update(i, Peer { last_seen: now, ..known }),
                        seq![Command::PenCommand(src, PenCommand::MoveCursor(lift))],
                    )
                }
            },
            Event::Clear => (peers, seq![Command::ClearAll]),
        }
    }
}

pub open spec fn receive_all(
    peers: Seq<Peer>,
    local: PenId,
    evs: Seq<AddressedEvent>,
    now: u64,
) -> (Seq<Peer>, Seq<Command>)
    decreases evs.len(),
{
    if evs.len() == 0 {
        (peers, seq![])
    } else {
        let (p1, c1) = receive_all(peers, local, evs.drop_last(), now);
        let (p2, c2) = receive_one(p1, local, evs.last(), now);
        (p2, c1 + c2)
    }
}

pub open spec fn clamp16(v: isize) -> i16 {
    if v < -32768 {
        -32768i16
    } else if v > 32767 {
        32767i16
    } else {
        v as i16
    }
}

pub open spec fn clamp8(v: u32) -> u8 {
    if v > 255 {
        255u8
    } else {
        v as u8
    }
}

/// The events for one local command, and what the room then knows of the local pen.
/// A clear is forwarded; the history of canvases stays local; color and size travel with
/// the next move. A move is sent when the position or the pressed state changed, followed
/// by a release when the pen was lifted.
pub open spec fn send_one(me: LocalPen, local: PenId, cmd: Command) -> (
    LocalPen,
    Seq<AddressedEvent>,
) {
    match cmd {
        Command::ClearAll => (me, seq![AddressedEvent { src: local, event: Event::Clear }]),
        Command::PenCommand(id, pc) => {
            if id != local {
                (me, seq![])
            } else {
                match pc {
                    PenCommand::ChangeColor(c) => (
                        LocalPen { color: packed(c) as u32, ..me },
                        seq![],
                    ),
                    PenCommand::ChangeSize(s) => (
                        LocalPen { line_width: clamp8(s.0), ..me },
                        seq![],
                    ),
                    PenCommand::MoveCursor(c) => {
                        let mv = AddressedEvent {
                            src: local,
                            event: Event::Move(MoveEvent {
                                color: me.color,
                                line_width: me.line_width,
                                x: clamp16(c.pos.x),
                                y: clamp16(c.pos.y),
                                pressed: c.pressed,
                            }),
                        };
                        let moved = if c != me.cursor { seq![mv] } else { seq![] };
                        let released = if me.cursor.pressed && !c.pressed {
                            seq![AddressedEvent { src: local, event: Event::Release }]
                        } else {
                            seq![]
                        };
                        (LocalPen { cursor: c, ..me }, moved + released)
                    },
                }
            }
        },
        _ => (me, seq![]),
    }
}

pub open spec fn send_all(me: LocalPen, local: PenId, cmds: Seq<Command>) -> (
    LocalPen,
    Seq<AddressedEvent>,
)
    decreases cmds.len(),
{
    if cmds.len() == 0 {
        (me, seq![])
    } else {
        let (m1, e1) = send_all(me, local, cmds.drop_last());
        let (m2, e2) = send_one(m1, local, cmds.last());
        (m2, e1 + e2)
    }
}

/// Whether a peer last seen at `last_seen` still shows its cursor at `now`.
pub open spec fn active_at(last_seen: u64, now: u64) -> bool {
    now < last_seen || now - last_seen < PEER_TIMEOUT_MS
}

/// The peer synchronisation state: the local participant, what collaborators were told of
/// its pen, and the remote participants seen so far, in order of their first move.
pub struct Room {
    pub local_id: PenId,
    pub local: LocalPen,
    pub peers: Vec<Peer>,
}

proof fn lemma_find_peer_valid(peers: Seq<Peer>, id: PenId)
    ensures
        -1 <= find_peer(peers, id) < peers.len(),
        find_peer(peers, id) >= 0 ==> peers[find_peer(peers, id)].id == id,
        find_peer(peers, id) == -1 ==> forall|j: int| 0 <= j < peers.len() ==> peers[j].id != id,
    decreases peers.len(),
{
    if peers.len() > 0 && peers.last().id != id {
        lemma_find_peer_valid(peers.drop_last(), id);
        assert forall|j: int| 0 <= j < peers.len() - 1 implies peers[j] == peers.drop_last()[j] by {}
    }
}

/// Receiving an event keeps at most one record for each participant.
pub proof fn lemma_receive_one_unique(peers: Seq<Peer>, local: PenId, ev: AddressedEvent, now: u64)
    requires
        unique_peers(peers),
    ensures
        unique_peers(receive_one(peers, local, ev, now).0),
{
    lemma_find_peer_valid(peers, ev.src);
    let ps = receive_one(peers, local, ev, now).0;
    assert forall|a: int, b: int| 0 <= a < ps.len() && 0 <= b < ps.len() && a != b implies #[trigger] ps[a].id != #[trigger] ps[b].id by {
        if a < peers.len() && b < peers.len() {
            assert(ps[a].id == peers[a].id);
            assert(ps[b].id == peers[b].id);
        }
    }
}

fn clamp16_exec(v: isize) -> (r: i16)
    ensures
        r == clamp16(v),
{
    if v < -32768 {
        -32768
    } else if v > 32767 {
        32767
    } else {
        v as i16
    }
}

fn clamp8_exec(v: u32) -> (r: u8)
    ensures
        r == clamp8(v),
{
    if v > 255 {
        255
    } else {
        v as u8
    }
}

impl Room {
    pub open spec fn wf(&self) -> bool {
        unique_peers(self.peers@)
    }

    /// A room for the local participant `local_id`, which has told nobody anything yet: its
    /// pen is taken to be white, one pixel thick and released at the origin.
    pub fn new(local_id: PenId) -> (r: Room)
        ensures
            r.wf(),
            r.local_id == local_id,
            r.peers@.len() == 0,
            r.local == (LocalPen { color: 0xffff_ffff, line_width: 1, cursor: Cursor::origin() }),
    {
        Room {
            local_id,
            local: LocalPen { color: 0xffff_ffff, line_width: 1, cursor: Cursor::new() },
            peers: Vec::new(),
        }
    }

    fn peer_index(&self, id: PenId) -> (r: Option<usize>)
        ensures
            match r {
                Some(i) => i as int == find_peer(self.peers@, id),
                None => find_peer(self.peers@, id) == -1,
            },
    {
        let mut j = self.peers.len();
        proof {
            assert(self.peers@.take(j as int) =~= self.peers@);
        }
        while j > 0
            invariant
                j <= self.peers@.len(),
                find_peer(self.peers@, id) == find_peer(self.peers@.take(j as int), id),
            decreases j,
        {
            if self.peers[j - 1].id == id {
                return Some(j - 1);
            }
            proof {
                assert(self.peers@.take(j as int).drop_last() =~= self.peers@.take(j - 1));
            }
            j -= 1;
        }
        None
    }

    /// The commands for one received event, at time `now` (see `receive_one`).
    fn receive_event(&mut self, ev: AddressedEvent, now: u64) -> (cmds: Vec<Command>)
        requires
            old(self).wf(),
        ensures
            final(self).wf(),
            (final(self).peers@, cmds@) == receive_one(old(self).peers@, old(self).local_id, ev, now),
            final(self).local_id == old(self).local_id,
            final(self).local == old(self).local,
    {
        proof {
            lemma_find_peer_valid(self.peers@, ev.src);
            lemma_receive_one_unique(self.peers@, self.local_id, ev, now);
        }
        let mut cmds: Vec<Command> = Vec::new();
        if ev.src == self.local_id {
            return cmds;
        }
        let src = ev.src;
        let found = self.peer_index(src);
        match ev.event {
            Event::Move(e) => {
                let pos = CursorPos { x: e.x as isize, y: e.y as isize };
                let peer = Peer { id: src, color: e.color, line_width: e.line_width, pos, last_seen: now };
                let color_cmd = Command::PenCommand(src, PenCommand::ChangeColor(Color::from_u32(e.color)));
                let size_cmd = Command::PenCommand(src, PenCommand::ChangeSize(PenSize(e.line_width as u32)));
                let move_cmd = Command::PenCommand(src, PenCommand::MoveCursor(Cursor { pressed: e.pressed, pos }));
                match found {
                    None => {
                        self.peers.push(peer);
                        cmds.push(color_cmd);
                        cmds.push(size_cmd);
                        cmds.push(move_cmd);
                        proof {
                            assert(cmds@ =~= seq![color_command(src, e), size_command(src, e), move_command(src, e)]);
                        }
                    },
                    Some(i) => {
                        let old_peer = self.peers[i];
                        if old_peer.color != e.color {
                            cmds.push(color_cmd);
                        }
                        if old_peer.line_width != e.line_width {
                            cmds.push(size_cmd);
                        }
                        cmds.push(move_cmd);
                        self.peers.set(i, peer);
                        proof {
                            let c = if old_peer.color != e.color { seq![color_command(src, e)] } else { Seq::<Command>::empty() };
                            let s = if old_peer.line_width != e.line_width { seq![size_command(src, e)] } else { Seq::<Command>::empty() };
                            assert(cmds@ =~= c + s + seq![move_command(src, e)]);
                        }
                    },
                }
            },
            Event::Release => {
                match found {
                    None => {},
                    Some(i) => {
                        let old_peer = self.peers[i];
                        cmds.push(Command::PenCommand(src, PenCommand::MoveCursor(Cursor { pressed: false, pos: old_peer.pos })));
                        self.peers.set(i, Peer { last_seen: now, ..old_peer });
                        proof {
                            assert(cmds@ =~= seq![Command::PenCommand(src, PenCommand::MoveCursor(Cursor { pressed: false, pos: old_peer.pos }))]);
                        }
                    },
                }
            },
            Event::Clear => {
                cmds.push(Command::ClearAll);
                proof {
                    assert(cmds@ =~= seq![Command::ClearAll]);
                }
            },
        }
        cmds
    }

    /// The commands for the received events, in order, at time `now`: events of the local
    /// participant are dropped, the others become commands as `receive_one` says.
    pub fn receive(&mut self, events: &Vec<AddressedEvent>, now: u64) -> (cmds: Vec<Command>)
        requires
            old(self).wf(),
        ensures
            final(self).wf(),
            (final(self).peers@, cmds@) == receive_all(
                old(self).peers@,
                old(self).local_id,
                events@,
                now,
            ),
            final(self).local_id == old(self).local_id,
            final(self).local == old(self).local,
    {
        let mut cmds: Vec<Command> = Vec::new();
        let mut k: usize = 0;
        proof {
            assert(events@.take(0) =~= Seq::<AddressedEvent>::empty());
        }
        while k < events.len()
            invariant
                self.wf(),
                k <= events@.len(),
                (self.peers@, cmds@) == receive_all(old(self).peers@, old(self).local_id, events@.take(k as int), now),
                self.local_id == old(self).local_id,
                self.local == old(self).local,
            decreases events@.len() - k,
        {
            let more = self.receive_event(events[k], now);
            proof {
                assert(events@.take(k + 1).drop_last() =~= events@.take(k as int));
            }
            let mut j: usize = 0;
            let ghost before = cmds@;
            while j < more.len()
                invariant
                    j <= more@.len(),
                    cmds@ == before + more@.take(j as int),
                decreases more@.len() - j,
            {
                cmds.push(more[j]);
                proof {
                    assert(before + more@.take(j + 1) =~= (before + more@.take(j as int)).push(more@[j as int]));
                }
                j += 1;
            }
            proof {
                assert(more@.take(more@.len() as int) =~= more@);
            }
            k += 1;
        }
        proof {
            assert(events@.take(events@.len() as int) =~= events@);
        }
        cmds
    }

    /// The events for one local command (see `send_one`).
    fn send_command(&mut self, cmd: Command) -> (evs: Vec<AddressedEvent>)
        ensures
            (final(self).local, evs@) == send_one(old(self).local, old(self).local_id, cmd),
            final(self).local_id == old(self).local_id,
            final(self).peers == old(self).peers,
    {
        let mut evs: Vec<AddressedEvent> = Vec::new();
        let local = self.local_id;
        match cmd {
            Command::ClearAll => {
                evs.push(AddressedEvent { src: local, event: Event::Clear });
                proof {
                    assert(evs@ =~= seq![AddressedEvent { src: local, event: Event::Clear }]);
                }
            },
            Command::PenCommand(id, pc) => {
                if id == local {
                    match pc {
                        PenCommand::ChangeColor(c) => {
                            self.local.color = c.to_u32();
                        },
                        PenCommand::ChangeSize(s) => {
                            self.local.line_width = clamp8_exec(s.0);
                        },
                        PenCommand::MoveCursor(c) => {
                            let me = self.local;
                            let mv = AddressedEvent {
                                src: local,
                                event: Event::Move(MoveEvent {
                                    color: me.color,
                                    line_width: me.line_width,
                                    x: clamp16_exec(c.pos.x),
                                    y: clamp16_exec(c.pos.y),
                                    pressed: c.pressed,
                                }),
                            };
                            let changed = c.pressed != me.cursor.pressed || c.pos.x != me.cursor.pos.x
                                || c.pos.y != me.cursor.pos.y;
                            if changed {
                                evs.push(mv);
                            }
                            if me.cursor.pressed && !c.pressed {
                                evs.push(AddressedEvent { src: local, event: Event::Release });
                            }
                            self.local.cursor = c;
                            proof {
                                let moved = if c != me.cursor { seq![mv] } else { Seq::<AddressedEvent>::empty() };
                                let released = if me.cursor.pressed && !c.pressed {
                                    seq![AddressedEvent { src: local, event: Event::Release }]
                                } else {
                                    Seq::<AddressedEvent>::empty()
                                };
                                assert(evs@ =~= moved + released);
                            }
                        },
                    }
                }
            },
            _ => {},
        }
        evs
    }

    /// The events to send for the local commands, in order (see `send_one`).
    pub fn send(&mut self, cmds: &Vec<Command>) -> (evs: Vec<AddressedEvent>)
        ensures
            (final(self).local, evs@) == send_all(old(self).local, old(self).local_id, cmds@),
            final(self).local_id == old(self).local_id,
            final(self).peers == old(self).peers,
    {
        let mut evs: Vec<AddressedEvent> = Vec::new();
        let mut k: usize = 0;
        proof {
            assert(cmds@.take(0) =~= Seq::<Command>::empty());
        }
        while k < cmds.len()
            invariant
                k <= cmds@.len(),
                (self.local, evs@) == send_all(old(self).local, old(self).local_id, cmds@.take(k as int)),
                self.local_id == old(self).local_id,
                self.peers == old(self).peers,
            decreases cmds@.len() - k,
        {
            let more = self.send_command(cmds[k]);
            proof {
                assert(cmds@.take(k + 1).drop_last() =~= cmds@.take(k as int));
            }
            let mut j: usize = 0;
            let ghost before = evs@;
            while j < more.len()
                invariant
                    j <= more@.len(),
                    evs@ == before + more@.take(j as int),
                decreases more@.len() - j,
            {
                evs.push(more[j]);
                proof {
                    assert(before + more@.take(j + 1) =~= (before + more@.take(j as int)).push(more@[j as int]));
                }
                j += 1;
            }
            proof {
                assert(more@.take(more@.len() as int) =~= more@);
            }
            k += 1;
        }
        proof {
            assert(cmds@.take(cmds@.len() as int) =~= cmds@);
        }
        evs
    }

    /// Whether the cursor of participant `id` is shown at time `now`: it is known, and its
    /// last event came less than `PEER_TIMEOUT_MS` before.
    pub fn is_active(&self, id: PenId, now: u64) -> (r: bool)
        ensures
            r == (find_peer(self.peers@, id) >= 0 && active_at(
                self.peers@[find_peer(self.peers@, id)].last_seen,
                now,
            )),
    {
        proof {
            lemma_find_peer_valid(self.peers@, id);
        }
        match self.peer_index(id) {
            None => false,
            Some(i) => {
                let last = self.peers[i].last_seen;
                now < last || now - last < PEER_TIMEOUT_MS
            },
        }
    }
}

/// The command is not a pen command for `local`.
pub open spec fn not_for(cmd: Command, local: PenId) -> bool {
    match cmd {
        Command::PenCommand(id, _) => id != local,
        _ => true,
    }
}

/// No self-echo: an event of the local participant gives no command and changes nothing,
/// and no command made from received events, whatever they are, is addressed to the
/// local pen.
pub proof fn lemma_no_self_echo(peers: Seq<Peer>, local: PenId, evs: Seq<AddressedEvent>, now: u64)
    ensures
        forall|e: AddressedEvent| e.src == local ==> #[trigger] receive_one(peers, local, e, now) == (peers, Seq::<Command>::empty()),
        forall|i: int| 0 <= i < receive_all(peers, local, evs, now).1.len() ==> not_for(#[trigger] receive_all(peers, local, evs, now).1[i], local),
    decreases evs.len(),
{
    assert forall|e: AddressedEvent| e.src == local implies #[trigger] receive_one(peers, local, e, now) == (peers, Seq::<Command>::empty()) by {}
    if evs.len() > 0 {
        lemma_no_self_echo(peers, local, evs.drop_last(), now);
        let (p1, c1) = receive_all(peers, local, evs.drop_last(), now);
        let c2 = receive_one(p1, local, evs.last(), now).1;
        assert forall|i: int| 0 <= i < c2.len() implies not_for(#[trigger] c2[i], local) by {}
        assert forall|i: int| 0 <= i < (c1 + c2).len() implies not_for(#[trigger] (c1 + c2)[i], local) by {
            if i >= c1.len() {
                assert((c1 + c2)[i] == c2[i - c1.len()]);
            }
        }
    }
}

/// Lazy peer creation: the first move of a participant not seen before adds exactly one
/// record, seeded with the event's color, width and position, and its commands give the
/// document exactly one new pen with that color, width and position; a second move of the
/// same participant adds no record.
pub proof fn lemma_lazy_peer_creation(
    peers: Seq<Peer>,
    local: PenId,
    src: PenId,
    e1: MoveEvent,
    e2: MoveEvent,
    now1: u64,
    now2: u64,
    m: Model,
    size: Size,
)
    requires
        unique_peers(peers),
        src != local,
        find_peer(peers, src) == -1,
        unique_ids(m.pens),
        find(m.pens, src) == -1,
    ensures
        ({
            let (p1, c1) = receive_one(peers, local, AddressedEvent { src, event: Event::Move(e1) }, now1);
            let (p2, c2) = receive_one(p1, local, AddressedEvent { src, event: Event::Move(e2) }, now2);
            let pens = apply_commands(m, size, c1).pens;
            &&& p1 == peers.push(Peer { id: src, color: e1.color, line_width: e1.line_width, pos: event_pos(e1), last_seen: now1 })
            &&& p2.len() == p1.len()
            &&& unique_peers(p2)
            &&& pens.len() == m.pens.len() + 1
            &&& pens.drop_last() == m.pens
            &&& pens.last().id == src
            &&& pens.last().color == unpacked(e1.color)
            &&& pens.last().size == PenSize(e1.line_width as u32)
            &&& pens.last().cursor == (Cursor { pressed: e1.pressed, pos: event_pos(e1) })
        }),
{
    let a1 = AddressedEvent { src, event: Event::Move(e1) };
    let (p1, c1) = receive_one(peers, local, a1, now1);
    lemma_receive_one_unique(peers, local, a1, now1);
    lemma_find_peer_valid(p1, src);
    assert(p1.last().id == src);
    assert(find_peer(p1, src) == p1.len() - 1);
    lemma_receive_one_unique(p1, local, AddressedEvent { src, event: Event::Move(e2) }, now2);
    assert(c1.drop_last().drop_last().drop_last() =~= Seq::<Command>::empty());
    assert(c1.drop_last().drop_last() =~= seq![color_command(src, e1)]);
    assert(c1.drop_last() =~= seq![color_command(src, e1), size_command(src, e1)]);
    crate::document::lemma_find_last(m.pens, src);
    let fresh = m.pens.push(fresh_pen(src));
    let colored = fresh.update(
        m.pens.len() as int,
        crate::document::apply_pen(fresh_pen(src), PenCommand::ChangeColor(unpacked(e1.color))),
    );
    assert(apply_commands(m, size, c1.drop_last().drop_last().drop_last()) == m);
    assert(apply_commands(m, size, c1.drop_last().drop_last()).pens == colored);
    assert(apply_commands(m, size, c1.drop_last()).pens.len() == m.pens.len() + 1);
    assert(apply_commands(m, size, c1).pens.len() == m.pens.len() + 1);
}

/// Options of a collaborative session: where peers meet, and the local participant.
pub struct CollabOpt {
    pub url: String,
    pub pen_id: PenId,
}

/// The transport that a collaboration address asks for.
#[derive(Clone, Copy, Debug, PartialEq, Eq, Structural)]
pub enum ChannelKind {
    /// Peer to peer, through the signaling server whose URL starts at this byte of the address.
    WebRtc(usize),
    /// Nobody to talk to: sends go nowhere and nothing arrives.
    Offline,
}

pub open spec fn has_prefix(s: Seq<u8>, p: Seq<u8>) -> bool {
    p.len() <= s.len() && s.subrange(0, p.len() as int) == p
}

/// `lavagna+`, which may come before an address.
pub open spec fn scheme_prefix() -> Seq<u8> {
    seq![108u8, 97, 118, 97, 103, 110, 97, 43]
}

/// `ws://`
pub open spec fn ws_prefix() -> Seq<u8> {
    seq![119u8, 115, 58, 47, 47]
}

/// `wss://`
pub open spec fn wss_prefix() -> Seq<u8> {
    seq![119u8, 115, 115, 58, 47, 47]
}

/// An address, without an optional leading `lavagna+`, is a WebSocket URL (`ws://` or
/// `wss://`) for a peer to peer session; anything else, the empty address included, means
/// working offline.
pub open spec fn channel_kind_of(b: Seq<u8>) -> ChannelKind {
    let start: int = if has_prefix(b, scheme_prefix()) {
        8
    } else {
        0
    };
    let rest = b.subrange(start, b.len() as int);
    if has_prefix(rest, ws_prefix()) || has_prefix(rest, wss_prefix()) {
        ChannelKind::WebRtc(start as usize)
    } else {
        ChannelKind::Offline
    }
}

fn prefix_at(b: &[u8], start: usize, p: &[u8]) -> (r: bool)
    requires
        start <= b@.len(),
    ensures
        r == has_prefix(b@.subrange(start as int, b@.len() as int), p@),
{
    let n = b.len();
    let m = p.len();
    if m > n - start {
        return false;
    }
    let mut k: usize = 0;
    while k < m
        invariant
            k <= m,
            m <= n - start,
            n == b@.len(),
            m == p@.len(),
            forall|j: int| 0 <= j < k ==> b@[start + j] == p@[j],
        decreases m - k,
    {
        if b[start + k] != p[k] {
            assert(b@.subrange(start as int, b@.len() as int).subrange(0, m as int)[k as int] != p@[k as int]);
            return false;
        }
        k += 1;
    }
    assert(b@.subrange(start as int, b@.len() as int).subrange(0, m as int) =~= p@);
    true
}

/// The transport that the collaboration address `uri` asks for (see `channel_kind_of`).
pub fn channel_kind(uri: &str) -> (k: ChannelKind)
    ensures
        k == channel_kind_of(uri.spec_bytes()),
{
    let b = uri.as_bytes();
    let scheme: [u8; 8] = [108, 97, 118, 97, 103, 110, 97, 43];
    let ws: [u8; 5] = [119, 115, 58, 47, 47];
    let wss: [u8; 6] = [119, 115, 115, 58, 47, 47];
    assert(scheme@ =~= scheme_prefix());
    assert(ws@ =~= ws_prefix());
    assert(wss@ =~= wss_prefix());
    assert(b@.subrange(0, b@.len() as int) =~= b@);
    let start: usize = if prefix_at(b, 0, scheme.as_slice()) {
        8
    } else {
        0
    };
    if prefix_at(b, start, ws.as_slice()) || prefix_at(b, start, wss.as_slice()) {
        ChannelKind::WebRtc(start)
    } else {
        ChannelKind::Offline
    }
}

} // verus!
