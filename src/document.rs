use std::collections::VecDeque;
use vstd::prelude::*;

use crate::color::{default_palette, Color, ColorSelector};
use crate::doc::{clipped_copy, fits, CursorPos, MutSketch, OwnedSketch, Size};
use crate::painter::{grown, line_drawn, shrunk, PenSize, Painter};

verus! {

/// Identifies a drawing participant, local or remote.
#[derive(Clone, Copy, Debug, Default, PartialEq, Eq, Hash, Structural)]
pub struct PenId(pub u32);

impl From<u32> for PenId {
    fn from(x: u32) -> (p: PenId) {
        PenId(x)
    }
}

impl vstd::std_specs::convert::FromSpecImpl<u32> for PenId {
    open spec fn obeys_from_spec() -> bool {
        true
    }

    open spec fn from_spec(x: u32) -> PenId {
        PenId(x)
    }
}

/// Where a pen is, and whether it touches the canvas.
#[derive(Clone, Copy, Debug, Default, PartialEq, Eq, Structural)]
pub struct Cursor {
    pub pressed: bool,
    pub pos: CursorPos,
}

impl Cursor {
    /// A released cursor at the origin.
    pub fn new() -> (c: Cursor)
        ensures
            c == Cursor::origin(),
    {
        Cursor { pressed: false, pos: CursorPos { x: 0, y: 0 } }
    }

    pub open spec fn origin() -> Cursor {
        Cursor { pressed: false, pos: CursorPos { x: 0, y: 0 } }
    }
}

/// A change to one pen.
#[derive(Clone, Copy, Debug, PartialEq, Eq, Structural)]
pub enum PenCommand {
    ChangeColor(Color),
    ChangeSize(PenSize),
    MoveCursor(Cursor),
}

/// The one way in which a document changes.
#[derive(Clone, Copy, Debug, PartialEq, Eq, Structural)]
pub enum Command {
    /// Saves the canvas on the history, then blanks it.
    ClearAll,
    /// Restores the canvas saved last, if any, and drops it from the history.
    ResumeLastSnapshot,
    /// Saves the canvas on the history.
    TakeSnapshot,
    PenCommand(PenId, PenCommand),
}

/// Takes commands, from local input or from collaborators.
pub trait CommandSender: Sized {
    /// Whether `next` is `self` with `cmd` taken.
    spec fn took(&self, next: &Self, cmd: Command) -> bool;

    fn send_command(&mut self, cmd: Command)
        ensures
            old(self).took(final(self), cmd),
    ;
}

/// The drawing state of one participant.
#[derive(Clone, Copy, Debug, PartialEq, Eq, Structural)]
pub struct Pen {
    pub id: PenId,
    pub cursor: Cursor,
    /// The cursor as it was when the canvas was last drawn.
    pub prev_cursor: Cursor,
    pub color: Color,
    pub size: PenSize,
}

/// A line drawn by a pen in one frame.
#[derive(Clone, Copy, Debug, PartialEq, Eq, Structural)]
pub struct Segment {
    pub pen: PenId,
    pub from: CursorPos,
    pub to: CursorPos,
    pub color: Color,
    pub size: PenSize,
}

/// A pen as it is created on its first use.
pub open spec fn fresh_pen(id: PenId) -> Pen {
    Pen {
        id,
        cursor: Cursor::origin(),
        prev_cursor: Cursor::origin(),
        color: Color::white_spec(),
        size: PenSize(1),
    }
}

/// Index of the pen `id` in `pens`, or -1.
pub open spec fn find(pens: Seq<Pen>, id: PenId) -> int
    decreases pens.len(),
{
    if pens.len() == 0 {
        -1
    } else if pens.last().id == id {
        pens.len() - 1
    } else {
        find(pens.drop_last(), id)
    }
}

/// `pens` with a fresh pen for `id` added at the end, if it had none.
pub open spec fn with_pen(pens: Seq<Pen>, id: PenId) -> Seq<Pen> {
    if find(pens, id) >= 0 {
        pens
    } else {
        pens.push(fresh_pen(id))
    }
}

/// At most one pen for each id.
pub open spec fn unique_ids(pens: Seq<Pen>) -> bool {
    forall|i: int, j: int|
        0 <= i < pens.len() && 0 <= j < pens.len() && i != j ==> #[trigger] pens[i].id
            != #[trigger] pens[j].id
}

pub open spec fn apply_pen(pen: Pen, cmd: PenCommand) -> Pen {
    match cmd {
        PenCommand::ChangeColor(c) => Pen { color: c, ..pen },
        PenCommand::ChangeSize(s) => Pen { size: s, ..pen },
        PenCommand::MoveCursor(c) => Pen { cursor: c, ..pen },
    }
}

/// What a document is, apart from its pending commands: its pens, its history of canvases
/// (last saved last) and its canvas.
pub struct Model {
    pub pens: Seq<Pen>,
    pub snapshots: Seq<(Size, Seq<u8>)>,
    pub canvas: Seq<u8>,
}

pub open spec fn zeros(n: nat) -> Seq<u8> {
    Seq::new(n, |i: int| 0u8)
}

/// The model after one command, on a canvas of size `size`.
pub open spec fn apply_command(m: Model, size: Size, cmd: Command) -> Model {
    match cmd {
        Command::ClearAll => Model {
            snapshots: m.snapshots.push((size, m.canvas)),
            canvas: zeros(m.canvas.len()),
            ..m
        },
        Command::TakeSnapshot => Model { snapshots: m.snapshots.push((size, m.canvas)), ..m },
        Command::ResumeLastSnapshot => {
            if m.snapshots.len() == 0 {
                m
            } else {
                let (s, frame) = m.snapshots.last();
                Model {
                    snapshots: m.snapshots.drop_last(),
                    canvas: clipped_copy(m.canvas, size, frame, s),
                    ..m
                }
            }
        },
        Command::PenCommand(id, pc) => {
            let pens = with_pen(m.pens, id);
            let i = find(pens, id);
            Model { pens: pens.update(i, apply_pen(pens[i], pc)), ..m }
        },
    }
}

/// The model after the commands, in order.
pub open spec fn apply_commands(m: Model, size: Size, cmds: Seq<Command>) -> Model
    decreases cmds.len(),
{
    if cmds.len() == 0 {
        m
    } else {
        apply_command(apply_commands(m, size, cmds.drop_last()), size, cmds.last())
    }
}

/// Whether a pen draws this frame: pressed now and when last drawn, and moved since.
pub open spec fn draws(pen: Pen) -> bool {
    pen.cursor.pressed && pen.prev_cursor.pressed && pen.cursor.pos != pen.prev_cursor.pos
}

pub open spec fn segment_of(pen: Pen) -> Segment {
    Segment {
        pen: pen.id,
        from: pen.prev_cursor.pos,
        to: pen.cursor.pos,
        color: pen.color,
        size: pen.size,
    }
}

/// The segments that the first `k` pens draw, in order.
pub open spec fn segments(pens: Seq<Pen>, k: int) -> Seq<Segment>
    decreases k,
{
    if k <= 0 {
        seq![]
    } else if draws(pens[k - 1]) {
        segments(pens, k - 1).push(segment_of(pens[k - 1]))
    } else {
        segments(pens, k - 1)
    }
}

/// The canvas after the first `k` pens draw, in order.
pub open spec fn drawn(pens: Seq<Pen>, canvas: Seq<u8>, w: int, k: int) -> Seq<u8>
    decreases k,
{
    if k <= 0 {
        canvas
    } else {
        let before = drawn(pens, canvas, w, k - 1);
        let p = pens[k - 1];
        if draws(p) {
            line_drawn(before, w, p.prev_cursor.pos, p.cursor.pos, p.size.0, p.color)
        } else {
            before
        }
    }
}

/// The pens once drawn: each remembers its cursor as drawn.
pub open spec fn settled(pens: Seq<Pen>) -> Seq<Pen> {
    Seq::new(pens.len(), |i: int| Pen { prev_cursor: pens[i].cursor, ..pens[i] })
}

/// One frame: the commands, in order, then each pen draws.
pub open spec fn tick(m: Model, size: Size, cmds: Seq<Command>) -> (Model, Seq<Segment>) {
    let m1 = apply_commands(m, size, cmds);
    (
        Model {
            pens: settled(m1.pens),
            canvas: drawn(m1.pens, m1.canvas, size.width as int, m1.pens.len() as int),
            ..m1
        },
        segments(m1.pens, m1.pens.len() as int),
    )
}

pub open spec fn snapshots_view(v: Seq<OwnedSketch>) -> Seq<(Size, Seq<u8>)> {
    Seq::new(v.len(), |i: int| (v[i].size, v[i].frame@))
}

/// Each saved canvas fits its size.
pub open spec fn history_fits(s: Seq<(Size, Seq<u8>)>) -> bool {
    forall|i: int| 0 <= i < s.len() ==> fits(#[trigger] s[i].1.len() as int, s[i].0)
}

/// A whiteboard document: the pens of all participants, a queue of commands, the palette
/// that the local pen cycles through, and the history of saved canvases.
pub struct App {
    /// The local participant.
    pub pen_id: PenId,
    /// One pen for each participant seen, in order of first use.
    pub pens: Vec<Pen>,
    /// Commands not yet applied, oldest first.
    pub commands: VecDeque<Command>,
    pub palette: ColorSelector,
    /// Saved canvases, last saved last.
    pub snapshots: Vec<OwnedSketch>,
    /// Local commands for collaborators, oldest first.
    pub outgoing: Vec<Command>,
}

proof fn lemma_find_valid(pens: Seq<Pen>, id: PenId)
    ensures
        -1 <= find(pens, id) < pens.len(),
        find(pens, id) >= 0 ==> pens[find(pens, id)].id == id,
        find(pens, id) == -1 ==> forall|j: int| 0 <= j < pens.len() ==> pens[j].id != id,
    decreases pens.len(),
{
    if pens.len() > 0 && pens.last().id != id {
        lemma_find_valid(pens.drop_last(), id);
        assert forall|j: int| 0 <= j < pens.len() - 1 implies pens[j] == pens.drop_last()[j] by {}
    }
}

/// A pen added for an id that had none is the one found for it.
pub proof fn lemma_find_last(pens: Seq<Pen>, id: PenId)
    requires
        find(pens, id) == -1,
    ensures
        find(pens.push(fresh_pen(id)), id) == pens.len(),
        forall|q: Pen| q.id == id ==> find(pens.push(fresh_pen(id)).update(pens.len() as int, q), id) == pens.len(),
{
    assert forall|q: Pen| q.id == id implies find(pens.push(fresh_pen(id)).update(pens.len() as int, q), id) == pens.len() by {
        let ps = pens.push(fresh_pen(id)).update(pens.len() as int, q);
        assert(ps.last() == q);
    }
}

/// Where ids are unique, the pen found for an id is the one that has it.
proof fn lemma_find_unique(pens: Seq<Pen>, id: PenId, i: int)
    requires
        unique_ids(pens),
        0 <= i < pens.len(),
        pens[i].id == id,
    ensures
        find(pens, id) == i,
{
    lemma_find_valid(pens, id);
}

pub fn apply_pen_exec(pen: Pen, cmd: PenCommand) -> (r: Pen)
    ensures
        r == apply_pen(pen, cmd),
{
    match cmd {
        PenCommand::ChangeColor(c) => Pen { color: c, ..pen },
        PenCommand::ChangeSize(s) => Pen { size: s, ..pen },
        PenCommand::MoveCursor(c) => Pen { cursor: c, ..pen },
    }
}

impl App {
    pub open spec fn model(&self, canvas: Seq<u8>) -> Model {
        Model { pens: self.pens@, snapshots: snapshots_view(self.snapshots@), canvas }
    }

    pub open spec fn wf(&self) -> bool {
        &&& unique_ids(self.pens@)
        &&& history_fits(snapshots_view(self.snapshots@))
        &&& self.palette.wf()
    }

    /// A document with no pens, no history and nothing to do, for the local pen `pen_id`.
    pub fn new(pen_id: PenId) -> (app: App)
        ensures
            app.wf(),
            app.pen_id == pen_id,
            app.pens@.len() == 0,
            app.commands@.len() == 0,
            app.snapshots@.len() == 0,
            app.outgoing@.len() == 0,
            app.palette.index == 0,
            app.palette.palette@ == crate::color::default_palette_spec(),
    {
        App {
            pen_id,
            pens: Vec::new(),
            commands: VecDeque::with_capacity(10),
            palette: ColorSelector::new(default_palette()),
            snapshots: Vec::new(),
            outgoing: Vec::new(),
        }
    }

    /// Queues a command; nothing else changes.
    pub fn submit(&mut self, cmd: Command)
        ensures
            final(self).commands@ == old(self).commands@.push(cmd),
            final(self).pens == old(self).pens,
            final(self).snapshots == old(self).snapshots,
            final(self).outgoing == old(self).outgoing,
            final(self).palette == old(self).palette,
            final(self).pen_id == old(self).pen_id,
    {
        self.commands.push_back(cmd);
    }

    /// Whether commands are waiting.
    pub fn needs_update(&self) -> (r: bool)
        ensures
            r == (self.commands@.len() > 0),
    {
        self.commands.len() > 0
    }

    /// Queues a local command, and keeps it for collaborators.
    fn send_command_chained(&mut self, cmd: Command)
        ensures
            final(self).commands@ == old(self).commands@.push(cmd),
            final(self).outgoing@ == old(self).outgoing@.push(cmd),
            final(self).pens == old(self).pens,
            final(self).snapshots == old(self).snapshots,
            final(self).palette == old(self).palette,
            final(self).pen_id == old(self).pen_id,
    {
        self.commands.push_back(cmd);
        self.outgoing.push(cmd);
    }

    fn send_pen_command(&mut self, cmd: PenCommand)
        ensures
            final(self).commands@ == old(self).commands@.push(
                Command::PenCommand(old(self).pen_id, cmd),
            ),
            final(self).outgoing@ == old(self).outgoing@.push(
                Command::PenCommand(old(self).pen_id, cmd),
            ),
            final(self).pens == old(self).pens,
            final(self).snapshots == old(self).snapshots,
            final(self).palette == old(self).palette,
            final(self).pen_id == old(self).pen_id,
    {
        let cmd = Command::PenCommand(self.pen_id, cmd);
        self.send_command_chained(cmd);
    }

    pub fn clear_all(&mut self)
        ensures
            final(self).commands@ == old(self).commands@.push(Command::ClearAll),
            final(self).outgoing@ == old(self).outgoing@.push(Command::ClearAll),
            final(self).pens == old(self).pens,
            final(self).snapshots == old(self).snapshots,
            final(self).palette == old(self).palette,
            final(self).pen_id == old(self).pen_id,
    {
        self.send_command_chained(Command::ClearAll);
    }

    pub fn resume_last_snapshot(&mut self)
        ensures
            final(self).commands@ == old(self).commands@.push(Command::ResumeLastSnapshot),
            final(self).outgoing@ == old(self).outgoing@.push(Command::ResumeLastSnapshot),
            final(self).pens == old(self).pens,
            final(self).snapshots == old(self).snapshots,
            final(self).palette == old(self).palette,
            final(self).pen_id == old(self).pen_id,
    {
        self.send_command_chained(Command::ResumeLastSnapshot);
    }

    pub fn take_snapshot(&mut self)
        ensures
            final(self).commands@ == old(self).commands@.push(Command::TakeSnapshot),
            final(self).outgoing@ == old(self).outgoing@.push(Command::TakeSnapshot),
            final(self).pens == old(self).pens,
            final(self).snapshots == old(self).snapshots,
            final(self).palette == old(self).palette,
            final(self).pen_id == old(self).pen_id,
    {
        self.send_command_chained(Command::TakeSnapshot);
    }

    /// Moves the local pen, pressed or not.
    pub fn move_cursor(&mut self, cursor: Cursor)
        ensures
            final(self).commands@ == old(self).commands@.push(
                Command::PenCommand(old(self).pen_id, PenCommand::MoveCursor(cursor)),
            ),
            final(self).outgoing@ == old(self).outgoing@.push(
                Command::PenCommand(old(self).pen_id, PenCommand::MoveCursor(cursor)),
            ),
            final(self).pens == old(self).pens,
            final(self).snapshots == old(self).snapshots,
            final(self).palette == old(self).palette,
            final(self).pen_id == old(self).pen_id,
    {
        self.send_pen_command(PenCommand::MoveCursor(cursor));
    }

    /// The local pen takes the next color of the palette.
    pub fn change_color(&mut self)
        requires
            old(self).wf(),
        ensures
            final(self).wf(),
            final(self).commands@ == old(self).commands@.push(
                Command::PenCommand(
                    old(self).pen_id,
                    PenCommand::ChangeColor(old(self).palette.palette@[old(self).palette.index as int]),
                ),
            ),
            final(self).outgoing@ == old(self).outgoing@.push(
                Command::PenCommand(
                    old(self).pen_id,
                    PenCommand::ChangeColor(old(self).palette.palette@[old(self).palette.index as int]),
                ),
            ),
            final(self).palette.palette@ == old(self).palette.palette@,
            final(self).palette.index as int == (old(self).palette.index as int + 1) % (old(
                self,
            ).palette.palette@.len() as int),
            final(self).pens == old(self).pens,
            final(self).snapshots == old(self).snapshots,
            final(self).pen_id == old(self).pen_id,
    {
        if let Some(color) = self.palette.next() {
            self.send_pen_command(PenCommand::ChangeColor(color));
        }
    }

    /// The applied state of the pen `id`, or a fresh pen where it has none yet.
    pub fn pen(&self, id: PenId) -> (p: Pen)
        ensures
            p == Self::pen_spec(self.pens@, id),
    {
        proof {
            lemma_find_valid(self.pens@, id);
        }
        match self.pen_index(id) {
            Some(i) => self.pens[i],
            None => Pen {
                id,
                cursor: Cursor::new(),
                prev_cursor: Cursor::new(),
                color: Color::white(),
                size: PenSize(1),
            },
        }
    }

    /// The local pen doubles its size, kept between 1 and 32.
    pub fn grow_pen(&mut self)
        ensures
            final(self).commands@ == old(self).commands@.push(
                Command::PenCommand(
                    old(self).pen_id,
                    PenCommand::ChangeSize(PenSize(grown(old(self).local_pen().size.0))),
                ),
            ),
            final(self).outgoing@.len() == old(self).outgoing@.len() + 1,
            final(self).outgoing@.last() == final(self).commands@.last(),
            final(self).outgoing@.drop_last() == old(self).outgoing@,
            final(self).pens == old(self).pens,
            final(self).snapshots == old(self).snapshots,
            final(self).palette == old(self).palette,
            final(self).pen_id == old(self).pen_id,
    {
        let mut size = self.pen(self.pen_id).size;
        size.grow();
        self.send_pen_command(PenCommand::ChangeSize(size));
    }

    /// The local pen halves its size, kept between 1 and 32.
    pub fn shrink_pen(&mut self)
        ensures
            final(self).commands@ == old(self).commands@.push(
                Command::PenCommand(
                    old(self).pen_id,
                    PenCommand::ChangeSize(PenSize(shrunk(old(self).local_pen().size.0))),
                ),
            ),
            final(self).outgoing@.len() == old(self).outgoing@.len() + 1,
            final(self).outgoing@.last() == final(self).commands@.last(),
            final(self).outgoing@.drop_last() == old(self).outgoing@,
            final(self).pens == old(self).pens,
            final(self).snapshots == old(self).snapshots,
            final(self).palette == old(self).palette,
            final(self).pen_id == old(self).pen_id,
    {
        let mut size = self.pen(self.pen_id).size;
        size.shrink();
        self.send_pen_command(PenCommand::ChangeSize(size));
    }

    /// Releases the local pen where it is.
    pub fn force_release(&mut self)
        ensures
            final(self).commands@ == old(self).commands@.push(
                Command::PenCommand(
                    old(self).pen_id,
                    PenCommand::MoveCursor(
                        Cursor { pressed: false, pos: old(self).local_pen().cursor.pos },
                    ),
                ),
            ),
            final(self).outgoing@.len() == old(self).outgoing@.len() + 1,
            final(self).outgoing@.last() == final(self).commands@.last(),
            final(self).outgoing@.drop_last() == old(self).outgoing@,
            final(self).pens == old(self).pens,
            final(self).snapshots == old(self).snapshots,
            final(self).palette == old(self).palette,
            final(self).pen_id == old(self).pen_id,
    {
        let pos = self.pen(self.pen_id).cursor.pos;
        self.send_pen_command(PenCommand::MoveCursor(Cursor { pressed: false, pos }));
    }

    /// The applied state of the local pen, or a fresh pen where it has none yet.
    pub open spec fn local_pen(&self) -> Pen {
        Self::pen_spec(self.pens@, self.pen_id)
    }

    pub open spec fn pen_spec(pens: Seq<Pen>, id: PenId) -> Pen {
        if find(pens, id) >= 0 {
            pens[find(pens, id)]
        } else {
            fresh_pen(id)
        }
    }

    /// Hands over the local commands kept for collaborators, oldest first.
    pub fn drain_outgoing(&mut self) -> (out: Vec<Command>)
        ensures
            out@ == old(self).outgoing@,
            final(self).outgoing@.len() == 0,
            final(self).commands == old(self).commands,
            final(self).pens == old(self).pens,
            final(self).snapshots == old(self).snapshots,
            final(self).palette == old(self).palette,
            final(self).pen_id == old(self).pen_id,
    {
        let out = self.outgoing.clone();
        self.outgoing = Vec::new();
        out
    }

    fn pen_index(&self, id: PenId) -> (r: Option<usize>)
        ensures
            match r {
                Some(i) => i as int == find(self.pens@, id),
                None => find(self.pens@, id) == -1,
            },
    {
        let mut j = self.pens.len();
        proof {
            assert(self.pens@.take(j as int) =~= self.pens@);
        }
        while j > 0
            invariant
                j <= self.pens@.len(),
                find(self.pens@, id) == find(self.pens@.take(j as int), id),
            decreases j,
        {
            if self.pens[j - 1].id == id {
                return Some(j - 1);
            }
            proof {
                assert(self.pens@.take(j as int).drop_last() =~= self.pens@.take(j - 1));
            }
            j -= 1;
        }
        None
    }

    /// Index of the pen `id`, created fresh at the end where it had none.
    fn select(&mut self, id: PenId) -> (i: usize)
        requires
            unique_ids(old(self).pens@),
        ensures
            final(self).pens@ == with_pen(old(self).pens@, id),
            i as int == find(final(self).pens@, id),
            unique_ids(final(self).pens@),
            final(self).commands == old(self).commands,
            final(self).snapshots == old(self).snapshots,
            final(self).outgoing == old(self).outgoing,
            final(self).palette == old(self).palette,
            final(self).pen_id == old(self).pen_id,
    {
        proof {
            lemma_find_valid(self.pens@, id);
        }
        match self.pen_index(id) {
            Some(i) => i,
            None => {
                let pen = Pen {
                    id,
                    cursor: Cursor::new(),
                    prev_cursor: Cursor::new(),
                    color: Color::white(),
                    size: PenSize(1),
                };
                self.pens.push(pen);
                proof {
                    let ps = self.pens@;
                    assert(ps.drop_last() =~= old(self).pens@);
                    assert(unique_ids(ps));
                }
                self.pens.len() - 1
            },
        }
    }

    /// Applies one command to the document and `sketch`.
    fn apply(&mut self, sketch: &mut MutSketch, cmd: Command)
        requires
            old(self).wf(),
            old(sketch).wf(),
        ensures
            final(self).wf(),
            final(sketch).wf(),
            final(sketch).size == old(sketch).size,
            final(self).model(final(sketch).frame@) == apply_command(
                old(self).model(old(sketch).frame@),
                old(sketch).size,
                cmd,
            ),
            final(final(sketch).frame)@ == final(old(sketch).frame)@,
            final(self).commands == old(self).commands,
            final(self).outgoing == old(self).outgoing,
            final(self).palette == old(self).palette,
            final(self).pen_id == old(self).pen_id,
    {
        let ghost m0 = self.model(sketch.frame@);
        match cmd {
            Command::ClearAll => {
                self.snapshots.push(sketch.to_owned());
                let n = sketch.frame.len();
                let mut i: usize = 0;
                while i < n
                    invariant
                        n == sketch.frame@.len(),
                        n == m0.canvas.len(),
                        sketch.size == old(sketch).size,
                        forall|j: int| 0 <= j < i ==> sketch.frame@[j] == 0,
                        final(sketch.frame)@ == final(old(sketch).frame)@,
                    decreases n - i,
                {
                    sketch.frame[i] = 0;
                    i += 1;
                }
                proof {
                    assert(sketch.frame@ =~= zeros(m0.canvas.len()));
                    assert(snapshots_view(self.snapshots@) =~= m0.snapshots.push(
                        (old(sketch).size, m0.canvas),
                    ));
                }
            },
            Command::TakeSnapshot => {
                self.snapshots.push(sketch.to_owned());
                proof {
                    assert(snapshots_view(self.snapshots@) =~= m0.snapshots.push(
                        (old(sketch).size, m0.canvas),
                    ));
                }
            },
            Command::ResumeLastSnapshot => {
                let ghost before = self.snapshots@;
                match self.snapshots.pop() {
                    Some(backup) => {
                        proof {
                            assert(snapshots_view(before).last() == (backup.size, backup.frame@));
                            assert(fits(snapshots_view(before)[before.len() - 1].1.len() as int,
                                snapshots_view(before)[before.len() - 1].0));
                        }
                        sketch.copy_from(&backup.as_sketch());
                        proof {
                            assert(snapshots_view(self.snapshots@) =~= m0.snapshots.drop_last());
                        }
                    },
                    None => {},
                }
            },
            Command::PenCommand(id, pc) => {
                let i = self.select(id);
                proof {
                    lemma_find_valid(self.pens@, id);
                }
                let pen = apply_pen_exec(self.pens[i], pc);
                self.pens.set(i, pen);
                proof {
                    let ps = self.pens@;
                    assert(unique_ids(ps));
                }
            },
        }
    }

    /// One frame: applies every queued command in order, then each pen that is pressed,
    /// was pressed when last drawn and has moved since draws a line from where it was
    /// drawn to where it is. Returns those lines, in the order of the pens.
    pub fn update(&mut self, sketch: MutSketch) -> (drawn_segments: Vec<Segment>)
        requires
            old(self).wf(),
            sketch.wf(),
        ensures
            final(self).wf(),
            final(self).commands@.len() == 0,
            final(self).model(final(sketch.frame)@) == tick(
                old(self).model(old(sketch.frame)@),
                sketch.size,
                old(self).commands@,
            ).0,
            drawn_segments@ == tick(
                old(self).model(old(sketch.frame)@),
                sketch.size,
                old(self).commands@,
            ).1,
            final(self).outgoing == old(self).outgoing,
            final(self).palette == old(self).palette,
            final(self).pen_id == old(self).pen_id,
    {
        let mut sketch = sketch;
        let ghost size = sketch.size;
        let ghost m0 = self.model(sketch.frame@);
        let ghost cmds = self.commands@;
        let ghost fin = final(sketch.frame)@;
        let ghost mut k: int = 0;
        while self.commands.len() > 0
            invariant
                self.wf(),
                sketch.wf(),
                sketch.size == size,
                0 <= k <= cmds.len(),
                self.commands@ == cmds.skip(k),
                self.model(sketch.frame@) == apply_commands(m0, size, cmds.take(k)),
                final(sketch.frame)@ == fin,
                self.outgoing == old(self).outgoing,
                self.palette == old(self).palette,
                self.pen_id == old(self).pen_id,
            decreases self.commands@.len(),
        {
            let cmd = self.commands.pop_front().unwrap();
            proof {
                assert(cmd == cmds[k]);
                assert(cmds.take(k + 1).drop_last() =~= cmds.take(k));
                assert(self.commands@ =~= cmds.skip(k + 1));
            }
            self.apply(&mut sketch, cmd);
            proof {
                k = k + 1;
            }
        }
        proof {
            assert(cmds.take(k) =~= cmds);
        }
        let ghost m1 = self.model(sketch.frame@);
        let ghost pens1 = self.pens@;
        let ghost w = size.width as int;
        let mut painter = Painter::new(sketch);
        let mut segs: Vec<Segment> = Vec::new();
        let n = self.pens.len();
        let mut i: usize = 0;
        while i < n
            invariant
                n == self.pens@.len(),
                n == pens1.len(),
                i <= n,
                pens1 == m1.pens,
                unique_ids(pens1),
                forall|j: int| 0 <= j < n ==> #[trigger] self.pens@[j] == (if j < i {
                    settled(pens1)[j]
                } else {
                    pens1[j]
                }),
                painter.sketch.size == size,
                painter.sketch.frame@ == drawn(pens1, m1.canvas, w, i as int),
                segs@ == segments(pens1, i as int),
                final(painter.sketch.frame)@ == fin,
                w == size.width as int,
                snapshots_view(self.snapshots@) == m1.snapshots,
                history_fits(snapshots_view(self.snapshots@)),
                self.palette.wf(),
                self.commands@.len() == 0,
                self.outgoing == old(self).outgoing,
                self.palette == old(self).palette,
                self.pen_id == old(self).pen_id,
            decreases n - i,
        {
            let pen = self.pens[i];
            let ghost before = painter.sketch.frame@;
            assert(pen == pens1[i as int]);
            let moved = pen.cursor.pos.x != pen.prev_cursor.pos.x || pen.cursor.pos.y
                != pen.prev_cursor.pos.y;
            if pen.cursor.pressed && pen.prev_cursor.pressed && moved {
                painter.set_color(pen.color);
                painter.set_size(pen.size);
                painter.draw_line(pen.prev_cursor.pos, pen.cursor.pos);
                segs.push(
                    Segment {
                        pen: pen.id,
                        from: pen.prev_cursor.pos,
                        to: pen.cursor.pos,
                        color: pen.color,
                        size: pen.size,
                    },
                );
            }
            proof {
                if draws(pen) {
                    assert(painter.sketch.frame@ == line_drawn(before, w, pen.prev_cursor.pos, pen.cursor.pos, pen.size.0, pen.color));
                } else {
                    assert(painter.sketch.frame@ == before);
                }
                assert(drawn(pens1, m1.canvas, w, i + 1) == (if draws(pen) {
                    line_drawn(before, w, pen.prev_cursor.pos, pen.cursor.pos, pen.size.0, pen.color)
                } else {
                    before
                }));
            }
            self.pens.set(i, Pen { prev_cursor: pen.cursor, ..pen });
            i += 1;
        }
        let sketch = painter.into_sketch();
        let MutSketch { size: _, frame } = sketch;
        proof {
            assert(self.pens@ =~= settled(pens1));
            assert forall|a: int, b: int|
                0 <= a < n && 0 <= b < n && a != b implies #[trigger] self.pens@[a].id
                != #[trigger] self.pens@[b].id by {
                assert(pens1[a].id != pens1[b].id);
            }
        }
        segs
    }
}

impl CommandSender for App {
    /// The command is queued, and nothing else changes: in particular it is not kept for
    /// collaborators, so commands received from them are never sent back.
    open spec fn took(&self, next: &App, cmd: Command) -> bool {
        &&& next.commands@ == self.commands@.push(cmd)
        &&& next.pens == self.pens
        &&& next.snapshots == self.snapshots
        &&& next.outgoing == self.outgoing
        &&& next.palette == self.palette
        &&& next.pen_id == self.pen_id
    }

    fn send_command(&mut self, cmd: Command) {
        self.submit(cmd);
    }
}

/// Every pen remembers its current cursor as drawn.
pub open spec fn all_settled(pens: Seq<Pen>) -> bool {
    forall|i: int| 0 <= i < pens.len() ==> #[trigger] pens[i].prev_cursor == pens[i].cursor
}

/// The model and lines after each frame in turn, the lines of all frames in order.
pub open spec fn run(m: Model, size: Size, frames: Seq<Seq<Command>>) -> (Model, Seq<Segment>)
    decreases frames.len(),
{
    if frames.len() == 0 {
        (m, seq![])
    } else {
        let (m1, segs1) = run(m, size, frames.drop_last());
        let (m2, segs2) = tick(m1, size, frames.last());
        (m2, segs1 + segs2)
    }
}

/// Determinism: two documents in the same state, given the same frames of commands, end
/// with the same canvas, pens and history, and draw the same lines.
pub proof fn lemma_determinism(a: Model, b: Model, size: Size, frames: Seq<Seq<Command>>)
    requires
        a == b,
    ensures
        run(a, size, frames) == run(b, size, frames),
{
}

proof fn lemma_paint_all_len(frame: Seq<u8>, w: int, pts: Seq<(isize, isize)>, c: Color)
    ensures
        crate::painter::paint_all(frame, w, pts, c).len() == frame.len(),
    decreases pts.len(),
{
    if pts.len() > 0 {
        lemma_paint_all_len(frame, w, pts.drop_last(), c);
    }
}

proof fn lemma_drawn_len(pens: Seq<Pen>, canvas: Seq<u8>, w: int, k: int)
    ensures
        drawn(pens, canvas, w, k).len() == canvas.len(),
    decreases k,
{
    if k > 0 {
        lemma_drawn_len(pens, canvas, w, k - 1);
        let p = pens[k - 1];
        if draws(p) && crate::painter::drawable(p.prev_cursor.pos, p.cursor.pos, p.size.0) {
            lemma_paint_all_len(
                drawn(pens, canvas, w, k - 1),
                w,
                crate::painter::stamped_points(
                    p.prev_cursor.pos,
                    p.cursor.pos,
                    crate::painter::stamp_offsets(p.size.0),
                ),
                p.color,
            );
        }
    }
}

proof fn lemma_pen_commands_keep_canvas(m: Model, size: Size, cmds: Seq<Command>)
    requires
        forall|i: int| 0 <= i < cmds.len() ==> #[trigger] cmds[i] is PenCommand,
    ensures
        apply_commands(m, size, cmds).snapshots == m.snapshots,
        apply_commands(m, size, cmds).canvas == m.canvas,
    decreases cmds.len(),
{
    if cmds.len() > 0 {
        lemma_pen_commands_keep_canvas(m, size, cmds.drop_last());
        assert(cmds[cmds.len() - 1] is PenCommand);
    }
}

/// A frame whose commands are all pen commands keeps the history, and a canvas of the same
/// length: whatever it draws, the last saved canvas is still the one to restore.
pub proof fn lemma_drawing_keeps_history(m: Model, size: Size, cmds: Seq<Command>)
    requires
        forall|i: int| 0 <= i < cmds.len() ==> #[trigger] cmds[i] is PenCommand,
    ensures
        tick(m, size, cmds).0.snapshots == m.snapshots,
        tick(m, size, cmds).0.canvas.len() == m.canvas.len(),
{
    lemma_pen_commands_keep_canvas(m, size, cmds);
    let m1 = apply_commands(m, size, cmds);
    lemma_drawn_len(m1.pens, m1.canvas, size.width as int, m1.pens.len() as int);
}

proof fn lemma_copy_same_size(dst: Seq<u8>, src: Seq<u8>, size: Size)
    requires
        fits(src.len() as int, size),
        dst.len() == src.len(),
    ensures
        clipped_copy(dst, size, src, size) == src,
{
    let w = size.width as int;
    let h = size.height as int;
    assert forall|i: int| 0 <= i < src.len() implies #[trigger] clipped_copy(dst, size, src, size)[i]
        == src[i] by {
        assert(w > 0) by (nonlinear_arith)
            requires
                0 <= i < 4 * w * h,
                w >= 0,
                h >= 0,
        ;
        vstd::arithmetic::div_mod::lemma_fundamental_div_mod(i, 4 * w);
        let r = i / (4 * w);
        let c = i % (4 * w);
        assert(0 <= c < 4 * w);
        assert(i == 4 * w * r + c) by (nonlinear_arith)
            requires
                i == (4 * w) * r + c,
        ;
        assert(r < h) by (nonlinear_arith)
            requires
                i == 4 * w * r + c,
                0 <= c,
                i < 4 * w * h,
                w > 0,
        ;
        assert(0 <= r) by (nonlinear_arith)
            requires
                i == 4 * w * r + c,
                c < 4 * w,
                i >= 0,
                w > 0,
        ;
    }
    assert(clipped_copy(dst, size, src, size) =~= src);
}

/// Undo round trip: once the canvas is saved, whatever the pens draw on a canvas of that
/// size, restoring the last saved canvas gives it back byte for byte, and the history is as
/// it was before the save.
pub proof fn lemma_undo_round_trip(m: Model, size: Size, later: Model)
    requires
        fits(m.canvas.len() as int, size),
        later.snapshots == apply_command(m, size, Command::TakeSnapshot).snapshots,
        later.canvas.len() == m.canvas.len(),
    ensures
        apply_command(later, size, Command::ResumeLastSnapshot).canvas == m.canvas,
        apply_command(later, size, Command::ResumeLastSnapshot).snapshots == m.snapshots,
{
    lemma_copy_same_size(later.canvas, m.canvas, size);
    assert(later.snapshots.drop_last() =~= m.snapshots);
}

/// Clear round trip: clearing blanks the canvas, and restoring the last saved canvas after
/// it, whatever was drawn since, gives back the canvas as it was before the clear.
pub proof fn lemma_clear_round_trip(m: Model, size: Size, later: Model)
    requires
        fits(m.canvas.len() as int, size),
        later.snapshots == apply_command(m, size, Command::ClearAll).snapshots,
        later.canvas.len() == m.canvas.len(),
    ensures
        apply_command(m, size, Command::ClearAll).canvas == zeros(m.canvas.len()),
        apply_command(later, size, Command::ResumeLastSnapshot).canvas == m.canvas,
        apply_command(later, size, Command::ResumeLastSnapshot).snapshots == m.snapshots,
{
    lemma_copy_same_size(later.canvas, m.canvas, size);
    assert(later.snapshots.drop_last() =~= m.snapshots);
}

proof fn lemma_quiet_pens(pens: Seq<Pen>, canvas: Seq<u8>, w: int, k: int)
    requires
        0 <= k <= pens.len(),
        forall|j: int| 0 <= j < k ==> !draws(#[trigger] pens[j]),
    ensures
        segments(pens, k) == Seq::<Segment>::empty(),
        drawn(pens, canvas, w, k) == canvas,
    decreases k,
{
    if k > 0 {
        lemma_quiet_pens(pens, canvas, w, k - 1);
    }
}

proof fn lemma_one_pen_draws(pens: Seq<Pen>, i: int, k: int)
    requires
        0 <= i < pens.len(),
        0 <= k <= pens.len(),
        forall|j: int| 0 <= j < pens.len() && j != i ==> !draws(#[trigger] pens[j]),
    ensures
        segments(pens, k) == (if i < k && draws(pens[i]) {
            seq![segment_of(pens[i])]
        } else {
            Seq::<Segment>::empty()
        }),
    decreases k,
{
    if k > 0 {
        lemma_one_pen_draws(pens, i, k - 1);
    }
}

proof fn lemma_settled_quiet(pens: Seq<Pen>)
    requires
        all_settled(pens),
    ensures
        forall|j: int| 0 <= j < pens.len() ==> !draws(#[trigger] pens[j]),
        settled(pens) == pens,
{
    assert forall|j: int| 0 <= j < pens.len() implies !draws(#[trigger] pens[j]) by {
        assert(pens[j].prev_cursor == pens[j].cursor);
    }
    assert forall|j: int| 0 <= j < pens.len() implies #[trigger] settled(pens)[j] == pens[j] by {
        assert(pens[j].prev_cursor == pens[j].cursor);
    }
    assert(settled(pens) =~= pens);
}

/// A frame leaves every pen settled.
pub proof fn lemma_tick_settles(m: Model, size: Size, cmds: Seq<Command>)
    ensures
        all_settled(tick(m, size, cmds).0.pens),
{
}

/// No-op drain: right after a frame, a frame with no commands draws nothing and changes
/// nothing.
pub proof fn lemma_no_op_drain(m: Model, size: Size, cmds: Seq<Command>)
    ensures
        tick(tick(m, size, cmds).0, size, seq![]).0 == tick(m, size, cmds).0,
        tick(tick(m, size, cmds).0, size, seq![]).1 == Seq::<Segment>::empty(),
{
    let m1 = tick(m, size, cmds).0;
    lemma_settled_quiet(m1.pens);
    lemma_quiet_pens(m1.pens, m1.canvas, size.width as int, m1.pens.len() as int);
}

/// Stroke continuity: when every pen is settled and one pen, pressed, is moved while it stays
/// pressed, the frame draws exactly one line for it, from where it was to where it is, if
/// it moved, and nothing otherwise.
pub proof fn lemma_stroke_continuity(m: Model, size: Size, id: PenId, to: CursorPos)
    requires
        unique_ids(m.pens),
        all_settled(m.pens),
        0 <= find(m.pens, id) < m.pens.len(),
        m.pens[find(m.pens, id)].cursor.pressed,
    ensures
        ({
            let pen = m.pens[find(m.pens, id)];
            let cmd = Command::PenCommand(
                id,
                PenCommand::MoveCursor(Cursor { pressed: true, pos: to }),
            );
            tick(m, size, seq![cmd]).1 == if to != pen.cursor.pos {
                seq![
                    Segment {
                        pen: id,
                        from: pen.cursor.pos,
                        to,
                        color: pen.color,
                        size: pen.size,
                    },
                ]
            } else {
                Seq::<Segment>::empty()
            }
        }),
{
    let i = find(m.pens, id);
    lemma_find_valid(m.pens, id);
    let cmd = Command::PenCommand(id, PenCommand::MoveCursor(Cursor { pressed: true, pos: to }));
    let cmds = seq![cmd];
    assert(cmds.drop_last() =~= Seq::<Command>::empty());
    assert(apply_commands(m, size, cmds.drop_last()) == m);
    assert(with_pen(m.pens, id) == m.pens);
    let m1 = apply_commands(m, size, cmds);
    assert(m1.pens == m.pens.update(i, apply_pen(m.pens[i], PenCommand::MoveCursor(Cursor { pressed: true, pos: to }))));
    lemma_settled_quiet(m.pens);
    assert forall|j: int| 0 <= j < m1.pens.len() && j != i implies !draws(#[trigger] m1.pens[j]) by {
        assert(m1.pens[j] == m.pens[j]);
    }
    lemma_one_pen_draws(m1.pens, i, m1.pens.len() as int);
}

pub open spec fn press_at(id: PenId, q: CursorPos) -> Command {
    Command::PenCommand(id, PenCommand::MoveCursor(Cursor { pressed: true, pos: q }))
}

/// One frame for each position: in each, the pen `id` moves there, pressed.
pub open spec fn press_frames(id: PenId, qs: Seq<CursorPos>) -> Seq<Seq<Command>> {
    Seq::new(qs.len(), |k: int| seq![press_at(id, qs[k])])
}

/// Where the pen is after the moves `qs`, from `start`.
pub open spec fn last_pos(start: CursorPos, qs: Seq<CursorPos>) -> CursorPos {
    if qs.len() == 0 {
        start
    } else {
        qs.last()
    }
}

/// One line for each move to a position other than the one before, from `start`.
pub open spec fn stroke_lines(pen: Pen, start: CursorPos, qs: Seq<CursorPos>) -> Seq<Segment>
    decreases qs.len(),
{
    if qs.len() == 0 {
        seq![]
    } else {
        let from = last_pos(start, qs.drop_last());
        let to = qs.last();
        stroke_lines(pen, start, qs.drop_last()) + if to != from {
            seq![Segment { pen: pen.id, from, to, color: pen.color, size: pen.size }]
        } else {
            Seq::<Segment>::empty()
        }
    }
}

proof fn lemma_press_frame(m: Model, size: Size, id: PenId, q: CursorPos)
    requires
        unique_ids(m.pens),
        all_settled(m.pens),
        0 <= find(m.pens, id) < m.pens.len(),
        m.pens[find(m.pens, id)].cursor.pressed,
    ensures
        ({
            let i = find(m.pens, id);
            let pen = m.pens[i];
            let m2 = tick(m, size, seq![press_at(id, q)]).0;
            &&& m2.pens.len() == m.pens.len()
            &&& unique_ids(m2.pens)
            &&& all_settled(m2.pens)
            &&& find(m2.pens, id) == i
            &&& m2.pens[i] == (Pen { cursor: Cursor { pressed: true, pos: q }, prev_cursor: Cursor { pressed: true, pos: q }, ..pen })
        }),
{
    let i = find(m.pens, id);
    lemma_find_valid(m.pens, id);
    let cmds = seq![press_at(id, q)];
    assert(cmds.drop_last() =~= Seq::<Command>::empty());
    assert(apply_commands(m, size, cmds.drop_last()) == m);
    assert(with_pen(m.pens, id) == m.pens);
    let m1 = apply_commands(m, size, cmds);
    let m2 = tick(m, size, cmds).0;
    assert(m2.pens == settled(m1.pens));
    assert forall|a: int, b: int| 0 <= a < m2.pens.len() && 0 <= b < m2.pens.len() && a != b implies #[trigger] m2.pens[a].id != #[trigger] m2.pens[b].id by {
        assert(m2.pens[a].id == m.pens[a].id);
        assert(m2.pens[b].id == m.pens[b].id);
    }
    assert(m2.pens[i].id == id);
    lemma_find_unique(m2.pens, id, i);
}

/// Stroke continuity over many frames: when every pen is settled and the pen `id` is
/// pressed, frames that each move it to the next of `qs`, pressed, draw one line for each
/// move to a position other than the one before, and none for a move that stays in place.
pub proof fn lemma_stroke_sequence(m: Model, size: Size, id: PenId, qs: Seq<CursorPos>)
    requires
        unique_ids(m.pens),
        all_settled(m.pens),
        0 <= find(m.pens, id) < m.pens.len(),
        m.pens[find(m.pens, id)].cursor.pressed,
    ensures
        ({
            let i = find(m.pens, id);
            let pen = m.pens[i];
            let (m2, segs) = run(m, size, press_frames(id, qs));
            &&& segs == stroke_lines(pen, pen.cursor.pos, qs)
            &&& m2.pens.len() == m.pens.len()
            &&& unique_ids(m2.pens)
            &&& all_settled(m2.pens)
            &&& find(m2.pens, id) == i
            &&& m2.pens[i] == (Pen {
                cursor: Cursor { pressed: true, pos: last_pos(pen.cursor.pos, qs) },
                prev_cursor: Cursor { pressed: true, pos: last_pos(pen.cursor.pos, qs) },
                ..pen
            }) || qs.len() == 0
            &&& qs.len() == 0 ==> m2 == m
        }),
    decreases qs.len(),
{
    let i = find(m.pens, id);
    let pen = m.pens[i];
    let frames = press_frames(id, qs);
    if qs.len() == 0 {
        assert(frames.len() == 0);
    } else {
        let qs0 = qs.drop_last();
        assert(frames.drop_last() =~= press_frames(id, qs0));
        lemma_stroke_sequence(m, size, id, qs0);
        let (m1, segs1) = run(m, size, press_frames(id, qs0));
        let from = last_pos(pen.cursor.pos, qs0);
        if qs0.len() == 0 {
            assert(m1 == m);
        } else {
            assert(m1.pens[i] == (Pen { cursor: Cursor { pressed: true, pos: from }, prev_cursor: Cursor { pressed: true, pos: from }, ..pen }));
        }
        assert(m1.pens[i].cursor == Cursor { pressed: true, pos: from }) by {
            lemma_find_valid(m.pens, id);
            if qs0.len() == 0 {
                assert(pen.cursor.pressed);
                assert(pen.cursor.pos == from);
            }
        }
        assert(frames.last() == seq![press_at(id, qs.last())]);
        lemma_stroke_continuity(m1, size, id, qs.last());
        lemma_press_frame(m1, size, id, qs.last());
        lemma_find_valid(m.pens, id);
        assert(m1.pens[i].color == pen.color && m1.pens[i].size == pen.size && m1.pens[i].id == id);
    }
}

/// Every command of every frame is a pen command.
pub open spec fn pen_frames(frames: Seq<Seq<Command>>) -> bool {
    forall|k: int, i: int|
        0 <= k < frames.len() && 0 <= i < frames[k].len() ==> #[trigger] frames[k][i] is PenCommand
}

proof fn lemma_saved_through_frames(m: Model, size: Size, first: Command, drawing: Seq<Seq<Command>>)
    requires
        first == Command::TakeSnapshot || first == Command::ClearAll,
        pen_frames(drawing),
    ensures
        ({
            let m2 = run(m, size, seq![seq![first]] + drawing).0;
            &&& m2.snapshots == m.snapshots.push((size, m.canvas))
            &&& m2.canvas.len() == m.canvas.len()
            &&& all_settled(m2.pens)
        }),
    decreases drawing.len(),
{
    let frames = seq![seq![first]] + drawing;
    if drawing.len() == 0 {
        assert(frames =~= seq![seq![first]]);
        assert(frames.drop_last() =~= Seq::<Seq<Command>>::empty());
        let cmds = seq![first];
        assert(cmds.drop_last() =~= Seq::<Command>::empty());
        assert(apply_commands(m, size, cmds.drop_last()) == m);
        let m1 = apply_commands(m, size, cmds);
        assert(m1 == apply_command(m, size, first));
        assert(run(m, size, frames.drop_last()) == (m, Seq::<Segment>::empty()));
        assert(frames.last() == cmds);
        lemma_drawn_len(m1.pens, m1.canvas, size.width as int, m1.pens.len() as int);
        lemma_tick_settles(m, size, cmds);
    } else {
        let rest = drawing.drop_last();
        assert(frames.drop_last() =~= seq![seq![first]] + rest);
        assert forall|k: int, i: int| 0 <= k < rest.len() && 0 <= i < rest[k].len() implies #[trigger] rest[k][i] is PenCommand by {
            assert(rest[k] == drawing[k]);
        }
        lemma_saved_through_frames(m, size, first, rest);
        let m1 = run(m, size, seq![seq![first]] + rest).0;
        let last = drawing.last();
        assert(frames.last() == last);
        assert forall|i: int| 0 <= i < last.len() implies #[trigger] last[i] is PenCommand by {
            assert(drawing[drawing.len() - 1][i] is PenCommand);
        }
        lemma_drawing_keeps_history(m1, size, last);
        lemma_tick_settles(m1, size, last);
    }
}

proof fn lemma_restore_frame(m: Model, size: Size, saved: Seq<u8>)
    requires
        fits(saved.len() as int, size),
        m.snapshots.len() > 0,
        m.snapshots.last() == (size, saved),
        m.canvas.len() == saved.len(),
        all_settled(m.pens),
    ensures
        tick(m, size, seq![Command::ResumeLastSnapshot]).0.canvas == saved,
        tick(m, size, seq![Command::ResumeLastSnapshot]).0.snapshots == m.snapshots.drop_last(),
        tick(m, size, seq![Command::ResumeLastSnapshot]).1 == Seq::<Segment>::empty(),
{
    let cmds = seq![Command::ResumeLastSnapshot];
    assert(cmds.drop_last() =~= Seq::<Command>::empty());
    assert(apply_commands(m, size, cmds.drop_last()) == m);
    let m1 = apply_commands(m, size, cmds);
    assert(m1 == apply_command(m, size, Command::ResumeLastSnapshot));
    lemma_copy_same_size(m.canvas, saved, size);
    assert(m1.pens == m.pens);
    lemma_settled_quiet(m1.pens);
    lemma_quiet_pens(m1.pens, m1.canvas, size.width as int, m1.pens.len() as int);
}

/// Undo round trip over frames: a frame that saves the canvas, then any number of frames
/// of pen commands (whatever they draw), then a frame that restores the last saved canvas
/// leave the canvas as it was saved, byte for byte, and the history as it was before.
pub proof fn lemma_undo_over_frames(m: Model, size: Size, drawing: Seq<Seq<Command>>)
    requires
        fits(m.canvas.len() as int, size),
        pen_frames(drawing),
    ensures
        ({
            let frames = (seq![seq![Command::TakeSnapshot]] + drawing).push(
                seq![Command::ResumeLastSnapshot],
            );
            &&& run(m, size, frames).0.canvas == m.canvas
            &&& run(m, size, frames).0.snapshots == m.snapshots
        }),
{
    let before = seq![seq![Command::TakeSnapshot]] + drawing;
    let frames = before.push(seq![Command::ResumeLastSnapshot]);
    assert(frames.drop_last() =~= before);
    lemma_saved_through_frames(m, size, Command::TakeSnapshot, drawing);
    let m1 = run(m, size, before).0;
    lemma_restore_frame(m1, size, m.canvas);
    assert(m1.snapshots.drop_last() =~= m.snapshots);
}

/// Clear round trip over frames: a frame that clears the canvas blanks it; after any number
/// of frames of pen commands, a frame that restores the last saved canvas gives back the
/// canvas as it was before the clear, byte for byte, and the history as it was.
pub proof fn lemma_clear_over_frames(m: Model, size: Size, drawing: Seq<Seq<Command>>)
    requires
        fits(m.canvas.len() as int, size),
        pen_frames(drawing),
    ensures
        ({
            let frames = (seq![seq![Command::ClearAll]] + drawing).push(
                seq![Command::ResumeLastSnapshot],
            );
            &&& apply_commands(m, size, seq![Command::ClearAll]).canvas == zeros(m.canvas.len())
            &&& run(m, size, frames).0.canvas == m.canvas
            &&& run(m, size, frames).0.snapshots == m.snapshots
        }),
{
    let cmds = seq![Command::ClearAll];
    assert(cmds.drop_last() =~= Seq::<Command>::empty());
    assert(apply_commands(m, size, cmds.drop_last()) == m);
    let before = seq![seq![Command::ClearAll]] + drawing;
    let frames = before.push(seq![Command::ResumeLastSnapshot]);
    assert(frames.drop_last() =~= before);
    lemma_saved_through_frames(m, size, Command::ClearAll, drawing);
    let m1 = run(m, size, before).0;
    lemma_restore_frame(m1, size, m.canvas);
    assert(m1.snapshots.drop_last() =~= m.snapshots);
}

} // verus!
