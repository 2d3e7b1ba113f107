//! The invader swarm: a formation that marches sideways in lockstep, steps
//! down whenever it meets the edge of the playing field, and speeds up as it
//! shrinks.

use vstd::prelude::*;
use crate::{NUM_COLS, NUM_ROWS};
use crate::frame::{Drawable, Frame, Grid, grid_put};
use crate::timer::Timer;

verus! {

/// The glyph of an invader.
pub const INVADER_GLYPH: char = 'x';

/// The row at which the invaders have won: the row of the player.
pub const LOSE_ROW: usize = NUM_ROWS - 1;

/// Number of columns of the starting formation.
pub const FORMATION_COLS: usize = 18;

/// Number of rows of the starting formation.
pub const FORMATION_ROWS: usize = 4;

/// Number of invaders in the starting formation. Larger swarms move no
/// slower than one of this size.
pub const FULL_SWARM: usize = 72;

/// Move interval of a swarm with no invaders left.
pub const BASE_MOVE_INTERVAL: u64 = 200_000;

/// What each invader, up to `FULL_SWARM` of them, adds to the move interval.
pub const MOVE_INTERVAL_PER_INVADER: u64 = 25_000;

/// The direction in which the swarm marches.
#[derive(Clone, Copy, Debug, PartialEq, Eq, Structural)]
pub enum Direction {
    Left,
    Right,
}

impl Direction {
    /// The opposite direction.
    pub open spec fn reversed(self) -> Direction {
        match self {
            Direction::Left => Direction::Right,
            Direction::Right => Direction::Left,
        }
    }

    /// Turns around.
    pub fn reverse(self) -> (turned: Direction)
        ensures
            turned == self.reversed(),
    {
        match self {
            Direction::Left => Direction::Right,
            Direction::Right => Direction::Left,
        }
    }
}

/// One invader.
#[derive(Clone, Copy, Debug, PartialEq, Eq, Structural)]
pub struct Invader {
    /// Column of the invader.
    pub x: usize,
    /// Row of the invader; row 0 is the top of the playing field.
    pub y: usize,
}

impl Invader {
    /// Whether the invader stands at `(x, y)`.
    pub open spec fn is_at(self, x: int, y: int) -> bool {
        self.x == x && self.y == y
    }

    /// Whether one step in `direction` would carry the invader out of the
    /// playing field.
    pub open spec fn blocked(self, direction: Direction) -> bool {
        match direction {
            Direction::Left => self.x == 0,
            Direction::Right => self.x + 1 >= NUM_COLS,
        }
    }

    /// The invader one column further in `direction`.
    pub open spec fn shifted(self, direction: Direction) -> Invader {
        match direction {
            Direction::Left => Invader { x: (self.x - 1) as usize, y: self.y },
            Direction::Right => Invader { x: (self.x + 1) as usize, y: self.y },
        }
    }

    /// The invader one row further down.
    pub open spec fn descended(self) -> Invader {
        Invader { x: self.x, y: (self.y + 1) as usize }
    }
}

/// The move interval of a swarm of `count` invaders: the fewer invaders, the
/// shorter the interval.
pub open spec fn move_interval_for(count: nat) -> int {
    BASE_MOVE_INTERVAL + MOVE_INTERVAL_PER_INVADER * if count < FULL_SWARM {
        count as int
    } else {
        FULL_SWARM as int
    }
}

/// Computes the move interval of a swarm of `count` invaders.
pub fn move_interval(count: usize) -> (interval: u64)
    ensures
        interval == move_interval_for(count as nat),
{
    let counted: u64 = if count < FULL_SWARM {
        count as u64
    } else {
        FULL_SWARM as u64
    };
    BASE_MOVE_INTERVAL + MOVE_INTERVAL_PER_INVADER * counted
}

/// A swarm with fewer invaders never has the longer move interval.
pub proof fn lemma_move_interval_monotone(fewer: nat, more: nat)
    requires
        fewer <= more,
    ensures
        move_interval_for(fewer) <= move_interval_for(more),
        BASE_MOVE_INTERVAL <= move_interval_for(fewer),
        move_interval_for(more) <= move_interval_for(FULL_SWARM as nat),
{
}

/// The starting formation: every other cell of a block of rows near the top,
/// listed column by column.
pub open spec fn formation() -> Seq<Invader> {
    Seq::new(
        FULL_SWARM as nat,
        |k: int|
            Invader {
                x: (2 + 2 * (k / FORMATION_ROWS as int)) as usize,
                y: (2 + 2 * (k % FORMATION_ROWS as int)) as usize,
            },
    )
}

/// The index of the first invader of `army` at `(x, y)`, looking from index
/// `start` on; the length of `army` if there is none.
pub open spec fn first_at_from(army: Seq<Invader>, x: int, y: int, start: int) -> int
    decreases army.len() - start,
{
    if start < 0 || start >= army.len() {
        army.len() as int
    } else if army[start].is_at(x, y) {
        start
    } else {
        first_at_from(army, x, y, start + 1)
    }
}

/// The index of the first invader of `army` at `(x, y)`; the length of `army`
/// if no invader stands there.
pub open spec fn first_at(army: Seq<Invader>, x: int, y: int) -> int {
    first_at_from(army, x, y, 0)
}

/// `first_at_from` finds an invader at `(x, y)` that has none before it from
/// `start` on, or reports the length when no invader from `start` on stands
/// there.
pub proof fn lemma_first_at_from(army: Seq<Invader>, x: int, y: int, start: int)
    requires
        0 <= start <= army.len(),
    ensures
        start <= first_at_from(army, x, y, start) <= army.len(),
        first_at_from(army, x, y, start) < army.len() ==> army[first_at_from(
            army,
            x,
            y,
            start,
        )].is_at(x, y),
        forall|j: int|
            start <= j < first_at_from(army, x, y, start) ==> !(#[trigger] army[j]).is_at(x, y),
    decreases army.len() - start,
{
    if start < army.len() && !army[start].is_at(x, y) {
        lemma_first_at_from(army, x, y, start + 1);
    }
}

/// `grid` with the first `n` invaders of `army` painted over it, in order.
pub open spec fn paint_army(grid: Grid, army: Seq<Invader>, n: nat) -> Grid
    decreases n,
{
    if n == 0 {
        grid
    } else {
        grid_put(
            paint_army(grid, army, (n - 1) as nat),
            army[n - 1].x as int,
            army[n - 1].y as int,
            INVADER_GLYPH,
        )
    }
}

/// What a swarm is: its invaders in a fixed order, the direction of its
/// march, and the timer that paces it.
pub struct SwarmView {
    pub army: Seq<Invader>,
    pub direction: Direction,
    pub timer: Timer,
}

impl SwarmView {
    /// What holds of every swarm: no invader stands out of the horizontal
    /// bounds, and the move interval is no shorter than the present number
    /// of invaders calls for.
    pub open spec fn valid(self) -> bool {
        &&& forall|i: int| 0 <= i < self.army.len() ==> (#[trigger] self.army[i]).x < NUM_COLS
        &&& self.timer.interval >= move_interval_for(self.army.len())
    }

    /// Whether every invader has a row below it that a machine integer can
    /// name.
    pub open spec fn can_descend(self) -> bool {
        forall|i: int| 0 <= i < self.army.len() ==> (#[trigger] self.army[i]).y < usize::MAX
    }

    /// Whether a step in the present direction would carry some invader out
    /// of the playing field.
    pub open spec fn at_edge(self) -> bool {
        exists|i: int| 0 <= i < self.army.len() && (#[trigger] self.army[i]).blocked(self.direction)
    }

    /// Whether no invader is left.
    pub open spec fn all_killed(self) -> bool {
        self.army.len() == 0
    }

    /// Whether some invader has come down to the row of the player.
    pub open spec fn reached_bottom(self) -> bool {
        exists|i: int| 0 <= i < self.army.len() && (#[trigger] self.army[i]).y >= LOSE_ROW
    }

    /// The swarm after one move. At the edge it turns around and every
    /// invader steps down one row; elsewhere every invader steps one column
    /// in the direction of the march. The timer starts afresh with the
    /// interval that the number of invaders calls for.
    pub open spec fn marched(self) -> SwarmView {
        SwarmView {
            army: if self.at_edge() {
                self.army.map_values(|invader: Invader| invader.descended())
            } else {
                self.army.map_values(|invader: Invader| invader.shifted(self.direction))
            },
            direction: if self.at_edge() {
                self.direction.reversed()
            } else {
                self.direction
            },
            timer: Timer { interval: move_interval_for(self.army.len()) as u64, elapsed: 0 },
        }
    }

    /// The swarm after `delta` has elapsed: it moves if that carries its
    /// timer past the move interval, and only accumulates the time otherwise.
    pub open spec fn updated(self, delta: u64) -> SwarmView {
        if self.timer.fires(delta) {
            self.marched()
        } else {
            SwarmView { timer: self.timer.advanced(delta), ..self }
        }
    }

    /// `grid` with every invader painted over it, in the order of the swarm.
    pub open spec fn drawn(self, grid: Grid) -> Grid {
        paint_army(grid, self.army, self.army.len())
    }

    /// Whether an invader stands at `(x, y)`.
    pub open spec fn occupied(self, x: int, y: int) -> bool {
        first_at(self.army, x, y) < self.army.len()
    }

    /// The swarm without the first invader at `(x, y)`; the swarm itself if
    /// no invader stands there.
    pub open spec fn killed_at(self, x: int, y: int) -> SwarmView {
        if self.occupied(x, y) {
            SwarmView { army: self.army.remove(first_at(self.army, x, y)), ..self }
        } else {
            self
        }
    }
}

/// The swarm of invaders.
#[derive(Debug)]
pub struct Invaders {
    army: Vec<Invader>,
    timer: Timer,
    direction: Direction,
}

impl View for Invaders {
    type V = SwarmView;

    closed spec fn view(&self) -> SwarmView {
        SwarmView { army: self.army@, direction: self.direction, timer: self.timer }
    }
}

impl Invaders {
    #[verifier::type_invariant]
    spec fn inv(&self) -> bool {
        self@.valid()
    }

    /// The swarm at the start of a game: the starting formation, marching
    /// right.
    pub fn new() -> (swarm: Invaders)
        ensures
            swarm@.army == formation(),
            swarm@.direction == Direction::Right,
            swarm@.timer == (Timer {
                interval: move_interval_for(FULL_SWARM as nat) as u64,
                elapsed: 0,
            }),
            swarm@.valid(),
    {
        let mut army: Vec<Invader> = Vec::new();
        let mut col: usize = 0;
        while col < FORMATION_COLS
            invariant
                col <= FORMATION_COLS,
                army@ == formation().take((col * FORMATION_ROWS) as int),
            decreases FORMATION_COLS - col,
        {
            let mut row: usize = 0;
            while row < FORMATION_ROWS
                invariant
                    col < FORMATION_COLS,
                    row <= FORMATION_ROWS,
                    army@ == formation().take((col * FORMATION_ROWS + row) as int),
                decreases FORMATION_ROWS - row,
            {
                army.push(Invader { x: 2 + 2 * col, y: 2 + 2 * row });
                proof {
                    let k = (col * FORMATION_ROWS + row) as int;
                    assert(k / FORMATION_ROWS as int == col);
                    assert(k % FORMATION_ROWS as int == row);
                    assert(army@ =~= formation().take(k + 1));
                }
                row = row + 1;
            }
            col = col + 1;
        }
        assert(army@ =~= formation());
        let timer = Timer::new(move_interval(army.len()));
        Invaders { army, timer, direction: Direction::Right }
    }

    /// A swarm of the given invaders, marching right. Returns `None` if some
    /// invader stands outside the playing field.
    pub fn with_army(army: Vec<Invader>) -> (swarm: Option<Invaders>)
        ensures
            swarm is Some <==> forall|i: int|
                0 <= i < army@.len() ==> (#[trigger] army@[i]).x < NUM_COLS && army@[i].y
                    < NUM_ROWS,
            swarm matches Some(s) ==> {
                &&& s@.army == army@
                &&& s@.direction == Direction::Right
                &&& s@.timer == (Timer {
                    interval: move_interval_for(army@.len()) as u64,
                    elapsed: 0,
                })
                &&& s@.valid()
                &&& s@.can_descend()
            },
    {
        let mut i: usize = 0;
        while i < army.len()
            invariant
                i <= army.len(),
                forall|j: int|
                    0 <= j < i ==> (#[trigger] army@[j]).x < NUM_COLS && army@[j].y < NUM_ROWS,
            decreases army.len() - i,
        {
            if army[i].x >= NUM_COLS || army[i].y >= NUM_ROWS {
                return None;
            }
            i = i + 1;
        }
        let timer = Timer::new(move_interval(army.len()));
        Some(Invaders { army, timer, direction: Direction::Right })
    }

    /// Number of invaders left.
    pub fn len(&self) -> (count: usize)
        ensures
            count == self@.army.len(),
    {
        self.army.len()
    }

    /// The invaders that are left, in the order of the swarm.
    pub fn army(&self) -> (army: Vec<Invader>)
        ensures
            army@ == self@.army,
    {
        let mut army: Vec<Invader> = Vec::new();
        let mut i: usize = 0;
        while i < self.army.len()
            invariant
                i <= self.army.len(),
                army@ == self.army@.take(i as int),
            decreases self.army.len() - i,
        {
            army.push(self.army[i]);
            assert(army@ =~= self.army@.take(i + 1));
            i = i + 1;
        }
        assert(army@ =~= self.army@);
        army
    }

    /// The direction of the march.
    pub fn direction(&self) -> (direction: Direction)
        ensures
            direction == self@.direction,
    {
        self.direction
    }

    /// The time that has to be exceeded between two moves.
    pub fn interval(&self) -> (interval: u64)
        ensures
            interval == self@.timer.interval,
            interval >= move_interval_for(self@.army.len()),
    {
        proof {
            use_type_invariant(self);
        }
        self.timer.interval
    }

    /// Whether a step in the present direction would carry some invader out
    /// of the playing field.
    pub fn at_edge(&self) -> (edge: bool)
        ensures
            edge == self@.at_edge(),
    {
        let mut i: usize = 0;
        while i < self.army.len()
            invariant
                i <= self.army.len(),
                forall|j: int| 0 <= j < i ==> !(#[trigger] self.army@[j]).blocked(self.direction),
            decreases self.army.len() - i,
        {
            let blocked = match self.direction {
                Direction::Left => self.army[i].x == 0,
                Direction::Right => self.army[i].x >= NUM_COLS - 1,
            };
            if blocked {
                assert(self@.army[i as int].blocked(self@.direction));
                return true;
            }
            i = i + 1;
        }
        false
    }

    /// Lets `delta` elapse, and moves the swarm if that carries the time
    /// accumulated since the last move past the move interval. Returns
    /// whether the swarm moved.
    ///
    /// A move at the edge of the playing field turns the swarm around and
    /// takes every invader down by exactly one row; any other move takes
    /// every invader one column further. After a move the interval is the
    /// one that the number of invaders calls for, which is never longer than
    /// the one before.
    pub fn update(&mut self, delta: u64) -> (moved: bool)
        requires
            old(self)@.can_descend(),
        ensures
            moved == old(self)@.timer.fires(delta),
            final(self)@ == old(self)@.updated(delta),
            final(self)@.valid(),
            final(self)@.timer.interval <= old(self)@.timer.interval,
            moved && old(self)@.at_edge() ==> {
                &&& final(self)@.direction == old(self)@.direction.reversed()
                &&& final(self)@.army.len() == old(self)@.army.len()
                &&& forall|i: int|
                    0 <= i < old(self)@.army.len() ==> (#[trigger] final(self)@.army[i]).x == old(
                        self,
                    )@.army[i].x && final(self)@.army[i].y == old(self)@.army[i].y + 1
            },
    {
        proof {
            use_type_invariant(&*self);
        }
        let ghost start = self@;
        let mut timer = self.timer;
        if !timer.advance(delta) {
            self.timer = timer;
            return false;
        }
        let edge = self.at_edge();
        let direction = self.direction;
        let mut next: Vec<Invader> = Vec::new();
        let mut i: usize = 0;
        while i < self.army.len()
            invariant
                i <= self.army.len(),
                self.army@ == start.army,
                direction == start.direction,
                edge == start.at_edge(),
                start.valid(),
                start.can_descend(),
                next@.len() == i,
                forall|j: int| 0 <= j < i ==> (#[trigger] next@[j]).x < NUM_COLS,
                forall|j: int|
                    0 <= j < i ==> (#[trigger] next@[j]) == if edge {
                        start.army[j].descended()
                    } else {
                        start.army[j].shifted(direction)
                    },
            decreases self.army.len() - i,
        {
            let invader = self.army[i];
            assert(!edge ==> !start.army[i as int].blocked(direction));
            let moved = if edge {
                Invader { x: invader.x, y: invader.y + 1 }
            } else {
                match direction {
                    Direction::Left => Invader { x: invader.x - 1, y: invader.y },
                    Direction::Right => Invader { x: invader.x + 1, y: invader.y },
                }
            };
            next.push(moved);
            i = i + 1;
        }
        self.army = next;
        if edge {
            self.direction = direction.reverse();
        }
        self.timer = Timer::new(move_interval(self.army.len()));
        assert(self@.army =~= start.marched().army);
        true
    }

    /// Whether no invader is left.
    pub fn all_killed(&self) -> (killed: bool)
        ensures
            killed == self@.all_killed(),
    {
        self.army.len() == 0
    }

    /// Whether some invader has come down to the row of the player.
    pub fn reached_bottom(&self) -> (reached: bool)
        ensures
            reached == self@.reached_bottom(),
    {
        let mut i: usize = 0;
        while i < self.army.len()
            invariant
                i <= self.army.len(),
                forall|j: int| 0 <= j < i ==> (#[trigger] self.army@[j]).y < LOSE_ROW,
            decreases self.army.len() - i,
        {
            if self.army[i].y >= LOSE_ROW {
                assert(self@.army[i as int].y >= LOSE_ROW);
                return true;
            }
            i = i + 1;
        }
        false
    }

    /// Removes the first invader that stands at `(x, y)`, if there is one,
    /// and returns whether it did. The other invaders keep their order, and
    /// the move interval stays as it is until the next move.
    pub fn kill_invader_at(&mut self, x: usize, y: usize) -> (killed: bool)
        ensures
            killed == old(self)@.occupied(x as int, y as int),
            final(self)@ == old(self)@.killed_at(x as int, y as int),
            final(self)@.valid(),
            final(self)@.timer.interval <= old(self)@.timer.interval,
    {
        proof {
            use_type_invariant(&*self);
        }
        let ghost army = self@.army;
        let ghost first = first_at(army, x as int, y as int);
        let mut rest: Vec<Invader> = Vec::new();
        let mut killed = false;
        let mut i: usize = 0;
        while i < self.army.len()
            invariant
                i <= self.army.len(),
                self@.army == army,
                self@.valid(),
                first == first_at(army, x as int, y as int),
                !killed ==> rest@ == army.take(i as int) && first == first_at_from(
                    army,
                    x as int,
                    y as int,
                    i as int,
                ),
                killed ==> 0 <= first < i && rest@ == army.take(i as int).remove(first),
            decreases self.army.len() - i,
        {
            let invader = self.army[i];
            if !killed && invader.x == x && invader.y == y {
                killed = true;
                assert(rest@ =~= army.take(i + 1).remove(first));
            } else {
                rest.push(invader);
                assert(!killed ==> rest@ =~= army.take(i + 1));
                assert(killed ==> rest@ =~= army.take(i + 1).remove(first));
            }
            i = i + 1;
        }
        proof {
            assert(army.take(i as int) =~= army);
            if killed {
                lemma_move_interval_monotone((army.len() - 1) as nat, army.len());
            }
        }
        self.army = rest;
        killed
    }
}

impl Drawable for Invaders {
    open spec fn drawn(&self, grid: Grid) -> Grid {
        self@.drawn(grid)
    }

    fn draw(&self, frame: &mut Frame) {
        let mut i: usize = 0;
        while i < self.army.len()
            invariant
                i <= self.army.len(),
                frame@ == paint_army(old(frame)@, self@.army, i as nat),
            decreases self.army.len() - i,
        {
            frame.put(self.army[i].x, self.army[i].y, INVADER_GLYPH);
            i = i + 1;
        }
    }
}

/// A move never lengthens the move interval, and neither does a kill.
pub proof fn lemma_interval_never_grows(swarm: SwarmView, delta: u64, x: int, y: int)
    requires
        swarm.valid(),
    ensures
        swarm.updated(delta).timer.interval <= swarm.timer.interval,
        swarm.killed_at(x, y).timer.interval <= swarm.timer.interval,
        swarm.killed_at(x, y).valid(),
        swarm.killed_at(x, y).marched().timer.interval <= swarm.marched().timer.interval,
{
    lemma_move_interval_monotone(swarm.army.len(), swarm.army.len());
    lemma_first_at_from(swarm.army, x, y, 0);
    if swarm.occupied(x, y) {
        lemma_move_interval_monotone((swarm.army.len() - 1) as nat, swarm.army.len());
    }
}

/// Every swarm stays a valid swarm when time passes: no move carries an
/// invader out of the horizontal bounds.
pub proof fn lemma_update_keeps_valid(swarm: SwarmView, delta: u64)
    requires
        swarm.valid(),
    ensures
        swarm.updated(delta).valid(),
{
    if swarm.timer.fires(delta) {
        lemma_move_interval_monotone(swarm.army.len(), swarm.army.len());
        if !swarm.at_edge() {
            lemma_march_off_edge(swarm);
        }
    }
}

/// A swarm that moves while it stands at the edge turns around, and every
/// invader keeps its column and goes down by exactly one row.
pub proof fn lemma_descent_at_edge(swarm: SwarmView)
    requires
        swarm.at_edge(),
        swarm.can_descend(),
    ensures
        swarm.marched().direction == swarm.direction.reversed(),
        swarm.marched().army.len() == swarm.army.len(),
        forall|i: int|
            0 <= i < swarm.army.len() ==> (#[trigger] swarm.marched().army[i]).x == swarm.army[i].x
                && swarm.marched().army[i].y == swarm.army[i].y + 1,
{
}

/// A swarm that moves away from the edge keeps its direction, and every
/// invader keeps its row and goes one column further in that direction.
pub proof fn lemma_march_off_edge(swarm: SwarmView)
    requires
        !swarm.at_edge(),
        swarm.valid(),
    ensures
        swarm.marched().direction == swarm.direction,
        swarm.marched().army.len() == swarm.army.len(),
        forall|i: int|
            0 <= i < swarm.army.len() ==> (#[trigger] swarm.marched().army[i]).y == swarm.army[i].y
                && swarm.marched().army[i].x == match swarm.direction {
                Direction::Left => swarm.army[i].x - 1,
                Direction::Right => swarm.army[i].x + 1,
            },
        swarm.marched().valid(),
{
    assert forall|i: int| 0 <= i < swarm.army.len() implies !(#[trigger] swarm.army[i]).blocked(
        swarm.direction,
    ) by {}
}

} // verus!
