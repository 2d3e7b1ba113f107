//! The player: a ship that slides along the bottom row and fires upwards,
//! one shot at a time.

use vstd::prelude::*;
use crate::{NUM_COLS, NUM_ROWS};
use crate::frame::{Drawable, Frame, Grid, grid_put};
use crate::invaders::{Invader, Invaders, SwarmView, first_at};
use crate::shot::{Shot, SHOT_GLYPH, SHOT_INTERVAL};
use crate::timer::Timer;

verus! {

/// The glyph of the player's ship.
pub const PLAYER_GLYPH: char = 'A';

/// The row along which the player moves: the bottom row.
pub const PLAYER_ROW: usize = NUM_ROWS - 1;

/// The column in which the player starts.
pub const START_COLUMN: usize = NUM_COLS / 2;

/// How many shots can be in flight at once.
pub const MAX_SHOTS: usize = 1;

/// A step to the side.
#[derive(Clone, Copy, Debug, PartialEq, Eq, Structural)]
pub enum Move {
    Left,
    Right,
}

/// The first `n` of `shots` after `delta` has elapsed: each has advanced, and
/// those that left the playing field are gone. The others keep their order.
pub open spec fn shots_after(shots: Seq<Shot>, delta: u64, n: nat) -> Seq<Shot>
    decreases n,
{
    if n == 0 {
        Seq::empty()
    } else {
        let before = shots_after(shots, delta, (n - 1) as nat);
        if shots[n - 1].leaves(delta) {
            before
        } else {
            before.push(shots[n - 1].advanced(delta))
        }
    }
}

/// `grid` with the first `n` of `shots` painted over it, in order.
pub open spec fn paint_shots(grid: Grid, shots: Seq<Shot>, n: nat) -> Grid
    decreases n,
{
    if n == 0 {
        grid
    } else {
        grid_put(
            paint_shots(grid, shots, (n - 1) as nat),
            shots[n - 1].x as int,
            shots[n - 1].y as int,
            SHOT_GLYPH,
        )
    }
}

/// Shots and invaders that are left when shots have been tested for hits.
pub struct Clash {
    pub shots: Seq<Shot>,
    pub army: Seq<Invader>,
}

impl Clash {
    /// What is left once `shot` has been tested too: if an invader stands in
    /// the cell of the shot, the first such invader and the shot are both
    /// gone; otherwise the shot flies on.
    pub open spec fn tested(self, shot: Shot) -> Clash {
        let target = first_at(self.army, shot.x as int, shot.y as int);
        if target < self.army.len() {
            Clash { shots: self.shots, army: self.army.remove(target) }
        } else {
            Clash { shots: self.shots.push(shot), army: self.army }
        }
    }
}

/// What is left of `army` and of the first `n` of `shots` when those shots
/// have been tested for hits one after the other.
pub open spec fn clash_after(shots: Seq<Shot>, army: Seq<Invader>, n: nat) -> Clash
    decreases n,
{
    if n == 0 {
        Clash { shots: Seq::empty(), army }
    } else {
        clash_after(shots, army, (n - 1) as nat).tested(shots[n - 1])
    }
}

/// What a player is: the column of the ship and the shots in flight, oldest
/// first.
pub struct PlayerView {
    pub column: int,
    pub shots: Seq<Shot>,
}

impl PlayerView {
    /// What holds of every player: the ship is inside the playing field, and
    /// no more shots are in flight than allowed.
    pub open spec fn valid(self) -> bool {
        &&& 0 <= self.column < NUM_COLS
        &&& self.shots.len() <= MAX_SHOTS
    }

    /// The player one column to the left, or where it was at the left wall.
    pub open spec fn moved_left(self) -> PlayerView {
        PlayerView {
            column: if self.column > 0 {
                self.column - 1
            } else {
                self.column
            },
            ..self
        }
    }

    /// The player one column to the right, or where it was at the right
    /// wall.
    pub open spec fn moved_right(self) -> PlayerView {
        PlayerView {
            column: if self.column < NUM_COLS - 1 {
                self.column + 1
            } else {
                self.column
            },
            ..self
        }
    }

    /// The player after one step to the side.
    pub open spec fn moved(self, step: Move) -> PlayerView {
        match step {
            Move::Left => self.moved_left(),
            Move::Right => self.moved_right(),
        }
    }

    /// The player after the given steps, taken in order.
    pub open spec fn steered(self, steps: Seq<Move>) -> PlayerView
        decreases steps.len(),
    {
        if steps.len() == 0 {
            self
        } else {
            self.steered(steps.drop_last()).moved(steps.last())
        }
    }

    /// Whether the player may fire: no shot is in flight.
    pub open spec fn can_shoot(self) -> bool {
        self.shots.len() == 0
    }

    /// The shot that the player fires from where it stands: it starts in the
    /// cell above the ship.
    pub open spec fn new_shot(self) -> Shot {
        Shot {
            x: self.column as usize,
            y: (PLAYER_ROW - 1) as usize,
            timer: Timer { interval: SHOT_INTERVAL, elapsed: 0 },
        }
    }

    /// The player after an attempt to fire.
    pub open spec fn after_shoot(self) -> PlayerView {
        if self.can_shoot() {
            PlayerView { shots: self.shots.push(self.new_shot()), ..self }
        } else {
            self
        }
    }

    /// The player after `delta` has elapsed.
    pub open spec fn updated(self, delta: u64) -> PlayerView {
        PlayerView { shots: shots_after(self.shots, delta, self.shots.len()), ..self }
    }

    /// What is left of the player's shots and of `army` when every shot has
    /// been tested for a hit, oldest first.
    pub open spec fn clash(self, army: Seq<Invader>) -> Clash {
        clash_after(self.shots, army, self.shots.len())
    }

    /// `grid` with the ship and then the shots painted over it.
    pub open spec fn drawn(self, grid: Grid) -> Grid {
        paint_shots(
            grid_put(grid, self.column, PLAYER_ROW as int, PLAYER_GLYPH),
            self.shots,
            self.shots.len(),
        )
    }
}

/// The player's ship and its shots.
#[derive(Debug)]
pub struct Player {
    x: usize,
    shots: Vec<Shot>,
}

impl View for Player {
    type V = PlayerView;

    closed spec fn view(&self) -> PlayerView {
        PlayerView { column: self.x as int, shots: self.shots@ }
    }
}

impl Player {
    #[verifier::type_invariant]
    spec fn inv(&self) -> bool {
        self@.valid()
    }

    /// A player in the starting column, with no shot in flight.
    pub fn new() -> (player: Player)
        ensures
            player@.column == START_COLUMN,
            player@.shots == Seq::<Shot>::empty(),
            player@.valid(),
    {
        Player { x: START_COLUMN, shots: Vec::new() }
    }

    /// The column of the ship, which is always inside the playing field.
    pub fn column(&self) -> (column: usize)
        ensures
            column == self@.column,
            column < NUM_COLS,
    {
        proof {
            use_type_invariant(self);
        }
        self.x
    }

    /// The shots in flight, oldest first; never more than `MAX_SHOTS`.
    pub fn shots(&self) -> (shots: Vec<Shot>)
        ensures
            shots@ == self@.shots,
            shots@.len() <= MAX_SHOTS,
    {
        proof {
            use_type_invariant(self);
        }
        let mut shots: Vec<Shot> = Vec::new();
        let mut i: usize = 0;
        while i < self.shots.len()
            invariant
                i <= self.shots.len(),
                shots@ == self.shots@.take(i as int),
            decreases self.shots.len() - i,
        {
            shots.push(self.shots[i]);
            assert(shots@ =~= self.shots@.take(i + 1));
            i = i + 1;
        }
        assert(shots@ =~= self.shots@);
        shots
    }

    /// Moves the ship one column to the left, unless it stands at the left
    /// wall.
    pub fn move_left(&mut self)
        ensures
            final(self)@ == old(self)@.moved_left(),
            final(self)@.valid(),
    {
        proof {
            use_type_invariant(&*self);
        }
        if self.x > 0 {
            self.x = self.x - 1;
        }
    }

    /// Moves the ship one column to the right, unless it stands at the right
    /// wall.
    pub fn move_right(&mut self)
        ensures
            final(self)@ == old(self)@.moved_right(),
            final(self)@.valid(),
    {
        proof {
            use_type_invariant(&*self);
        }
        if self.x < NUM_COLS - 1 {
            self.x = self.x + 1;
        }
    }

    /// Fires a shot from the cell above the ship, unless a shot is still in
    /// flight. Returns whether a shot was fired.
    pub fn shoot(&mut self) -> (fired: bool)
        ensures
            fired == old(self)@.can_shoot(),
            final(self)@ == old(self)@.after_shoot(),
            final(self)@.valid(),
            !final(self)@.can_shoot(),
    {
        proof {
            use_type_invariant(&*self);
        }
        if self.shots.len() == 0 {
            let mut shots: Vec<Shot> = Vec::new();
            shots.push(Shot::new(self.x, PLAYER_ROW - 1));
            assert(shots@ =~= self@.shots.push(self@.new_shot()));
            self.shots = shots;
            true
        } else {
            false
        }
    }

    /// Lets `delta` elapse: every shot advances, and the shots that leave
    /// the playing field through the top are removed.
    pub fn update(&mut self, delta: u64)
        ensures
            final(self)@ == old(self)@.updated(delta),
            final(self)@.valid(),
    {
        proof {
            use_type_invariant(&*self);
        }
        let mut kept: Vec<Shot> = Vec::new();
        let mut i: usize = 0;
        while i < self.shots.len()
            invariant
                i <= self.shots.len(),
                *self == *old(self),
                kept@.len() <= i,
                kept@ == shots_after(self@.shots, delta, i as nat),
            decreases self.shots.len() - i,
        {
            let mut shot = self.shots[i];
            if shot.update(delta) {
                kept.push(shot);
            }
            i = i + 1;
        }
        self.shots = kept;
    }

    /// Tests every shot, oldest first, against the invaders. Where a shot is
    /// in the cell of an invader, the first such invader of the swarm and
    /// the shot are both removed. Returns whether anything was hit.
    ///
    /// Each shot removes at most one invader, so as many invaders go as
    /// shots.
    pub fn detect_hits(&mut self, invaders: &mut Invaders) -> (hit: bool)
        ensures
            final(self)@ == (PlayerView {
                shots: old(self)@.clash(old(invaders)@.army).shots,
                ..old(self)@
            }),
            final(invaders)@ == (SwarmView {
                army: old(self)@.clash(old(invaders)@.army).army,
                ..old(invaders)@
            }),
            hit == (final(invaders)@.army.len() < old(invaders)@.army.len()),
            old(invaders)@.army.len() - final(invaders)@.army.len() == old(self)@.shots.len()
                - final(self)@.shots.len(),
            final(self)@.valid(),
    {
        proof {
            use_type_invariant(&*self);
        }
        let ghost army = invaders@.army;
        let mut hit = false;
        let mut kept: Vec<Shot> = Vec::new();
        let mut i: usize = 0;
        while i < self.shots.len()
            invariant
                i <= self.shots.len(),
                *self == *old(self),
                invaders@.direction == old(invaders)@.direction,
                invaders@.timer == old(invaders)@.timer,
                army == old(invaders)@.army,
                clash_after(self@.shots, army, i as nat) == (Clash {
                    shots: kept@,
                    army: invaders@.army,
                }),
                army.len() - invaders@.army.len() == i - kept@.len(),
                kept@.len() <= i,
                hit == (invaders@.army.len() < army.len()),
            decreases self.shots.len() - i,
        {
            let shot = self.shots[i];
            proof {
                crate::invaders::lemma_first_at_from(
                    invaders@.army,
                    shot.x as int,
                    shot.y as int,
                    0,
                );
            }
            if invaders.kill_invader_at(shot.x, shot.y) {
                hit = true;
            } else {
                kept.push(shot);
            }
            i = i + 1;
        }
        self.shots = kept;
        hit
    }
}

impl Drawable for Player {
    open spec fn drawn(&self, grid: Grid) -> Grid {
        self@.drawn(grid)
    }

    fn draw(&self, frame: &mut Frame) {
        frame.put(self.x, PLAYER_ROW, PLAYER_GLYPH);
        let mut i: usize = 0;
        while i < self.shots.len()
            invariant
                i <= self.shots.len(),
                frame@ == paint_shots(
                    grid_put(old(frame)@, self@.column, PLAYER_ROW as int, PLAYER_GLYPH),
                    self@.shots,
                    i as nat,
                ),
            decreases self.shots.len() - i,
        {
            self.shots[i].draw(frame);
            i = i + 1;
        }
    }
}

/// However the player is steered, the ship stays inside the playing field,
/// and the shots in flight are not affected.
pub proof fn lemma_steering_stays_in_field(player: PlayerView, steps: Seq<Move>)
    requires
        player.valid(),
    ensures
        0 <= player.steered(steps).column < NUM_COLS,
        player.steered(steps).shots == player.shots,
        player.steered(steps).valid(),
    decreases steps.len(),
{
    if steps.len() > 0 {
        lemma_steering_stays_in_field(player, steps.drop_last());
    }
}

/// A ship at the left wall stays there, however often it is moved left.
pub proof fn lemma_left_wall_holds(player: PlayerView, steps: Seq<Move>)
    requires
        player.column == 0,
        forall|i: int| 0 <= i < steps.len() ==> steps[i] == Move::Left,
    ensures
        player.steered(steps).column == 0,
    decreases steps.len(),
{
    if steps.len() > 0 {
        lemma_left_wall_holds(player, steps.drop_last());
    }
}

/// A ship at the right wall stays there, however often it is moved right.
pub proof fn lemma_right_wall_holds(player: PlayerView, steps: Seq<Move>)
    requires
        player.column == NUM_COLS - 1,
        forall|i: int| 0 <= i < steps.len() ==> steps[i] == Move::Right,
    ensures
        player.steered(steps).column == NUM_COLS - 1,
    decreases steps.len(),
{
    if steps.len() > 0 {
        lemma_right_wall_holds(player, steps.drop_last());
    }
}

/// Once the player has tried to fire, a shot is in flight, so a second
/// attempt straight after it fires nothing and changes nothing. Steering
/// does not bring the chance to fire back.
pub proof fn lemma_one_shot_at_a_time(player: PlayerView, steps: Seq<Move>)
    requires
        player.valid(),
    ensures
        !player.after_shoot().can_shoot(),
        player.after_shoot().after_shoot() == player.after_shoot(),
        !player.after_shoot().steered(steps).can_shoot(),
        player.after_shoot().valid(),
{
    lemma_steering_stays_in_field(player.after_shoot(), steps);
}

/// A shot in flight keeps the player from firing until it is cleared, and it
/// is cleared in two ways only: time makes it leave the playing field
/// through the top, or it meets an invader in its cell.
pub proof fn lemma_shot_blocks_until_cleared(player: PlayerView, delta: u64, army: Seq<Invader>)
    requires
        player.shots.len() == 1,
    ensures
        !player.can_shoot(),
        player.updated(delta).can_shoot() <==> player.shots[0].leaves(delta),
        (PlayerView { shots: player.clash(army).shots, ..player }).can_shoot() <==> first_at(
            army,
            player.shots[0].x as int,
            player.shots[0].y as int,
        ) < army.len(),
{
    reveal_with_fuel(shots_after, 2);
    reveal_with_fuel(clash_after, 2);
}

/// Time alone never adds a shot: after an update no more shots are in flight
/// than before, each of them one of the earlier shots advanced.
pub proof fn lemma_update_only_removes_shots(shots: Seq<Shot>, delta: u64, n: nat)
    requires
        n <= shots.len(),
    ensures
        shots_after(shots, delta, n).len() <= n,
        forall|k: int|
            0 <= k < shots_after(shots, delta, n).len() ==> exists|j: int|
                0 <= j < n && !shots[j].leaves(delta) && (#[trigger] shots_after(shots, delta, n)[k])
                    == shots[j].advanced(delta),
    decreases n,
{
    if n > 0 {
        lemma_update_only_removes_shots(shots, delta, (n - 1) as nat);
        let before = shots_after(shots, delta, (n - 1) as nat);
        let now = shots_after(shots, delta, n);
        assert forall|k: int| 0 <= k < now.len() implies exists|j: int|
            0 <= j < n && !shots[j].leaves(delta) && (#[trigger] now[k]) == shots[j].advanced(
                delta,
            ) by {
            if k < before.len() {
                let j = choose|j: int|
                    0 <= j < n - 1 && !shots[j].leaves(delta) && before[k] == shots[j].advanced(
                        delta,
                    );
                assert(0 <= j < n && !shots[j].leaves(delta) && now[k] == shots[j].advanced(delta));
            } else {
                assert(!shots[n - 1].leaves(delta) && now[k] == shots[n - 1].advanced(delta));
            }
        }
    }
}

/// Testing shots for hits removes exactly one invader for every shot that is
/// removed, and never adds a shot or an invader.
pub proof fn lemma_clash_counts(shots: Seq<Shot>, army: Seq<Invader>, n: nat)
    requires
        n <= shots.len(),
    ensures
        clash_after(shots, army, n).shots.len() <= n,
        clash_after(shots, army, n).army.len() <= army.len(),
        army.len() - clash_after(shots, army, n).army.len() == n - clash_after(
            shots,
            army,
            n,
        ).shots.len(),
        forall|k: int|
            0 <= k < clash_after(shots, army, n).army.len() ==> army.contains(
                #[trigger] clash_after(shots, army, n).army[k],
            ),
    decreases n,
{
    if n > 0 {
        lemma_clash_counts(shots, army, (n - 1) as nat);
        let before = clash_after(shots, army, (n - 1) as nat);
        let now = clash_after(shots, army, n);
        crate::invaders::lemma_first_at_from(
            before.army,
            shots[n - 1].x as int,
            shots[n - 1].y as int,
            0,
        );
        let target = first_at(before.army, shots[n - 1].x as int, shots[n - 1].y as int);
        assert forall|k: int| 0 <= k < now.army.len() implies army.contains(
            #[trigger] now.army[k],
        ) by {
            if target < before.army.len() {
                if k < target {
                    assert(now.army[k] == before.army[k]);
                } else {
                    assert(now.army[k] == before.army[k + 1]);
                }
            } else {
                assert(now.army[k] == before.army[k]);
            }
        }
    } else {
        assert forall|k: int| 0 <= k < army.len() implies army.contains(#[trigger] army[k]) by {}
    }
}

/// A single shot in the cell of an invader removes the first invader of the
/// swarm in that cell and is removed itself; a single shot in a cell without
/// an invader changes nothing.
pub proof fn lemma_single_shot_clash(shot: Shot, army: Seq<Invader>)
    ensures
        first_at(army, shot.x as int, shot.y as int) < army.len() ==> clash_after(
            seq![shot],
            army,
            1,
        ) == (Clash {
            shots: Seq::empty(),
            army: army.remove(first_at(army, shot.x as int, shot.y as int)),
        }),
        first_at(army, shot.x as int, shot.y as int) >= army.len() ==> clash_after(
            seq![shot],
            army,
            1,
        ) == (Clash { shots: seq![shot], army }),
{
    let start = clash_after(seq![shot], army, 0);
    assert(start == (Clash { shots: Seq::empty(), army }));
    assert(clash_after(seq![shot], army, 1) == start.tested(seq![shot][0]));
    assert(Seq::<Shot>::empty().push(shot) =~= seq![shot]);
}

} // verus!
