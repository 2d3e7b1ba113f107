//! The game itself: what a key press and what the passing of time do to the
//! player and the swarm, and what the caller has to do about it.
//!
//! A [`Game`] is a game in progress. Each event consumes it and hands back
//! an [`Outcome`], which holds the game to go on with unless the event ended
//! it, together with the actions that the caller is to carry out in order.

use vstd::prelude::*;
use crate::frame::{Drawable, Frame, Grid, blank_grid, new_frame};
use crate::invaders::{
    Direction, Invaders, SwarmView, formation, lemma_move_interval_monotone,
    lemma_update_keeps_valid, move_interval_for, FULL_SWARM, LOSE_ROW,
};
use crate::player::{
    Player, PlayerView, lemma_clash_counts, lemma_update_only_removes_shots, START_COLUMN,
};
use crate::shot::Shot;
use crate::timer::Timer;

verus! {

/// A key as the keyboard reports it.
#[derive(Clone, Copy, Debug, PartialEq, Eq, Structural)]
pub enum Key {
    Esc,
    Enter,
    Left,
    Right,
    /// A key that produces a character.
    Char(char),
    /// Any other key.
    Other,
}

/// What a key asks of the game.
#[derive(Clone, Copy, Debug, PartialEq, Eq, Structural)]
pub enum Input {
    Quit,
    MoveLeft,
    MoveRight,
    Fire,
    /// The key means nothing to the game.
    Ignored,
}

/// The meaning of each key: escape and `q` quit, the arrows steer, space and
/// enter fire, and everything else is ignored.
pub open spec fn meaning(key: Key) -> Input {
    match key {
        Key::Esc => Input::Quit,
        Key::Char(c) => if c == 'q' {
            Input::Quit
        } else if c == ' ' {
            Input::Fire
        } else {
            Input::Ignored
        },
        Key::Left => Input::MoveLeft,
        Key::Right => Input::MoveRight,
        Key::Enter => Input::Fire,
        Key::Other => Input::Ignored,
    }
}

/// Tells what `key` asks of the game.
pub fn interpret(key: Key) -> (input: Input)
    ensures
        input == meaning(key),
{
    match key {
        Key::Esc => Input::Quit,
        Key::Char(c) => if c == 'q' {
            Input::Quit
        } else if c == ' ' {
            Input::Fire
        } else {
            Input::Ignored
        },
        Key::Left => Input::MoveLeft,
        Key::Right => Input::MoveRight,
        Key::Enter => Input::Fire,
        Key::Other => Input::Ignored,
    }
}

/// A sound cue.
#[derive(Clone, Copy, Debug, PartialEq, Eq, Structural)]
pub enum Sound {
    Explode,
    Lose,
    Move,
    Pew,
    Startup,
    Win,
}

impl Sound {
    /// The name under which the cue is known.
    pub open spec fn name_of(self) -> Seq<char> {
        match self {
            Sound::Explode => "explode"@,
            Sound::Lose => "lose"@,
            Sound::Move => "move"@,
            Sound::Pew => "pew"@,
            Sound::Startup => "startup"@,
            Sound::Win => "win"@,
        }
    }

    /// The name under which the cue is known.
    pub fn name(self) -> (name: &'static str)
        ensures
            name@ == self.name_of(),
    {
        match self {
            Sound::Explode => "explode",
            Sound::Lose => "lose",
            Sound::Move => "move",
            Sound::Pew => "pew",
            Sound::Startup => "startup",
            Sound::Win => "win",
        }
    }
}

/// Something for the caller to do.
#[derive(Debug)]
pub enum Action {
    /// Trigger a sound cue.
    Play(Sound),
    /// Hand a finished frame to the renderer.
    Present(Frame),
}

/// What an action is: the cue to play, or the contents of the frame to
/// present.
pub enum ActionView {
    Play(Sound),
    Present(Grid),
}

impl View for Action {
    type V = ActionView;

    open spec fn view(&self) -> ActionView {
        match self {
            Action::Play(sound) => ActionView::Play(*sound),
            Action::Present(frame) => ActionView::Present(frame@),
        }
    }
}

/// What each of `actions` is, in order.
pub open spec fn action_views(actions: Seq<Action>) -> Seq<ActionView> {
    actions.map_values(|action: Action| action@)
}

/// How a tick leaves the game.
#[derive(Clone, Copy, Debug, PartialEq, Eq, Structural)]
pub enum Verdict {
    /// Neither side has won yet.
    Continue,
    /// No invader is left.
    Won,
    /// The invaders have reached the bottom.
    Lost,
}

/// The verdict of a tick. Whether all invaders are killed is asked first, so
/// a win takes priority over a loss.
pub open spec fn verdict_of(all_killed: bool, reached_bottom: bool) -> Verdict {
    if all_killed {
        Verdict::Won
    } else if reached_bottom {
        Verdict::Lost
    } else {
        Verdict::Continue
    }
}

/// Decides how a tick leaves the game.
pub fn judge(all_killed: bool, reached_bottom: bool) -> (verdict: Verdict)
    ensures
        verdict == verdict_of(all_killed, reached_bottom),
{
    if all_killed {
        Verdict::Won
    } else if reached_bottom {
        Verdict::Lost
    } else {
        Verdict::Continue
    }
}

/// The cue with which a game ends on `verdict`, if it ends.
pub open spec fn closing_cue(verdict: Verdict) -> Seq<ActionView> {
    match verdict {
        Verdict::Continue => Seq::empty(),
        Verdict::Won => seq![ActionView::Play(Sound::Win)],
        Verdict::Lost => seq![ActionView::Play(Sound::Lose)],
    }
}

/// What a game in progress is: the player and the swarm.
pub struct GameView {
    pub player: PlayerView,
    pub swarm: SwarmView,
}

impl GameView {
    /// What holds of every game: the player and the swarm are valid.
    pub open spec fn valid(self) -> bool {
        self.player.valid() && self.swarm.valid()
    }

    /// The game after `input` has been applied. Quitting and ignored keys
    /// leave it as it is.
    pub open spec fn pressed(self, input: Input) -> GameView {
        match input {
            Input::MoveLeft => GameView { player: self.player.moved_left(), ..self },
            Input::MoveRight => GameView { player: self.player.moved_right(), ..self },
            Input::Fire => GameView { player: self.player.after_shoot(), ..self },
            _ => self,
        }
    }

    /// The actions that `input` calls for: the cue of a shot that was fired,
    /// and the cue of a lost game on quitting.
    pub open spec fn press_actions(self, input: Input) -> Seq<ActionView> {
        match input {
            Input::Quit => seq![ActionView::Play(Sound::Lose)],
            Input::Fire => if self.player.can_shoot() {
                seq![ActionView::Play(Sound::Pew)]
            } else {
                Seq::empty()
            },
            _ => Seq::empty(),
        }
    }

    /// The swarm after `delta` has elapsed, before hits are resolved.
    pub open spec fn swarm_moved(self, delta: u64) -> SwarmView {
        self.swarm.updated(delta)
    }

    /// The game after a tick of `delta`: the player's shots advance, then
    /// the swarm moves if its time has come, then hits are resolved between
    /// the shots and the swarm as they stand.
    pub open spec fn ticked(self, delta: u64) -> GameView {
        let player = self.player.updated(delta);
        let swarm = self.swarm_moved(delta);
        let clash = player.clash(swarm.army);
        GameView {
            player: PlayerView { shots: clash.shots, ..player },
            swarm: SwarmView { army: clash.army, ..swarm },
        }
    }

    /// Whether the tick moves the swarm.
    pub open spec fn tick_moves(self, delta: u64) -> bool {
        self.swarm.timer.fires(delta)
    }

    /// Whether the tick removes an invader.
    pub open spec fn tick_hits(self, delta: u64) -> bool {
        self.ticked(delta).swarm.army.len() < self.swarm_moved(delta).army.len()
    }

    /// How the game stands: won if no invader is left, else lost if an
    /// invader has reached the bottom.
    pub open spec fn verdict(self) -> Verdict {
        verdict_of(self.swarm.all_killed(), self.swarm.reached_bottom())
    }

    /// The frame that shows the game: the player painted over a blank
    /// frame, and the swarm over that.
    pub open spec fn picture(self) -> Grid {
        self.swarm.drawn(self.player.drawn(blank_grid()))
    }

    /// The actions that a tick of `delta` calls for, in order: the cue of a
    /// swarm that moved, the cue of a hit, the frame that shows the game
    /// after the tick, and the cue of a game that the tick has decided.
    pub open spec fn tick_actions(self, delta: u64) -> Seq<ActionView> {
        let moved: Seq<ActionView> = if self.tick_moves(delta) {
            seq![ActionView::Play(Sound::Move)]
        } else {
            Seq::empty()
        };
        let hit: Seq<ActionView> = if self.tick_hits(delta) {
            seq![ActionView::Play(Sound::Explode)]
        } else {
            Seq::empty()
        };
        moved + hit + seq![ActionView::Present(self.ticked(delta).picture())] + closing_cue(
            self.ticked(delta).verdict(),
        )
    }
}

/// A game in progress.
#[derive(Debug)]
pub struct Game {
    player: Player,
    invaders: Invaders,
}

/// How an event leaves the game.
#[derive(Debug)]
pub enum Outcome {
    /// The game goes on, in this state.
    Continue(Game),
    /// The player has won.
    Won,
    /// The invaders have won.
    Lost,
    /// The player has quit.
    Quit,
}

impl View for Game {
    type V = GameView;

    closed spec fn view(&self) -> GameView {
        GameView { player: self.player@, swarm: self.invaders@ }
    }
}

impl Game {
    #[verifier::type_invariant]
    spec fn inv(&self) -> bool {
        self.invaders@.can_descend()
    }

    /// Starts a game: the player in the starting column with no shot in
    /// flight, the swarm in its starting formation, and the startup cue to
    /// play.
    pub fn start() -> (started: (Game, Vec<Action>))
        ensures
            started.0@.player == (PlayerView {
                column: START_COLUMN as int,
                shots: Seq::<Shot>::empty(),
            }),
            started.0@.swarm == (SwarmView {
                army: formation(),
                direction: Direction::Right,
                timer: Timer { interval: move_interval_for(FULL_SWARM as nat) as u64, elapsed: 0 },
            }),
            action_views(started.1@) == seq![ActionView::Play(Sound::Startup)],
    {
        let player = Player::new();
        let invaders = Invaders::new();
        let mut actions: Vec<Action> = Vec::new();
        actions.push(Action::Play(Sound::Startup));
        assert(action_views(actions@) =~= seq![ActionView::Play(Sound::Startup)]);
        (Game { player, invaders }, actions)
    }

    /// A game in progress with the given player and swarm.
    pub fn from_parts(player: Player, invaders: Invaders) -> (game: Game)
        requires
            invaders@.can_descend(),
        ensures
            game@ == (GameView { player: player@, swarm: invaders@ }),
    {
        Game { player, invaders }
    }

    /// The player.
    pub fn player(&self) -> (player: &Player)
        ensures
            player@ == self@.player,
    {
        &self.player
    }

    /// The swarm.
    pub fn invaders(&self) -> (invaders: &Invaders)
        ensures
            invaders@ == self@.swarm,
    {
        &self.invaders
    }

    /// Applies a key press.
    ///
    /// A key that quits ends the game with the cue of a lost game. Every
    /// other key leaves the game in progress: the arrows steer the player,
    /// and a key that fires fires a shot, with its cue, unless a shot is
    /// still in flight.
    pub fn press(self, key: Key) -> (result: (Outcome, Vec<Action>))
        ensures
            action_views(result.1@) == self@.press_actions(meaning(key)),
            meaning(key) == Input::Quit ==> result.0 is Quit,
            meaning(key) != Input::Quit ==> (result.0 matches Outcome::Continue(next) && next@
                == self@.pressed(meaning(key))),
    {
        proof {
            use_type_invariant(&self);
        }
        let mut player = self.player;
        let invaders = self.invaders;
        let mut actions: Vec<Action> = Vec::new();
        match interpret(key) {
            Input::Quit => {
                actions.push(Action::Play(Sound::Lose));
                assert(action_views(actions@) =~= seq![ActionView::Play(Sound::Lose)]);
                return (Outcome::Quit, actions);
            },
            Input::MoveLeft => {
                player.move_left();
            },
            Input::MoveRight => {
                player.move_right();
            },
            Input::Fire => {
                if player.shoot() {
                    actions.push(Action::Play(Sound::Pew));
                }
            },
            Input::Ignored => {},
        }
        assert(action_views(actions@) =~= self@.press_actions(meaning(key)));
        (Outcome::Continue(Game { player, invaders }), actions)
    }

    /// Lets `delta` elapse.
    ///
    /// In this order: the player's shots advance; the swarm moves if its
    /// time has come; hits between shots and invaders are resolved; the game
    /// is painted into a fresh frame, the player first and the swarm over
    /// it; and the verdict is taken, a win before a loss. The actions are
    /// the cues of a move and of a hit, the frame, and the cue of the verdict
    /// if the game is decided.
    pub fn tick(self, delta: u64) -> (result: (Outcome, Vec<Action>))
        ensures
            action_views(result.1@) == self@.tick_actions(delta),
            match self@.ticked(delta).verdict() {
                Verdict::Continue => result.0 matches Outcome::Continue(next) && next@
                    == self@.ticked(delta),
                Verdict::Won => result.0 is Won,
                Verdict::Lost => result.0 is Lost,
            },
    {
        proof {
            use_type_invariant(&self);
        }
        let ghost before = self@;
        let mut player = self.player;
        let mut invaders = self.invaders;
        player.update(delta);
        let moved = invaders.update(delta);
        let hit = player.detect_hits(&mut invaders);
        let mut frame = new_frame();
        player.draw(&mut frame);
        invaders.draw(&mut frame);
        let ghost after = GameView { player: player@, swarm: invaders@ };
        assert(after == before.ticked(delta));
        assert(frame@ == after.picture());
        let verdict = judge(invaders.all_killed(), invaders.reached_bottom());
        let mut actions: Vec<Action> = Vec::new();
        if moved {
            actions.push(Action::Play(Sound::Move));
        }
        if hit {
            actions.push(Action::Play(Sound::Explode));
        }
        actions.push(Action::Present(frame));
        match verdict {
            Verdict::Won => {
                actions.push(Action::Play(Sound::Win));
                assert(action_views(actions@) =~= before.tick_actions(delta));
                (Outcome::Won, actions)
            },
            Verdict::Lost => {
                actions.push(Action::Play(Sound::Lose));
                assert(action_views(actions@) =~= before.tick_actions(delta));
                (Outcome::Lost, actions)
            },
            Verdict::Continue => {
                assert(action_views(actions@) =~= before.tick_actions(delta));
                assert forall|i: int| 0 <= i < invaders@.army.len() implies (
                #[trigger] invaders@.army[i]).y < usize::MAX by {
                    assert(!(invaders@.army[i].y >= LOSE_ROW));
                }
                (Outcome::Continue(Game { player, invaders }), actions)
            },
        }
    }
}

/// Every game stays a valid game, whatever key is pressed and however much
/// time passes: the ship and the invaders stay inside the horizontal bounds
/// of the playing field, at most one shot is in flight, and the move interval
/// of the swarm never grows.
pub proof fn lemma_game_stays_valid(game: GameView, input: Input, delta: u64)
    requires
        game.valid(),
    ensures
        game.pressed(input).valid(),
        game.ticked(delta).valid(),
        game.pressed(input).swarm == game.swarm,
        game.ticked(delta).swarm.timer.interval <= game.swarm.timer.interval,
{
    let player = game.player.updated(delta);
    let swarm = game.swarm_moved(delta);
    let after = game.ticked(delta);
    lemma_update_only_removes_shots(game.player.shots, delta, game.player.shots.len());
    lemma_update_keeps_valid(game.swarm, delta);
    crate::invaders::lemma_interval_never_grows(game.swarm, delta, 0, 0);
    lemma_clash_counts(player.shots, swarm.army, player.shots.len());
    lemma_move_interval_monotone(after.swarm.army.len(), swarm.army.len());
    assert forall|i: int| 0 <= i < after.swarm.army.len() implies (#[trigger] after.swarm.army[i]).x
        < crate::NUM_COLS by {
        assert(swarm.army.contains(after.swarm.army[i]));
    }
}

/// A tick that starts with no invader left ends in a win, whatever else
/// holds: the verdict asks for a win before it asks for a loss.
pub proof fn lemma_empty_swarm_wins(game: GameView, delta: u64)
    requires
        game.swarm.all_killed(),
    ensures
        game.ticked(delta).swarm.all_killed(),
        game.ticked(delta).verdict() == Verdict::Won,
        forall|reached_bottom: bool| verdict_of(true, reached_bottom) == Verdict::Won,
{
    let player = game.player.updated(delta);
    let swarm = game.swarm_moved(delta);
    assert(swarm.army.len() == 0);
    lemma_clash_counts(player.shots, swarm.army, player.shots.len());
}

} // verus!
