//! The whole game in one value, and the order in which a tick moves its
//! parts: the current, the blood trail, the swimmer, the health bar, the
//! birds, and last the check of the outcome. Once the game is won or lost
//! the world stands still; only the check goes on.

use vstd::prelude::*;
use crate::blood::{Blood, bled, update_blood};
use crate::blood_bar::{BloodBar, drained, update_blood_bar};
use crate::curves::spec_turned;
use crate::fixed::spec_times;
use crate::game::{GameState, can_restart, next_state, on_beach, should_update, update_game_state};
use crate::palm_trees::PalmTrees;
use crate::player::{DOWN, KeyState, LEFT, Player, RIGHT, UP, update_player};
use crate::rocks::Rocks;
use crate::sea_birds::{SeaBirds, flown, update_sea_birds, views, is_bird_behavior};
use crate::settings::{EDIT, LoadError};
use crate::settings::palm_trees::palms_of;
use crate::settings::rocks::rocks_of;
use crate::settings::sea_birds::birds_of;
use crate::settings::text::{numbers, parsed};
use crate::settings::blood_bar::{DEC_VAL, START_VAL};
use crate::settings::player::{START_X, START_Y};
use crate::settings::stream::{PHASE_VEL, STRENGTH_MAX, STRENGTH_MIN, arrows_of, phases_of};
use crate::stream::{
    MovingArrow, SelectedArrow, Stream, add_arrow, deselect_arrow, drifted, edit_selected_arrow,
    refresh_moving_arrows, selection_valid, update_moving_arrows, update_stream,
};
use crate::vector::Vec2;

verus! {

/// What a key or a mouse button is bound to.
#[derive(Clone, Copy, PartialEq, Eq, Debug, Structural)]
pub enum Command {
    MoveLeft,
    MoveRight,
    MoveUp,
    MoveDown,
    AddArrow,
    RestartLevel,
}

/// The whole game.
pub struct World {
    pub stream: Stream,
    pub moving_arrows: Vec<MovingArrow>,
    pub player: Player,
    pub rocks: Rocks,
    pub selected_arrow: SelectedArrow,
    pub game_state: GameState,
    pub blood_bar: BloodBar,
    pub blood: Blood,
    pub palm_trees: PalmTrees,
    pub sea_birds: SeaBirds,
    /// Where the mouse was last seen.
    pub cursor: Vec2,
}

/// Whether the four texts of a level can be loaded: each must consist of
/// numbers, and the numbers of each must come in whole tuples.
pub open spec fn level_check(
    arrows: Seq<u8>,
    rocks: Seq<u8>,
    palm_trees: Seq<u8>,
    sea_birds: Seq<u8>,
) -> Result<(), LoadError> {
    match (parsed(arrows), parsed(rocks), parsed(palm_trees), parsed(sea_birds)) {
        (Some(a), Some(r), Some(p), Some(b)) => if a.len() % 5 == 0 && r.len() % 2 == 0 && p.len() % 2
            == 0 && b.len() % 2 == 0 {
            Ok(())
        } else {
            Err(LoadError::Incomplete)
        },
        _ => Err(LoadError::Malformed),
    }
}

/// The movement key that a command stands for, as a mask; no key for the
/// other commands.
pub open spec fn spec_key_of(command: Command) -> u8 {
    match command {
        Command::MoveLeft => LEFT,
        Command::MoveRight => RIGHT,
        Command::MoveUp => UP,
        Command::MoveDown => DOWN,
        _ => 0,
    }
}

/// The movement key that a command stands for, as a mask; no key for the
/// other commands.
#[verifier::when_used_as_spec(spec_key_of)]
pub fn key_of(command: Command) -> (keys: u8)
    ensures
        keys == spec_key_of(command),
{
    match command {
        Command::MoveLeft => LEFT,
        Command::MoveRight => RIGHT,
        Command::MoveUp => UP,
        Command::MoveDown => DOWN,
        _ => 0,
    }
}

impl World {
    /// The stream and the birds are well formed, and the selection, if any,
    /// names an arrow of the stream.
    pub open spec fn wf(&self) -> bool {
        &&& self.stream.wf()
        &&& self.sea_birds.wf()
        &&& selection_valid(&self.stream, &self.selected_arrow)
    }

    /// A new game over the given rectangle of sea: the swimmer at the start,
    /// a full health bar, and no arrows, rocks, palm trees or birds yet.
    pub fn new(rect: [i64; 4]) -> (w: World)
        ensures
            w.wf(),
            w.stream.rect == rect,
            w.stream.strength[0] == STRENGTH_MIN,
            w.stream.strength[1] == STRENGTH_MAX,
            w.stream.arrows@.len() == 0,
            w.moving_arrows@.len() == 0,
            w.player.pos == (Vec2 { x: START_X, y: START_Y }),
            w.player.vel == Vec2::spec_zero(),
            w.player.key_state == KeyState::spec_empty(),
            w.player.state == crate::player::State::Normal,
            w.player.frame == 0,
            w.player.time_since_last_frame_update == 0,
            w.rocks.rocks@.len() == 0,
            w.selected_arrow == SelectedArrow(None),
            w.game_state == GameState::Play,
            w.blood_bar == BloodBar(START_VAL),
            w.blood.blood_drops@.len() == 0,
            w.blood.time_since_last_drop == 0,
            w.palm_trees.palms@.len() == 0,
            w.sea_birds.birds@.len() == 0,
            is_bird_behavior(w.sea_birds.behavior.nodes@),
            w.cursor == Vec2::spec_zero(),
    {
        World {
            stream: Stream::new(rect, [STRENGTH_MIN, STRENGTH_MAX]),
            moving_arrows: Vec::new(),
            player: Player::new(Vec2 { x: START_X, y: START_Y }),
            rocks: Rocks::new(),
            selected_arrow: SelectedArrow(None),
            game_state: GameState::Play,
            blood_bar: BloodBar(START_VAL),
            blood: Blood::new(),
            palm_trees: PalmTrees::new(),
            sea_birds: SeaBirds::new(),
            cursor: Vec2::zero(),
        }
    }

    /// Fills a level from its four texts: arrows from tuples of five numbers,
    /// then rocks, palm trees and birds from pairs, and a fresh grid of
    /// drifting arrows. If any text does not consist of numbers, or of
    /// numbers that do not come in whole tuples, nothing is loaded.
    pub fn load(&mut self, arrows: &[u8], rocks: &[u8], palm_trees: &[u8], sea_birds: &[u8]) -> (r: Result<
        (),
        LoadError,
    >)
        requires
            old(self).wf(),
        ensures
            final(self).wf(),
            r == level_check(arrows@, rocks@, palm_trees@, sea_birds@),
            r.is_err() ==> *final(self) == *old(self),
            r.is_ok() ==> {
                &&& final(self).stream.arrows@ == old(self).stream.arrows@ + arrows_of(
                    parsed(arrows@).unwrap(),
                )
                &&& final(self).stream.arrow_phases@ == old(self).stream.arrow_phases@ + phases_of(
                    parsed(arrows@).unwrap(),
                )
                &&& final(self).stream.rect == old(self).stream.rect
                &&& final(self).stream.strength == old(self).stream.strength
                &&& final(self).rocks.rocks@ == old(self).rocks.rocks@ + rocks_of(parsed(rocks@).unwrap())
                &&& final(self).palm_trees.palms@ == old(self).palm_trees.palms@ + palms_of(
                    parsed(palm_trees@).unwrap(),
                )
                &&& views(final(self).sea_birds.birds@) == views(old(self).sea_birds.birds@) + birds_of(
                    parsed(sea_birds@).unwrap(),
                    old(self).sea_birds.behavior.nodes@.len(),
                )
                &&& final(self).sea_birds.behavior == old(self).sea_birds.behavior
                &&& final(self).moving_arrows@.len() == crate::stream::spec_cells(
                    final(self).stream.rect[2],
                    crate::settings::stream::SAMPLE_SIZE,
                ) * crate::stream::spec_cells(
                    final(self).stream.rect[3],
                    crate::settings::stream::SAMPLE_SIZE,
                )
                &&& forall|i: u32, j: u32|
                    i < crate::stream::spec_cells(
                        final(self).stream.rect[2],
                        crate::settings::stream::SAMPLE_SIZE,
                    ) && j < crate::stream::spec_cells(
                        final(self).stream.rect[3],
                        crate::settings::stream::SAMPLE_SIZE,
                    ) ==> final(self).moving_arrows@[i * crate::stream::spec_cells(
                        final(self).stream.rect[3],
                        crate::settings::stream::SAMPLE_SIZE,
                    ) + j] == #[trigger] crate::stream::grid_arrow(&final(self).stream, i, j)
                &&& final(self).player == old(self).player
                &&& final(self).selected_arrow == old(self).selected_arrow
                &&& final(self).game_state == old(self).game_state
                &&& final(self).blood_bar == old(self).blood_bar
                &&& final(self).blood == old(self).blood
                &&& final(self).cursor == old(self).cursor
            },
    {
        let arrow_values: Vec<i64> = match numbers(arrows) {
            Err(e) => {
                return Err(e);
            },
            Ok(values) => values,
        };
        let rock_values: Vec<i64> = match numbers(rocks) {
            Err(e) => {
                return Err(e);
            },
            Ok(values) => values,
        };
        let palm_values: Vec<i64> = match numbers(palm_trees) {
            Err(e) => {
                return Err(e);
            },
            Ok(values) => values,
        };
        let bird_values: Vec<i64> = match numbers(sea_birds) {
            Err(e) => {
                return Err(e);
            },
            Ok(values) => values,
        };
        if arrow_values.len() % 5 != 0 || rock_values.len() % 2 != 0 || palm_values.len() % 2 != 0
            || bird_values.len() % 2 != 0 {
            return Err(LoadError::Incomplete);
        }
        let _arrows: Result<(), LoadError> = crate::settings::stream::load_values(
            &mut self.stream,
            &arrow_values,
        );
        refresh_moving_arrows(&self.stream, &mut self.moving_arrows);
        let _rocks: Result<(), LoadError> = crate::settings::rocks::load_values(
            &mut self.rocks,
            &rock_values,
        );
        let _palms: Result<(), LoadError> = crate::settings::palm_trees::load_values(
            &mut self.palm_trees,
            &palm_values,
        );
        let _birds: Result<(), LoadError> = crate::settings::sea_birds::load_values(
            &mut self.sea_birds,
            &bird_values,
        );
        Ok(())
    }

    /// The swimmer after the physics of a tick, before the birds have had
    /// their turn.
    pub open spec fn swum(&self, dt: i64, stream: &Stream) -> Player {
        self.player.updated(dt, stream, &self.rocks)
    }

    /// The birds, the swimmer's bite and the blood after the birds' turn of a
    /// tick.
    pub open spec fn after_birds(&self, dt: i64, stream: &Stream) -> (
        Seq<crate::sea_birds::BirdView>,
        crate::player::State,
        BloodBar,
    ) {
        flown(
            self.sea_birds.behavior.nodes@,
            views(self.sea_birds.birds@),
            self.swum(dt, stream).pos,
            self.swum(dt, stream).state,
            BloodBar(drained(self.blood_bar.0, spec_times(dt, DEC_VAL))),
            dt,
            self.sea_birds.birds@.len() as int,
        )
    }

    /// One tick of `dt` seconds. While the game is in play the parts move in
    /// a fixed order: the phases of the current turn; the drifting arrows
    /// and the blood trail follow the current; the swimmer swims; the health
    /// bar drains; the birds fly and bite. Then the outcome is checked, so a
    /// bite counts in the tick in which it lands. Once the game has ended
    /// nothing moves any more. Blood is only ever lost.
    pub fn update(&mut self, dt: i64)
        requires
            old(self).wf(),
            dt >= 0,
        ensures
            final(self).wf(),
            old(self).blood_bar.0 >= 0 ==> 0 <= final(self).blood_bar.0 <= old(self).blood_bar.0,
            old(self).game_state != GameState::Play ==> *final(self) == *old(self),
            old(self).game_state == GameState::Play ==> {
                &&& final(self).stream.arrows@ == old(self).stream.arrows@
                &&& final(self).stream.rect == old(self).stream.rect
                &&& final(self).stream.strength == old(self).stream.strength
                &&& final(self).stream.arrow_phases@.len() == old(self).stream.arrow_phases@.len()
                &&& forall|i: int| 0 <= i < old(self).stream.arrow_phases@.len() ==>
                    #[trigger] final(self).stream.arrow_phases@[i] == spec_turned(
                        old(self).stream.arrow_phases@[i],
                        spec_times(dt, PHASE_VEL),
                    )
                &&& final(self).moving_arrows@.len() == old(self).moving_arrows@.len()
                &&& forall|i: int| 0 <= i < old(self).moving_arrows@.len() ==>
                    #[trigger] final(self).moving_arrows@[i] == drifted(
                        &final(self).stream,
                        old(self).moving_arrows@[i],
                        dt,
                    )
                &&& final(self).blood.blood_drops@ == bled(
                    old(self).blood.blood_drops@,
                    old(self).blood.time_since_last_drop,
                    old(self).player.pos,
                    &final(self).stream,
                    dt,
                ).0
                &&& final(self).blood.time_since_last_drop == bled(
                    old(self).blood.blood_drops@,
                    old(self).blood.time_since_last_drop,
                    old(self).player.pos,
                    &final(self).stream,
                    dt,
                ).1
                &&& final(self).player.pos == old(self).swum(dt, &final(self).stream).pos
                &&& final(self).player.vel == old(self).swum(dt, &final(self).stream).vel
                &&& final(self).player.key_state == old(self).player.key_state
                &&& final(self).player.frame == old(self).swum(dt, &final(self).stream).frame
                &&& final(self).player.time_since_last_frame_update == old(self).swum(
                    dt,
                    &final(self).stream,
                ).time_since_last_frame_update
                &&& final(self).player.state == old(self).after_birds(dt, &final(self).stream).1
                &&& final(self).blood_bar == old(self).after_birds(dt, &final(self).stream).2
                &&& views(final(self).sea_birds.birds@) == old(self).after_birds(dt, &final(self).stream).0
                &&& final(self).sea_birds.behavior == old(self).sea_birds.behavior
                &&& final(self).game_state == next_state(
                    GameState::Play,
                    on_beach(final(self).player.pos),
                    final(self).blood_bar.0,
                )
                &&& final(self).rocks == old(self).rocks
                &&& final(self).palm_trees == old(self).palm_trees
                &&& final(self).selected_arrow == old(self).selected_arrow
                &&& final(self).cursor == old(self).cursor
            },
    {
        if should_update(self.game_state) {
            update_stream(&mut self.stream, dt);
            update_moving_arrows(&self.stream, &mut self.moving_arrows, dt);
            update_blood(&mut self.blood, &self.player, &self.stream, dt);
            update_player(&mut self.player, &self.stream, &self.rocks, dt);
            update_blood_bar(&mut self.blood_bar, dt);
            update_sea_birds(&mut self.sea_birds, &mut self.player, &mut self.blood_bar, dt);
        }
        update_game_state(&mut self.game_state, &self.player, &self.blood_bar);
    }

    /// A key or button goes down. A movement key is held from now on. With
    /// the editor switched on, the arrow button adds an arrow at the cursor
    /// and the drifting arrows start afresh. Returns whether the level is to
    /// be restarted: the restart key asks for it once the game has ended.
    pub fn press(&mut self, command: Command) -> (restart: bool)
        requires
            old(self).wf(),
        ensures
            final(self).wf(),
            restart == (command == Command::RestartLevel && old(self).game_state != GameState::Play),
            final(self).player.key_state.bits == old(self).player.key_state.bits | spec_key_of(command),
            !(EDIT && command == Command::AddArrow) ==> *final(self) == (World {
                player: Player {
                    key_state: KeyState { bits: old(self).player.key_state.bits | spec_key_of(command) },
                    ..old(self).player
                },
                ..*old(self)
            }),
            EDIT && command == Command::AddArrow ==> {
                &&& final(self).stream.arrows@ == old(self).stream.arrows@.push(
                    crate::stream::Arrow { pos: old(self).cursor, dir: Vec2::spec_zero() },
                )
                &&& final(self).stream.arrow_phases@.len() == old(self).stream.arrow_phases@.len() + 1
                &&& final(self).stream.arrow_phases@.drop_last() == old(self).stream.arrow_phases@
                &&& 0 <= final(self).stream.arrow_phases@.last() < crate::fixed::UNIT
                &&& final(self).stream.rect == old(self).stream.rect
                &&& final(self).stream.strength == old(self).stream.strength
                &&& final(self).selected_arrow == SelectedArrow(Some(old(self).stream.arrows@.len() as usize))
                &&& final(self).moving_arrows@.len() == crate::stream::spec_cells(
                    final(self).stream.rect[2],
                    crate::settings::stream::SAMPLE_SIZE,
                ) * crate::stream::spec_cells(
                    final(self).stream.rect[3],
                    crate::settings::stream::SAMPLE_SIZE,
                )
                &&& forall|i: u32, j: u32|
                    i < crate::stream::spec_cells(
                        final(self).stream.rect[2],
                        crate::settings::stream::SAMPLE_SIZE,
                    ) && j < crate::stream::spec_cells(
                        final(self).stream.rect[3],
                        crate::settings::stream::SAMPLE_SIZE,
                    ) ==> final(self).moving_arrows@[i * crate::stream::spec_cells(
                        final(self).stream.rect[3],
                        crate::settings::stream::SAMPLE_SIZE,
                    ) + j] == #[trigger] crate::stream::grid_arrow(&final(self).stream, i, j)
                &&& final(self).player == old(self).player
                &&& final(self).rocks == old(self).rocks
                &&& final(self).game_state == old(self).game_state
                &&& final(self).blood_bar == old(self).blood_bar
                &&& final(self).blood == old(self).blood
                &&& final(self).palm_trees == old(self).palm_trees
                &&& final(self).sea_birds == old(self).sea_birds
                &&& final(self).cursor == old(self).cursor
            },
    {
        if EDIT {
            if command == Command::AddArrow {
                add_arrow(&mut self.stream, &mut self.selected_arrow, self.cursor);
                refresh_moving_arrows(&self.stream, &mut self.moving_arrows);
            }
        }
        proof {
            let bits = self.player.key_state.bits;
            assert(bits | 0u8 == bits) by (bit_vector);
        }
        self.player.key_state.insert(key_of(command));
        can_restart(self.game_state) && command == Command::RestartLevel
    }

    /// A key or button comes up. A movement key is no longer held; the arrow
    /// button ends the editing of an arrow.
    pub fn release(&mut self, command: Command)
        requires
            old(self).wf(),
        ensures
            final(self).wf(),
            *final(self) == (World {
                player: Player {
                    key_state: KeyState { bits: old(self).player.key_state.bits & !spec_key_of(command) },
                    ..old(self).player
                },
                selected_arrow: if command == Command::AddArrow {
                    SelectedArrow(None)
                } else {
                    old(self).selected_arrow
                },
                ..*old(self)
            }),
    {
        if command == Command::AddArrow {
            deselect_arrow(&mut self.selected_arrow);
        }
        self.player.key_state.remove(key_of(command));
    }

    /// The mouse moves to `pos`. With the editor switched on, the selected
    /// arrow, if any, is pointed at the mouse.
    pub fn mouse_cursor(&mut self, pos: Vec2)
        requires
            old(self).wf(),
        ensures
            final(self).wf(),
            final(self).cursor == pos,
            !EDIT ==> *final(self) == (World { cursor: pos, ..*old(self) }),
            EDIT ==> {
                &&& final(self).stream.arrow_phases@ == old(self).stream.arrow_phases@
                &&& final(self).stream.rect == old(self).stream.rect
                &&& final(self).stream.strength == old(self).stream.strength
                &&& match old(self).selected_arrow.0 {
                    Some(id) => final(self).stream.arrows@ == old(self).stream.arrows@.update(
                        id as int,
                        crate::stream::Arrow {
                            pos: old(self).stream.arrows@[id as int].pos,
                            dir: pos.spec_minus(old(self).stream.arrows@[id as int].pos).spec_divided(
                                crate::settings::stream::SPEEDUP,
                            ),
                        },
                    ),
                    None => final(self).stream.arrows@ == old(self).stream.arrows@,
                }
                &&& final(self).moving_arrows == old(self).moving_arrows
                &&& final(self).player == old(self).player
                &&& final(self).rocks == old(self).rocks
                &&& final(self).selected_arrow == old(self).selected_arrow
                &&& final(self).game_state == old(self).game_state
                &&& final(self).blood_bar == old(self).blood_bar
                &&& final(self).blood == old(self).blood
                &&& final(self).palm_trees == old(self).palm_trees
                &&& final(self).sea_birds == old(self).sea_birds
            },
    {
        self.cursor = pos;
        if EDIT {
            edit_selected_arrow(&mut self.stream, &self.selected_arrow, pos);
        }
    }
}

} // verus!
