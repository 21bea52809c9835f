//! The session manager: arena variants, session setup and reset, the
//! per-frame update, and the bounded food spawner.
//!
//! Policy notes, where the design left a choice open:
//! - movement is speed-gated (a snake moves every `speed`-th tick), never
//!   unconditional;
//! - `Clutter` is laid out and treated exactly as `WalledFood`; the two
//!   differ only in name;
//! - the spawner's rejection sampling is bounded by `SPAWN_ATTEMPT_CAP`
//!   and reports exhaustion as a configuration error (`false`) instead of
//!   hanging;
//! - the engine only ever converts the player's own slot to a wall, and
//!   that slot lies inside the preamble, so `reset`'s truncation plus the
//!   replacement of the player slot leaves no ex-snake wall behind.

use vstd::prelude::*;

use crate::entity::Controller;
use crate::entity::DEFAULT_TARGET_LENGTH;
use crate::entity::Entity;
use crate::entity::EntityView;
use crate::entity::is_food_at;
use crate::entity::occupied;
use crate::entity::snake_wf;
use crate::entity::turn_spec;
use crate::entity::view_of;
use crate::geom::Direction;
use crate::geom::Position;
use crate::geom::extend_spec;
use crate::geom::translate;
use crate::geom::try_translate;
use crate::tick::food_count;
use crate::tick::food_hits;
use crate::tick::frame_entity;
use crate::tick::lemma_tick_frame;
use crate::tick::snake_step_pre;
use crate::tick::tick_pre;
use crate::tick::tick_spec;

verus! {

/// Initial head cell of the player snake in an open arena.
pub const OPEN_START_X: i64 = 0;

/// Initial head cell of the player snake in an open arena.
pub const OPEN_START_Y: i64 = 0;

/// Initial head cell of the player snake in a walled arena.
pub const WALLED_START_X: i64 = 95;

/// Initial head cell of the player snake in a walled arena.
pub const WALLED_START_Y: i64 = 53;

/// How many placement attempts the food spawner makes before reporting a
/// configuration error instead of sampling forever.
pub const SPAWN_ATTEMPT_CAP: u64 = 10000;

/// The arena variant, chosen once at session start: growth per food,
/// ticks per grid step, boundary corner coordinates (the first corner is
/// the smaller one on both axes), and a target food count where food
/// applies.
#[derive(Clone, Copy, PartialEq, Eq, Structural, Debug)]
pub enum GameType {
    /// No walls, no food.
    Open { growth: usize, speed: u32 },
    /// Boundary walls only.
    Walled { growth: usize, speed: u32, x1: i64, y1: i64, x2: i64, y2: i64 },
    /// Boundary walls plus a target food count.
    WalledFood {
        growth: usize,
        speed: u32,
        x1: i64,
        y1: i64,
        x2: i64,
        y2: i64,
        food_target: usize,
    },
    /// Same layout as `WalledFood`; distinguished only by name.
    Clutter {
        growth: usize,
        speed: u32,
        x1: i64,
        y1: i64,
        x2: i64,
        y2: i64,
        food_target: usize,
    },
}

/// Growth per food eaten, as configured.
pub open spec fn gt_growth(g: GameType) -> usize {
    match g {
        GameType::Open { growth, .. } => growth,
        GameType::Walled { growth, .. } => growth,
        GameType::WalledFood { growth, .. } => growth,
        GameType::Clutter { growth, .. } => growth,
    }
}

/// Ticks per grid step, as configured.
pub open spec fn gt_speed(g: GameType) -> u32 {
    match g {
        GameType::Open { speed, .. } => speed,
        GameType::Walled { speed, .. } => speed,
        GameType::WalledFood { speed, .. } => speed,
        GameType::Clutter { speed, .. } => speed,
    }
}

/// Whether the variant builds boundary walls.
pub open spec fn has_walls(g: GameType) -> bool {
    !(g is Open)
}

/// The first (smaller) boundary corner of a walled variant.
pub open spec fn corner_a(g: GameType) -> Position
    recommends
        has_walls(g),
{
    match g {
        GameType::Open { .. } => Position { x: 0, y: 0 },
        GameType::Walled { x1, y1, .. } => Position { x: x1, y: y1 },
        GameType::WalledFood { x1, y1, .. } => Position { x: x1, y: y1 },
        GameType::Clutter { x1, y1, .. } => Position { x: x1, y: y1 },
    }
}

/// The second (larger) boundary corner of a walled variant.
pub open spec fn corner_b(g: GameType) -> Position
    recommends
        has_walls(g),
{
    match g {
        GameType::Open { .. } => Position { x: 0, y: 0 },
        GameType::Walled { x2, y2, .. } => Position { x: x2, y: y2 },
        GameType::WalledFood { x2, y2, .. } => Position { x: x2, y: y2 },
        GameType::Clutter { x2, y2, .. } => Position { x: x2, y: y2 },
    }
}

/// The configured food count the spawner works toward; zero where the
/// variant has no food.
pub open spec fn target_food(g: GameType) -> int {
    match g {
        GameType::WalledFood { food_target, .. } => food_target as int,
        GameType::Clutter { food_target, .. } => food_target as int,
        _ => 0,
    }
}

/// How many entities the fixed preamble holds: the player slot, plus the
/// two boundary wall entities of a walled variant.
pub open spec fn preamble_len(g: GameType) -> int {
    if g is Open {
        1
    } else {
        3
    }
}

/// A valid configuration: at least one tick per step, and ordered
/// boundary corners where walls exist.
pub open spec fn gametype_wf(g: GameType) -> bool {
    &&& gt_speed(g) >= 1
    &&& (has_walls(g) ==> corner_a(g).x < corner_b(g).x && corner_a(g).y < corner_b(g).y)
}

/// The player snake's starting cell for the variant.
pub open spec fn start_pos(g: GameType) -> Position {
    if g is Open {
        Position { x: OPEN_START_X, y: OPEN_START_Y }
    } else {
        Position { x: WALLED_START_X, y: WALLED_START_Y }
    }
}

/// The controller a freshly created player snake carries.
pub open spec fn init_ctrl(g: GameType) -> Controller {
    Controller {
        target_length: DEFAULT_TARGET_LENGTH,
        move_counter: 0,
        growth_amount: gt_growth(g),
        speed: gt_speed(g),
    }
}

/// The freshly created player snake: one cell, heading right.
pub open spec fn init_snake_view(g: GameType) -> EntityView {
    EntityView::Snake { body: seq![start_pos(g)], heading: Direction::Right, ctrl: init_ctrl(g) }
}

/// The fixed preamble a session starts from: the player snake, then the
/// two boundary wall paths of a walled variant (each the Manhattan path
/// from one corner toward the other, together closing the rectangle).
pub open spec fn init_preamble(g: GameType) -> Seq<EntityView> {
    if g is Open {
        seq![init_snake_view(g)]
    } else {
        seq![
            init_snake_view(g),
            EntityView::Wall { cells: extend_spec(corner_a(g), corner_b(g)) },
            EntityView::Wall { cells: extend_spec(corner_b(g), corner_a(g)) },
        ]
    }
}

/// Whether `p` lies strictly inside the boundary corners: only such
/// cells are candidates for food.
pub open spec fn in_interior(p: Position, g: GameType) -> bool {
    corner_a(g).x < p.x < corner_b(g).x && corner_a(g).y < p.y < corner_b(g).y
}

/// Whether any entity in the list occupies `p`.
pub open spec fn cell_taken(ents: Seq<EntityView>, p: Position) -> bool {
    exists|j: int| 0 <= j < ents.len() && (#[trigger] occupied(ents[j])).contains(p)
}

/// A running session: the arena configuration, the entity list, and the
/// stable handle of the player's slot. Input routing resolves the player
/// through the handle, not through a hard-wired list position; the
/// invariant keeps the handle valid because food lives only beyond the
/// preamble, where entities are appended and removed without ever moving
/// a preamble slot.
pub struct App {
    /// The arena variant, set once at session start.
    pub gametype: GameType,
    /// The entity list: the fixed preamble first (the player slot, then
    /// any boundary walls), followed only by food.
    pub entities: Vec<Entity>,
    /// The player's slot. It holds the live snake until the terminal
    /// conversion, and the resulting wall afterwards.
    pub player: usize,
}

/// The session invariant. The preamble is food-free, holds the boundary
/// walls unchanged in their original slots, and the player's slot is the
/// only place a snake can live; everything past the preamble is food;
/// a live snake is structurally well-formed.
pub open spec fn app_wf(a: App) -> bool {
    let v = view_of(a.entities@);
    &&& gametype_wf(a.gametype)
    &&& a.entities@.len() >= preamble_len(a.gametype)
    &&& a.player == 0
    &&& forall|j: int| 0 <= j < preamble_len(a.gametype) ==> !(#[trigger] v[j] is Food)
    &&& forall|j: int|
        1 <= j < preamble_len(a.gametype) ==> #[trigger] v[j] == init_preamble(a.gametype)[j]
    &&& forall|j: int| preamble_len(a.gametype) <= j < v.len() ==> #[trigger] v[j] is Food
    &&& forall|j: int|
        0 <= j < v.len() && #[trigger] v[j] is Snake ==> j == a.player && snake_wf(
            v[j]->body,
            v[j]->ctrl,
        )
}

/// All entities appended past `base` are food strictly inside the
/// boundary, each on a cell that no earlier entity occupies — so no
/// spawned food ever collides with the snake, a wall, or other food.
pub open spec fn spawned_onto(base: Seq<EntityView>, cur: Seq<EntityView>, g: GameType) -> bool {
    &&& cur.len() >= base.len()
    &&& forall|j: int| 0 <= j < base.len() ==> #[trigger] cur[j] == base[j]
    &&& forall|k: int|
        base.len() <= k < cur.len() ==> ((#[trigger] cur[k]) matches EntityView::Food { cell }
            && in_interior(cell, g) && (forall|j: int|
            0 <= j < k ==> !(#[trigger] occupied(cur[j])).contains(cell)))
}

/// Relies on `rand::random_range` over an `i64` half-open range: the
/// thread-local generator returns a value inside the range, and panics
/// only when the range is empty, which the precondition rules out.
/// Nothing more is assumed — in particular, no two calls need agree.
#[verifier::external_body]
fn sample_coord(lo: i64, hi: i64) -> (r: i64)
    requires
        lo < hi,
    ensures
        lo <= r < hi,
{
    rand::random_range(lo..hi)
}

/// Count the food entities in the list.
fn count_food(entities: &Vec<Entity>) -> (c: usize)
    ensures
        c as int == food_count(view_of(entities@), entities@.len() as int),
        c <= entities@.len(),
{
    let n = entities.len();
    let mut c: usize = 0;
    let mut j: usize = 0;
    while j < n
        invariant
            n == entities@.len(),
            0 <= j <= n,
            c as int == food_count(view_of(entities@), j as int),
            c <= j,
        decreases n - j,
    {
        let here = match &entities[j] {
            Entity::Food(_) => true,
            _ => false,
        };
        proof {
            assert(here == (view_of(entities@)[j as int] is Food));
        }
        if here {
            c += 1;
        }
        j += 1;
    }
    c
}

/// Count the food entities sitting exactly on `p`.
fn count_food_at(entities: &Vec<Entity>, p: Position) -> (c: usize)
    ensures
        c as int == food_hits(view_of(entities@), p, entities@.len() as int),
        c <= entities@.len(),
{
    let n = entities.len();
    let mut c: usize = 0;
    let mut j: usize = 0;
    while j < n
        invariant
            n == entities@.len(),
            0 <= j <= n,
            c as int == food_hits(view_of(entities@), p, j as int),
            c <= j,
        decreases n - j,
    {
        let here = match &entities[j] {
            Entity::Food(q) => q.x == p.x && q.y == p.y,
            _ => false,
        };
        proof {
            assert(here == is_food_at(view_of(entities@)[j as int], p));
        }
        if here {
            c += 1;
        }
        j += 1;
    }
    c
}

/// Linear scan: does any entity occupy `p`?
fn collide_any(entities: &Vec<Entity>, p: Position) -> (r: bool)
    ensures
        r == cell_taken(view_of(entities@), p),
{
    let n = entities.len();
    let mut j: usize = 0;
    while j < n
        invariant
            n == entities@.len(),
            0 <= j <= n,
            forall|k: int| 0 <= k < j ==> !(#[trigger] occupied(view_of(entities@)[k])).contains(p),
        decreases n - j,
    {
        if p.collide(&entities[j]) {
            proof {
                assert(occupied(view_of(entities@)[j as int]).contains(p));
            }
            return true;
        }
        j += 1;
    }
    false
}

impl App {
    /// Bounded rejection sampling, restoring the configured food count:
    /// while the count is below the target, sample a cell uniformly at
    /// random strictly inside the boundary corners and keep it only if
    /// it collides with nothing — neither the snake, nor a wall, nor
    /// existing food. Returns whether the target was reached; `false`
    /// reports a configuration error (an arena without enough free
    /// interior cells, or none at all) after `SPAWN_ATTEMPT_CAP`
    /// attempts, rather than resampling forever.
    pub fn spawn_food(&mut self) -> (r: bool)
        requires
            app_wf(*old(self)),
        ensures
            app_wf(*final(self)),
            final(self).gametype == old(self).gametype,
            final(self).player == old(self).player,
            spawned_onto(
                view_of(old(self).entities@),
                view_of(final(self).entities@),
                final(self).gametype,
            ),
            r == (food_count(view_of(final(self).entities@), final(self).entities@.len() as int)
                >= target_food(final(self).gametype)),
            food_count(view_of(old(self).entities@), old(self).entities@.len() as int)
                >= target_food(old(self).gametype) ==> food_count(
                view_of(final(self).entities@),
                final(self).entities@.len() as int,
            ) == food_count(view_of(old(self).entities@), old(self).entities@.len() as int),
            food_count(view_of(old(self).entities@), old(self).entities@.len() as int)
                < target_food(old(self).gametype) ==> food_count(
                view_of(final(self).entities@),
                final(self).entities@.len() as int,
            ) <= target_food(old(self).gametype),
    {
        let ghost base = view_of(self.entities@);
        let ghost g0 = self.gametype;
        let target: usize = match self.gametype {
            GameType::WalledFood { food_target, .. } => food_target,
            GameType::Clutter { food_target, .. } => food_target,
            _ => 0,
        };
        let mut count = count_food(&self.entities);
        proof {
            assert(spawned_onto(base, view_of(self.entities@), g0));
        }
        if count >= target {
            return true;
        }
        let (x1, y1, x2, y2) = match self.gametype {
            GameType::WalledFood { x1, y1, x2, y2, .. } => (x1, y1, x2, y2),
            GameType::Clutter { x1, y1, x2, y2, .. } => (x1, y1, x2, y2),
            _ => (0, 0, 0, 0),
        };
        if !(x1 + 1 < x2 && y1 + 1 < y2) {
            return false;
        }
        let mut attempts: u64 = 0;
        while count < target && attempts < SPAWN_ATTEMPT_CAP
            invariant
                app_wf(*self),
                self.gametype == g0,
                self.player == old(self).player,
                spawned_onto(base, view_of(self.entities@), g0),
                count as int == food_count(view_of(self.entities@), self.entities@.len() as int),
                count <= self.entities@.len(),
                count <= target,
                target as int == target_food(g0),
                corner_a(g0) == (Position { x: x1, y: y1 }),
                corner_b(g0) == (Position { x: x2, y: y2 }),
                x1 + 1 < x2,
                y1 + 1 < y2,
            decreases SPAWN_ATTEMPT_CAP - attempts,
        {
            attempts += 1;
            let px = sample_coord(x1 + 1, x2);
            let py = sample_coord(y1 + 1, y2);
            let pos = Position { x: px, y: py };
            if !collide_any(&self.entities, pos) {
                let ghost before = view_of(self.entities@);
                self.entities.push(Entity::Food(pos));
                count += 1;
                proof {
                    let after = view_of(self.entities@);
                    assert(after =~= before.push(EntityView::Food { cell: pos }));
                    crate::tick::lemma_food_count_congruent(
                        after,
                        before,
                        before.len() as int,
                    );
                    assert(count as int == food_count(after, after.len() as int));
                    assert(in_interior(pos, g0));
                    assert forall|k: int|
                        base.len() <= k < after.len() implies ((#[trigger] after[k]) matches
                        EntityView::Food { cell } && in_interior(cell, g0) && (forall|j: int|
                        0 <= j < k ==> !(#[trigger] occupied(after[j])).contains(cell))) by {
                        if k < before.len() {
                            assert(after[k] == before[k]);
                        } else {
                            assert(after[k] == (EntityView::Food { cell: pos }));
                            assert forall|j: int| 0 <= j < k implies !(#[trigger] occupied(
                                after[j],
                            )).contains(pos) by {
                                assert(after[j] == before[j]);
                                assert(!cell_taken(before, pos));
                            }
                        }
                    }
                    assert(spawned_onto(base, after, g0));
                }
            }
        }
        count >= target
    }

    /// Create a session of the given variant: the fixed preamble first
    /// (the player snake; for walled variants also the two boundary
    /// walls), then food up to the configured target. Whether the
    /// spawner reached the target can be read back via `food_satisfied`.
    pub fn new_game(gmtyp: GameType) -> (r: App)
        requires
            gametype_wf(gmtyp),
        ensures
            app_wf(r),
            r.gametype == gmtyp,
            r.player == 0,
            spawned_onto(init_preamble(gmtyp), view_of(r.entities@), gmtyp),
    {
        let (growth, speed) = match gmtyp {
            GameType::Open { growth, speed } => (growth, speed),
            GameType::Walled { growth, speed, .. } => (growth, speed),
            GameType::WalledFood { growth, speed, .. } => (growth, speed),
            GameType::Clutter { growth, speed, .. } => (growth, speed),
        };
        let c = Controller {
            target_length: DEFAULT_TARGET_LENGTH,
            move_counter: 0,
            growth_amount: growth,
            speed,
        };
        let mut entities: Vec<Entity> = Vec::new();
        match gmtyp {
            GameType::Open { .. } => {
                entities.push(
                    Entity::custom_snake(
                        Position::new(OPEN_START_X, OPEN_START_Y),
                        Direction::Right,
                        c,
                    ),
                );
            },
            GameType::Walled { x1, y1, x2, y2, .. } => {
                entities.push(
                    Entity::custom_snake(
                        Position::new(WALLED_START_X, WALLED_START_Y),
                        Direction::Right,
                        c,
                    ),
                );
                entities.push(Entity::new_wall(Position::new(x1, y1), Position::new(x2, y2)));
                entities.push(Entity::new_wall(Position::new(x2, y2), Position::new(x1, y1)));
            },
            GameType::WalledFood { x1, y1, x2, y2, .. } => {
                entities.push(
                    Entity::custom_snake(
                        Position::new(WALLED_START_X, WALLED_START_Y),
                        Direction::Right,
                        c,
                    ),
                );
                entities.push(Entity::new_wall(Position::new(x1, y1), Position::new(x2, y2)));
                entities.push(Entity::new_wall(Position::new(x2, y2), Position::new(x1, y1)));
            },
            GameType::Clutter { x1, y1, x2, y2, .. } => {
                entities.push(
                    Entity::custom_snake(
                        Position::new(WALLED_START_X, WALLED_START_Y),
                        Direction::Right,
                        c,
                    ),
                );
                entities.push(Entity::new_wall(Position::new(x1, y1), Position::new(x2, y2)));
                entities.push(Entity::new_wall(Position::new(x2, y2), Position::new(x1, y1)));
            },
        }
        proof {
            assert(view_of(entities@) =~= init_preamble(gmtyp));
        }
        let mut app = App { gametype: gmtyp, entities, player: 0 };
        proof {
            assert(app_wf(app));
        }
        app.spawn_food();
        app
    }

    /// Restore the session to its initial shape: everything past the
    /// fixed preamble is dropped, the player slot gets a fresh snake at
    /// the variant's starting cell (replacing an ex-snake wall if the
    /// snake had collided), and the spawner restores the configured food
    /// count. Returns whether the food target was reached, as
    /// `spawn_food` does.
    pub fn reset(&mut self) -> (r: bool)
        requires
            app_wf(*old(self)),
        ensures
            app_wf(*final(self)),
            final(self).gametype == old(self).gametype,
            final(self).player == old(self).player,
            spawned_onto(
                init_preamble(old(self).gametype),
                view_of(final(self).entities@),
                old(self).gametype,
            ),
            r == (food_count(view_of(final(self).entities@), final(self).entities@.len() as int)
                >= target_food(old(self).gametype)),
            r ==> food_count(view_of(final(self).entities@), final(self).entities@.len() as int)
                == target_food(old(self).gametype),
    {
        let g = self.gametype;
        let ghost ev0 = self.entities@;
        let pre_len: usize = match g {
            GameType::Open { .. } => 1,
            _ => 3,
        };
        self.entities.truncate(pre_len);
        let ghost ev1 = self.entities@;
        let (growth, speed) = match g {
            GameType::Open { growth, speed } => (growth, speed),
            GameType::Walled { growth, speed, .. } => (growth, speed),
            GameType::WalledFood { growth, speed, .. } => (growth, speed),
            GameType::Clutter { growth, speed, .. } => (growth, speed),
        };
        let c = Controller {
            target_length: DEFAULT_TARGET_LENGTH,
            move_counter: 0,
            growth_amount: growth,
            speed,
        };
        let start = match g {
            GameType::Open { .. } => Position::new(OPEN_START_X, OPEN_START_Y),
            _ => Position::new(WALLED_START_X, WALLED_START_Y),
        };
        let idx = self.player;
        let fresh = Entity::custom_snake(start, Direction::Right, c);
        let ghost fv = fresh@;
        self.entities.set(idx, fresh);
        proof {
            let v = view_of(self.entities@);
            assert(ev1 == ev0.subrange(0, pre_len as int));
            assert(pre_len as int == preamble_len(g));
            assert(self.entities@.len() == pre_len);
            assert(c == init_ctrl(g));
            assert(start == start_pos(g));
            assert(fv == init_snake_view(g));
            assert(v[0] == fv);
            assert forall|j: int| 1 <= j < pre_len implies #[trigger] v[j] == init_preamble(g)[j] by {
                assert(self.entities@[j] == ev1[j]);
                assert(ev1[j] == ev0[j]);
                assert(view_of(ev0)[j] == init_preamble(g)[j]);
            }
            assert(v =~= init_preamble(g));
            assert(app_wf(*self));
            assert(food_count(v, 0) == 0);
            assert(food_count(v, 1) == 0);
            if pre_len == 3 {
                assert(food_count(v, 2) == 0);
                assert(food_count(v, 3) == 0);
            }
            assert(food_count(v, v.len() as int) == 0);
        }
        self.spawn_food()
    }

    /// One frame: run the tick engine over the entity list, then let the
    /// spawner top the food count back up. The caller checks `can_tick`
    /// first; the returned flag reports the spawner's outcome.
    pub fn update(&mut self) -> (r: bool)
        requires
            app_wf(*old(self)),
            tick_pre(view_of(old(self).entities@)),
        ensures
            app_wf(*final(self)),
            final(self).gametype == old(self).gametype,
            final(self).player == old(self).player,
            spawned_onto(
                tick_spec(view_of(old(self).entities@)),
                view_of(final(self).entities@),
                old(self).gametype,
            ),
            r == (food_count(view_of(final(self).entities@), final(self).entities@.len() as int)
                >= target_food(old(self).gametype)),
            food_count(
                tick_spec(view_of(old(self).entities@)),
                tick_spec(view_of(old(self).entities@)).len() as int,
            ) < target_food(old(self).gametype) ==> food_count(
                view_of(final(self).entities@),
                final(self).entities@.len() as int,
            ) <= target_food(old(self).gametype),
    {
        let ghost oldv = view_of(self.entities@);
        let ghost g0 = self.gametype;
        let ghost p = preamble_len(g0);
        Entity::step_in_place(&mut self.entities);
        proof {
            lemma_tick_frame(oldv, p);
            let v = view_of(self.entities@);
            assert(v == tick_spec(oldv));
            assert forall|j: int| 0 <= j < p implies !(#[trigger] v[j] is Food) by {
                assert(frame_entity(oldv[j], v[j]));
                if !(oldv[j] is Snake) {
                    assert(v[j] == oldv[j]);
                }
            }
            assert forall|j: int| 1 <= j < p implies #[trigger] v[j] == init_preamble(g0)[j] by {
                assert(frame_entity(oldv[j], v[j]));
                if oldv[j] is Snake {
                    assert(false);
                }
                assert(v[j] == oldv[j]);
            }
            assert forall|j: int|
                0 <= j < v.len() && #[trigger] v[j] is Snake implies j == self.player && snake_wf(
                v[j]->body,
                v[j]->ctrl,
            ) by {
                if j < p {
                    assert(frame_entity(oldv[j], v[j]));
                    if oldv[j] is Snake {
                        assert(j == 0);
                        assert(snake_wf(oldv[j]->body, oldv[j]->ctrl));
                    } else {
                        assert(v[j] == oldv[j]);
                    }
                } else {
                    assert(v[j] is Food);
                }
            }
            assert(app_wf(*self));
        }
        self.spawn_food()
    }

    /// Route a turn request to the player's slot: a live snake applies
    /// the turn rule; after the terminal conversion the slot holds a
    /// wall, which ignores the request entirely.
    pub fn turn_player(&mut self, d: Direction)
        requires
            app_wf(*old(self)),
        ensures
            app_wf(*final(self)),
            final(self).gametype == old(self).gametype,
            final(self).player == old(self).player,
            view_of(final(self).entities@) == view_of(old(self).entities@).update(
                old(self).player as int,
                turn_spec(view_of(old(self).entities@)[old(self).player as int], d),
            ),
    {
        let idx = self.player;
        let ghost before = view_of(self.entities@);
        let mut e = self.entities.remove(idx);
        e.turn(d);
        self.entities.insert(idx, e);
        proof {
            let v = view_of(self.entities@);
            assert(v =~= before.update(idx as int, turn_spec(before[idx as int], d)));
            assert forall|j: int|
                0 <= j < v.len() && #[trigger] v[j] is Snake implies j == self.player && snake_wf(
                v[j]->body,
                v[j]->ctrl,
            ) by {
                if j != idx {
                    assert(v[j] == before[j]);
                } else {
                    assert(before[j] is Snake);
                    assert(snake_wf(before[j]->body, before[j]->ctrl));
                }
            }
            assert(app_wf(*self));
        }
    }

    /// Whether the tick engine's machine-limit preconditions hold of the
    /// current state: room on the grid for the player's next head cell,
    /// and a grown target length that still fits the machine word. The
    /// surrounding program checks this before each `update`.
    pub fn can_tick(&self) -> (r: bool)
        requires
            app_wf(*self),
        ensures
            r == tick_pre(view_of(self.entities@)),
    {
        let ghost v = view_of(self.entities@);
        let idx = self.player;
        let mut head = Position { x: 0, y: 0 };
        let mut dir = Direction::Right;
        let mut ctrl = Controller {
            target_length: 1,
            move_counter: 0,
            growth_amount: 0,
            speed: 1,
        };
        let mut snake_here = false;
        match &self.entities[idx] {
            Entity::Snake(b, dd, c) => {
                proof {
                    assert(v[idx as int] is Snake);
                    assert(snake_wf(b@, *c));
                }
                head = b[0];
                dir = *dd;
                ctrl = *c;
                snake_here = true;
            },
            _ => {},
        }
        if !snake_here {
            proof {
                assert forall|i: int| 0 <= i < v.len() implies #[trigger] snake_step_pre(v, i) by {
                    if v[i] is Snake {
                        assert(i == idx);
                        assert(false);
                    }
                }
            }
            return true;
        }
        let room = match try_translate(head, dir) {
            Some(_) => true,
            None => false,
        };
        if !room {
            proof {
                assert(!snake_step_pre(v, idx as int));
            }
            return false;
        }
        let next = translate(head, dir);
        let hits = count_food_at(&self.entities, next);
        let fits = match hits.checked_mul(ctrl.growth_amount) {
            Some(grown) => match ctrl.target_length.checked_add(grown) {
                Some(_) => true,
                None => false,
            },
            None => false,
        };
        proof {
            let grow = ctrl.growth_amount as int;
            let h = food_hits(v, next, v.len() as int);
            assert(h == hits as int);
            if fits {
                assert(ctrl.target_length + h * grow <= usize::MAX);
                assert forall|i: int| 0 <= i < v.len() implies #[trigger] snake_step_pre(v, i) by {
                    if v[i] is Snake {
                        assert(i == idx);
                        assert(snake_step_pre(v, idx as int));
                    }
                }
            } else {
                assert(ctrl.target_length + h * grow > usize::MAX);
                assert(!snake_step_pre(v, idx as int));
            }
        }
        fits
    }

    /// Whether the food count currently meets the configured target.
    pub fn food_satisfied(&self) -> (r: bool)
        ensures
            r == (food_count(view_of(self.entities@), self.entities@.len() as int) >= target_food(
                self.gametype,
            )),
    {
        let target: usize = match self.gametype {
            GameType::WalledFood { food_target, .. } => food_target,
            GameType::Clutter { food_target, .. } => food_target,
            _ => 0,
        };
        let count = count_food(&self.entities);
        count >= target
    }
}

} // verus!
