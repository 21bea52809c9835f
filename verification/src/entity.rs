//! The entity model: the player snake, immutable walls and single-cell
//! food, together with the collision predicate and the turn operation.

use vstd::prelude::*;

use crate::geom::Direction;
use crate::geom::Position;
use crate::geom::can_translate;
use crate::geom::direction_opposite;
use crate::geom::extend_spec;
use crate::geom::opposite;
use crate::geom::translate_spec;
use crate::geom::try_translate;

verus! {

/// Desired body length of a freshly created snake.
pub const DEFAULT_TARGET_LENGTH: usize = 5;

/// Length added per food eaten by a freshly created snake.
pub const DEFAULT_GROWTH: usize = 5;

/// Ticks required per grid step of a freshly created snake.
pub const DEFAULT_SPEED: u32 = 5;

/// Per-snake mutable state driving movement eligibility and length
/// targets. Owned exclusively by its snake.
#[derive(Clone, Copy, PartialEq, Eq, Structural, Debug)]
pub struct Controller {
    /// Desired body length; the body catches up one cell per tick.
    pub target_length: usize,
    /// Ticks elapsed since the last grid step; wraps to zero at `speed`.
    pub move_counter: u32,
    /// Length added to `target_length` per food eaten.
    pub growth_amount: usize,
    /// Ticks required per grid step; at least one.
    pub speed: u32,
}

/// A world entity: the player snake, an immutable wall, or one food cell.
#[derive(Debug)]
pub enum Entity {
    /// Ordered body cells (head first), heading, and controller.
    Snake(Vec<Position>, Direction, Controller),
    /// A fixed collection of occupied cells, immutable once created.
    Wall(Vec<Position>),
    /// A single consumable cell, removed when a snake head reaches it.
    Food(Position),
}

/// The mathematical shape of an `Entity`: the same three variants over
/// `Seq` instead of `Vec`. All contracts of the engine speak of this type.
pub ghost enum EntityView {
    Snake { body: Seq<Position>, heading: Direction, ctrl: Controller },
    Wall { cells: Seq<Position> },
    Food { cell: Position },
}

impl View for Entity {
    type V = EntityView;

    open spec fn view(&self) -> EntityView {
        match self {
            Entity::Snake(b, d, c) => EntityView::Snake { body: b@, heading: *d, ctrl: *c },
            Entity::Wall(cs) => EntityView::Wall { cells: cs@ },
            Entity::Food(p) => EntityView::Food { cell: *p },
        }
    }
}

/// The view of a whole entity list.
pub open spec fn view_of(es: Seq<Entity>) -> Seq<EntityView> {
    Seq::new(es.len(), |i: int| es[i]@)
}

/// Every cell an entity occupies: each body segment of a snake, each cell
/// of a wall, the single cell of a food.
pub open spec fn occupied(e: EntityView) -> Seq<Position> {
    match e {
        EntityView::Snake { body, .. } => body,
        EntityView::Wall { cells } => cells,
        EntityView::Food { cell } => seq![cell],
    }
}

/// Whether a moving head must not enter this entity: snake bodies and
/// walls are obstacles, food is not.
pub open spec fn is_obstacle(e: EntityView) -> bool {
    e is Snake || e is Wall
}

/// Whether `e` is a food entity sitting exactly on `p`.
pub open spec fn is_food_at(e: EntityView, p: Position) -> bool {
    e matches EntityView::Food { cell } && cell == p
}

/// The structural invariant of a live snake: a nonempty body no longer
/// than its target length, and a move counter strictly below its speed
/// (so the speed is at least one).
pub open spec fn snake_wf(body: Seq<Position>, ctrl: Controller) -> bool {
    &&& 1 <= body.len() <= ctrl.target_length
    &&& ctrl.move_counter < ctrl.speed
}

/// The invariant of any entity: only snakes carry structure to maintain.
pub open spec fn entity_wf(e: EntityView) -> bool {
    e matches EntityView::Snake { body, ctrl, .. } ==> snake_wf(body, ctrl)
}

/// Linear scan of a cell list.
fn cells_contain(v: &Vec<Position>, p: Position) -> (r: bool)
    ensures
        r == v@.contains(p),
{
    let mut i: usize = 0;
    while i < v.len()
        invariant
            0 <= i <= v@.len(),
            forall|k: int| 0 <= k < i ==> v@[k] != p,
        decreases v@.len() - i,
    {
        if v[i] == p {
            proof {
                assert(v@[i as int] == p);
            }
            return true;
        }
        i += 1;
    }
    false
}

impl Position {
    /// True iff this cell exactly equals any occupied cell of `other`.
    pub fn collide(&self, other: &Entity) -> (r: bool)
        ensures
            r == occupied(other@).contains(*self),
    {
        match other {
            Entity::Snake(pos_mem, _, _) => cells_contain(pos_mem, *self),
            Entity::Wall(pos_mem) => cells_contain(pos_mem, *self),
            Entity::Food(pos) => {
                let hit = self.x == pos.x && self.y == pos.y;
                proof {
                    if hit {
                        assert(occupied(other@)[0] == *self);
                    }
                }
                hit
            },
        }
    }
}

/// Whether a live snake accepts `d` as its new heading. The request is
/// refused when `d` exactly reverses the current heading, and when the
/// head would step straight onto the second body segment; both guards
/// prevent an immediate, unrecoverable self-reversal collision.
pub open spec fn turn_allowed(body: Seq<Position>, heading: Direction, d: Direction) -> bool {
    &&& d != opposite(heading)
    &&& !(body.len() >= 2 && can_translate(body[0], d) && translate_spec(body[0], d) == body[1])
}

/// The entity after a `turn(d)` request: a live snake with an accepted
/// request takes the new heading; everything else is unchanged.
pub open spec fn turn_spec(e: EntityView, d: Direction) -> EntityView {
    match e {
        EntityView::Snake { body, heading, ctrl } => if turn_allowed(body, heading, d) {
            EntityView::Snake { body, heading: d, ctrl }
        } else {
            EntityView::Snake { body, heading, ctrl }
        },
        _ => e,
    }
}

/// A snake of length at least two never accepts the exact reverse of its
/// current heading: a `turn` request with the opposite direction leaves
/// the snake — heading included — unchanged.
pub proof fn lemma_reverse_turn_keeps_heading(e: EntityView, d: Direction)
    requires
        e is Snake,
        e->body.len() >= 2,
        d == opposite(e->heading),
    ensures
        turn_spec(e, d) == e,
{
}

impl Entity {
    /// A one-cell snake at `p` heading `d` with the default controller.
    pub fn new_snake(p: Position, d: Direction) -> (r: Entity)
        ensures
            r@ == (EntityView::Snake {
                body: seq![p],
                heading: d,
                ctrl: Controller {
                    target_length: DEFAULT_TARGET_LENGTH,
                    move_counter: 0,
                    growth_amount: DEFAULT_GROWTH,
                    speed: DEFAULT_SPEED,
                },
            }),
    {
        Self::custom_snake(
            p,
            d,
            Controller {
                target_length: DEFAULT_TARGET_LENGTH,
                move_counter: 0,
                growth_amount: DEFAULT_GROWTH,
                speed: DEFAULT_SPEED,
            },
        )
    }

    /// A one-cell snake at `p` heading `d` with the given controller.
    pub fn custom_snake(p: Position, d: Direction, c: Controller) -> (r: Entity)
        ensures
            r@ == (EntityView::Snake { body: seq![p], heading: d, ctrl: c }),
    {
        let mut body: Vec<Position> = Vec::new();
        body.push(p);
        proof {
            assert(body@ =~= seq![p]);
        }
        Entity::Snake(body, d, c)
    }

    /// A wall holding the Manhattan path from `start` toward `end`,
    /// exclusive of `end`.
    pub fn new_wall(start: Position, end: Position) -> (r: Entity)
        ensures
            r@ == (EntityView::Wall { cells: extend_spec(start, end) }),
    {
        Entity::Wall(start.extend(&end))
    }

    /// Request a new heading. Applies `turn_spec`: the heading changes
    /// exactly when the entity is a snake and the request is allowed;
    /// body and controller never change, and walls and food ignore the
    /// request entirely.
    pub fn turn(&mut self, d: Direction)
        ensures
            final(self)@ == turn_spec(old(self)@, d),
    {
        match self {
            Entity::Snake(pos_mem, dir, _) => {
                let rev = direction_opposite(*dir);
                let mut ok = !(d == rev);
                if ok && pos_mem.len() >= 2 {
                    let head = pos_mem[0];
                    match try_translate(head, d) {
                        Some(next) => if next == pos_mem[1] {
                            ok = false;
                        },
                        None => {},
                    }
                }
                if ok {
                    *dir = d;
                }
            },
            _ => {},
        }
    }

    /// The terminal conversion of a snake into a wall holding its body
    /// cells exactly. A wall is returned unchanged; food (which the
    /// engine never kills) degrades to a one-cell wall at the origin.
    pub fn kill(self) -> (r: Entity)
        ensures
            self@ is Snake ==> r@ == (EntityView::Wall { cells: occupied(self@) }),
            self@ is Wall ==> r@ == self@,
            self@ is Food ==> r@ == (EntityView::Wall { cells: seq![Position { x: 0, y: 0 }] }),
    {
        match self {
            Entity::Snake(pos_mem, _, _) => Entity::Wall(pos_mem),
            Entity::Wall(pos_mem) => Entity::Wall(pos_mem),
            Entity::Food(_) => {
                let mut cells: Vec<Position> = Vec::new();
                cells.push(Position { x: 0, y: 0 });
                proof {
                    assert(cells@ =~= seq![Position { x: 0, y: 0 }]);
                }
                Entity::Wall(cells)
            },
        }
    }

    /// The occupied cells of this entity as a fresh vector, for callers
    /// (such as a renderer) that only want the footprint.
    pub fn cells_vec(&self) -> (r: Vec<Position>)
        ensures
            r@ == occupied(self@),
    {
        match self {
            Entity::Snake(pos_mem, _, _) => copy_cells(pos_mem),
            Entity::Wall(pos_mem) => copy_cells(pos_mem),
            Entity::Food(pos) => {
                let mut one: Vec<Position> = Vec::new();
                one.push(*pos);
                proof {
                    assert(one@ =~= occupied(self@));
                }
                one
            },
        }
    }
}

/// Element-by-element copy of a cell list.
fn copy_cells(v: &Vec<Position>) -> (r: Vec<Position>)
    ensures
        r@ == v@,
{
    let mut out: Vec<Position> = Vec::new();
    let mut i: usize = 0;
    while i < v.len()
        invariant
            0 <= i <= v@.len(),
            out@ =~= v@.subrange(0, i as int),
        decreases v@.len() - i,
    {
        out.push(v[i]);
        i += 1;
    }
    proof {
        assert(out@ =~= v@);
    }
    out
}

} // verus!
