//! The tick engine: one simulation step resolves movement, collision,
//! growth and food consumption for every snake, in entity-list order,
//! then removes the consumed food. The whole step is specified by
//! `tick_spec`, a function from the entity-list view to the next one.

use vstd::prelude::*;

use crate::entity::Controller;
use crate::entity::Entity;
use crate::entity::EntityView;
use crate::entity::is_food_at;
use crate::entity::is_obstacle;
use crate::entity::occupied;
use crate::entity::snake_wf;
use crate::entity::view_of;
use crate::geom::Direction;
use crate::geom::Position;
use crate::geom::can_translate;
use crate::geom::translate;
use crate::geom::translate_spec;

verus! {

/// Whether some obstacle (snake body or wall) in the list occupies `p`.
pub open spec fn hits_obstacle(ents: Seq<EntityView>, p: Position) -> bool {
    exists|j: int| 0 <= j < ents.len() && is_obstacle(ents[j]) && occupied(ents[j]).contains(p)
}

/// How many of the first `k` entities are food sitting exactly on `p`.
pub open spec fn food_hits(ents: Seq<EntityView>, p: Position, k: int) -> int
    decreases k,
{
    if k <= 0 {
        0
    } else {
        food_hits(ents, p, k - 1) + if is_food_at(ents[k - 1], p) {
            1int
        } else {
            0int
        }
    }
}

/// How many of the first `k` entities are food (on any cell).
pub open spec fn food_count(ents: Seq<EntityView>, k: int) -> int
    decreases k,
{
    if k <= 0 {
        0
    } else {
        food_count(ents, k - 1) + if ents[k - 1] is Food {
            1int
        } else {
            0int
        }
    }
}

/// The movement gate: a snake is eligible to move on the tick that wraps
/// its counter, i.e. every `speed`-th tick.
pub open spec fn moves_now(c: Controller) -> bool {
    c.move_counter + 1 == c.speed
}

/// The controller after one tick's counter increment, wrapping at `speed`.
pub open spec fn bumped(c: Controller) -> Controller {
    if c.move_counter + 1 == c.speed {
        Controller { move_counter: 0, ..c }
    } else {
        Controller { move_counter: (c.move_counter + 1) as u32, ..c }
    }
}

/// The body after an eligible move: when the body has already reached its
/// target length the tail cell is dropped, then `next` becomes the head.
/// The net length thus changes by at most one per tick.
pub open spec fn advanced_body(body: Seq<Position>, target: int, next: Position) -> Seq<Position> {
    if body.len() == target {
        seq![next] + body.drop_last()
    } else {
        seq![next] + body
    }
}

/// Marks, after also marking every food cell equal to `p` for removal.
pub open spec fn mark_foods(ents: Seq<EntityView>, marks: Seq<bool>, p: Position) -> Seq<bool> {
    Seq::new(marks.len(), |j: int| marks[j] || (0 <= j < ents.len() && is_food_at(ents[j], p)))
}

/// One snake's turn within a tick, at list index `i`. A non-snake is left
/// alone. An ineligible snake only bumps its counter. An eligible snake
/// whose next head cell meets an obstacle converts in place to a wall
/// holding its body exactly; otherwise it eats every food on the next
/// cell (growing its target by `growth_amount` per food and marking the
/// food for removal) and advances one cell.
pub open spec fn step_one(ents: Seq<EntityView>, marks: Seq<bool>, i: int) -> (Seq<
    EntityView,
>, Seq<bool>) {
    if 0 <= i < ents.len() {
        match ents[i] {
            EntityView::Snake { body, heading, ctrl } => {
                let next = translate_spec(body[0], heading);
                if moves_now(ctrl) {
                    if hits_obstacle(ents, next) {
                        (ents.update(i, EntityView::Wall { cells: body }), marks)
                    } else {
                        let t2 = (ctrl.target_length + food_hits(ents, next, ents.len() as int)
                            * ctrl.growth_amount) as usize;
                        let c2 = Controller {
                            target_length: t2,
                            move_counter: 0,
                            growth_amount: ctrl.growth_amount,
                            speed: ctrl.speed,
                        };
                        (
                            ents.update(
                                i,
                                EntityView::Snake {
                                    body: advanced_body(body, t2 as int, next),
                                    heading,
                                    ctrl: c2,
                                },
                            ),
                            mark_foods(ents, marks, next),
                        )
                    }
                } else {
                    (ents.update(i, EntityView::Snake { body, heading, ctrl: bumped(ctrl) }), marks)
                }
            },
            _ => (ents, marks),
        }
    } else {
        (ents, marks)
    }
}

/// The first `k` turns of a tick, in entity-list order.
pub open spec fn run_upto(ents: Seq<EntityView>, marks: Seq<bool>, k: int) -> (Seq<
    EntityView,
>, Seq<bool>)
    decreases k,
{
    if k <= 0 {
        (ents, marks)
    } else {
        let prev = run_upto(ents, marks, k - 1);
        step_one(prev.0, prev.1, k - 1)
    }
}

/// The entity list with every marked index removed, from index `i` on.
pub open spec fn drop_marked(ents: Seq<EntityView>, marks: Seq<bool>, i: int) -> Seq<EntityView>
    decreases ents.len() - i,
{
    if i < 0 || i >= ents.len() {
        Seq::empty()
    } else {
        let rest = drop_marked(ents, marks, i + 1);
        if 0 <= i < marks.len() && marks[i] {
            rest
        } else {
            seq![ents[i]] + rest
        }
    }
}

/// A mark list of length `n` with nothing marked.
pub open spec fn no_marks(n: nat) -> Seq<bool> {
    Seq::new(n, |j: int| false)
}

/// One whole tick: every entity takes its turn in list order, then the
/// food marked for consumption is removed (walls and surviving snakes
/// are never removed or reordered).
pub open spec fn tick_spec(ents: Seq<EntityView>) -> Seq<EntityView> {
    let done = run_upto(ents, no_marks(ents.len()), ents.len() as int);
    drop_marked(done.0, done.1, 0)
}

/// What one snake's turn needs from the machine: a well-formed snake, room
/// for the head step, and a grown target length that still fits `usize`.
pub open spec fn snake_step_pre(ents: Seq<EntityView>, i: int) -> bool {
    ents[i] matches EntityView::Snake { body, heading, ctrl } ==> {
        &&& snake_wf(body, ctrl)
        &&& can_translate(body[0], heading)
        &&& ctrl.target_length + food_hits(ents, translate_spec(body[0], heading), ents.len() as int)
            * ctrl.growth_amount <= usize::MAX
    }
}

/// The precondition of a tick, for every snake in the list.
pub open spec fn tick_pre(ents: Seq<EntityView>) -> bool {
    forall|i: int| 0 <= i < ents.len() ==> #[trigger] snake_step_pre(ents, i)
}

/// Counting food among the first `k` entities never exceeds `k`.
proof fn lemma_food_hits_bounds(ents: Seq<EntityView>, p: Position, k: int)
    requires
        0 <= k,
    ensures
        0 <= food_hits(ents, p, k) <= k,
    decreases k,
{
    if k > 0 {
        lemma_food_hits_bounds(ents, p, k - 1);
    }
}

/// Two lists with the same food-at-`p` pattern count the same hits.
proof fn lemma_food_hits_congruent(a: Seq<EntityView>, b: Seq<EntityView>, p: Position, k: int)
    requires
        forall|j: int| 0 <= j < k ==> is_food_at(#[trigger] a[j], p) == is_food_at(b[j], p),
    ensures
        food_hits(a, p, k) == food_hits(b, p, k),
    decreases k,
{
    if k > 0 {
        lemma_food_hits_congruent(a, b, p, k - 1);
    }
}

/// A food on `p` below index `k` makes the count positive.
proof fn lemma_food_hits_pos(ents: Seq<EntityView>, p: Position, j: int, k: int)
    requires
        0 <= j < k,
        is_food_at(ents[j], p),
    ensures
        food_hits(ents, p, k) >= 1,
    decreases k,
{
    lemma_food_hits_bounds(ents, p, j);
    if j == k - 1 {
        lemma_food_hits_bounds(ents, p, k - 1);
    } else {
        lemma_food_hits_pos(ents, p, j, k - 1);
    }
}

/// Two lists with the same food pattern hold the same number of food.
pub proof fn lemma_food_count_congruent(a: Seq<EntityView>, b: Seq<EntityView>, k: int)
    requires
        forall|j: int| 0 <= j < k ==> (#[trigger] a[j] is Food) == (b[j] is Food),
    ensures
        food_count(a, k) == food_count(b, k),
    decreases k,
{
    if k > 0 {
        lemma_food_count_congruent(a, b, k - 1);
    }
}

/// Linear scan for an obstacle occupying `p`.
fn scan_obstacles(entities: &Vec<Entity>, p: Position) -> (r: bool)
    ensures
        r == hits_obstacle(view_of(entities@), p),
{
    let n = entities.len();
    let mut j: usize = 0;
    while j < n
        invariant
            n == entities@.len(),
            0 <= j <= n,
            forall|k: int|
                0 <= k < j ==> !(is_obstacle(#[trigger] view_of(entities@)[k]) && occupied(
                    view_of(entities@)[k],
                ).contains(p)),
        decreases n - j,
    {
        let is_ob = match &entities[j] {
            Entity::Snake(_, _, _) => true,
            Entity::Wall(_) => true,
            Entity::Food(_) => false,
        };
        if is_ob && p.collide(&entities[j]) {
            proof {
                assert(is_obstacle(view_of(entities@)[j as int]) && occupied(
                    view_of(entities@)[j as int],
                ).contains(p));
            }
            return true;
        }
        j += 1;
    }
    false
}

/// Walk the food entities on `p`: grow the target by `grow` for each and
/// mark it for removal at the end of the tick.
fn eat_foods(entities: &Vec<Entity>, marks: &mut Vec<bool>, p: Position, base: usize, grow: usize) -> (t2: usize)
    requires
        old(marks)@.len() == entities@.len(),
        base + food_hits(view_of(entities@), p, entities@.len() as int) * grow <= usize::MAX,
    ensures
        final(marks)@ == mark_foods(view_of(entities@), old(marks)@, p),
        t2 == base + food_hits(view_of(entities@), p, entities@.len() as int) * grow,
{
    let ghost ev = view_of(entities@);
    let ghost m0 = old(marks)@;
    let n = entities.len();
    let mut t2 = base;
    let mut j: usize = 0;
    while j < n
        invariant
            n == entities@.len(),
            ev == view_of(entities@),
            m0.len() == n,
            marks@.len() == n,
            0 <= j <= n,
            t2 == base + food_hits(ev, p, j as int) * grow,
            base + food_hits(ev, p, n as int) * grow <= usize::MAX,
            marks@ =~= Seq::new(n as nat, |k: int| m0[k] || (0 <= k < j && is_food_at(ev[k], p))),
        decreases n - j,
    {
        let hit = match &entities[j] {
            Entity::Food(q) => q.x == p.x && q.y == p.y,
            _ => false,
        };
        proof {
            assert(hit == is_food_at(ev[j as int], p));
            assert(food_hits(ev, p, j as int + 1) == food_hits(ev, p, j as int) + if is_food_at(
                ev[j as int],
                p,
            ) {
                1int
            } else {
                0int
            });
            lemma_food_hits_bounds(ev, p, j as int);
            if hit {
                lemma_food_hits_mono(ev, p, j as int + 1, n as int);
                assert(food_hits(ev, p, j as int + 1) * grow <= food_hits(ev, p, n as int)
                    * grow) by (nonlinear_arith)
                    requires
                        food_hits(ev, p, j as int + 1) <= food_hits(ev, p, n as int),
                        grow >= 0,
                ;
                assert((food_hits(ev, p, j as int) + 1) * grow == food_hits(ev, p, j as int)
                    * grow + grow) by (nonlinear_arith);
            }
        }
        if hit {
            t2 = t2 + grow;
            marks.set(j, true);
        }
        j += 1;
        proof {
            assert(marks@ =~= Seq::new(
                n as nat,
                |k: int| m0[k] || (0 <= k < j && is_food_at(ev[k], p)),
            ));
        }
    }
    proof {
        assert(marks@ =~= mark_foods(ev, m0, p));
    }
    t2
}

/// The count of food hits grows with the scanned prefix.
proof fn lemma_food_hits_mono(ents: Seq<EntityView>, p: Position, j: int, k: int)
    requires
        0 <= j <= k,
    ensures
        food_hits(ents, p, j) <= food_hits(ents, p, k),
    decreases k - j,
{
    if j < k {
        lemma_food_hits_mono(ents, p, j, k - 1);
    }
}

/// How a tick may change one entity in place: anything that is not a
/// snake stays exactly as it was; a snake either stays a snake (same
/// heading, growth and speed, a target length that never shrinks, and
/// well-formedness preserved) or converts to a wall holding its body
/// cells exactly.
pub open spec fn frame_entity(a: EntityView, b: EntityView) -> bool {
    if a is Snake {
        ||| (b is Snake && b->heading == a->heading && b->ctrl.growth_amount
            == a->ctrl.growth_amount && b->ctrl.speed == a->ctrl.speed && b->ctrl.target_length
            >= a->ctrl.target_length && (snake_wf(a->body, a->ctrl) ==> snake_wf(
            b->body,
            b->ctrl,
        )))
        ||| b == (EntityView::Wall { cells: a->body })
    } else {
        b == a
    }
}

/// Removing marked entities keeps an unmarked prefix in place.
proof fn lemma_drop_prefix(e: Seq<EntityView>, m: Seq<bool>, p: int)
    requires
        m.len() == e.len(),
        0 <= p <= e.len(),
        forall|j: int| 0 <= j < p ==> !(#[trigger] m[j]),
    ensures
        drop_marked(e, m, 0) == e.take(p) + drop_marked(e, m, p),
    decreases p,
{
    if p == 0 {
        assert(e.take(0) + drop_marked(e, m, 0) =~= drop_marked(e, m, 0));
    } else {
        lemma_drop_prefix(e, m, p - 1);
        assert(drop_marked(e, m, p - 1) == seq![e[p - 1]] + drop_marked(e, m, p));
        assert(e.take(p - 1) + (seq![e[p - 1]] + drop_marked(e, m, p)) =~= e.take(p) + drop_marked(
            e,
            m,
            p,
        ));
    }
}

/// A property of every unmarked entity from index `i` on carries over to
/// every element that survives the removal pass.
proof fn lemma_drop_marked_all(
    e: Seq<EntityView>,
    m: Seq<bool>,
    i: int,
    pred: spec_fn(EntityView) -> bool,
)
    requires
        0 <= i,
        forall|j: int| i <= j < e.len() && !(0 <= j < m.len() && m[j]) ==> pred(#[trigger] e[j]),
    ensures
        forall|t: int|
            0 <= t < drop_marked(e, m, i).len() ==> pred(#[trigger] drop_marked(e, m, i)[t]),
    decreases e.len() - i,
{
    if i < e.len() {
        lemma_drop_marked_all(e, m, i + 1, pred);
        assert forall|t: int| 0 <= t < drop_marked(e, m, i).len() implies pred(
            #[trigger] drop_marked(e, m, i)[t],
        ) by {
            if 0 <= i < m.len() && m[i] {
                assert(drop_marked(e, m, i)[t] == drop_marked(e, m, i + 1)[t]);
                assert(pred(drop_marked(e, m, i + 1)[t]));
            } else if t == 0 {
                assert(drop_marked(e, m, i)[0] == e[i]);
                assert(pred(e[i]));
            } else {
                assert(drop_marked(e, m, i)[t] == drop_marked(e, m, i + 1)[t - 1]);
                assert(pred(drop_marked(e, m, i + 1)[t - 1]));
            }
        }
    }
}

/// Processing the first `k` entities changes each entity at most within
/// `frame_entity`, leaves entities at `k` and beyond untouched, and only
/// ever marks food for removal.
proof fn lemma_run_upto_frame(ents: Seq<EntityView>, marks: Seq<bool>, k: int)
    requires
        tick_pre(ents),
        marks.len() == ents.len(),
        0 <= k <= ents.len(),
    ensures
        run_upto(ents, marks, k).0.len() == ents.len(),
        run_upto(ents, marks, k).1.len() == ents.len(),
        forall|j: int| k <= j < ents.len() ==> #[trigger] run_upto(ents, marks, k).0[j] == ents[j],
        forall|j: int|
            0 <= j < ents.len() ==> frame_entity(ents[j], #[trigger] run_upto(ents, marks, k).0[j]),
        forall|j: int|
            0 <= j < ents.len() ==> (#[trigger] run_upto(ents, marks, k).1[j] ==> marks[j]
                || ents[j] is Food),
    decreases k,
{
    if k > 0 {
        lemma_run_upto_frame(ents, marks, k - 1);
        let prev = run_upto(ents, marks, k - 1);
        let cur = step_one(prev.0, prev.1, k - 1);
        let i = k - 1;
        if prev.0[i] is Snake {
            assert(prev.0[i] == ents[i]);
            let body = ents[i]->body;
            let heading = ents[i]->heading;
            let ctrl = ents[i]->ctrl;
            let next = translate_spec(body[0], heading);
            assert(snake_step_pre(ents, i));
            if moves_now(ctrl) && !hits_obstacle(prev.0, next) {
                assert forall|j: int| 0 <= j < ents.len() implies is_food_at(#[trigger] prev.0[j], next)
                    == is_food_at(ents[j], next) by {
                    assert(frame_entity(ents[j], prev.0[j]));
                }
                lemma_food_hits_congruent(prev.0, ents, next, ents.len() as int);
                lemma_food_hits_bounds(ents, next, ents.len() as int);
                let hits = food_hits(ents, next, ents.len() as int);
                let t2 = ctrl.target_length + hits * ctrl.growth_amount;
                assert(hits * ctrl.growth_amount >= 0) by (nonlinear_arith)
                    requires
                        hits >= 0,
                        ctrl.growth_amount >= 0,
                ;
                assert(0 <= t2 <= usize::MAX);
                assert(cur.0[i] matches EntityView::Snake { body: b2, heading: h2, ctrl: c2 }
                    && b2 == advanced_body(body, t2, next) && h2 == heading && c2.target_length
                    == t2 && c2.move_counter == 0 && c2.growth_amount == ctrl.growth_amount
                    && c2.speed == ctrl.speed);
                if snake_wf(body, ctrl) {
                    assert(body.len() <= t2);
                    assert(snake_wf(cur.0[i]->body, cur.0[i]->ctrl));
                }
                assert(frame_entity(ents[i], cur.0[i]));
            } else if moves_now(ctrl) {
                assert(cur.0[i] == (EntityView::Wall { cells: body }));
                assert(frame_entity(ents[i], cur.0[i]));
            } else {
                assert(cur.0[i] matches EntityView::Snake { body: b2, heading: h2, ctrl: c2 }
                    && b2 == body && h2 == heading && c2 == bumped(ctrl));
                if snake_wf(body, ctrl) {
                    assert(bumped(ctrl).move_counter < ctrl.speed);
                }
                assert(frame_entity(ents[i], cur.0[i]));
            }
        }
        assert forall|j: int|
            0 <= j < ents.len() implies frame_entity(ents[j], #[trigger] cur.0[j]) by {
            assert(frame_entity(ents[j], prev.0[j]));
            if j != i {
                assert(cur.0[j] == prev.0[j]);
            }
        }
        assert forall|j: int| k <= j < ents.len() implies #[trigger] cur.0[j] == ents[j] by {
            assert(prev.0[j] == ents[j]);
            assert(cur.0[j] == prev.0[j]);
        }
        assert forall|j: int|
            0 <= j < ents.len() implies (#[trigger] cur.1[j] ==> marks[j] || ents[j] is Food) by {
            if cur.1[j] {
                assert(prev.1[j] ==> marks[j] || ents[j] is Food);
                if !prev.1[j] {
                    assert(prev.0[j] is Food);
                    assert(frame_entity(ents[j], prev.0[j]));
                    assert(ents[j] is Food);
                }
            }
        }
    }
}

/// With no snake beyond index zero, the whole processing pass reduces to
/// the single turn of the entity at index zero.
proof fn lemma_run_upto_lone(ents: Seq<EntityView>, marks: Seq<bool>, k: int)
    requires
        marks.len() == ents.len(),
        1 <= k <= ents.len(),
        forall|j: int| 1 <= j < ents.len() ==> !(#[trigger] ents[j] is Snake),
    ensures
        run_upto(ents, marks, k) == step_one(ents, marks, 0),
    decreases k,
{
    if k == 1 {
        assert(run_upto(ents, marks, 0) == (ents, marks));
        assert(run_upto(ents, marks, 1) == step_one(ents, marks, 0));
    } else {
        lemma_run_upto_lone(ents, marks, k - 1);
        let mid = step_one(ents, marks, 0);
        let prev = run_upto(ents, marks, k - 1);
        assert(prev == mid);
        assert(mid.0[k - 1] == ents[k - 1]);
        assert(!(mid.0[k - 1] is Snake));
        assert(step_one(mid.0, mid.1, k - 1) == (mid.0, mid.1));
        assert(run_upto(ents, marks, k) == step_one(prev.0, prev.1, k - 1));
        assert(step_one(prev.0, prev.1, k - 1) == step_one(mid.0, mid.1, k - 1));
    }
}

/// Colliding tick: when the lone snake at index zero is eligible to move
/// and its next head cell meets any obstacle (its own body included),
/// the tick converts exactly that entity, in place, into a wall holding
/// its body cells; nothing else changes and no food is consumed.
pub proof fn lemma_tick_collision(ents: Seq<EntityView>)
    requires
        tick_pre(ents),
        ents.len() >= 1,
        ents[0] is Snake,
        forall|j: int| 1 <= j < ents.len() ==> !(#[trigger] ents[j] is Snake),
        moves_now(ents[0]->ctrl),
        hits_obstacle(ents, translate_spec(ents[0]->body[0], ents[0]->heading)),
    ensures
        tick_spec(ents) == ents.update(0, EntityView::Wall { cells: ents[0]->body }),
        forall|d: Direction|
            #[trigger] crate::entity::turn_spec(tick_spec(ents)[0], d) == tick_spec(ents)[0],
{
    lemma_run_upto_lone(ents, no_marks(ents.len()), ents.len() as int);
    let done = step_one(ents, no_marks(ents.len()), 0);
    assert(done.0 == ents.update(0, EntityView::Wall { cells: ents[0]->body }));
    assert(done.1 == no_marks(ents.len()));
    lemma_drop_prefix(done.0, done.1, done.0.len() as int);
    assert(done.0.take(done.0.len() as int) =~= done.0);
    assert(drop_marked(done.0, done.1, done.0.len() as int) == Seq::<EntityView>::empty());
    assert(done.0 + Seq::<EntityView>::empty() =~= done.0);
}

/// Eating tick: when the lone snake at index zero moves freely onto a
/// cell where food sits, its target length grows by `growth_amount` for
/// each food on that cell, and no food on that cell survives the tick.
pub proof fn lemma_tick_eats(ents: Seq<EntityView>, j: int)
    requires
        tick_pre(ents),
        ents.len() >= 1,
        ents[0] is Snake,
        forall|jj: int| 1 <= jj < ents.len() ==> !(#[trigger] ents[jj] is Snake),
        moves_now(ents[0]->ctrl),
        !hits_obstacle(ents, translate_spec(ents[0]->body[0], ents[0]->heading)),
        0 <= j < ents.len(),
        is_food_at(ents[j], translate_spec(ents[0]->body[0], ents[0]->heading)),
    ensures
        tick_spec(ents).len() >= 1,
        tick_spec(ents)[0] is Snake,
        tick_spec(ents)[0]->ctrl.target_length == ents[0]->ctrl.target_length + food_hits(
            ents,
            translate_spec(ents[0]->body[0], ents[0]->heading),
            ents.len() as int,
        ) * ents[0]->ctrl.growth_amount,
        food_hits(ents, translate_spec(ents[0]->body[0], ents[0]->heading), ents.len() as int)
            >= 1,
        forall|t: int|
            0 <= t < tick_spec(ents).len() ==> !is_food_at(
                #[trigger] tick_spec(ents)[t],
                translate_spec(ents[0]->body[0], ents[0]->heading),
            ),
{
    let next = translate_spec(ents[0]->body[0], ents[0]->heading);
    let n = ents.len() as int;
    lemma_run_upto_lone(ents, no_marks(ents.len()), n);
    let done = step_one(ents, no_marks(ents.len()), 0);
    lemma_food_hits_pos(ents, next, j, n);
    lemma_food_hits_bounds(ents, next, n);
    let hits = food_hits(ents, next, n);
    let grow = ents[0]->ctrl.growth_amount;
    let t2 = ents[0]->ctrl.target_length + hits * grow;
    assert(hits * grow >= 0) by (nonlinear_arith)
        requires
            hits >= 0,
            grow >= 0,
    ;
    assert(snake_step_pre(ents, 0));
    assert(0 <= t2 <= usize::MAX);
    assert(done.0[0] is Snake && done.0[0]->ctrl.target_length == t2);
    assert(done.1 == mark_foods(ents, no_marks(ents.len()), next));
    assert(!done.1[0]);
    lemma_drop_prefix(done.0, done.1, 1);
    assert(tick_spec(ents) == done.0.take(1) + drop_marked(done.0, done.1, 1));
    assert(tick_spec(ents)[0] == done.0[0]);
    let pred = |ev: EntityView| !is_food_at(ev, next);
    assert forall|jj: int|
        0 <= jj < done.0.len() && !(0 <= jj < done.1.len() && done.1[jj]) implies pred(
        #[trigger] done.0[jj],
    ) by {
        if jj == 0 {
            assert(done.0[0] is Snake);
        } else {
            assert(done.0[jj] == ents[jj]);
            if is_food_at(ents[jj], next) {
                assert(done.1[jj]);
            }
        }
    }
    lemma_drop_marked_all(done.0, done.1, 0, pred);
    assert forall|t: int| 0 <= t < tick_spec(ents).len() implies !is_food_at(
        #[trigger] tick_spec(ents)[t],
        next,
    ) by {
        assert(tick_spec(ents)[t] == drop_marked(done.0, done.1, 0)[t]);
        assert(pred(drop_marked(done.0, done.1, 0)[t]));
    }
}

/// Plain-move tick: when the lone snake at index zero moves freely onto
/// a cell holding no food, it advances exactly one cell — the translated
/// cell becomes the head, the tail is dropped iff the body had already
/// reached its target length (so the net length is then unchanged), the
/// target itself does not change, and every other entity stays put.
pub proof fn lemma_tick_plain_move(ents: Seq<EntityView>)
    requires
        tick_pre(ents),
        ents.len() >= 1,
        ents[0] is Snake,
        forall|j: int| 1 <= j < ents.len() ==> !(#[trigger] ents[j] is Snake),
        moves_now(ents[0]->ctrl),
        !hits_obstacle(ents, translate_spec(ents[0]->body[0], ents[0]->heading)),
        food_hits(ents, translate_spec(ents[0]->body[0], ents[0]->heading), ents.len() as int)
            == 0,
    ensures
        tick_spec(ents).len() == ents.len(),
        tick_spec(ents)[0] == (EntityView::Snake {
            body: advanced_body(
                ents[0]->body,
                ents[0]->ctrl.target_length as int,
                translate_spec(ents[0]->body[0], ents[0]->heading),
            ),
            heading: ents[0]->heading,
            ctrl: Controller {
                target_length: ents[0]->ctrl.target_length,
                move_counter: 0,
                growth_amount: ents[0]->ctrl.growth_amount,
                speed: ents[0]->ctrl.speed,
            },
        }),
        forall|j: int| 1 <= j < ents.len() ==> #[trigger] tick_spec(ents)[j] == ents[j],
{
    let next = translate_spec(ents[0]->body[0], ents[0]->heading);
    let n = ents.len() as int;
    lemma_run_upto_lone(ents, no_marks(ents.len()), n);
    let done = step_one(ents, no_marks(ents.len()), 0);
    assert forall|j: int| 0 <= j < n implies !(#[trigger] done.1[j]) by {
        if is_food_at(ents[j], next) {
            lemma_food_hits_pos(ents, next, j, n);
        }
    }
    lemma_drop_prefix(done.0, done.1, n);
    assert(done.0.take(n) =~= done.0);
    assert(drop_marked(done.0, done.1, n) == Seq::<EntityView>::empty());
    assert(done.0 + Seq::<EntityView>::empty() =~= done.0);
    assert(tick_spec(ents) == done.0);
    assert(snake_step_pre(ents, 0));
    assert(done.0[0] == (EntityView::Snake {
        body: advanced_body(ents[0]->body, ents[0]->ctrl.target_length as int, next),
        heading: ents[0]->heading,
        ctrl: Controller {
            target_length: ents[0]->ctrl.target_length,
            move_counter: 0,
            growth_amount: ents[0]->ctrl.growth_amount,
            speed: ents[0]->ctrl.speed,
        },
    }));
}

/// A whole tick seen through the session's structure: a food-free prefix
/// survives in place (each entity within `frame_entity`), and everything
/// at or beyond the prefix in the result is food.
pub proof fn lemma_tick_frame(ents: Seq<EntityView>, p: int)
    requires
        tick_pre(ents),
        0 <= p <= ents.len(),
        forall|j: int| 0 <= j < p ==> !(#[trigger] ents[j] is Food),
        forall|j: int| p <= j < ents.len() ==> #[trigger] ents[j] is Food,
    ensures
        p <= tick_spec(ents).len(),
        forall|j: int| 0 <= j < p ==> frame_entity(ents[j], #[trigger] tick_spec(ents)[j]),
        forall|t: int| p <= t < tick_spec(ents).len() ==> #[trigger] tick_spec(ents)[t] is Food,
{
    let n = ents.len() as int;
    lemma_run_upto_frame(ents, no_marks(ents.len()), n);
    let done = run_upto(ents, no_marks(ents.len()), n);
    assert forall|j: int| 0 <= j < p implies !(#[trigger] done.1[j]) by {
        if done.1[j] {
            assert(no_marks(ents.len())[j] || ents[j] is Food);
        }
    }
    lemma_drop_prefix(done.0, done.1, p);
    assert(tick_spec(ents) == done.0.take(p) + drop_marked(done.0, done.1, p));
    assert forall|j: int| 0 <= j < p implies frame_entity(ents[j], #[trigger] tick_spec(ents)[j]) by {
        assert(tick_spec(ents)[j] == done.0[j]);
        assert(frame_entity(ents[j], done.0[j]));
    }
    let pred = |ev: EntityView| ev is Food;
    assert forall|jj: int|
        p <= jj < done.0.len() && !(0 <= jj < done.1.len() && done.1[jj]) implies pred(
        #[trigger] done.0[jj],
    ) by {
        assert(frame_entity(ents[jj], done.0[jj]));
        assert(ents[jj] is Food);
    }
    lemma_drop_marked_all(done.0, done.1, p, pred);
    assert forall|t: int| p <= t < tick_spec(ents).len() implies #[trigger] tick_spec(
        ents,
    )[t] is Food by {
        assert(tick_spec(ents)[t] == drop_marked(done.0, done.1, p)[t - p]);
        assert(pred(drop_marked(done.0, done.1, p)[t - p]));
    }
}

impl Entity {
    /// One simulation tick over the whole entity list. The result is
    /// exactly `tick_spec` of the input's view: every snake takes its
    /// turn in list order, then consumed food is removed.
    pub fn step(entities: Vec<Entity>) -> (r: Vec<Entity>)
        requires
            tick_pre(view_of(entities@)),
        ensures
            view_of(r@) == tick_spec(view_of(entities@)),
    {
        let mut entities = entities;
        Entity::step_in_place(&mut entities);
        entities
    }

    /// The tick engine proper, working in place on the entity list.
    pub fn step_in_place(entities: &mut Vec<Entity>)
        requires
            tick_pre(view_of(old(entities)@)),
        ensures
            view_of(final(entities)@) == tick_spec(view_of(old(entities)@)),
    {
        let ghost orig: Seq<EntityView> = view_of(entities@);
        let n = entities.len();
        let mut marks: Vec<bool> = Vec::new();
        while marks.len() < n
            invariant
                marks@.len() <= n,
                forall|j: int| 0 <= j < marks@.len() ==> !(#[trigger] marks@[j]),
            decreases n - marks@.len(),
        {
            marks.push(false);
        }
        proof {
            assert(marks@ =~= no_marks(orig.len()));
        }
        let mut i: usize = 0;
        while i < n
            invariant
                n == entities@.len(),
                n == orig.len(),
                marks@.len() == n,
                0 <= i <= n,
                tick_pre(orig),
                (view_of(entities@), marks@) == run_upto(orig, no_marks(orig.len()), i as int),
                forall|j: int| i <= j < n ==> #[trigger] view_of(entities@)[j] == orig[j],
                forall|j: int|
                    0 <= j < n && orig[j] is Food ==> #[trigger] view_of(entities@)[j] == orig[j],
                forall|j: int|
                    0 <= j < n ==> ((#[trigger] view_of(entities@)[j] is Food) <==> (
                    orig[j] is Food)),
            decreases n - i,
        {
            let ghost pre = view_of(entities@);
            let ghost mpre = marks@;
            let ghost evec = entities@;

            let mut head = Position { x: 0, y: 0 };
            let mut dir = Direction::Right;
            let mut ctrl = Controller {
                target_length: 1,
                move_counter: 0,
                growth_amount: 0,
                speed: 1,
            };
            let mut snake_here = false;
            match &entities[i] {
                Entity::Snake(b, d, c) => {
                    proof {
                        assert(pre[i as int] == orig[i as int]);
                        assert(snake_step_pre(orig, i as int));
                        assert(snake_wf(b@, *c));
                    }
                    head = b[0];
                    dir = *d;
                    ctrl = *c;
                    snake_here = true;
                },
                _ => {},
            }
            if snake_here {
                let ghost body0 = pre[i as int]->body;
                let ghost heading0 = pre[i as int]->heading;
                let ghost ctrl0 = pre[i as int]->ctrl;
                proof {
                    assert(snake_step_pre(orig, i as int));
                    assert(snake_wf(body0, ctrl0));
                    assert(head == body0[0] && dir == heading0 && ctrl == ctrl0);
                    assert(can_translate(head, dir));
                }
                let mut c2 = ctrl;
                c2.move_counter = c2.move_counter + 1;
                if c2.move_counter == c2.speed {
                    c2.move_counter = 0;
                }
                let can_move = c2.move_counter % c2.speed == 0;
                proof {
                    assert(ctrl.move_counter < ctrl.speed);
                    if ctrl.move_counter + 1 == ctrl.speed {
                        assert(c2.move_counter == 0);
                        vstd::arithmetic::div_mod::lemma_small_mod(0, ctrl.speed as nat);
                        assert(c2.move_counter % c2.speed == 0);
                    } else {
                        assert(ctrl.move_counter + 1 < ctrl.speed);
                        assert(c2.move_counter == ctrl.move_counter + 1);
                        vstd::arithmetic::div_mod::lemma_small_mod(
                            (ctrl.move_counter + 1) as nat,
                            ctrl.speed as nat,
                        );
                        assert(c2.move_counter % c2.speed == c2.move_counter);
                        assert(c2.move_counter != 0);
                    }
                    assert(can_move == moves_now(ctrl0));
                    assert(c2 == bumped(ctrl0));
                }
                let next = translate(head, dir);
                if can_move {
                    let hit = scan_obstacles(&entities, next);
                    if hit {
                        let old_e = entities.remove(i);
                        let converted = old_e.kill();
                        entities.insert(i, converted);
                        proof {
                            assert(entities@ =~= evec.update(i as int, converted));
                            assert(converted@ == (EntityView::Wall { cells: body0 }));
                            assert(view_of(entities@) =~= pre.update(
                                i as int,
                                EntityView::Wall { cells: body0 },
                            ));
                        }
                    } else {
                        proof {
                            assert forall|j: int| 0 <= j < n implies is_food_at(
                                #[trigger] pre[j],
                                next,
                            ) == is_food_at(orig[j], next) by {
                                if orig[j] is Food {
                                    assert(view_of(entities@)[j] == orig[j]);
                                } else {
                                    assert(!(view_of(entities@)[j] is Food));
                                }
                            }
                            lemma_food_hits_congruent(pre, orig, next, n as int);
                        }
                        let t2 = eat_foods(
                            &entities,
                            &mut marks,
                            next,
                            ctrl.target_length,
                            ctrl.growth_amount,
                        );
                        let ghost tgt = ctrl0.target_length + food_hits(pre, next, n as int)
                            * ctrl0.growth_amount;
                        proof {
                            lemma_food_hits_bounds(pre, next, n as int);
                            assert(tgt >= ctrl0.target_length) by (nonlinear_arith)
                                requires
                                    tgt == ctrl0.target_length + food_hits(pre, next, n as int)
                                        * ctrl0.growth_amount,
                                    food_hits(pre, next, n as int) >= 0,
                                    ctrl0.growth_amount >= 0,
                            ;
                            assert(t2 as int == tgt);
                        }
                        let old_e = entities.remove(i);
                        match old_e {
                            Entity::Snake(mut b2, d2, _) => {
                                proof {
                                    assert(b2@ == body0 && d2 == heading0);
                                }
                                if b2.len() == t2 {
                                    b2.pop();
                                }
                                b2.insert(0, next);
                                proof {
                                    assert(b2@ =~= advanced_body(body0, t2 as int, next));
                                }
                                entities.insert(
                                    i,
                                    Entity::Snake(
                                        b2,
                                        d2,
                                        Controller {
                                            target_length: t2,
                                            move_counter: 0,
                                            growth_amount: ctrl.growth_amount,
                                            speed: ctrl.speed,
                                        },
                                    ),
                                );
                            },
                            other => {
                                entities.insert(i, other);
                            },
                        }
                        proof {
                            assert(view_of(entities@) =~= pre.update(
                                i as int,
                                EntityView::Snake {
                                    body: advanced_body(body0, tgt, next),
                                    heading: heading0,
                                    ctrl: Controller {
                                        target_length: tgt as usize,
                                        move_counter: 0,
                                        growth_amount: ctrl0.growth_amount,
                                        speed: ctrl0.speed,
                                    },
                                },
                            ));
                        }
                    }
                } else {
                    let old_e = entities.remove(i);
                    match old_e {
                        Entity::Snake(b2, d2, _) => {
                            entities.insert(i, Entity::Snake(b2, d2, c2));
                        },
                        other => {
                            entities.insert(i, other);
                        },
                    }
                    proof {
                        assert(view_of(entities@) =~= pre.update(
                            i as int,
                            EntityView::Snake { body: body0, heading: heading0, ctrl: bumped(ctrl0) },
                        ));
                    }
                }
            }
            proof {
                assert((view_of(entities@), marks@) == step_one(pre, mpre, i as int));
                assert((view_of(entities@), marks@) == run_upto(
                    orig,
                    no_marks(orig.len()),
                    i as int + 1,
                ));
                assert forall|j: int| i as int + 1 <= j < n implies #[trigger] view_of(entities@)[j]
                    == orig[j] by {
                    assert(pre[j] == orig[j]);
                }
                assert forall|j: int| 0 <= j < n && orig[j] is Food implies #[trigger] view_of(
                    entities@,
                )[j] == orig[j] by {
                    assert(pre[j] == orig[j]);
                }
                assert forall|j: int| 0 <= j < n implies ((#[trigger] view_of(entities@)[j] is Food)
                    <==> (orig[j] is Food)) by {
                    if j != i as int {
                        assert(view_of(entities@)[j] == pre[j]);
                    }
                }
            }
            i += 1;
        }
        let ghost processed = view_of(entities@);
        let ghost pmarks = marks@;
        proof {
            assert((processed, pmarks) == run_upto(orig, no_marks(orig.len()), n as int));
            assert(view_of(entities@) =~= processed.take(n as int) + drop_marked(
                processed,
                pmarks,
                n as int,
            ));
        }
        let mut k: usize = n;
        while k > 0
            invariant
                0 <= k <= n,
                n == processed.len(),
                n == pmarks.len(),
                marks@ == pmarks,
                view_of(entities@) =~= processed.take(k as int) + drop_marked(
                    processed,
                    pmarks,
                    k as int,
                ),
            decreases k,
        {
            k = k - 1;
            proof {
                assert(view_of(entities@) == processed.take(k as int + 1) + drop_marked(
                    processed,
                    pmarks,
                    k as int + 1,
                ));
                assert(processed.take(k as int + 1).len() == k + 1);
                assert(view_of(entities@).len() == entities@.len());
                assert(entities@.len() >= k + 1);
            }
            if marks[k] {
                let ghost before = entities@;
                entities.remove(k);
                proof {
                    assert(view_of(entities@) =~= view_of(before).remove(k as int));
                }
            }
            proof {
                assert(view_of(entities@) =~= processed.take(k as int) + drop_marked(
                    processed,
                    pmarks,
                    k as int,
                ));
            }
        }
        proof {
            assert(view_of(entities@) =~= drop_marked(processed, pmarks, 0));
            assert(view_of(entities@) == tick_spec(orig));
        }
    }
}

} // verus!
