use snake_core::entity::Controller;
use snake_core::entity::Entity;
use snake_core::geom::Direction;
use snake_core::geom::Position;

fn controller(target_length: usize, growth_amount: usize, speed: u32) -> Controller {
    Controller { target_length, move_counter: 0, growth_amount, speed }
}

fn snake_parts(e: &Entity) -> (&Vec<Position>, Direction, Controller) {
    match e {
        Entity::Snake(body, heading, ctrl) => (body, *heading, *ctrl),
        _ => panic!("expected a snake"),
    }
}

#[test]
fn plain_move_drops_tail_and_keeps_length() {
    // Head at (5,5), heading right, speed 1, target length already met:
    // one tick moves the head to (6,5), drops the old tail, and the net
    // length is unchanged.
    let entities = vec![Entity::Snake(
        vec![Position::new(5, 5), Position::new(4, 5)],
        Direction::Right,
        controller(2, 5, 1),
    )];
    let after = Entity::step(entities);
    assert_eq!(after.len(), 1);
    let (body, heading, ctrl) = snake_parts(&after[0]);
    assert_eq!(body, &vec![Position::new(6, 5), Position::new(5, 5)]);
    assert_eq!(heading, Direction::Right);
    assert_eq!(ctrl.target_length, 2);
    assert_eq!(ctrl.move_counter, 0);
}

#[test]
fn growing_snake_keeps_its_tail() {
    // Below the target length, the tick prepends the new head and keeps
    // the tail: net growth of one cell.
    let entities = vec![Entity::Snake(
        vec![Position::new(5, 5)],
        Direction::Right,
        controller(5, 5, 1),
    )];
    let after = Entity::step(entities);
    let (body, _, _) = snake_parts(&after[0]);
    assert_eq!(body, &vec![Position::new(6, 5), Position::new(5, 5)]);
}

#[test]
fn movement_is_gated_by_speed() {
    let entities = vec![Entity::Snake(
        vec![Position::new(5, 5)],
        Direction::Right,
        controller(5, 5, 2),
    )];
    // First tick: counter 0 -> 1, not yet eligible; nothing moves.
    let mid = Entity::step(entities);
    let (body, _, ctrl) = snake_parts(&mid[0]);
    assert_eq!(body, &vec![Position::new(5, 5)]);
    assert_eq!(ctrl.move_counter, 1);
    // Second tick: counter wraps to 0 and the snake moves.
    let after = Entity::step(mid);
    let (body, _, ctrl) = snake_parts(&after[0]);
    assert_eq!(body, &vec![Position::new(6, 5), Position::new(5, 5)]);
    assert_eq!(ctrl.move_counter, 0);
}

#[test]
fn eating_food_grows_target_and_removes_the_food() {
    let entities = vec![
        Entity::Snake(
            vec![Position::new(5, 5), Position::new(4, 5)],
            Direction::Right,
            controller(2, 3, 1),
        ),
        Entity::Food(Position::new(6, 5)),
    ];
    let after = Entity::step(entities);
    // The food entity is gone from the list.
    assert_eq!(after.len(), 1);
    let (body, _, ctrl) = snake_parts(&after[0]);
    // target_length grew by exactly growth_amount.
    assert_eq!(ctrl.target_length, 2 + 3);
    // Having grown its target, the snake keeps its tail this tick.
    assert_eq!(
        body,
        &vec![Position::new(6, 5), Position::new(5, 5), Position::new(4, 5)]
    );
}

#[test]
fn untouched_food_survives_the_tick() {
    let entities = vec![
        Entity::Snake(vec![Position::new(5, 5)], Direction::Right, controller(5, 3, 1)),
        Entity::Food(Position::new(9, 9)),
    ];
    let after = Entity::step(entities);
    assert_eq!(after.len(), 2);
    assert!(matches!(&after[1], Entity::Food(p) if *p == Position::new(9, 9)));
}

#[test]
fn hitting_a_wall_converts_the_snake_in_place() {
    let body = vec![Position::new(5, 5), Position::new(4, 5)];
    let entities = vec![
        Entity::Snake(body.clone(), Direction::Right, controller(2, 5, 1)),
        Entity::Wall(vec![Position::new(6, 5)]),
    ];
    let after = Entity::step(entities);
    assert_eq!(after.len(), 2);
    // The converted entity holds the pre-collision body exactly.
    assert!(matches!(&after[0], Entity::Wall(cells) if cells == &body));
    // The original wall is untouched.
    assert!(matches!(&after[1], Entity::Wall(cells) if cells == &vec![Position::new(6, 5)]));
    // The converted entity no longer responds to turn, and a further
    // tick leaves it exactly as it is.
    let mut after = after;
    after[0].turn(Direction::Up);
    assert!(matches!(&after[0], Entity::Wall(cells) if cells == &body));
    let again = Entity::step(after);
    assert!(matches!(&again[0], Entity::Wall(cells) if cells == &body));
}

#[test]
fn snake_collides_with_its_own_body() {
    // A hook-shaped snake whose head is about to re-enter its own tail
    // cell: heading left from (5,6) onto (4,6), which the body occupies.
    let body = vec![
        Position::new(5, 6),
        Position::new(6, 6),
        Position::new(6, 5),
        Position::new(5, 5),
        Position::new(4, 5),
        Position::new(4, 6),
    ];
    let entities = vec![Entity::Snake(body.clone(), Direction::Left, controller(6, 5, 1))];
    let after = Entity::step(entities);
    assert!(matches!(&after[0], Entity::Wall(cells) if cells == &body));
}

#[test]
fn killed_snake_does_not_eat() {
    // The next cell holds both a wall and a food: the snake dies and the
    // food survives untouched.
    let entities = vec![
        Entity::Snake(vec![Position::new(5, 5)], Direction::Right, controller(5, 3, 1)),
        Entity::Wall(vec![Position::new(6, 5)]),
        Entity::Food(Position::new(6, 5)),
    ];
    let after = Entity::step(entities);
    assert_eq!(after.len(), 3);
    assert!(matches!(&after[0], Entity::Wall(cells) if cells == &vec![Position::new(5, 5)]));
    assert!(matches!(&after[2], Entity::Food(p) if *p == Position::new(6, 5)));
}

#[test]
fn two_foods_on_one_cell_are_both_consumed() {
    let entities = vec![
        Entity::Snake(vec![Position::new(5, 5)], Direction::Right, controller(5, 3, 1)),
        Entity::Food(Position::new(6, 5)),
        Entity::Food(Position::new(6, 5)),
    ];
    let after = Entity::step(entities);
    assert_eq!(after.len(), 1);
    let (_, _, ctrl) = snake_parts(&after[0]);
    assert_eq!(ctrl.target_length, 5 + 3 + 3);
}

#[test]
fn ineligible_snake_neither_eats_nor_dies() {
    // Speed 2: on the first tick the snake does not move, so neither the
    // wall ahead nor the food ahead has any effect.
    let entities = vec![
        Entity::Snake(vec![Position::new(5, 5)], Direction::Right, controller(5, 3, 2)),
        Entity::Wall(vec![Position::new(6, 5)]),
        Entity::Food(Position::new(6, 5)),
    ];
    let after = Entity::step(entities);
    assert_eq!(after.len(), 3);
    let (body, _, ctrl) = snake_parts(&after[0]);
    assert_eq!(body, &vec![Position::new(5, 5)]);
    assert_eq!(ctrl.move_counter, 1);
    assert_eq!(ctrl.target_length, 5);
}
