use snake_core::entity::Controller;
use snake_core::entity::Entity;
use snake_core::geom::Direction;
use snake_core::geom::Position;

fn controller(target_length: usize, growth_amount: usize, speed: u32) -> Controller {
    Controller { target_length, move_counter: 0, growth_amount, speed }
}

#[test]
fn collide_scans_every_snake_segment() {
    let snake = Entity::Snake(
        vec![Position::new(5, 5), Position::new(4, 5), Position::new(3, 5)],
        Direction::Right,
        controller(5, 5, 5),
    );
    assert!(Position::new(5, 5).collide(&snake));
    assert!(Position::new(3, 5).collide(&snake));
    assert!(!Position::new(6, 5).collide(&snake));
}

#[test]
fn collide_on_wall_and_food() {
    let wall = Entity::Wall(vec![Position::new(0, 0), Position::new(1, 0)]);
    assert!(Position::new(1, 0).collide(&wall));
    assert!(!Position::new(2, 0).collide(&wall));
    let food = Entity::Food(Position::new(7, 7));
    assert!(Position::new(7, 7).collide(&food));
    assert!(!Position::new(7, 8).collide(&food));
}

#[test]
fn reverse_turn_is_refused() {
    let mut snake = Entity::Snake(
        vec![Position::new(5, 5), Position::new(4, 5)],
        Direction::Right,
        controller(5, 5, 5),
    );
    snake.turn(Direction::Left);
    assert!(matches!(&snake, Entity::Snake(_, Direction::Right, _)));
}

#[test]
fn turn_onto_second_segment_is_refused() {
    // Heading up, but the second segment still lies to the left of the
    // head: a left turn would re-enter it and is refused.
    let mut snake = Entity::Snake(
        vec![Position::new(5, 5), Position::new(4, 5)],
        Direction::Up,
        controller(5, 5, 5),
    );
    snake.turn(Direction::Left);
    assert!(matches!(&snake, Entity::Snake(_, Direction::Up, _)));
}

#[test]
fn sideways_turn_is_accepted() {
    let mut snake = Entity::Snake(
        vec![Position::new(5, 5), Position::new(4, 5)],
        Direction::Right,
        controller(5, 5, 5),
    );
    snake.turn(Direction::Up);
    assert!(matches!(&snake, Entity::Snake(_, Direction::Up, _)));
}

#[test]
fn single_segment_snake_refuses_only_the_reverse() {
    let mut snake = Entity::new_snake(Position::new(5, 5), Direction::Right);
    snake.turn(Direction::Left);
    assert!(matches!(&snake, Entity::Snake(_, Direction::Right, _)));
    snake.turn(Direction::Down);
    assert!(matches!(&snake, Entity::Snake(_, Direction::Down, _)));
}

#[test]
fn walls_and_food_ignore_turn() {
    let mut wall = Entity::Wall(vec![Position::new(0, 0)]);
    wall.turn(Direction::Up);
    assert!(matches!(&wall, Entity::Wall(cells) if cells == &vec![Position::new(0, 0)]));
    let mut food = Entity::Food(Position::new(2, 3));
    food.turn(Direction::Up);
    assert!(matches!(&food, Entity::Food(p) if *p == Position::new(2, 3)));
}

#[test]
fn kill_freezes_the_body_exactly() {
    let body = vec![Position::new(5, 5), Position::new(4, 5), Position::new(4, 4)];
    let snake = Entity::Snake(body.clone(), Direction::Right, controller(5, 5, 5));
    let converted = snake.kill();
    assert!(matches!(&converted, Entity::Wall(cells) if cells == &body));
}

#[test]
fn kill_leaves_a_wall_unchanged() {
    let wall = Entity::Wall(vec![Position::new(9, 9)]);
    let killed = wall.kill();
    assert!(matches!(&killed, Entity::Wall(cells) if cells == &vec![Position::new(9, 9)]));
}

#[test]
fn kill_degrades_food_to_an_origin_wall() {
    let food = Entity::Food(Position::new(3, 3));
    let killed = food.kill();
    assert!(matches!(&killed, Entity::Wall(cells) if cells == &vec![Position::new(0, 0)]));
}

#[test]
fn new_snake_starts_with_default_controller() {
    let snake = Entity::new_snake(Position::new(1, 2), Direction::Down);
    match &snake {
        Entity::Snake(body, heading, ctrl) => {
            assert_eq!(body, &vec![Position::new(1, 2)]);
            assert_eq!(*heading, Direction::Down);
            assert_eq!(*ctrl, Controller {
                target_length: 5,
                move_counter: 0,
                growth_amount: 5,
                speed: 5,
            });
        },
        _ => panic!("expected a snake"),
    }
}

#[test]
fn cells_vec_returns_the_footprint() {
    let wall = Entity::Wall(vec![Position::new(0, 0), Position::new(0, 1)]);
    assert_eq!(wall.cells_vec(), vec![Position::new(0, 0), Position::new(0, 1)]);
    let food = Entity::Food(Position::new(4, 4));
    assert_eq!(food.cells_vec(), vec![Position::new(4, 4)]);
}
