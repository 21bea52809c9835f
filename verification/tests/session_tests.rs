use snake_core::entity::Controller;
use snake_core::entity::Entity;
use snake_core::geom::Direction;
use snake_core::geom::Position;
use snake_core::session::App;
use snake_core::session::GameType;

fn walled_food() -> GameType {
    GameType::WalledFood {
        growth: 5,
        speed: 2,
        x1: 0,
        y1: 0,
        x2: 191,
        y2: 107,
        food_target: 5,
    }
}

fn food_cells(app: &App) -> Vec<Position> {
    app.entities
        .iter()
        .filter_map(|e| match e {
            Entity::Food(p) => Some(*p),
            _ => None,
        })
        .collect()
}

#[test]
fn open_game_holds_only_the_snake() {
    let app = App::new_game(GameType::Open { growth: 5, speed: 5 });
    assert_eq!(app.entities.len(), 1);
    assert_eq!(app.player, 0);
    match &app.entities[0] {
        Entity::Snake(body, heading, ctrl) => {
            assert_eq!(body, &vec![Position::new(0, 0)]);
            assert_eq!(*heading, Direction::Right);
            assert_eq!(ctrl.target_length, 5);
            assert_eq!(ctrl.growth_amount, 5);
            assert_eq!(ctrl.speed, 5);
        },
        _ => panic!("expected the player snake at its slot"),
    }
}

#[test]
fn walled_game_builds_both_boundary_paths() {
    let app = App::new_game(GameType::Walled { growth: 5, speed: 5, x1: 0, y1: 0, x2: 191, y2: 107 });
    assert_eq!(app.entities.len(), 3);
    match &app.entities[1] {
        Entity::Wall(cells) => {
            assert_eq!(cells.len(), 191 + 107);
            assert_eq!(cells[0], Position::new(0, 0));
        },
        _ => panic!("expected a boundary wall"),
    }
    match &app.entities[2] {
        Entity::Wall(cells) => {
            assert_eq!(cells.len(), 191 + 107);
            assert_eq!(cells[0], Position::new(191, 107));
        },
        _ => panic!("expected a boundary wall"),
    }
}

#[test]
fn spawned_food_reaches_target_and_collides_with_nothing() {
    let app = App::new_game(walled_food());
    assert!(app.food_satisfied());
    assert_eq!(app.entities.len(), 3 + 5);
    let foods = food_cells(&app);
    assert_eq!(foods.len(), 5);
    for (i, p) in foods.iter().enumerate() {
        // Strictly inside the boundary corners.
        assert!(0 < p.x && p.x < 191, "food outside the interior");
        assert!(0 < p.y && p.y < 107, "food outside the interior");
        // Collides with neither the snake nor any wall.
        assert!(!p.collide(&app.entities[0]));
        assert!(!p.collide(&app.entities[1]));
        assert!(!p.collide(&app.entities[2]));
        // Nor with any other food.
        for (j, q) in foods.iter().enumerate() {
            if i != j {
                assert_ne!(p, q, "two foods share a cell");
            }
        }
    }
}

#[test]
fn update_moves_the_snake_every_second_tick() {
    let mut app = App::new_game(walled_food());
    assert!(app.can_tick());
    app.update();
    // Speed 2: the first tick only bumps the counter.
    assert!(matches!(&app.entities[0], Entity::Snake(body, _, _) if body[0] == Position::new(95, 53)));
    assert!(app.can_tick());
    app.update();
    assert!(matches!(&app.entities[0], Entity::Snake(body, _, _) if body[0] == Position::new(96, 53)));
}

#[test]
fn turn_player_routes_to_the_player_slot() {
    let mut app = App::new_game(walled_food());
    app.turn_player(Direction::Up);
    assert!(matches!(&app.entities[0], Entity::Snake(_, Direction::Up, _)));
    // The exact reverse of the new heading is refused.
    app.turn_player(Direction::Down);
    assert!(matches!(&app.entities[0], Entity::Snake(_, Direction::Up, _)));
}

#[test]
fn eaten_food_is_respawned_by_update() {
    // A hand-built session with one food planted right in front of the
    // snake, so the second tick (speed 2) must eat it.
    let mut app = App {
        gametype: walled_food(),
        entities: vec![
            Entity::custom_snake(
                Position::new(95, 53),
                Direction::Right,
                Controller { target_length: 5, move_counter: 0, growth_amount: 5, speed: 2 },
            ),
            Entity::new_wall(Position::new(0, 0), Position::new(191, 107)),
            Entity::new_wall(Position::new(191, 107), Position::new(0, 0)),
            Entity::Food(Position::new(96, 53)),
        ],
        player: 0,
    };
    assert!(app.can_tick());
    app.update();
    assert!(app.can_tick());
    let replenished = app.update();
    assert!(replenished);
    match &app.entities[0] {
        Entity::Snake(body, _, ctrl) => {
            assert_eq!(body[0], Position::new(96, 53));
            // target_length grew by exactly growth_amount.
            assert_eq!(ctrl.target_length, 5 + 5);
        },
        _ => panic!("expected the player snake"),
    }
    // The eaten food is gone, and the spawner restored the target count.
    assert!(app.food_satisfied());
    assert_eq!(food_cells(&app).len(), 5);
    assert!(!food_cells(&app).contains(&Position::new(96, 53)));
}

#[test]
fn collision_freezes_the_player_slot() {
    // March the snake into the right boundary wall at x = 191. At speed
    // 2 each second tick moves the head one cell right from x = 95, so
    // after 2 * 95 ticks the head stands at x = 190, still alive.
    let mut app = App::new_game(walled_food());
    for _ in 0..(2 * 95) {
        assert!(app.can_tick());
        app.update();
    }
    assert!(matches!(&app.entities[0], Entity::Snake(body, _, _) if body[0] == Position::new(190, 53)));
    // The next eligible move would enter (191, 53), a boundary cell.
    for _ in 0..2 {
        assert!(app.can_tick());
        app.update();
    }
    match &app.entities[0] {
        Entity::Wall(cells) => {
            // The frozen body's head sits just inside the boundary.
            assert_eq!(cells[0], Position::new(190, 53));
        },
        _ => panic!("expected the collided snake to have become a wall"),
    }
    // The frozen slot ignores turn requests.
    app.turn_player(Direction::Up);
    assert!(matches!(&app.entities[0], Entity::Wall(_)));
}

#[test]
fn reset_restores_snake_and_food() {
    let mut app = App::new_game(walled_food());
    // Disturb the session: turn, move a few times, eat nothing special.
    app.turn_player(Direction::Down);
    for _ in 0..6 {
        assert!(app.can_tick());
        app.update();
    }
    let restored = app.reset();
    assert!(restored);
    assert_eq!(app.player, 0);
    match &app.entities[0] {
        Entity::Snake(body, heading, ctrl) => {
            assert_eq!(body, &vec![Position::new(95, 53)]);
            assert_eq!(*heading, Direction::Right);
            assert_eq!(ctrl.target_length, 5);
            assert_eq!(ctrl.move_counter, 0);
            assert_eq!(ctrl.growth_amount, 5);
            assert_eq!(ctrl.speed, 2);
        },
        _ => panic!("expected the player snake restored"),
    }
    // Walls intact, food back up to the target.
    assert!(matches!(&app.entities[1], Entity::Wall(_)));
    assert!(matches!(&app.entities[2], Entity::Wall(_)));
    assert_eq!(food_cells(&app).len(), 5);
    assert_eq!(app.entities.len(), 8);
}

#[test]
fn reset_replaces_a_collided_player() {
    let mut app = App::new_game(walled_food());
    // March the snake into the right boundary wall.
    for _ in 0..(2 * (191 - 95) + 2) {
        assert!(app.can_tick());
        app.update();
    }
    assert!(matches!(&app.entities[0], Entity::Wall(_)));
    let restored = app.reset();
    assert!(restored);
    assert!(matches!(&app.entities[0], Entity::Snake(_, _, _)));
    assert_eq!(app.entities.len(), 8);
}

#[test]
fn spawner_reports_an_overfull_arena() {
    // An arena whose interior is the single cell (1, 1): asking for five
    // foods is a configuration error the spawner reports instead of
    // hanging.
    let mut app = App::new_game(GameType::WalledFood {
        growth: 1,
        speed: 1,
        x1: 0,
        y1: 0,
        x2: 2,
        y2: 2,
        food_target: 5,
    });
    assert!(!app.food_satisfied());
    assert!(!app.spawn_food());
    // The one interior cell did get its food.
    assert_eq!(food_cells(&app).len(), 1);
    assert_eq!(food_cells(&app)[0], Position::new(1, 1));
}

#[test]
fn can_tick_reports_the_grid_edge() {
    // A snake whose head sits at the coordinate range's edge cannot take
    // its step; `can_tick` reports that, and turning away mends it.
    let mut app = App {
        gametype: GameType::Open { growth: 1, speed: 1 },
        entities: vec![Entity::custom_snake(
            Position::new(i64::MAX, 0),
            Direction::Right,
            Controller { target_length: 5, move_counter: 0, growth_amount: 1, speed: 1 },
        )],
        player: 0,
    };
    assert!(!app.can_tick());
    app.turn_player(Direction::Up);
    assert!(app.can_tick());
    app.update();
    assert!(matches!(&app.entities[0], Entity::Snake(body, _, _) if body[0] == Position::new(i64::MAX, -1)));
}

#[test]
fn can_tick_reports_target_length_overflow() {
    // Eating the food ahead would push target_length past the machine
    // word; `can_tick` refuses the tick instead of overflowing.
    let app = App {
        gametype: GameType::Open { growth: 1, speed: 1 },
        entities: vec![
            Entity::custom_snake(
                Position::new(0, 0),
                Direction::Right,
                Controller {
                    target_length: usize::MAX,
                    move_counter: 0,
                    growth_amount: usize::MAX,
                    speed: 1,
                },
            ),
            Entity::Food(Position::new(1, 0)),
        ],
        player: 0,
    };
    assert!(!app.can_tick());
}

#[test]
fn reset_open_restores_the_origin_snake() {
    let mut app = App::new_game(GameType::Open { growth: 2, speed: 1 });
    assert!(app.can_tick());
    app.update();
    assert!(matches!(&app.entities[0], Entity::Snake(body, _, _) if body[0] == Position::new(1, 0)));
    let restored = app.reset();
    assert!(restored);
    assert_eq!(app.entities.len(), 1);
    assert!(matches!(&app.entities[0], Entity::Snake(body, Direction::Right, _) if body == &vec![Position::new(0, 0)]));
}

#[test]
fn clutter_lays_out_like_walled_food() {
    let app = App::new_game(GameType::Clutter {
        growth: 5,
        speed: 2,
        x1: 0,
        y1: 0,
        x2: 191,
        y2: 107,
        food_target: 4,
    });
    assert!(app.food_satisfied());
    assert_eq!(app.entities.len(), 3 + 4);
}
