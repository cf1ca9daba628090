use snake_game::color::Color;
use snake_game::draw::Surface;
use snake_game::snake::{
    contains_pos, emod, wrap_candidate, Direction, Game, InputState, Position, Snake, World,
};

fn no_keys() -> InputState {
    InputState::none()
}

fn only_left() -> InputState {
    InputState { up: false, down: false, left: true, right: false }
}

fn default_world() -> World {
    World {
        width: 40,
        height: 24,
        scale: 10,
        tick_delay: 6,
        food: Position { x: 12, y: 8 },
    }
}

#[test]
fn new_game_initial_state() {
    let g = Game::new();
    assert_eq!(g.world.width, 40);
    assert_eq!(g.world.height, 24);
    assert_eq!(g.world.scale, 10);
    assert_eq!(g.world.tick_delay, 6);
    assert_eq!(g.world.food, Position { x: 12, y: 8 });
    assert_eq!(g.snake.body.len(), 5);
    assert_eq!(
        g.snake.body,
        vec![
            Position { x: 5, y: 5 },
            Position { x: 4, y: 5 },
            Position { x: 3, y: 5 },
            Position { x: 2, y: 5 },
            Position { x: 1, y: 5 },
        ]
    );
    assert!(g.snake.alive);
    assert_eq!(g.snake.ticker, 0);
    assert_eq!(g.snake.score, 0);
    assert_eq!(g.get_score(), 0);
}

#[test]
fn snake_new_each_direction() {
    let s = Snake::new(Position { x: 5, y: 5 }, 3, Direction::Up);
    assert_eq!(
        s.body,
        vec![Position { x: 5, y: 5 }, Position { x: 5, y: 6 }, Position { x: 5, y: 7 }]
    );
    let s = Snake::new(Position { x: 5, y: 5 }, 3, Direction::Down);
    assert_eq!(
        s.body,
        vec![Position { x: 5, y: 5 }, Position { x: 5, y: 4 }, Position { x: 5, y: 3 }]
    );
    let s = Snake::new(Position { x: 5, y: 5 }, 3, Direction::Left);
    assert_eq!(
        s.body,
        vec![Position { x: 5, y: 5 }, Position { x: 6, y: 5 }, Position { x: 7, y: 5 }]
    );
}

// Movement is gated: ticks that are not a multiple of the tick delay leave
// the body unchanged; the sixth tick moves the head one cell.
#[test]
fn gated_ticks_then_move() {
    let mut g = Game::new();
    let before = g.snake.body.clone();
    for _ in 0..5 {
        g.step(&no_keys());
        assert_eq!(g.snake.body, before);
        assert_eq!(g.snake.body[0], Position { x: 5, y: 5 });
    }
    g.step(&no_keys());
    assert_eq!(g.snake.body[0], Position { x: 6, y: 5 });
    assert_eq!(g.snake.body.len(), 5);
}

// Holding only the key opposite to the heading is ignored.
#[test]
fn opposite_direction_rejected() {
    let mut g = Game::new();
    for _ in 0..6 {
        g.step(&only_left());
    }
    assert!(matches!(g.snake.direction, Direction::Right));
    assert_eq!(g.snake.body[0], Position { x: 6, y: 5 });
}

#[test]
fn handle_input_priority_and_guard() {
    let mut s = Snake::new(Position { x: 5, y: 5 }, 5, Direction::Right);
    s.handle_input(&only_left());
    assert!(matches!(s.direction, Direction::Right));
    s.handle_input(&InputState { up: true, down: false, left: false, right: false });
    assert!(matches!(s.direction, Direction::Up));
    // Right is checked last, so it wins over Up when both are held.
    s.handle_input(&InputState { up: true, down: false, left: false, right: true });
    assert!(matches!(s.direction, Direction::Right));
}

#[test]
fn turning_up_moves_up() {
    let mut g = Game::new();
    let up = InputState { up: true, down: false, left: false, right: false };
    for _ in 0..6 {
        g.step(&up);
    }
    assert!(matches!(g.snake.direction, Direction::Up));
    assert_eq!(g.snake.body[0], Position { x: 5, y: 6 });
    assert_eq!(g.snake.body[1], Position { x: 5, y: 5 });
}

#[test]
fn opposite_is_an_involution() {
    let dirs = [Direction::Up, Direction::Right, Direction::Down, Direction::Left];
    for d in dirs {
        assert_eq!(d.opposite().opposite(), d);
    }
    assert_eq!(Direction::Up.opposite(), Direction::Down);
    assert_eq!(Direction::Right.opposite(), Direction::Left);
}

// Euclidean modulo wrap at every edge of the grid.
#[test]
fn wraparound_each_edge() {
    let mut w = default_world();
    w.food = Position { x: 20, y: 20 };

    let mut g = Game { world: w.clone(), snake: Snake::new(Position { x: 39, y: 5 }, 5, Direction::Right) };
    for _ in 0..6 {
        g.step(&no_keys());
    }
    assert_eq!(g.snake.body[0], Position { x: 0, y: 5 });

    let mut g = Game { world: w.clone(), snake: Snake::new(Position { x: 0, y: 5 }, 5, Direction::Left) };
    for _ in 0..6 {
        g.step(&no_keys());
    }
    assert_eq!(g.snake.body[0], Position { x: 39, y: 5 });

    let up_body = vec![
        Position { x: 5, y: 23 },
        Position { x: 5, y: 22 },
        Position { x: 5, y: 21 },
    ];
    let snake = Snake { body: up_body, alive: true, direction: Direction::Up, ticker: 0, score: 0 };
    let mut g = Game { world: w.clone(), snake };
    for _ in 0..6 {
        g.step(&no_keys());
    }
    assert_eq!(g.snake.body[0], Position { x: 5, y: 0 });

    let down_body = vec![
        Position { x: 5, y: 0 },
        Position { x: 5, y: 1 },
        Position { x: 5, y: 2 },
    ];
    let snake = Snake { body: down_body, alive: true, direction: Direction::Down, ticker: 0, score: 0 };
    let mut g = Game { world: w, snake };
    for _ in 0..6 {
        g.step(&no_keys());
    }
    assert_eq!(g.snake.body[0], Position { x: 5, y: 23 });
}

#[test]
fn emod_exact_values() {
    assert_eq!(emod(0, 40), 0);
    assert_eq!(emod(39, 40), 39);
    assert_eq!(emod(40, 40), 0);
    assert_eq!(emod(-1, 40), 39);
    assert_eq!(emod(-40, 40), 0);
    assert_eq!(emod(-41, 40), 39);
    assert_eq!(emod(7, 3), 1);
}

#[test]
fn wrap_candidate_exact_values() {
    assert_eq!(wrap_candidate(7, 5), 2);
    assert_eq!(wrap_candidate(-7, 5), 2);
    assert_eq!(wrap_candidate(-10, 5), 0);
    assert_eq!(wrap_candidate(0, 5), 0);
    // |i32::MIN| = 2147483648, and 2147483648 mod 40 = 8
    assert_eq!(wrap_candidate(i32::MIN, 40), 8);
}

// Eating the food grows the body by exactly three, scores one, and the new
// food lands on a free cell.
#[test]
fn eat_food_grows_and_respawns_food() {
    let snake = Snake::new(Position { x: 11, y: 8 }, 5, Direction::Right);
    let mut g = Game { world: default_world(), snake };
    for _ in 0..6 {
        g.step(&no_keys());
    }
    assert_eq!(g.snake.body[0], Position { x: 12, y: 8 });
    assert_eq!(g.get_score(), 1);
    assert_eq!(g.snake.body.len(), 8);
    // the three new segments sit on the old tail cell
    assert_eq!(g.snake.body[5], g.snake.body[7]);
    // the new food is on the grid and off the body
    assert!(g.world.food.x >= 0 && g.world.food.x < 40);
    assert!(g.world.food.y >= 0 && g.world.food.y < 24);
    assert!(!contains_pos(&g.snake.body, &g.world.food));
    assert!(g.snake.alive);
}

// A body whose head cell is shared with a non-head segment dies on the next
// movement tick, and the body stays at its pre-tick positions.
#[test]
fn self_collision_freezes_body() {
    let body = vec![
        Position { x: 5, y: 5 },
        Position { x: 6, y: 5 },
        Position { x: 5, y: 5 },
        Position { x: 4, y: 5 },
    ];
    let snake = Snake { body: body.clone(), alive: true, direction: Direction::Right, ticker: 0, score: 0 };
    let mut g = Game { world: default_world(), snake };
    for _ in 0..5 {
        g.step(&no_keys());
        assert!(g.snake.alive);
    }
    g.step(&no_keys());
    assert!(!g.snake.alive);
    assert_eq!(g.snake.body, body);
    // once dead, further ticks change nothing but the counter
    for _ in 0..12 {
        g.step(&no_keys());
    }
    assert_eq!(g.snake.body, body);
    assert!(!g.snake.alive);
}

#[test]
fn restart_resets_everything() {
    let mut g = Game::new();
    for _ in 0..30 {
        g.step(&no_keys());
    }
    assert_ne!(g.snake.body[0], Position { x: 5, y: 5 });
    g.restart();
    assert_eq!(g.snake.body[0], Position { x: 5, y: 5 });
    assert_eq!(g.snake.body.len(), 5);
    assert_eq!(g.snake.ticker, 0);
    assert_eq!(g.get_score(), 0);
    assert_eq!(g.world.food, Position { x: 12, y: 8 });
}

// A fresh frame: trailing segments and the tail cell render white, the
// food cell orange; at tick zero the head has slid zero pixels into its
// cell, so its own cell stays empty.
#[test]
fn draw_renders_cells_food_and_sliding_head() {
    let g = Game::new();
    let mut fb = Surface::new(240, 400);
    g.draw(&mut fb);
    let white = Color { r: 255, g: 255, b: 255 };
    let orange = Color { r: 255, g: 127, b: 0 };
    let black = Color { r: 0, g: 0, b: 0 };
    // middle segments (4,5), (3,5), (2,5) and the tail cell (1,5)
    for cell_x in 1..5isize {
        assert_eq!(fb.get_pixel(cell_x * 10 + 5, 55).unwrap(), white, "cell {cell_x}");
    }
    // the head cell: slid in by 0 of 10 pixels, so still empty
    assert_eq!(fb.get_pixel(55, 55).unwrap(), black);
    // the food cell
    assert_eq!(fb.get_pixel(125, 85).unwrap(), orange);
    // an untouched cell
    assert_eq!(fb.get_pixel(205, 205).unwrap(), black);
}

// A dead snake renders every segment as a full red cell, with no head or
// tail interpolation.
#[test]
fn draw_renders_dead_snake_red() {
    let body = vec![Position { x: 5, y: 5 }, Position { x: 6, y: 5 }];
    let snake = Snake { body, alive: false, direction: Direction::Right, ticker: 7, score: 0 };
    let g = Game { world: default_world(), snake };
    let mut fb = Surface::new(240, 400);
    g.draw(&mut fb);
    let red = Color { r: 255, g: 0, b: 0 };
    assert_eq!(fb.get_pixel(55, 55).unwrap(), red);
    assert_eq!(fb.get_pixel(65, 55).unwrap(), red);
    assert_eq!(fb.get_pixel(50, 50).unwrap(), red);
    assert_eq!(fb.get_pixel(75, 55).unwrap(), Color { r: 0, g: 0, b: 0 });
}

#[test]
fn position_minus_is_componentwise() {
    let a = Position { x: 5, y: 9 };
    let b = Position { x: 2, y: 11 };
    assert_eq!(a.minus(b), Position { x: 3, y: -2 });
}

#[test]
fn contains_pos_scans_all_segments() {
    let v = vec![Position { x: 1, y: 2 }, Position { x: 3, y: 4 }];
    assert!(contains_pos(&v, &Position { x: 3, y: 4 }));
    assert!(!contains_pos(&v, &Position { x: 4, y: 3 }));
}
