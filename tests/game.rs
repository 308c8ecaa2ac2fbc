use snake_os::display::{Cell, Color};
use snake_os::food::{xorshift, FoodGenerator};
use snake_os::game::{SnakeGame, INITIAL_SEED, MAX_SNAKE_LENGTH};
use snake_os::point::{step, Direction, Point};

const BOARD: (u16, u16) = (80, 25);

fn game(body: &[Point], direction: Direction, food: Point) -> SnakeGame {
    SnakeGame::from_parts(body, direction, food, BOARD, INITIAL_SEED).expect("a valid position")
}

fn assert_fresh(g: &SnakeGame, seed: u16) {
    let fresh = SnakeGame::new(g.board_size());
    assert_eq!(g.snake(), fresh.snake());
    assert_eq!(g.length(), 1);
    assert_eq!(g.food(), fresh.food());
    assert_eq!(g.direction(), fresh.direction());
    assert_eq!(g.board_size(), fresh.board_size());
    assert_eq!(g.seed(), seed);
}

#[test]
fn new_game_is_centred() {
    let g = SnakeGame::new(BOARD);
    assert_eq!(g.snake(), vec![Point(40, 12)]);
    assert_eq!(g.length(), 1);
    assert_eq!(g.food(), Point(35, 12));
    assert_eq!(g.direction(), Direction::Right);
    assert_eq!(g.board_size(), (80, 25));
    assert_eq!(g.seed(), 0xA5A5);
}

#[test]
fn eating_grows_in_place_and_places_food() {
    let mut g = game(&[Point(40, 12)], Direction::Right, Point(41, 12));
    g.update();
    assert_eq!(g.length(), 2);
    assert_eq!(g.snake(), vec![Point(40, 12), Point(40, 12)]);
    assert_ne!(g.food(), Point(40, 12));
    assert_eq!(g.food(), Point(30, 18));
    assert_eq!(g.seed(), 35693);
}

#[test]
fn turning_back_into_the_neck_resets() {
    let mut g = game(&[Point(5, 5), Point(4, 5), Point(3, 5)], Direction::Left, Point(20, 20));
    g.update();
    assert_fresh(&g, INITIAL_SEED);
}

#[test]
fn ordinary_move_shifts_the_body() {
    let mut g = game(&[Point(5, 5), Point(6, 5), Point(7, 5)], Direction::Left, Point(20, 20));
    g.update();
    assert_eq!(g.snake(), vec![Point(4, 5), Point(5, 5), Point(6, 5)]);
    assert_eq!(g.length(), 3);
    assert_eq!(g.food(), Point(20, 20));
}

#[test]
fn leaving_the_right_edge_resets() {
    let mut g = game(&[Point(79, 12)], Direction::Right, Point(10, 3));
    g.update();
    assert_fresh(&g, INITIAL_SEED);
}

#[test]
fn leaving_the_top_edge_wraps_and_resets() {
    let mut g = game(&[Point(3, 0)], Direction::Up, Point(10, 3));
    g.update();
    assert_fresh(&g, INITIAL_SEED);
}

#[test]
fn running_into_the_tail_resets() {
    let body = [Point(5, 5), Point(6, 5), Point(6, 6), Point(5, 6)];
    let mut g = game(&body, Direction::Down, Point(20, 20));
    g.update();
    assert_fresh(&g, INITIAL_SEED);
}

#[test]
fn reset_keeps_the_seed() {
    let mut g = SnakeGame::from_parts(&[Point(1, 1), Point(2, 1)], Direction::Up, Point(7, 7), BOARD, 1234).unwrap();
    g.reset();
    assert_fresh(&g, 1234);
}

#[test]
fn length_stays_at_capacity() {
    let mut body = Vec::new();
    let mut row: u16 = 0;
    while body.len() < MAX_SNAKE_LENGTH {
        for col in 0..64u16 {
            let x = if row % 2 == 0 { 63 - col } else { col };
            body.push(Point(x, row));
        }
        row += 1;
    }
    body.truncate(MAX_SNAKE_LENGTH);
    let head = body[0];
    assert_eq!(head, Point(63, 0));
    let mut g = game(&body, Direction::Right, Point(64, 0));
    g.update();
    assert_eq!(g.length(), MAX_SNAKE_LENGTH);
    assert!(!g.snake().contains(&g.food()));
}

#[test]
fn every_tick_keeps_food_off_the_body_and_cells_on_the_board() {
    let mut g = SnakeGame::new(BOARD);
    let turns = [Direction::Up, Direction::Left, Direction::Down, Direction::Right];
    for t in 0..400usize {
        if t % 7 == 0 {
            g.set_direction(turns[(t / 7) % 4]);
        }
        let before = g.length();
        g.update();
        let after = g.length();
        assert!(after == before || after == before + 1 || after == 1);
        let body = g.snake();
        assert!(!body.contains(&g.food()));
        for p in body {
            assert!(p.0 < 80 && p.1 < 25);
        }
    }
}

#[test]
fn from_parts_refuses_bad_positions() {
    assert!(SnakeGame::from_parts(&[], Direction::Up, Point(1, 1), BOARD, 0).is_none());
    assert!(SnakeGame::from_parts(&[Point(1, 1)], Direction::Up, Point(1, 1), BOARD, 0).is_none());
    assert!(SnakeGame::from_parts(&[Point(80, 1)], Direction::Up, Point(1, 1), BOARD, 0).is_none());
    assert!(SnakeGame::from_parts(&[Point(1, 1)], Direction::Up, Point(1, 25), BOARD, 0).is_none());
    assert!(SnakeGame::from_parts(&[Point(1, 1)], Direction::Up, Point(2, 1), (9, 100), 0).is_none());
    assert!(SnakeGame::from_parts(&[Point(1, 1)], Direction::Up, Point(2, 1), (16, 16), 0).is_none());
    assert!(SnakeGame::from_parts(&[Point(1, 0)], Direction::Up, Point(2, 0), (257, 1), 0).is_some());
    let too_long = vec![Point(0, 0); MAX_SNAKE_LENGTH + 1];
    assert!(SnakeGame::from_parts(&too_long, Direction::Up, Point(2, 1), BOARD, 0).is_none());
}

#[test]
fn xorshift_known_values() {
    assert_eq!(xorshift(0xA5A5), 0x691E);
    assert_eq!(xorshift(0x691E), 0x8B6D);
    assert_eq!(xorshift(0), 0);
}

#[test]
fn next_food_draws_then_retries() {
    let mut gen = FoodGenerator::new(0xA5A5);
    assert_eq!(gen.next_food(BOARD, &[], 0), Point(30, 18));
    assert_eq!(gen.seed, 35693);
    let mut gen = FoodGenerator::new(0xA5A5);
    assert_eq!(gen.next_food(BOARD, &[Point(30, 18)], 1), Point(48, 21));
    assert_eq!(gen.seed, 15946);
}

#[test]
fn next_food_is_deterministic() {
    let occupied = [Point(30, 18), Point(1, 2), Point(48, 21)];
    let reordered = [Point(48, 21), Point(30, 18), Point(1, 2), Point(1, 2)];
    let mut a = FoodGenerator::new(77);
    let mut b = FoodGenerator::new(77);
    for _ in 0..50 {
        assert_eq!(a.next_food(BOARD, &occupied, 3), b.next_food(BOARD, &reordered, 4));
        assert_eq!(a.seed, b.seed);
    }
}

#[test]
fn next_food_falls_back_to_a_scan_on_a_crowded_board() {
    // 257 cells, 256 of them taken: only (256, 0) is free.
    let occupied: Vec<Point> = (0..256u16).map(|x| Point(x, 0)).collect();
    let mut gen = FoodGenerator::new(9);
    assert_eq!(gen.next_food((257, 1), &occupied, 256), Point(256, 0));
}

#[test]
fn step_wraps() {
    assert_eq!(step(Point(0, 0), Direction::Left), Point(u16::MAX, 0));
    assert_eq!(step(Point(0, 0), Direction::Up), Point(0, u16::MAX));
    assert_eq!(step(Point(u16::MAX, 3), Direction::Right), Point(0, 3));
    assert_eq!(step(Point(2, 3), Direction::Down), Point(2, 4));
}

#[test]
fn render_draws_body_then_food() {
    let g = game(&[Point(5, 5), Point(6, 5)], Direction::Left, Point(20, 9));
    let body = Cell { row: 5, column: 5, glyph: 0xFE, foreground: Color::LightGreen, background: Color::Black };
    let neck = Cell { row: 5, column: 6, glyph: 0xFE, foreground: Color::LightGreen, background: Color::Black };
    let food = Cell { row: 9, column: 20, glyph: b'*', foreground: Color::Red, background: Color::Black };
    assert_eq!(g.render(), vec![body, neck, food]);
}

#[test]
fn tick_updates_then_renders() {
    let mut g = SnakeGame::new(BOARD);
    let frame = g.tick();
    assert_eq!(g.snake(), vec![Point(41, 12)]);
    assert_eq!(frame.len(), 2);
    assert_eq!(frame[0].column, 41);
    assert_eq!(frame[0].row, 12);
    assert_eq!(frame[1].column, 35);
    assert_eq!(frame[1].glyph, b'*');
}
