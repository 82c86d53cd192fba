use snake_game::food::Food;
use snake_game::game::App;
use snake_game::grid::{generate_all_position, position_key, GridConfig, Position};
use snake_game::snake::{Direction, Snake};
use std::collections::HashSet;

fn pos(x: i16, y: i16) -> Position {
    Position { x, y }
}

fn keys_of(cells: &[Position]) -> HashSet<u32> {
    let mut set: HashSet<u32> = HashSet::new();
    for p in cells {
        set.insert(position_key(p));
    }
    set
}

#[test]
fn wall_collision_moving_up_from_origin() {
    // A length-1 snake at the top-left corner moving up leaves the board
    // at once: terminal, score untouched.
    let c = GridConfig::standard();
    let mut app = App::with_initial(c, pos(0, 0), Direction::Up, pos(90, 90));
    app.update();
    assert!(app.game_over);
    assert_eq!(app.score, 0);
    assert_eq!(app.snake.body, vec![pos(0, -9)]);
}

#[test]
fn right_boundary_collides_only_past_the_edge() {
    // The last universe column starts at 288; one step right lands at 297,
    // still inside [0, 300), so the game goes on. The next step reaches
    // 306 and that is the wall hit.
    let c = GridConfig::standard();
    let mut app = App::with_initial(c, pos(288, 0), Direction::Right, pos(90, 90));
    app.update();
    assert!(!app.game_over);
    assert_eq!(app.snake.body, vec![pos(297, 0)]);
    app.update();
    assert!(app.game_over);
    assert_eq!(app.score, 0);
}

#[test]
fn eating_increments_score_and_relocates_food() {
    // Tick one walks the head onto the food cell; tick two starts on it,
    // so that move grows the body, scores, and respawns the food on a
    // free cell.
    let c = GridConfig::standard();
    let mut app = App::with_initial(c, pos(0, 0), Direction::Right, pos(9, 0));
    app.update();
    assert!(!app.game_over);
    assert_eq!(app.score, 0);
    assert_eq!(app.snake.body, vec![pos(9, 0)]);

    app.update();
    assert!(!app.game_over);
    assert_eq!(app.score, 1);
    assert_eq!(app.snake.body, vec![pos(18, 0), pos(9, 0)]);
    let food = app.food.position;
    assert_ne!(food, pos(18, 0));
    assert_ne!(food, pos(9, 0));
    assert!(!app.snake.body_set.contains(&position_key(&food)));
    assert!(food.x >= 0 && food.x % 9 == 0 && food.x + 9 <= 300);
    assert!(food.y >= 0 && food.y % 9 == 0 && food.y + 9 <= 300);
}

#[test]
fn win_when_snake_covers_the_whole_board() {
    // A two-cell board: the snake starts on the food, grows onto the
    // second cell, and no free cell is left for the respawn — a win.
    let c = GridConfig::new(18, 9, 9).unwrap();
    let mut app = App::with_initial(c, pos(0, 0), Direction::Right, pos(0, 0));
    app.update();
    assert!(app.game_over);
    assert_eq!(app.score, 1);
    assert_eq!(app.snake.body, vec![pos(9, 0), pos(0, 0)]);
    // The food had nowhere to go and stays where it was.
    assert_eq!(app.food.position, pos(0, 0));
}

#[test]
fn self_collision_detected_against_remaining_body() {
    // A five-cell hook; moving down sends the head onto a cell the body
    // still occupies after the move.
    let c = GridConfig::standard();
    let cells = [pos(9, 9), pos(18, 9), pos(18, 18), pos(9, 18), pos(0, 18)];
    let snake = Snake {
        body: cells.to_vec(),
        body_set: keys_of(&cells),
        direction: Direction::Down,
    };
    let mut app = App {
        config: c,
        snake,
        food: Food { position: pos(90, 90) },
        game_over: false,
        all_position: generate_all_position(&c),
        score: 4,
        pending_direction: None,
    };
    app.update();
    assert!(app.game_over);
    assert_eq!(app.score, 4);
    assert_eq!(app.snake.body[0], pos(9, 18));
}

#[test]
fn tail_chase_is_not_a_self_collision() {
    // Moving into the cell the tail vacates on the same tick hits nothing:
    // the head is compared against the remaining body, tail excluded.
    let c = GridConfig::standard();
    let cells = [pos(0, 0), pos(9, 0), pos(9, 9), pos(0, 9)];
    let snake = Snake {
        body: cells.to_vec(),
        body_set: keys_of(&cells),
        direction: Direction::Down,
    };
    let mut app = App {
        config: c,
        snake,
        food: Food { position: pos(90, 90) },
        game_over: false,
        all_position: generate_all_position(&c),
        score: 3,
        pending_direction: None,
    };
    app.update();
    assert!(!app.game_over);
    assert_eq!(app.snake.body, vec![pos(0, 9), pos(0, 0), pos(9, 0), pos(9, 9)]);
    assert_eq!(app.snake.body_set.len(), 4);
}

#[test]
fn nothing_happens_once_terminal() {
    let c = GridConfig::standard();
    let mut app = App::with_initial(c, pos(0, 0), Direction::Up, pos(90, 90));
    app.update();
    assert!(app.game_over);
    let body_before = app.snake.body.clone();
    app.update();
    app.handle_direction_intent(Direction::Down);
    app.update();
    assert!(app.game_over);
    assert_eq!(app.score, 0);
    assert_eq!(app.snake.body, body_before);
    assert_eq!(app.pending_direction, None);
}

#[test]
fn reversal_intent_is_dropped() {
    let c = GridConfig::standard();
    let mut app = App::with_initial(c, pos(90, 90), Direction::Right, pos(0, 0));
    app.handle_direction_intent(Direction::Left);
    assert_eq!(app.pending_direction, None);
    app.update();
    assert_eq!(app.snake.body, vec![pos(99, 90)]);
}

#[test]
fn non_reversal_intents_are_accepted() {
    let c = GridConfig::standard();
    for d in [Direction::Up, Direction::Down, Direction::Right] {
        let mut app = App::with_initial(c, pos(90, 90), Direction::Right, pos(0, 0));
        app.handle_direction_intent(d);
        assert_eq!(app.pending_direction, Some(d));
    }
}

#[test]
fn one_direction_change_per_tick() {
    // The first validated intent of a tick wins; a later one on the same
    // tick is dropped even though it would not reverse anything.
    let c = GridConfig::standard();
    let mut app = App::with_initial(c, pos(90, 90), Direction::Right, pos(0, 0));
    app.handle_direction_intent(Direction::Up);
    app.handle_direction_intent(Direction::Down);
    assert_eq!(app.pending_direction, Some(Direction::Up));
    app.update();
    assert_eq!(app.snake.direction, Direction::Up);
    assert_eq!(app.snake.body, vec![pos(90, 81)]);
}

#[test]
fn pending_change_takes_effect_on_next_move() {
    let c = GridConfig::standard();
    let mut app = App::with_initial(c, pos(90, 90), Direction::Right, pos(0, 0));
    app.handle_direction_intent(Direction::Down);
    app.update();
    assert_eq!(app.snake.body, vec![pos(90, 99)]);
    assert_eq!(app.pending_direction, None);
    app.update();
    assert_eq!(app.snake.body, vec![pos(90, 108)]);
}

#[test]
fn refresh_position_picks_a_free_cell() {
    let c = GridConfig::standard();
    let all = generate_all_position(&c);
    let food = Food { position: pos(0, 0) };
    let occupied = keys_of(&[pos(0, 0), pos(9, 0)]);
    for _ in 0..16 {
        let p = refresh_expect_some(&food, &all, &occupied);
        assert_ne!(p, pos(0, 0));
        assert_ne!(p, pos(9, 0));
        assert!(all.contains(&p));
    }
}

fn refresh_expect_some(
    food: &Food,
    all: &Vec<Position>,
    occupied: &HashSet<u32>,
) -> Position {
    food.refresh_position(all, occupied).expect("a free cell exists")
}

#[test]
fn refresh_position_reports_saturation() {
    let c = GridConfig::new(18, 9, 9).unwrap();
    let all = generate_all_position(&c);
    let food = Food { position: pos(0, 0) };
    let occupied = keys_of(&[pos(0, 0), pos(9, 0)]);
    assert_eq!(food.refresh_position(&all, &occupied), None);
}

#[test]
fn new_game_spawns_on_the_grid() {
    let c = GridConfig::standard();
    let app = App::new(&c);
    assert!(!app.game_over);
    assert_eq!(app.score, 0);
    assert_eq!(app.snake.body.len(), 1);
    let head = app.snake.body[0];
    assert!(head.x >= 0 && head.x % 9 == 0 && head.x + 9 <= 300);
    assert!(head.y >= 0 && head.y % 9 == 0 && head.y + 9 <= 300);
    let food = app.food.position;
    assert!(food.x >= 0 && food.x % 9 == 0 && food.x + 9 <= 300);
    assert!(food.y >= 0 && food.y % 9 == 0 && food.y + 9 <= 300);
    assert_eq!(app.all_position.len(), 33 * 33);
}

#[test]
fn snapshot_mirrors_the_state() {
    let c = GridConfig::standard();
    let mut app = App::with_initial(c, pos(0, 0), Direction::Right, pos(9, 0));
    app.update();
    app.update();
    let snap = app.snapshot();
    assert_eq!(snap.body, app.snake.body);
    assert_eq!(snap.body[0], pos(18, 0));
    assert_eq!(snap.food, app.food.position);
    assert_eq!(snap.width, 300);
    assert_eq!(snap.height, 300);
    assert_eq!(snap.cell_size, 9);
    assert_eq!(snap.score, 1);
    assert!(!snap.game_over);
}
