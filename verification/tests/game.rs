use snake_core::snake::{Direction, Game};

fn snake_vec(g: &Game) -> Vec<(usize, usize)> {
    g.snake.iter().copied().collect()
}

#[test]
fn test() {
    let mut g = Game::new(15, 10);
    g.direction_change(Direction::Up);
    g.tick();
    let _ = g.snake[0];
}

#[test]
fn initial_state() {
    let g = Game::new(15, 10);
    assert_eq!(snake_vec(&g), vec![(3, 5), (2, 5), (1, 5)]);
    assert_eq!(g.direction, Direction::Right);
    assert_eq!(g.next_direction, Direction::Right);
    assert_eq!(g.food, vec![(7, 5), (2, 2)]);
    assert_eq!(g.highscore, 0);
    assert!(!g.gameover);
    assert_eq!(g.width, 15);
    assert_eq!(g.height, 10);
}

#[test]
fn turn_up_then_tick() {
    let mut g = Game::new(15, 10);
    g.direction_change(Direction::Up);
    g.tick();
    assert_eq!(g.snake[0], (3, 4));
    assert_eq!(snake_vec(&g), vec![(3, 4), (3, 5), (2, 5)]);
    assert_eq!(g.direction, Direction::Up);
    assert!(!g.gameover);
}

#[test]
fn reversal_is_ignored() {
    let mut g = Game::new(15, 10);
    // Facing Right: a request for Left is the direct reverse and must be
    // dropped without any other change.
    g.direction_change(Direction::Left);
    assert_eq!(g.next_direction, Direction::Right);
    g.tick();
    assert_eq!(g.snake[0], (4, 5));

    // After committing Up, the reverse Down is likewise ignored, while a
    // later legal request still wins.
    g.direction_change(Direction::Up);
    g.tick();
    assert_eq!(g.direction, Direction::Up);
    g.direction_change(Direction::Down);
    assert_eq!(g.next_direction, Direction::Up);
    g.direction_change(Direction::Right);
    assert_eq!(g.next_direction, Direction::Right);
}

#[test]
fn tick_keeps_length_without_food() {
    let mut g = Game::new(15, 10);
    for _ in 0..3 {
        g.tick();
        assert_eq!(g.snake.len(), 3);
    }
}

#[test]
fn eating_food_grows_snake_and_scores() {
    let mut g = Game::new(15, 10);
    // Head starts at (3, 5) facing Right; food sits at (7, 5).
    for _ in 0..3 {
        g.tick();
    }
    assert_eq!(g.snake[0], (6, 5));
    assert_eq!(g.snake.len(), 3);
    let old_score = g.highscore;
    g.tick();
    assert_eq!(g.snake[0], (7, 5));
    assert_eq!(g.snake.len(), 4);
    assert_eq!(g.highscore, old_score + 10 + old_score / 100);
    assert_eq!(g.highscore, 10);
    // The eaten point is gone, the untouched one stays, and one fresh food
    // point has been spawned on a free cell of the board.
    assert_eq!(g.food.len(), 2);
    assert!(!g.food.contains(&(7, 5)));
    assert!(g.food.contains(&(2, 2)));
    for p in &g.food {
        assert!(1 <= p.0 && p.0 <= 15);
        assert!(1 <= p.1 && p.1 <= 10);
        assert!(!g.snake.contains(p));
    }
}

#[test]
fn food_stays_off_snake() {
    let mut g = Game::new(15, 10);
    for _ in 0..12 {
        g.tick();
        for p in &g.food {
            assert!(!g.snake.contains(p));
        }
    }
}

#[test]
fn snake_has_no_duplicates_while_running() {
    let mut g = Game::new(15, 10);
    g.direction_change(Direction::Up);
    for _ in 0..4 {
        g.tick();
        if g.gameover {
            break;
        }
        let body = snake_vec(&g);
        for i in 0..body.len() {
            for j in 0..i {
                assert_ne!(body[i], body[j]);
            }
        }
    }
}

#[test]
fn wall_collision_ends_game() {
    let mut g = Game::new(15, 10);
    g.direction_change(Direction::Up);
    // Head climbs (3,4), (3,3), (3,2), (3,1); the fifth tick aims at
    // (3,0), which is off the board.
    for _ in 0..4 {
        g.tick();
        assert!(!g.gameover);
    }
    let before = snake_vec(&g);
    g.tick();
    assert!(g.gameover);
    assert_eq!(snake_vec(&g), before);
    assert_eq!(g.get_score(), "Game is Over! Points: 0");
}

#[test]
fn gameover_tick_is_a_noop() {
    let mut g = Game::new(15, 10);
    g.direction_change(Direction::Up);
    for _ in 0..5 {
        g.tick();
    }
    assert!(g.gameover);
    let snake = snake_vec(&g);
    let food = g.food.clone();
    let score = g.highscore;
    for _ in 0..3 {
        g.tick();
        assert!(g.gameover);
        assert_eq!(snake_vec(&g), snake);
        assert_eq!(g.food, food);
        assert_eq!(g.highscore, score);
    }
}

#[test]
fn self_collision_ends_game() {
    let mut g = Game::new(15, 10);
    // Climb to (3,2), turn left to eat the food at (2,2) and grow to four
    // segments, then curl back into the own body.
    g.direction_change(Direction::Up);
    for _ in 0..3 {
        g.tick();
    }
    assert_eq!(g.snake[0], (3, 2));
    g.direction_change(Direction::Left);
    g.tick();
    assert_eq!(g.snake[0], (2, 2));
    assert!(g.snake.len() >= 4);
    g.direction_change(Direction::Down);
    g.tick();
    assert!(!g.gameover);
    g.direction_change(Direction::Right);
    g.tick();
    // (3,3) is still part of the body, whatever food was eaten on the way.
    assert!(g.gameover);
}

#[test]
fn score_is_monotone() {
    let mut g = Game::new(15, 10);
    let mut last = g.highscore;
    for _ in 0..12 {
        g.tick();
        assert!(g.highscore >= last);
        last = g.highscore;
    }
}

#[test]
fn score_message() {
    let mut g = Game::new(15, 10);
    assert_eq!(g.get_score(), "Points: 0");
    for _ in 0..4 {
        g.tick();
    }
    assert_eq!(g.get_score(), "Points: 10");
}

#[test]
fn cell_classification() {
    let g = Game::new(15, 10);
    assert_eq!(g.get_typ(&(7, 5)), "🍓");
    assert_eq!(g.get_typ(&(2, 2)), "🍓");
    assert_eq!(g.get_typ(&(3, 5)), "🐸");
    assert_eq!(g.get_typ(&(2, 5)), "🟢");
    assert_eq!(g.get_typ(&(1, 5)), "🟢");
    assert_eq!(g.get_typ(&(9, 9)), " ");
    assert_eq!(g.get_typ(&(0, 0)), " ");
}
