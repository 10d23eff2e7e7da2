use snake_rl::snake_env::Direction;
use snake_rl::snake_env::SnakeEnv;
use snake_rl::snake_env::distance_to_edge;

#[test]
fn turn_left_four_times_is_identity() {
    for d in [Direction::Up, Direction::Right, Direction::Down, Direction::Left] {
        assert_eq!(d.turn_left().turn_left().turn_left().turn_left(), d);
    }
}

#[test]
fn turn_right_four_times_is_identity() {
    for d in [Direction::Up, Direction::Right, Direction::Down, Direction::Left] {
        assert_eq!(d.turn_right().turn_right().turn_right().turn_right(), d);
    }
}

#[test]
fn turns_undo_each_other() {
    for d in [Direction::Up, Direction::Right, Direction::Down, Direction::Left] {
        assert_eq!(d.turn_left().turn_right(), d);
        assert_eq!(d.turn_right().turn_left(), d);
    }
}

#[test]
fn turn_left_cycle() {
    assert_eq!(Direction::Up.turn_left(), Direction::Left);
    assert_eq!(Direction::Left.turn_left(), Direction::Down);
    assert_eq!(Direction::Down.turn_left(), Direction::Right);
    assert_eq!(Direction::Right.turn_left(), Direction::Up);
}

#[test]
fn turn_right_cycle() {
    assert_eq!(Direction::Up.turn_right(), Direction::Right);
    assert_eq!(Direction::Right.turn_right(), Direction::Down);
    assert_eq!(Direction::Down.turn_right(), Direction::Left);
    assert_eq!(Direction::Left.turn_right(), Direction::Up);
}

#[test]
fn legal_actions_always_full_set() {
    let env = SnakeEnv::new(10, 10);
    assert_eq!(env.legal_actions(), vec![0, 1, 2]);
    // One step from certain collision the set is unchanged.
    let mut tight = SnakeEnv::new(2, 1);
    assert_eq!(tight.legal_actions(), vec![0, 1, 2]);
    let (_, _, done) = tight.step(1);
    assert!(done);
    assert_eq!(tight.legal_actions(), vec![0, 1, 2]);
}

#[test]
fn distance_to_edge_center_of_ten_grid() {
    assert_eq!(distance_to_edge(5, 5, 10, 10), 4);
    assert_eq!(distance_to_edge(5, 4, 10, 10), 4);
    // Hence the proximity bonus of moving (5,5) -> (5,4) is zero.
    assert_eq!(
        distance_to_edge(5, 4, 10, 10) as i64 - distance_to_edge(5, 5, 10, 10) as i64,
        0
    );
    assert_eq!(distance_to_edge(0, 7, 10, 10), 0);
    assert_eq!(distance_to_edge(9, 5, 10, 10), 0);
    assert_eq!(distance_to_edge(2, 6, 10, 10), 2);
}

#[test]
fn fresh_environment_starts_at_center() {
    let env = SnakeEnv::new(10, 10);
    assert_eq!(env.snake, vec![(5, 5)]);
    assert_eq!(env.direction, Direction::Up);
    assert!(!env.done);
    assert_eq!(env.score, 0);
    assert!(env.food.0 < 10 && env.food.1 < 10);
    assert_ne!(env.food, (5, 5));
}

#[test]
fn straight_step_from_center() {
    // Grid 10x10, head (5,5), direction Up, action Straight: the head moves
    // to (5,4); when that is not the food, the length stays 1 and the
    // reward is 5.0 (proximity bonus 0), with the episode not done.
    let mut env = SnakeEnv::new(10, 10);
    for _ in 0..200 {
        if env.food != (5, 4) {
            break;
        }
        env.reset();
    }
    assert_ne!(env.food, (5, 4), "random food placement kept hitting (5,4)");
    let (state, reward, done) = env.step(1);
    assert_eq!((state.head_x, state.head_y), (5, 4));
    assert_eq!(state.length, 1);
    assert_eq!(state.direction, Direction::Up);
    assert_eq!(env.snake, vec![(5, 4)]);
    assert_eq!(reward, 5000);
    assert!(!done);
    assert_eq!(env.score, 0);
}

#[test]
fn self_collision_is_terminal_and_keeps_body() {
    // In a 2x1 grid the head sits at (1,0); moving Up saturates onto the
    // head's own cell, which counts as a collision with the body.
    let mut env = SnakeEnv::new(2, 1);
    assert_eq!(env.snake, vec![(1, 0)]);
    let before = env.snake.clone();
    let (state, reward, done) = env.step(1);
    assert!(done);
    assert!(env.done);
    assert_eq!(reward, -10000);
    assert_eq!(env.snake, before);
    assert_eq!(env.score, 0);
    assert_eq!(state.length, 1);
}

#[test]
fn wall_collision_is_terminal_and_keeps_body() {
    // In a 2x1 grid turning right heads toward (2,0), which is out of
    // bounds.
    let mut env = SnakeEnv::new(2, 1);
    let before = env.snake.clone();
    let (_state, reward, done) = env.step(2);
    assert_eq!(env.direction, Direction::Right);
    assert!(done);
    assert_eq!(reward, -10000);
    assert_eq!(env.snake, before);
    assert_eq!(env.score, 0);
}

#[test]
fn eating_grows_body_and_pays_ten() {
    // In a 3x1 grid the head sits at (1,0) and the food on one of the two
    // remaining cells; turning toward it eats it. Every cell of a 3x1 grid
    // touches an edge, so the proximity bonus is zero.
    let mut env = SnakeEnv::new(3, 1);
    assert_eq!(env.snake, vec![(1, 0)]);
    let food = env.food;
    assert!(food == (0, 0) || food == (2, 0));
    let action = if food == (0, 0) { 0 } else { 2 };
    let (state, reward, done) = env.step(action);
    assert_eq!(reward, 10000);
    assert!(!done);
    assert_eq!(env.snake.len(), 2);
    assert_eq!(env.snake[0], food);
    assert_eq!(env.score, 1);
    assert_eq!(state.length, 2);
    // The fresh food landed on the one free cell.
    assert!(env.food.0 < 3 && env.food.1 < 1);
    assert!(!env.snake.contains(&env.food));
}

#[test]
fn proximity_bonus_shapes_reward() {
    // Grid 5x5: head (2,2) has edge distance 2; moving Up to (2,1) has
    // edge distance 1, so a non-eating move pays 5.0 + (1 - 2) = 4.0.
    let mut env = SnakeEnv::new(5, 5);
    for _ in 0..200 {
        if env.food != (2, 1) {
            break;
        }
        env.reset();
    }
    assert_ne!(env.food, (2, 1), "random food placement kept hitting (2,1)");
    let (_state, reward, done) = env.step(1);
    assert!(!done);
    assert_eq!(reward, 4000);
}

#[test]
fn reset_restores_fresh_state() {
    let mut env = SnakeEnv::new(3, 1);
    let (_, _, _) = env.step(1);
    assert!(env.done);
    env.reset();
    assert_eq!(env.snake, vec![(1, 0)]);
    assert_eq!(env.direction, Direction::Up);
    assert!(!env.done);
    assert_eq!(env.score, 0);
}

#[test]
fn food_placement_stays_in_bounds_and_off_the_body() {
    let mut env = SnakeEnv::new(3, 1);
    for _ in 0..100 {
        env.reset();
        assert!(env.food.0 < 3);
        assert_eq!(env.food.1, 0);
        assert_ne!(env.food, (1, 0));
    }
}

#[test]
fn get_state_encodes_the_compressed_key() {
    let env = SnakeEnv::new(10, 8);
    let key = env.get_state();
    assert_eq!(key.head_x, 5);
    assert_eq!(key.head_y, 4);
    assert_eq!(key.length, 1);
    assert_eq!(key.food_x, env.food.0);
    assert_eq!(key.food_y, env.food.1);
    assert_eq!(key.direction, Direction::Up);
}

#[test]
fn stray_action_value_means_straight() {
    let mut env = SnakeEnv::new(10, 10);
    let (_state, _reward, _done) = env.step(7);
    assert_eq!(env.direction, Direction::Up);
    assert_eq!(env.snake[0], (5, 4));
}
