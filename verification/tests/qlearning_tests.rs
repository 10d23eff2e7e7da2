use snake_rl::agent::Agent;
use snake_rl::qlearning::decay_epsilon;
use snake_rl::qlearning::test as evaluate;
use snake_rl::qlearning::train;
use snake_rl::snake_env::Direction;
use snake_rl::snake_env::SnakeEnv;
use snake_rl::snake_env::StateKey;

#[test]
fn epsilon_decays_to_995_after_one_episode() {
    let mut agent = Agent::new(100, 900, 1000);
    decay_epsilon(&mut agent);
    assert_eq!(agent.epsilon, 995);
}

#[test]
fn epsilon_reaches_the_floor_and_never_drops_below() {
    let mut agent = Agent::new(100, 900, 1000);
    let mut reached = false;
    for _ in 0..2000 {
        decay_epsilon(&mut agent);
        assert!(agent.epsilon >= 100);
        assert!(agent.epsilon <= 1000);
        if agent.epsilon == 100 {
            reached = true;
        }
    }
    assert!(reached);
    assert_eq!(agent.epsilon, 100);
    decay_epsilon(&mut agent);
    assert_eq!(agent.epsilon, 100);
}

#[test]
fn epsilon_below_the_floor_is_left_alone() {
    let mut agent = Agent::new(100, 900, 50);
    decay_epsilon(&mut agent);
    assert_eq!(agent.epsilon, 50);
}

#[test]
fn train_returns_one_total_per_episode_and_decays() {
    let mut env = SnakeEnv::new(10, 10);
    let mut agent = Agent::new(100, 900, 1000);
    let totals = train(&mut agent, &mut env, 3, 25);
    assert_eq!(totals.len(), 3);
    // 1000 -> 995 -> 990 -> 985 thousandths over three episodes.
    assert_eq!(agent.epsilon, 985);
    assert_eq!(agent.alpha, 100);
    assert_eq!(agent.gamma, 900);
}

#[test]
fn train_with_zero_episodes_changes_nothing() {
    let mut env = SnakeEnv::new(10, 10);
    let snake_before = env.snake.clone();
    let food_before = env.food;
    let mut agent = Agent::new(100, 900, 1000);
    let totals = train(&mut agent, &mut env, 0, 50);
    assert!(totals.is_empty());
    assert_eq!(agent.epsilon, 1000);
    assert!(agent.q_table.rows.is_empty());
    assert_eq!(env.snake, snake_before);
    assert_eq!(env.food, food_before);
    assert_eq!(env.score, 0);
    assert!(!env.done);
}

#[test]
fn train_seeds_the_start_state_row() {
    let mut env = SnakeEnv::new(10, 10);
    let mut agent = Agent::new(100, 900, 1000);
    let _ = train(&mut agent, &mut env, 1, 1);
    // The first tick's selection seeded the reset state: head at the
    // centre, length 1, heading Up, food wherever the draw put it.
    let mut seeded = false;
    for fx in 0..10 {
        for fy in 0..10 {
            let key = StateKey {
                head_x: 5,
                head_y: 5,
                length: 1,
                food_x: fx,
                food_y: fy,
                direction: Direction::Up,
            };
            if agent.q_table.has_entry(key, 0) {
                seeded = true;
            }
        }
    }
    assert!(seeded);
}

#[test]
fn evaluation_with_zero_steps_returns_no_trace() {
    let mut env = SnakeEnv::new(10, 10);
    let mut agent = Agent::new(100, 900, 1000);
    let trace = evaluate(&mut agent, &mut env, 0);
    assert!(trace.is_empty());
}

#[test]
fn evaluation_trace_starts_at_the_reset_state() {
    let mut env = SnakeEnv::new(10, 10);
    let mut agent = Agent::new(100, 900, 1000);
    let trace = evaluate(&mut agent, &mut env, 5);
    assert!(!trace.is_empty());
    let first = trace[0].0;
    assert_eq!((first.head_x, first.head_y), (5, 5));
    assert_eq!(first.length, 1);
    assert_eq!(first.direction, Direction::Up);
    assert!(first.food_x < 10 && first.food_y < 10);
}

#[test]
fn training_seeds_the_table_with_visited_states() {
    let mut env = SnakeEnv::new(10, 10);
    let mut agent = Agent::new(100, 900, 1000);
    let _ = train(&mut agent, &mut env, 2, 25);
    // At least the reset state of the last episode was visited and seeded.
    assert!(!agent.q_table.rows.is_empty());
}

#[test]
fn evaluation_keeps_epsilon_and_estimates() {
    let mut env = SnakeEnv::new(10, 10);
    let mut agent = Agent::new(100, 900, 1000);
    let _ = train(&mut agent, &mut env, 5, 25);
    let eps_after_training = agent.epsilon;
    let first = env.get_state();
    let q_before = agent.q_table.get(first, 1);
    let trace = evaluate(&mut agent, &mut env, 30);
    assert!(trace.len() <= 30);
    assert!(!trace.is_empty());
    assert_eq!(agent.epsilon, eps_after_training);
    assert_eq!(agent.q_table.get(first, 1), q_before);
}

#[test]
fn evaluation_trace_reports_the_steps_taken() {
    let mut env = SnakeEnv::new(2, 1);
    let mut agent = Agent::new(100, 900, 0);
    // With epsilon 0 and an empty table the greedy tie-break picks action 0
    // every time. In a 2x1 grid that first turns left onto the food at
    // (0,0); the body then covers the grid, so the next move collides.
    let trace = evaluate(&mut agent, &mut env, 10);
    assert_eq!(trace.len(), 2);
    let (state, action, reward) = trace[0];
    assert_eq!((state.head_x, state.head_y), (1, 0));
    assert_eq!(action, 0);
    assert_eq!(reward, 10000);
    let (_state2, action2, reward2) = trace[1];
    assert_eq!(action2, 0);
    assert_eq!(reward2, -10000);
    assert!(env.done);
    assert_eq!(env.score, 1);
}

#[test]
fn training_learns_in_a_tiny_corridor() {
    // A longer smoke run: the loop must terminate, keep the schedule, and
    // leave a well-formed table behind.
    let mut env = SnakeEnv::new(5, 5);
    let mut agent = Agent::new(100, 900, 1000);
    let totals = train(&mut agent, &mut env, 120, 60);
    assert_eq!(totals.len(), 120);
    assert!(agent.epsilon >= 100 && agent.epsilon < 1000);
    assert!(!agent.q_table.rows.is_empty());
}
