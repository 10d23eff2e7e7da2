use snake_rl::agent::Agent;
use snake_rl::agent::ValueTable;
use snake_rl::agent::td_update;
use snake_rl::snake_env::Direction;
use snake_rl::snake_env::StateKey;

fn key(head_x: usize, head_y: usize) -> StateKey {
    StateKey {
        head_x,
        head_y,
        length: 1,
        food_x: 0,
        food_y: 0,
        direction: Direction::Up,
    }
}

#[test]
fn update_rule_from_zero_is_exact() {
    // Q = 0, alpha = 0.1, gamma = 0.9, reward = 10, next best = 0:
    // the updated estimate is exactly 1.0 (1000 thousandths).
    let mut agent = Agent::new(100, 900, 0);
    let s = key(1, 1);
    let s2 = key(1, 2);
    agent.update_q(&s, 1, 10000, &s2, 0);
    assert_eq!(agent.q_table.get(s, 1), 1000);
}

#[test]
fn update_rule_moves_toward_target() {
    // Q = 1000, alpha = 0.5, gamma = 0.5, reward = 2000, next best = 4000:
    // target = 2000 + 2000 = 4000, so Q moves halfway: 1000 + 1500 = 2500.
    let mut agent = Agent::new(500, 500, 0);
    let s = key(3, 3);
    let s2 = key(3, 4);
    agent.update_q(&s, 0, 0, &s2, 0);
    assert_eq!(agent.q_table.get(s, 0), 0);
    agent.q_table.store(s, 2, 1000);
    agent.update_q(&s, 2, 2000, &s2, 4000);
    assert_eq!(agent.q_table.get(s, 2), 2500);
}

#[test]
fn update_saturates_at_the_i64_bound() {
    assert_eq!(td_update(i64::MAX, 1000, 1000, i64::MAX, i64::MAX), i64::MAX);
    assert_eq!(td_update(i64::MIN, 1000, 1000, i64::MIN, i64::MIN), i64::MIN);
}

#[test]
fn update_truncates_toward_zero() {
    // alpha = 0.1 of a delta of 5: 0.5 thousandths truncates to 0.
    assert_eq!(td_update(0, 100, 0, 5, 0), 0);
    assert_eq!(td_update(0, 100, 0, -5, 0), 0);
    assert_eq!(td_update(0, 100, 1000, 0, 15), 1);
}

#[test]
fn unseen_pairs_read_as_zero() {
    let table = ValueTable::new();
    assert_eq!(table.get(key(0, 0), 1), 0);
    assert!(!table.has_entry(key(0, 0), 1));
    assert_eq!(table.best_value(key(0, 0)), 0);
}

#[test]
fn choose_action_seeds_every_legal_action() {
    let mut agent = Agent::new(100, 900, 0);
    let s = key(4, 4);
    let legal = vec![0u8, 1, 2];
    let a = agent.choose_action(&s, &legal);
    assert!(legal.contains(&a));
    for b in [0u8, 1, 2] {
        assert!(agent.q_table.has_entry(s, b));
        assert_eq!(agent.q_table.get(s, b), 0);
    }
}

#[test]
fn seeding_respects_the_given_action_set() {
    let mut agent = Agent::new(100, 900, 0);
    let s = key(4, 5);
    let legal = vec![1u8, 2];
    let a = agent.choose_action(&s, &legal);
    assert!(legal.contains(&a));
    assert!(agent.q_table.has_entry(s, 1));
    assert!(agent.q_table.has_entry(s, 2));
    assert!(!agent.q_table.has_entry(s, 0));
}

#[test]
fn greedy_takes_the_best_stored_action() {
    let mut agent = Agent::new(100, 900, 0);
    let s = key(2, 2);
    agent.q_table.store(s, 0, 3000);
    agent.q_table.store(s, 1, 9000);
    agent.q_table.store(s, 2, 7000);
    let legal = vec![0u8, 1, 2];
    assert_eq!(agent.greedy_action(&s, &legal), 1);
    // With epsilon 0 selection never explores, so it picks the same.
    assert_eq!(agent.choose_action(&s, &legal), 1);
}

#[test]
fn greedy_breaks_ties_toward_the_first_scanned() {
    let mut agent = Agent::new(100, 900, 0);
    let s = key(2, 3);
    agent.q_table.store(s, 0, 7000);
    agent.q_table.store(s, 1, 7000);
    agent.q_table.store(s, 2, 5000);
    assert_eq!(agent.greedy_action(&s, &vec![0u8, 1, 2]), 0);
    // Scanning in another order changes the winner of the tie.
    assert_eq!(agent.greedy_action(&s, &vec![1u8, 0, 2]), 1);
}

#[test]
fn greedy_prefers_unseen_zero_over_negative() {
    let mut agent = Agent::new(100, 900, 0);
    let s = key(6, 6);
    agent.q_table.store(s, 0, -2000);
    agent.q_table.store(s, 2, -1000);
    assert_eq!(agent.greedy_action(&s, &vec![0u8, 1, 2]), 1);
}

#[test]
fn update_leaves_other_entries_alone() {
    let mut agent = Agent::new(100, 900, 0);
    let s = key(1, 5);
    let other = key(5, 1);
    agent.q_table.store(s, 0, 4000);
    agent.q_table.store(other, 1, 6000);
    agent.update_q(&s, 1, 10000, &other, 0);
    assert_eq!(agent.q_table.get(s, 0), 4000);
    assert_eq!(agent.q_table.get(other, 1), 6000);
    assert_eq!(agent.q_table.get(s, 1), 1000);
}

#[test]
fn best_value_is_the_row_maximum() {
    let mut table = ValueTable::new();
    let s = key(7, 7);
    table.store(s, 0, -3000);
    assert_eq!(table.best_value(s), -3000);
    table.store(s, 1, 2000);
    table.store(s, 2, 1500);
    assert_eq!(table.best_value(s), 2000);
    table.store(s, 1, -500);
    assert_eq!(table.best_value(s), 1500);
}

#[test]
fn store_overwrites_in_place() {
    let mut table = ValueTable::new();
    let s = key(9, 9);
    table.store(s, 1, 1234);
    assert_eq!(table.get(s, 1), 1234);
    table.store(s, 1, -4321);
    assert_eq!(table.get(s, 1), -4321);
    assert!(table.has_entry(s, 1));
    assert!(!table.has_entry(s, 0));
}
