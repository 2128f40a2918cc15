use traffic_sim::qlearning::{first_max_index, QLearning, EPSILON_SCALE};

fn obs(values: [u64; 9]) -> Vec<u64> {
    values.to_vec()
}

#[test]
fn first_max_index_takes_first_of_ties() {
    assert_eq!(first_max_index(&vec![1, 5, 3, 5]), 1);
    assert_eq!(first_max_index(&vec![7]), 0);
    assert_eq!(first_max_index(&vec![0, 0, 0]), 0);
    assert_eq!(first_max_index(&vec![1, 2, 3, 4, 5, 6, 7, 8, 9]), 8);
}

#[test]
fn new_table_is_zero() {
    let q = QLearning::new(9, 5);
    assert_eq!(q.state_size(), 9);
    assert_eq!(q.action_size(), 5);
    for s in 0..9 {
        for a in 0..5 {
            assert_eq!(q.q_value(s, a), 0);
        }
    }
    assert_eq!(q.table_sum(), 0);
    assert_eq!(q.epsilon(), EPSILON_SCALE);
}

#[test]
fn update_follows_the_tabular_rule() {
    let mut q = QLearning::new(9, 5);
    let state = obs([3, 0, 0, 0, 0, 0, 0, 0, 1]);
    let next = obs([0, 0, 0, 0, 0, 0, 0, 0, 9]);
    // Row 0, action 2: 0 + 0.1 * (-1.0 + 0.99 * 0 - 0).
    q.update(&state, 2, -1000000, &next);
    assert_eq!(q.q_value(0, 2), -100000);
    assert_eq!(q.table_sum(), -100000);
    // Row 8 selected by the next observation; its best value is 0.
    q.update(&next, 4, -500000, &state);
    // Best of row 0 is 0 (action 0): 0 + 0.1 * (-0.5 + 0.99 * 0) = -0.05.
    assert_eq!(q.q_value(8, 4), -50000);
    // Again on row 0, action 2: -0.1 + 0.1 * (-1.0 + 0.99 * 0 + 0.1) = -0.19.
    q.update(&state, 2, -1000000, &next);
    assert_eq!(q.q_value(0, 2), -190000);
    // Positive rewards move values up, rounding towards zero.
    q.update(&next, 1, 333333, &next);
    assert_eq!(q.q_value(8, 1), 33333);
    assert_eq!(q.table_sum(), -190000 - 50000 + 33333);
}

#[test]
fn epsilon_decays_geometrically() {
    let mut q = QLearning::new(9, 5);
    let state = obs([1, 0, 0, 0, 0, 0, 0, 0, 0]);
    let mut previous = q.epsilon();
    let mut exact = EPSILON_SCALE as f64;
    for k in 1..=2000u32 {
        q.update(&state, 0, 0, &state);
        let e = q.epsilon();
        exact *= 0.995;
        assert!(e <= previous);
        assert!(e > 0);
        assert!(e as f64 >= exact * (1.0 - 1e-9));
        assert!(e as f64 <= exact + k as f64 + 1.0);
        previous = e;
    }
    let mut one = QLearning::new(9, 5);
    one.update(&state, 0, 0, &state);
    assert_eq!(one.epsilon(), 995000000000);
}

#[test]
fn epsilon_never_reaches_zero() {
    let mut q = QLearning::new(2, 2);
    let state = vec![1, 0];
    for _ in 0..10000 {
        q.update(&state, 0, 0, &state);
    }
    assert!(q.epsilon() >= 1);
}

#[test]
fn choose_action_explores_below_epsilon() {
    let mut q = QLearning::new(9, 5);
    let state = obs([0, 4, 0, 0, 0, 0, 0, 0, 0]);
    q.update(&state, 3, 1000000, &state);
    assert_eq!(q.q_value(1, 3), 100000);
    let eps = q.epsilon();
    assert_eq!(q.choose_action_with(&state, eps - 1, 4), 4);
    assert_eq!(q.choose_action_with(&state, eps, 4), 3);
    assert_eq!(q.greedy_action(&state), 3);
    // A row of zeros picks the first action.
    assert_eq!(q.greedy_action(&obs([9, 4, 0, 0, 0, 0, 0, 0, 0])), 0);
    for _ in 0..50 {
        assert!(q.choose_action(&state) < 5);
    }
}
