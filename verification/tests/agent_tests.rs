//! Behavioral tests for the agent's decision core: state encoding,
//! replay memory eviction, batch assembly, epsilon-greedy selection and
//! the Bellman target construction.

use snake_dqn::agent::{action_from_one_hot, Agent};
use snake_dqn::game::{init_scene, GridPos, PlayerStepAction, PlayerStepResult};
use snake_dqn::model::{
    bellman_targets, build_targets, taken_action_index, Snapshot, SnapshotConcat,
};
use snake_dqn::utils::FixedVecDeque;

fn snapshot_with_reward(reward: i32) -> Snapshot {
    Snapshot {
        state: [false; 11],
        action: [true, false, false],
        reward,
        next_state: [false; 11],
        done: false,
    }
}

#[test]
fn state_encoding_flags() {
    let mut s = init_scene(-5, -5, 5, 5);
    // Head at (0, 3) heading up, food to the upper right.
    s.set_apple(GridPos::new(3, 4));
    let state = Agent::get_state(&s);
    // No obstacle straight (0, 4), right (1, 3) or left (-1, 3).
    assert_eq!(&state[0..3], &[false, false, false]);
    // Heading one-hot {left, right, up, down}.
    assert_eq!(&state[3..7], &[false, false, true, false]);
    // Food: not left of the head, right of it; not below it, above it.
    assert_eq!(&state[7..11], &[false, true, false, true]);

    // Turn left once: heading left, head at (-1, 3); the food at
    // (3, -3) now lies to the right of and below the head.
    let mut s = init_scene(-5, -5, 5, 5);
    s.set_apple(GridPos::new(3, -3));
    assert!(matches!(s.play_step(PlayerStepAction::Left), PlayerStepResult::Nothing));
    let state = Agent::get_state(&s);
    assert_eq!(&state[3..7], &[true, false, false, false]);
    // Straight (-2, 3), relative right (-1, 4) and relative left
    // (-1, 2) are all free.
    assert_eq!(&state[0..3], &[false, false, false]);
    assert_eq!(&state[7..11], &[false, true, true, false]);

    // Drive into the column next to the left wall: danger straight.
    for _ in 0..4 {
        assert!(matches!(s.play_step(PlayerStepAction::Forward), PlayerStepResult::Nothing));
    }
    assert_eq!(s.head_position(), GridPos::new(-5, 3));
    let state = Agent::get_state(&s);
    assert_eq!(&state[0..3], &[true, false, false]);
}

#[test]
fn replay_memory_evicts_oldest() {
    let mut deque: FixedVecDeque<i32> = FixedVecDeque::new(2);
    assert_eq!(deque.len(), 0);
    deque.push(1);
    deque.push(2);
    assert_eq!(deque.len(), 2);
    deque.push(3);
    // Capacity + 1 pushes: occupancy stays at capacity, the oldest
    // entry is gone, the rest kept their order.
    assert_eq!(deque.len(), 2);
    let entries: Vec<i32> = deque.as_deque().iter().copied().collect();
    assert_eq!(entries, vec![2, 3]);
}

#[test]
fn agent_memory_evicts_oldest_transition() {
    let mut agent = Agent::new(3, 2);
    for r in 0..4 {
        agent.remember(snapshot_with_reward(r));
    }
    assert_eq!(agent.memory_len(), 3);
    // The surviving transitions are exactly the last three, in order;
    // the evicted first transition (reward 0) is gone.
    let batch = agent.train_with_last(3);
    assert_eq!(batch.reward, vec![1, 2, 3]);
}

#[test]
fn last_batch_takes_the_most_recent_in_order() {
    let mut agent = Agent::new(10, 5);
    for r in 0..6 {
        agent.remember(snapshot_with_reward(10 * r));
    }
    let batch = agent.train_with_last(2);
    assert!(batch.is_built());
    assert_eq!(batch.reward, vec![40, 50]);
    assert_eq!(batch.done.len(), 2);
    assert_eq!(batch.state.len(), 22);
    assert_eq!(batch.action.len(), 6);
}

#[test]
fn long_memory_batch_sizes() {
    let mut agent = Agent::new(100, 4);
    for r in 0..3 {
        agent.remember(snapshot_with_reward(r));
    }
    // Fewer transitions than one batch: train on all of them.
    let batch = agent.train_long_memory();
    assert!(batch.is_built());
    assert_eq!(batch.done.len(), 3);
    assert_eq!(batch.reward, vec![0, 1, 2]);

    for r in 3..20 {
        agent.remember(snapshot_with_reward(r));
    }
    // More than one batch's worth: a sample of exactly batch_size, all
    // of it drawn from the stored transitions — and since the sample is
    // drawn without replacement from pairwise-distinct transitions, no
    // transition appears twice.
    let batch = agent.train_long_memory();
    assert!(batch.is_built());
    assert_eq!(batch.done.len(), 4);
    for r in batch.reward.iter() {
        assert!((0..20).contains(r));
    }
    let mut rewards = batch.reward.clone();
    rewards.sort();
    for pair in rewards.windows(2) {
        assert_ne!(pair[0], pair[1]);
    }
}

#[test]
fn buffer_occupancy_is_pushes_capped_at_capacity() {
    let mut deque: FixedVecDeque<u32> = FixedVecDeque::new(3);
    for n in 1..=10u32 {
        deque.push(n);
        let expected = if (n as usize) <= 3 { n as usize } else { 3 };
        assert_eq!(deque.len(), expected);
    }
}

#[test]
fn greedy_selection_after_exploration_decays() {
    let mut agent = Agent::new(10, 2);
    agent.n_games = 80;
    // From the 80th game on, the injected randomness is zero: the
    // greedy action comes back every single time.
    for _ in 0..300 {
        assert_eq!(agent.get_action(2), [false, false, true]);
    }
    agent.n_games = 500;
    for _ in 0..100 {
        assert_eq!(agent.get_action(1), [false, true, false]);
    }
}

#[test]
fn exploration_never_draws_the_third_action() {
    // As observed in this design: the exploration branch draws only the
    // first two action indices. With the greedy move pinned to index 0,
    // index 1 can only come from exploration and index 2 can come from
    // nowhere.
    let mut agent = Agent::new(10, 2);
    agent.n_games = 0;
    let mut explored = 0;
    for _ in 0..500 {
        let one_hot = agent.get_action(0);
        assert_ne!(one_hot, [false, false, true]);
        let set: usize = one_hot.iter().filter(|b| **b).count();
        assert_eq!(set, 1);
        if one_hot == [false, true, false] {
            explored += 1;
        }
    }
    // Exploration probability is 80/200 = 0.4, and half of the draws
    // land on index 1: seeing none in 500 calls is practically
    // impossible.
    assert!(explored > 0);
}

#[test]
fn one_hot_round_trip() {
    assert_eq!(
        action_from_one_hot(&[true, false, false]),
        PlayerStepAction::Forward
    );
    assert_eq!(
        action_from_one_hot(&[false, true, false]),
        PlayerStepAction::Left
    );
    assert_eq!(
        action_from_one_hot(&[false, false, true]),
        PlayerStepAction::Right
    );
    assert_eq!(taken_action_index(&[true, false, false]), 0);
    assert_eq!(taken_action_index(&[false, true, false]), 1);
    assert_eq!(taken_action_index(&[false, false, true]), 2);
}

#[test]
fn snapshot_concat_is_size_exact() {
    let mut batch = SnapshotConcat::building(2);
    assert!(!batch.is_built());
    assert_eq!(batch.len(), 0);
    batch.push(&snapshot_with_reward(7));
    assert!(!batch.is_built());
    batch.push(&Snapshot {
        state: [true; 11],
        action: [false, false, true],
        reward: -3,
        next_state: [true; 11],
        done: true,
    });
    assert!(batch.is_built());
    assert_eq!(batch.len(), 2);
    assert_eq!(batch.reward, vec![7, -3]);
    assert_eq!(batch.done, vec![false, true]);
    assert_eq!(batch.state.len(), 22);
    assert_eq!(&batch.state[0..11], &[false; 11]);
    assert_eq!(&batch.state[11..22], &[true; 11]);
    assert_eq!(batch.action, vec![true, false, false, false, false, true]);
}

#[test]
fn bellman_target_is_reward_when_done() {
    // One-sample batch, done: the target for the taken action column is
    // the reward exactly, with no bootstrap term.
    let rewards: Vec<f32> = vec![-10.0];
    let bootstrapped: Vec<f32> = vec![123.456];
    let q = bellman_targets(&rewards, &bootstrapped, &vec![true]);
    assert_eq!(q, vec![-10.0]);
    // Not done: the bootstrapped value (reward + gamma * max of the
    // next state's estimates, computed by the float side) flows through.
    let q = bellman_targets(&rewards, &bootstrapped, &vec![false]);
    assert_eq!(q, vec![123.456]);
}

#[test]
fn masked_targets_overwrite_only_the_taken_column() {
    let pred: Vec<f32> = vec![1.0, 2.0, 3.0, 4.0, 5.0, 6.0];
    let taken: Vec<usize> = vec![1, 2];
    let q_new: Vec<f32> = vec![7.5, -2.5];
    let target = build_targets(&pred, &taken, &q_new);
    assert_eq!(target, vec![1.0, 7.5, 3.0, 4.0, 5.0, -2.5]);
}
