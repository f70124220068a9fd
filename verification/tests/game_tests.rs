//! Behavioral tests for the grid-world physics: collision, growth,
//! movement, reset and reward shaping.

use snake_dqn::game::{
    init_scene, GridPos, PlayerStepAction, PlayerStepResult, Scene, SnakeOrientation,
};

fn fresh_scene() -> Scene {
    // Play area [-5, 5] x [-5, 5], walls on the ring one cell outside.
    init_scene(-5, -5, 5, 5)
}

#[test]
fn initial_pose() {
    let s = fresh_scene();
    assert_eq!(s.head_position(), GridPos::new(0, 3));
    assert_eq!(s.head_orientation(), SnakeOrientation::Up);
    assert_eq!(s.snake_len(), 3);
    assert_eq!(
        s.body_parts().as_slice(),
        &[GridPos::new(0, 0), GridPos::new(0, 1), GridPos::new(0, 2)]
    );
    assert_eq!(s.frame_iteration, 0);
    assert_eq!(s.punctuation, 0);
    // The food never spawns on an occupied cell or the head.
    let apple = s.apple_position();
    assert!(!s.is_collision(&apple));
    assert_ne!(apple, s.head_position());
}

#[test]
fn walls_ring_the_play_area() {
    let s = fresh_scene();
    assert!(s.is_collision(&GridPos::new(6, 0)));
    assert!(s.is_collision(&GridPos::new(-6, 0)));
    assert!(s.is_collision(&GridPos::new(2, 6)));
    assert!(s.is_collision(&GridPos::new(2, -6)));
    assert!(s.is_collision(&GridPos::new(6, 6)));
    assert!(s.is_collision(&GridPos::new(-6, -6)));
    // Beyond the ring and strictly inside, nothing is a wall.
    assert!(!s.is_collision(&GridPos::new(7, 0)));
    assert!(!s.is_collision(&GridPos::new(3, 3)));
    // The snake's body cells are obstacles, the head cell is not.
    assert!(s.is_collision(&GridPos::new(0, 0)));
    assert!(s.is_collision(&GridPos::new(0, 1)));
    assert!(s.is_collision(&GridPos::new(0, 2)));
    assert!(!s.is_collision(&GridPos::new(0, 3)));
}

#[test]
fn wall_ring_is_exact_on_an_asymmetric_arena() {
    let s = init_scene(-2, -1, 3, 4);
    for x in -4..=6 {
        for y in -3..=6 {
            let in_ring = (-3..=4).contains(&x) && (-2..=5).contains(&y);
            let in_play = (-2..=3).contains(&x) && (-1..=4).contains(&y);
            let on_wall = in_ring && !in_play;
            let on_body = x == 0 && (0..=2).contains(&y);
            assert_eq!(
                s.is_collision(&GridPos::new(x, y)),
                on_wall || on_body,
                "cell ({x}, {y})"
            );
        }
    }
}

#[test]
fn collision_with_wall_leaves_scene_unchanged() {
    let mut s = fresh_scene();
    s.set_apple(GridPos::new(3, -3));
    assert!(matches!(s.play_step(PlayerStepAction::Forward), PlayerStepResult::Nothing));
    assert!(matches!(s.play_step(PlayerStepAction::Forward), PlayerStepResult::Nothing));
    assert_eq!(s.head_position(), GridPos::new(0, 5));
    // The next cell up is the wall ring.
    let r = s.play_step(PlayerStepAction::Forward);
    assert!(matches!(r, PlayerStepResult::Collision));
    // Nothing moved: head, length, obstacles and counters are as before.
    assert_eq!(s.head_position(), GridPos::new(0, 5));
    assert_eq!(s.snake_len(), 3);
    assert_eq!(s.frame_iteration, 2);
    assert_eq!(s.punctuation, 0);
    assert!(s.is_collision(&GridPos::new(0, 4)));
    assert!(s.is_collision(&GridPos::new(0, 3)));
    assert!(s.is_collision(&GridPos::new(0, 2)));
}

#[test]
fn collision_with_own_body_is_detected() {
    let mut s = fresh_scene();
    s.set_apple(GridPos::new(3, -3));
    // Turn left twice, then turning left once more aims at a body cell.
    assert!(matches!(s.play_step(PlayerStepAction::Left), PlayerStepResult::Nothing));
    assert!(matches!(s.play_step(PlayerStepAction::Left), PlayerStepResult::Nothing));
    assert_eq!(s.head_position(), GridPos::new(-1, 2));
    assert_eq!(s.head_orientation(), SnakeOrientation::Down);
    let before_body: Vec<GridPos> = s.body_parts().clone();
    let r = s.play_step(PlayerStepAction::Left);
    assert!(matches!(r, PlayerStepResult::Collision));
    assert_eq!(s.head_position(), GridPos::new(-1, 2));
    assert_eq!(s.body_parts().as_slice(), before_body.as_slice());
}

#[test]
fn forward_into_food_grows_scores_and_respawns() {
    let mut s = fresh_scene();
    // Food directly one cell above the head.
    s.set_apple(GridPos::new(0, 4));
    let before = obstacle_map(&s);
    let old_head = s.head_position();
    let r = s.play_step(PlayerStepAction::Forward);
    assert!(matches!(r, PlayerStepResult::AppleEaten));
    // Pointwise: the obstacle set gained exactly the old head cell.
    for (p, was) in before {
        let expected = was || p == old_head;
        assert_eq!(s.is_collision(&p), expected, "cell {:?}", p);
    }
    assert_eq!(s.snake_len(), 4);
    assert_eq!(s.punctuation, 1);
    assert_eq!(s.frame_iteration, 1);
    assert_eq!(s.head_position(), GridPos::new(0, 4));
    // The old head cell joined the body; the tail stayed.
    assert!(s.is_collision(&GridPos::new(0, 3)));
    assert!(s.is_collision(&GridPos::new(0, 0)));
    // The food respawned outside the grown snake.
    let apple = s.apple_position();
    assert!(!s.is_collision(&apple));
    assert_ne!(apple, s.head_position());
}

fn obstacle_map(s: &Scene) -> Vec<(GridPos, bool)> {
    let mut cells = Vec::new();
    for x in -7..=7 {
        for y in -7..=7 {
            let p = GridPos::new(x, y);
            cells.push((p, s.is_collision(&p)));
        }
    }
    cells
}

#[test]
fn uneventful_move_shifts_obstacles_by_one_cell() {
    let mut s = fresh_scene();
    s.set_apple(GridPos::new(3, -3));
    let before = obstacle_map(&s);
    let old_tail = GridPos::new(0, 0);
    let old_head = s.head_position();
    let r = s.play_step(PlayerStepAction::Forward);
    assert!(matches!(r, PlayerStepResult::Nothing));
    // Pointwise: the obstacle set lost exactly the vacated tail cell
    // and gained exactly the old head cell.
    for (p, was) in before {
        let expected = (was && p != old_tail) || p == old_head;
        assert_eq!(s.is_collision(&p), expected, "cell {:?}", p);
    }
    assert_eq!(s.snake_len(), 3);
    assert_eq!(s.punctuation, 0);
    assert_eq!(s.frame_iteration, 1);
    assert_eq!(s.head_position(), GridPos::new(0, 4));
    // The vacated tail cell is free, the old head cell is now a body cell.
    assert!(!s.is_collision(&GridPos::new(0, 0)));
    assert!(s.is_collision(&GridPos::new(0, 3)));
    assert_eq!(
        s.body_parts().as_slice(),
        &[GridPos::new(0, 1), GridPos::new(0, 2), GridPos::new(0, 3)]
    );
    // The food did not move.
    assert_eq!(s.apple_position(), GridPos::new(3, -3));
}

#[test]
fn relative_actions_cannot_reverse() {
    // A single relative action never yields the opposite heading.
    let headings = [
        SnakeOrientation::Up,
        SnakeOrientation::Down,
        SnakeOrientation::Left,
        SnakeOrientation::Right,
    ];
    let actions = [PlayerStepAction::Forward, PlayerStepAction::Left, PlayerStepAction::Right];
    for h in headings.iter() {
        for a in actions.iter() {
            assert_ne!(a.rotate(h), h.opposite());
        }
        assert!(h.apply_to_action(&h.opposite()).is_none());
        assert!(h.apply_to_action(h).is_some());
    }
    assert_eq!(
        SnakeOrientation::Up.apply_to_action(&SnakeOrientation::Left),
        Some(PlayerStepAction::Left)
    );
    assert_eq!(
        PlayerStepAction::Right.rotate(&SnakeOrientation::Up),
        SnakeOrientation::Right
    );
    assert_eq!(
        PlayerStepAction::Left.rotate(&SnakeOrientation::Down),
        SnakeOrientation::Right
    );
}

#[test]
fn reset_restores_the_starting_episode() {
    let mut s = fresh_scene();
    s.set_apple(GridPos::new(0, 4));
    assert!(matches!(s.play_step(PlayerStepAction::Forward), PlayerStepResult::AppleEaten));
    s.set_apple(GridPos::new(-3, -3));
    assert!(matches!(s.play_step(PlayerStepAction::Right), PlayerStepResult::Nothing));
    s.reset();
    assert_eq!(s.head_position(), GridPos::new(0, 3));
    assert_eq!(s.head_orientation(), SnakeOrientation::Up);
    assert_eq!(s.snake_len(), 3);
    assert_eq!(s.frame_iteration, 0);
    assert_eq!(s.punctuation, 0);
    // Walls survive the reset, stale body cells do not.
    assert!(s.is_collision(&GridPos::new(6, 0)));
    assert!(!s.is_collision(&GridPos::new(1, 3)));
    assert!(s.is_collision(&GridPos::new(0, 0)));
    let apple = s.apple_position();
    assert!(!s.is_collision(&apple));
    assert_ne!(apple, s.head_position());
}

#[test]
fn step_feedback_rewards() {
    let mut s = fresh_scene();
    assert_eq!(s.step_feedback(&PlayerStepResult::AppleEaten), (10, false));
    assert_eq!(s.step_feedback(&PlayerStepResult::Nothing), (0, false));
    let frames_before = s.frame_iteration;
    assert_eq!(s.step_feedback(&PlayerStepResult::Collision), (-10, true));
    assert_eq!(s.frame_iteration, frames_before + 1);
    // Starvation: an uneventful tick past 100 frames per body cell ends
    // the episode.
    s.frame_iteration = 100 * s.snake_len() + 1;
    assert_eq!(s.step_feedback(&PlayerStepResult::Nothing), (-10, true));
    s.frame_iteration = 100 * s.snake_len();
    assert_eq!(s.step_feedback(&PlayerStepResult::Nothing), (0, false));
}

#[test]
fn food_respawn_is_always_free() {
    // Exercise the respawner many times on a tiny arena where free
    // cells are scarce.
    let mut s = init_scene(-1, -1, 1, 4);
    for _ in 0..200 {
        s.set_apple(GridPos::new(
            s.head_position().x,
            s.head_position().y + 1,
        ));
        let r = s.play_step(PlayerStepAction::Forward);
        assert!(matches!(r, PlayerStepResult::AppleEaten));
        let apple = s.apple_position();
        assert!(!s.is_collision(&apple));
        assert_ne!(apple, s.head_position());
        s.reset();
    }
}
