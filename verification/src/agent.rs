//! The learning agent's decision core: state encoding, epsilon-greedy
//! action selection, the replay memory, and the assembly of training
//! batches. The value network and the optimizer live outside the
//! library, behind the floating-point boundary: the agent hands them
//! size-exact batches and takes the network's greedy action index as an
//! argument.

use crate::game::{PlayerStepAction, Scene, SnakeOrientation};
use crate::model::{Snapshot, SnapshotConcat, ACTION_SIZE, STATE_SIZE};
use crate::rng;
use crate::utils::{pushed, FixedVecDeque};
use vstd::prelude::*;

verus! {

/// How many transitions the replay memory holds before evicting.
pub const MAX_MEMORY: usize = 100000;

/// How many transitions one long-memory batch holds at most.
pub const BATCH_SIZE: usize = 1000;

/// The games threshold after which the agent stops exploring.
pub const EXPLORATION_GAMES: usize = 80;

/// The one-hot vector of length `ACTION_SIZE` whose only set flag sits
/// at index `h`.
pub open spec fn one_hot(h: int) -> Seq<bool> {
    seq![h == 0, h == 1, h == 2]
}

/// Whether batch entry `k` equals some transition currently in `mem`.
pub open spec fn entry_from(batch: SnapshotConcat, k: int, mem: Seq<Snapshot>) -> bool {
    exists|m: int| 0 <= m < mem.len() && batch.entry_is(k, mem[m])
}

/// Whether `pos` exhibits the batch as a sample of `mem` drawn without
/// replacement: one memory position per batch entry, all positions
/// pairwise distinct, and entry `k` equal to the transition stored at
/// `pos[k]`.
pub open spec fn drawn_without_replacement(
    batch: SnapshotConcat,
    pos: Seq<int>,
    mem: Seq<Snapshot>,
) -> bool {
    &&& pos.len() == batch.dones().len()
    &&& forall|k: int| 0 <= k < pos.len() ==> 0 <= #[trigger] pos[k] < mem.len()
    &&& forall|k1: int, k2: int|
        0 <= k1 < k2 < pos.len() ==> #[trigger] pos[k1] != #[trigger] pos[k2]
    &&& forall|k: int| 0 <= k < pos.len() ==> batch.entry_is(k, mem[#[trigger] pos[k]])
}

/// The replay memory, the games-played counter that drives exploration
/// decay, and the batch size for long-memory training. The counter is
/// advanced by the outer training loop; the network and the optimizer
/// stay outside the library.
pub struct Agent {
    /// Completed games so far; drives exploration decay.
    pub n_games: usize,
    memory: FixedVecDeque<Snapshot>,
    batch_size: usize,
}

impl Agent {
    /// Completed games so far.
    pub closed spec fn games(&self) -> usize {
        self.n_games
    }

    /// The stored transitions, oldest first.
    pub closed spec fn memory_view(&self) -> Seq<Snapshot> {
        self.memory@
    }

    /// The replay memory's fixed capacity.
    pub closed spec fn spec_memory_capacity(&self) -> usize {
        self.memory.spec_max_len()
    }

    /// The long-memory batch size.
    pub closed spec fn spec_batch_size(&self) -> usize {
        self.batch_size
    }

    /// A fresh agent with an empty memory of the given capacity.
    pub fn new(memory_capacity: usize, batch_size: usize) -> (a: Self)
        ensures
            a.memory_view() == Seq::<Snapshot>::empty(),
            a.spec_memory_capacity() == memory_capacity,
            a.spec_batch_size() == batch_size,
            a.games() == 0,
    {
        Self { n_games: 0, memory: FixedVecDeque::new(memory_capacity), batch_size }
    }

    /// The 11-flag encoding of a scene for the value network: whether
    /// moving straight, right or left from the head would hit an
    /// obstacle; the one-hot current heading {left, right, up, down};
    /// and on which side of the head the food lies, per axis.
    pub fn get_state(scene: &Scene) -> (state: [bool; STATE_SIZE])
        requires
            scene.wf(),
        ensures
            state@[0] == scene.obstructs(
                scene.step_target(PlayerStepAction::Forward).0,
                scene.step_target(PlayerStepAction::Forward).1,
            ),
            state@[1] == scene.obstructs(
                scene.step_target(PlayerStepAction::Right).0,
                scene.step_target(PlayerStepAction::Right).1,
            ),
            state@[2] == scene.obstructs(
                scene.step_target(PlayerStepAction::Left).0,
                scene.step_target(PlayerStepAction::Left).1,
            ),
            state@[3] == (scene.heading() is Left),
            state@[4] == (scene.heading() is Right),
            state@[5] == (scene.heading() is Up),
            state@[6] == (scene.heading() is Down),
            state@[7] == (scene.apple().0 < scene.head().0),
            state@[8] == (scene.apple().0 > scene.head().0),
            state@[9] == (scene.apple().1 < scene.head().1),
            state@[10] == (scene.apple().1 > scene.head().1),
    {
        let head = scene.head_position();
        let heading = scene.head_orientation();
        let food = scene.apple_position();

        let danger_straight = scene.is_collision(
            &PlayerStepAction::Forward.rotate(&heading).next(&head),
        );
        let danger_right = scene.is_collision(
            &PlayerStepAction::Right.rotate(&heading).next(&head),
        );
        let danger_left = scene.is_collision(&PlayerStepAction::Left.rotate(&heading).next(&head));

        [
            danger_straight,
            danger_right,
            danger_left,
            heading == SnakeOrientation::Left,
            heading == SnakeOrientation::Right,
            heading == SnakeOrientation::Up,
            heading == SnakeOrientation::Down,
            food.x < head.x,
            food.x > head.x,
            food.y < head.y,
            food.y > head.y,
        ]
    }

    /// Stores one transition, evicting the oldest once the memory sits
    /// at capacity.
    pub fn remember(&mut self, snapshot: Snapshot)
        ensures
            final(self).memory_view() == pushed(
                old(self).memory_view(),
                old(self).spec_memory_capacity(),
                snapshot,
            ),
            final(self).spec_memory_capacity() == old(self).spec_memory_capacity(),
            final(self).spec_batch_size() == old(self).spec_batch_size(),
            final(self).games() == old(self).games(),
    {
        self.memory.push(snapshot);
    }

    /// How many transitions the memory currently holds.
    pub fn memory_len(&self) -> (n: usize)
        ensures
            n == self.memory_view().len(),
    {
        self.memory.len()
    }

    /// Assembles one long-memory training batch: when the memory holds
    /// more than one batch's worth, a uniform random sample without
    /// replacement — `batch_size` transitions drawn from pairwise
    /// distinct memory positions; otherwise the entire memory, in
    /// storage order. The caller hands the batch to the optimizer for
    /// one gradient step.
    pub fn train_long_memory(&self) -> (batch: SnapshotConcat)
        requires
            self.spec_batch_size() as int <= usize::MAX as int / (STATE_SIZE as int),
            self.memory_view().len() as int <= usize::MAX as int / (STATE_SIZE as int),
        ensures
            batch.wf(),
            batch.dones().len() == batch.spec_target_size(),
            batch.spec_target_size() == if self.memory_view().len() > self.spec_batch_size() {
                self.spec_batch_size()
            } else {
                self.memory_view().len() as usize
            },
            self.memory_view().len() > self.spec_batch_size() ==> exists|pos: Seq<int>|
                drawn_without_replacement(batch, pos, self.memory_view()),
            self.memory_view().len() <= self.spec_batch_size() ==> forall|k: int|
                0 <= k < self.memory_view().len() ==> #[trigger] batch.entry_is(
                    k,
                    self.memory_view()[k],
                ),
            forall|k: int|
                0 <= k < batch.dones().len() ==> #[trigger] entry_from(
                    batch,
                    k,
                    self.memory_view(),
                ),
    {
        let mem_len = self.memory.len();
        if mem_len > self.batch_size {
            let indices = rng::sample_indices(mem_len, self.batch_size);
            let mut batch = SnapshotConcat::building(self.batch_size);
            let mut i: usize = 0;
            while i < indices.len()
                invariant
                    self.spec_batch_size() as int <= usize::MAX as int / (STATE_SIZE as int),
                    indices@.len() == self.spec_batch_size(),
                    forall|t: int| 0 <= t < indices@.len() ==> #[trigger] indices@[t]
                        < self.memory_view().len(),
                    i <= indices@.len(),
                    batch.wf(),
                    batch.spec_target_size() == self.spec_batch_size(),
                    batch.dones().len() == i,
                    forall|k: int| 0 <= k < i ==> #[trigger] batch.entry_is(
                        k,
                        self.memory_view()[indices@[k] as int],
                    ),
                decreases indices@.len() - i,
            {
                let ghost pre = batch;
                let j = indices[i];
                let stored = self.memory.as_deque();
                proof {
                    assert(indices@[i as int] < self.memory_view().len());
                    assert(stored@ == self.memory_view());
                }
                batch.push(&stored[j]);
                proof {
                    assert(batch.entry_is(i as int, self.memory_view()[j as int]));
                    assert forall|k: int| 0 <= k < i + 1 implies #[trigger] batch.entry_is(
                        k,
                        self.memory_view()[indices@[k] as int],
                    ) by {
                        if k < i {
                            assert(pre.entry_is(k, self.memory_view()[indices@[k] as int]));
                        }
                    }
                }
                i = i + 1;
            }
            proof {
                let ghost mem = self.memory_view();
                let ghost pos = Seq::new(indices@.len(), |k: int| indices@[k] as int);
                assert forall|k: int| 0 <= k < pos.len() implies 0 <= #[trigger] pos[k]
                    < mem.len() by {
                    assert(indices@[k] < mem.len());
                }
                assert forall|k1: int, k2: int|
                    0 <= k1 < k2 < pos.len() implies #[trigger] pos[k1] != #[trigger] pos[k2] by {
                    assert(indices@[k1] != indices@[k2]);
                }
                assert forall|k: int| 0 <= k < pos.len() implies batch.entry_is(
                    k,
                    mem[#[trigger] pos[k]],
                ) by {
                    assert(batch.entry_is(k, mem[indices@[k] as int]));
                }
                assert(drawn_without_replacement(batch, pos, mem));
                assert forall|k: int|
                    0 <= k < batch.dones().len() implies #[trigger] entry_from(
                    batch,
                    k,
                    mem,
                ) by {
                    assert(batch.entry_is(k, mem[pos[k]]));
                }
            }
            batch
        } else {
            let mut batch = SnapshotConcat::building(mem_len);
            let mut i: usize = 0;
            while i < mem_len
                invariant
                    mem_len == self.memory_view().len(),
                    mem_len as int <= usize::MAX as int / (STATE_SIZE as int),
                    i <= mem_len,
                    batch.wf(),
                    batch.spec_target_size() == mem_len,
                    batch.dones().len() == i,
                    forall|k: int| 0 <= k < i ==> #[trigger] batch.entry_is(
                        k,
                        self.memory_view()[k],
                    ),
                decreases mem_len - i,
            {
                let ghost pre = batch;
                let stored = self.memory.as_deque();
                proof {
                    assert(stored@ == self.memory_view());
                }
                batch.push(&stored[i]);
                proof {
                    assert(batch.entry_is(i as int, self.memory_view()[i as int]));
                    assert forall|k: int| 0 <= k < i + 1 implies #[trigger] batch.entry_is(
                        k,
                        self.memory_view()[k],
                    ) by {
                        if k < i {
                            assert(pre.entry_is(k, self.memory_view()[k]));
                        }
                    }
                }
                i = i + 1;
            }
            proof {
                assert forall|k: int|
                    0 <= k < batch.dones().len() implies #[trigger] entry_from(
                    batch,
                    k,
                    self.memory_view(),
                ) by {
                    assert(batch.entry_is(k, self.memory_view()[k]));
                }
            }
            batch
        }
    }

    /// Assembles a batch of the `count` most recently stored
    /// transitions, in storage order. Asking for more than the memory
    /// holds is a caller bug, ruled out by the precondition.
    pub fn train_with_last(&self, count: usize) -> (batch: SnapshotConcat)
        requires
            count <= self.memory_view().len(),
            count as int <= usize::MAX as int / (STATE_SIZE as int),
        ensures
            batch.wf(),
            batch.dones().len() == count,
            batch.spec_target_size() == count,
            forall|k: int|
                0 <= k < count ==> #[trigger] batch.entry_is(
                    k,
                    self.memory_view()[self.memory_view().len() - count + k],
                ),
    {
        let mem_len = self.memory.len();
        let mut batch = SnapshotConcat::building(count);
        let mut i: usize = mem_len - count;
        while i < mem_len
            invariant
                mem_len == self.memory_view().len(),
                count <= mem_len,
                count as int <= usize::MAX as int / (STATE_SIZE as int),
                mem_len - count <= i <= mem_len,
                batch.wf(),
                batch.spec_target_size() == count,
                batch.dones().len() == i - (mem_len - count),
                forall|k: int|
                    0 <= k < i - (mem_len - count) ==> #[trigger] batch.entry_is(
                        k,
                        self.memory_view()[mem_len - count + k],
                    ),
            decreases mem_len - i,
        {
            let ghost pre = batch;
            let stored = self.memory.as_deque();
            proof {
                assert(stored@ == self.memory_view());
            }
            batch.push(&stored[i]);
            proof {
                let base = mem_len - count;
                assert(batch.entry_is(i - base, self.memory_view()[i as int]));
                assert forall|k: int|
                    0 <= k < i + 1 - base implies #[trigger] batch.entry_is(
                    k,
                    self.memory_view()[base + k],
                ) by {
                    if k < i - base {
                        assert(pre.entry_is(k, self.memory_view()[base + k]));
                    }
                }
            }
            i = i + 1;
        }
        batch
    }

    /// Epsilon-greedy action selection. `greedy_move` is the index of
    /// the action the value network rates best for the current state,
    /// which the caller computes. With probability
    /// `max(0, 80 - n_games) / 200` the agent explores instead, drawing
    /// uniformly from the first two action indices only (exploration
    /// never draws the third). From the 80th game on, the exploration
    /// probability is zero and the choice is purely greedy.
    pub fn get_action(&self, greedy_move: usize) -> (one_hot_move: [bool; ACTION_SIZE])
        requires
            greedy_move < ACTION_SIZE,
        ensures
            exists|h: int|
                0 <= h < ACTION_SIZE && one_hot_move@ == one_hot(h) && (h == greedy_move as int || h
                    < 2),
            self.games() >= EXPLORATION_GAMES ==> one_hot_move@ == one_hot(greedy_move as int),
    {
        let draw = rng::rand_below(200);
        let explore = self.n_games < EXPLORATION_GAMES && draw < EXPLORATION_GAMES - self.n_games;
        let hot: usize = if explore {
            rng::rand_below(2)
        } else {
            greedy_move
        };
        let one_hot_move = [hot == 0, hot == 1, hot == 2];
        proof {
            assert(one_hot_move@ =~= one_hot(hot as int));
        }
        one_hot_move
    }
}

/// The relative step action that a one-hot action vector encodes; the
/// column order is forward, left, right.
pub fn action_from_one_hot(raw: &[bool; ACTION_SIZE]) -> (a: PlayerStepAction)
    ensures
        a == (if raw@[0] {
            PlayerStepAction::Forward
        } else if raw@[1] {
            PlayerStepAction::Left
        } else {
            PlayerStepAction::Right
        }),
{
    if raw[0] {
        PlayerStepAction::Forward
    } else if raw[1] {
        PlayerStepAction::Left
    } else {
        PlayerStepAction::Right
    }
}

} // verus!

