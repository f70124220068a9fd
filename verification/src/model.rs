//! Transition records, size-exact training batches, and the decision
//! core of the Bellman update: which value each target slot receives.
//! The value network itself and the gradient step live outside the
//! library, behind the floating-point boundary; everything they decide
//! *with* — masking, done-gating, batch assembly — is here.

use vstd::prelude::*;

verus! {

/// Length of the encoded state vector.
pub const STATE_SIZE: usize = 11;

/// Number of actions the agent can take on one tick.
pub const ACTION_SIZE: usize = 3;

/// One transition: the encoded state, the one-hot action taken in it,
/// the reward earned, the encoded state after the tick, and whether the
/// episode ended there. Immutable once created.
pub struct Snapshot {
    pub state: [bool; STATE_SIZE],
    pub action: [bool; ACTION_SIZE],
    pub reward: i32,
    pub next_state: [bool; STATE_SIZE],
    pub done: bool,
}

/// A training batch under construction: the fields of the pushed
/// snapshots, concatenated in push order. The batch declares an exact
/// target size up front; it is built once `target_size` snapshots have
/// been pushed, and takes none past that.
pub struct SnapshotConcat {
    pub state: Vec<bool>,
    pub action: Vec<bool>,
    pub reward: Vec<i32>,
    pub next_state: Vec<bool>,
    pub done: Vec<bool>,
    target_size: usize,
}

impl SnapshotConcat {
    /// The concatenated state rows, `STATE_SIZE` entries per snapshot.
    pub closed spec fn states(&self) -> Seq<bool> {
        self.state@
    }

    /// The concatenated one-hot actions, `ACTION_SIZE` entries per
    /// snapshot.
    pub closed spec fn actions(&self) -> Seq<bool> {
        self.action@
    }

    /// The rewards, one per snapshot.
    pub closed spec fn rewards(&self) -> Seq<i32> {
        self.reward@
    }

    /// The concatenated next-state rows.
    pub closed spec fn next_states(&self) -> Seq<bool> {
        self.next_state@
    }

    /// The episode-over flags, one per snapshot.
    pub closed spec fn dones(&self) -> Seq<bool> {
        self.done@
    }

    /// The exact number of snapshots the batch was declared for.
    pub closed spec fn spec_target_size(&self) -> usize {
        self.target_size
    }

    /// The parallel fields stay in lockstep and never run past the
    /// declared size.
    pub open spec fn wf(&self) -> bool {
        &&& self.states().len() == self.dones().len() * (STATE_SIZE as int)
        &&& self.actions().len() == self.dones().len() * (ACTION_SIZE as int)
        &&& self.rewards().len() == self.dones().len()
        &&& self.next_states().len() == self.dones().len() * (STATE_SIZE as int)
        &&& self.dones().len() <= self.spec_target_size()
    }

    /// Batch entry `k` holds exactly the snapshot `s`.
    pub open spec fn entry_is(&self, k: int, s: Snapshot) -> bool {
        &&& self.states().subrange(k * (STATE_SIZE as int), (k + 1) * (STATE_SIZE as int))
            == s.state@
        &&& self.actions().subrange(k * (ACTION_SIZE as int), (k + 1) * (ACTION_SIZE as int))
            == s.action@
        &&& self.rewards()[k] == s.reward
        &&& self.next_states().subrange(k * (STATE_SIZE as int), (k + 1) * (STATE_SIZE as int))
            == s.next_state@
        &&& self.dones()[k] == s.done
    }

    /// An empty batch that declares its exact final size.
    pub fn building(target_size: usize) -> (c: Self)
        requires
            target_size as int <= usize::MAX as int / (STATE_SIZE as int),
        ensures
            c.wf(),
            c.dones().len() == 0,
            c.spec_target_size() == target_size,
    {
        Self {
            state: Vec::with_capacity(target_size * STATE_SIZE),
            action: Vec::with_capacity(target_size * ACTION_SIZE),
            reward: Vec::with_capacity(target_size),
            next_state: Vec::with_capacity(target_size * STATE_SIZE),
            done: Vec::with_capacity(target_size),
            target_size,
        }
    }

    /// Appends one snapshot's fields. Pushing into a built (full) batch
    /// is a caller bug, ruled out by the precondition.
    pub fn push(&mut self, snapshot: &Snapshot)
        requires
            old(self).wf(),
            old(self).dones().len() < old(self).spec_target_size(),
        ensures
            final(self).wf(),
            final(self).spec_target_size() == old(self).spec_target_size(),
            final(self).states() == old(self).states() + snapshot.state@,
            final(self).actions() == old(self).actions() + snapshot.action@,
            final(self).rewards() == old(self).rewards().push(snapshot.reward),
            final(self).next_states() == old(self).next_states() + snapshot.next_state@,
            final(self).dones() == old(self).dones().push(snapshot.done),
            final(self).entry_is(old(self).dones().len() as int, *snapshot),
            forall|k: int, s: Snapshot|
                0 <= k < old(self).dones().len() && #[trigger] old(self).entry_is(k, s)
                    ==> #[trigger] final(self).entry_is(k, s),
    {
        self.state.extend_from_slice(snapshot.state.as_slice());
        self.action.extend_from_slice(snapshot.action.as_slice());
        self.reward.push(snapshot.reward);
        self.next_state.extend_from_slice(snapshot.next_state.as_slice());
        self.done.push(snapshot.done);
        proof {
            let n = old(self).dones().len() as int;
            assert(self.states().subrange(n * (STATE_SIZE as int), (n + 1) * (STATE_SIZE as int))
                =~= snapshot.state@);
            assert(self.actions().subrange(n * (ACTION_SIZE as int), (n + 1) * (ACTION_SIZE
                as int)) =~= snapshot.action@);
            assert(self.next_states().subrange(
                n * (STATE_SIZE as int),
                (n + 1) * (STATE_SIZE as int),
            ) =~= snapshot.next_state@);
            assert forall|k: int, s: Snapshot|
                0 <= k < n && #[trigger] old(self).entry_is(k, s) implies #[trigger] self.entry_is(
                k,
                s,
            ) by {
                assert(self.states().subrange(
                    k * (STATE_SIZE as int),
                    (k + 1) * (STATE_SIZE as int),
                ) =~= old(self).states().subrange(
                    k * (STATE_SIZE as int),
                    (k + 1) * (STATE_SIZE as int),
                ));
                assert(self.actions().subrange(
                    k * (ACTION_SIZE as int),
                    (k + 1) * (ACTION_SIZE as int),
                ) =~= old(self).actions().subrange(
                    k * (ACTION_SIZE as int),
                    (k + 1) * (ACTION_SIZE as int),
                ));
                assert(self.next_states().subrange(
                    k * (STATE_SIZE as int),
                    (k + 1) * (STATE_SIZE as int),
                ) =~= old(self).next_states().subrange(
                    k * (STATE_SIZE as int),
                    (k + 1) * (STATE_SIZE as int),
                ));
            }
        }
    }

    /// Whether the batch has reached its declared size.
    pub fn is_built(&self) -> (r: bool)
        ensures
            r == (self.dones().len() == self.spec_target_size()),
    {
        self.done.len() == self.target_size
    }

    /// How many snapshots have been pushed so far.
    pub fn len(&self) -> (n: usize)
        ensures
            n == self.dones().len(),
    {
        self.done.len()
    }
}

/// The column a one-hot action vector selects: the first set flag, or
/// the last column when no flag is set.
pub open spec fn spec_taken_index(action: Seq<bool>) -> int {
    if action[0] {
        0
    } else if action[1] {
        1
    } else {
        2
    }
}

/// The index of the action recorded in a one-hot vector: the column
/// whose target slot the Bellman update overwrites.
pub fn taken_action_index(action: &[bool; ACTION_SIZE]) -> (i: usize)
    ensures
        i == spec_taken_index(action@),
        i < ACTION_SIZE,
{
    if action[0] {
        0
    } else if action[1] {
        1
    } else {
        2
    }
}

/// The Bellman target value of each sample in a batch: the reward alone
/// where the episode ended at that transition (no bootstrap term), else
/// the bootstrapped value the caller computed from the next state (the
/// reward plus the discounted best next-state estimate).
pub fn bellman_targets<T: Copy>(rewards: &Vec<T>, bootstrapped: &Vec<T>, dones: &Vec<bool>) -> (q:
    Vec<T>)
    requires
        rewards@.len() == dones@.len(),
        bootstrapped@.len() == dones@.len(),
    ensures
        q@.len() == dones@.len(),
        forall|i: int|
            0 <= i < dones@.len() ==> q@[i] == (if dones@[i] {
                rewards@[i]
            } else {
                bootstrapped@[i]
            }),
{
    let mut q: Vec<T> = Vec::new();
    let mut i: usize = 0;
    while i < dones.len()
        invariant
            rewards@.len() == dones@.len(),
            bootstrapped@.len() == dones@.len(),
            i <= dones@.len(),
            q@.len() == i,
            forall|k: int|
                0 <= k < i ==> q@[k] == (if dones@[k] {
                    rewards@[k]
                } else {
                    bootstrapped@[k]
                }),
        decreases dones@.len() - i,
    {
        if dones[i] {
            q.push(rewards[i]);
        } else {
            q.push(bootstrapped[i]);
        }
        i = i + 1;
    }
    q
}

/// The masked targets of one batch, flattened row-major with
/// `ACTION_SIZE` columns per row: every slot keeps the network's own
/// prediction from `pred`, except that in each row the taken action's
/// column is overwritten with that sample's Bellman target from
/// `q_new`. Only the overwritten slots can carry a gradient.
pub fn build_targets<T: Copy>(pred: &Vec<T>, taken: &Vec<usize>, q_new: &Vec<T>) -> (target: Vec<
    T,
>)
    requires
        pred@.len() == q_new@.len() * (ACTION_SIZE as int),
        taken@.len() == q_new@.len(),
        forall|i: int| 0 <= i < taken@.len() ==> #[trigger] taken@[i] < ACTION_SIZE,
    ensures
        target@.len() == pred@.len(),
        forall|i: int, j: int|
            0 <= i < q_new@.len() && 0 <= j < ACTION_SIZE ==> #[trigger] target@[i * (ACTION_SIZE
                as int) + j] == (if j == taken@[i] as int {
                q_new@[i]
            } else {
                pred@[i * (ACTION_SIZE as int) + j]
            }),
{
    let mut target: Vec<T> = Vec::new();
    let pred_len: usize = pred.len();
    let mut i: usize = 0;
    while i < q_new.len()
        invariant
            pred_len == pred@.len(),
            pred@.len() == q_new@.len() * (ACTION_SIZE as int),
            taken@.len() == q_new@.len(),
            forall|k: int| 0 <= k < taken@.len() ==> #[trigger] taken@[k] < ACTION_SIZE,
            i <= q_new@.len(),
            target@.len() == i * (ACTION_SIZE as int),
            forall|r: int, j: int|
                0 <= r < i && 0 <= j < ACTION_SIZE ==> #[trigger] target@[r * (ACTION_SIZE as int)
                    + j] == (if j == taken@[r] as int {
                    q_new@[r]
                } else {
                    pred@[r * (ACTION_SIZE as int) + j]
                }),
        decreases q_new@.len() - i,
    {
        let t = taken[i];
        let base = i * ACTION_SIZE;
        let mut j: usize = 0;
        while j < ACTION_SIZE
            invariant
                pred_len == pred@.len(),
                pred@.len() == q_new@.len() * (ACTION_SIZE as int),
                taken@.len() == q_new@.len(),
                forall|k: int| 0 <= k < taken@.len() ==> #[trigger] taken@[k] < ACTION_SIZE,
                i < q_new@.len(),
                j <= ACTION_SIZE,
                t == taken@[i as int],
                base == i * (ACTION_SIZE as int),
                target@.len() == i * (ACTION_SIZE as int) + j,
                forall|r: int, c: int|
                    0 <= r < i && 0 <= c < ACTION_SIZE ==> #[trigger] target@[r * (ACTION_SIZE
                        as int) + c] == (if c == taken@[r] as int {
                        q_new@[r]
                    } else {
                        pred@[r * (ACTION_SIZE as int) + c]
                    }),
                forall|c: int|
                    0 <= c < j ==> #[trigger] target@[i * (ACTION_SIZE as int) + c] == (if c
                        == taken@[i as int] as int {
                        q_new@[i as int]
                    } else {
                        pred@[i * (ACTION_SIZE as int) + c]
                    }),
            decreases ACTION_SIZE - j,
        {
            if j == t {
                target.push(q_new[i]);
            } else {
                target.push(pred[base + j]);
            }
            j = j + 1;
        }
        i = i + 1;
    }
    target
}

} // verus!
