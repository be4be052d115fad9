//! The registry of the tasks that serve connections: every task runs under
//! an id of its own, so that it can take itself out when it ends and all
//! that are left can be cancelled at shutdown.

use std::collections::HashMap;
use vstd::prelude::*;
use vstd::relations::injective_on;
use vstd::set_lib::lemma_int_range;
use vstd::set_lib::lemma_len_subset;
use vstd::set_lib::lemma_map_size;
use vstd::set_lib::set_int_range;

verus! {

/// The id after `id`; after the largest comes zero.
pub open spec fn next(id: usize) -> usize {
    if id == usize::MAX {
        0
    } else {
        (id + 1) as usize
    }
}

/// The id `k` steps after `id`.
pub open spec fn after(id: usize, k: nat) -> usize
    decreases k,
{
    if k == 0 {
        id
    } else {
        next(after(id, (k - 1) as nat))
    }
}

/// Whether `id` is the first free id at or after `start`, `steps` steps on.
pub open spec fn first_free(ids: Set<usize>, start: usize, steps: nat, id: usize) -> bool {
    &&& id == after(start, steps)
    &&& !ids.contains(id)
    &&& forall|k: nat| k < steps ==> ids.contains(#[trigger] after(start, k))
}

/// Where `k` steps lead, as long as they do not go all the way round.
proof fn lemma_after(id: usize, k: nat)
    requires
        k <= usize::MAX,
    ensures
        after(id, k) == if id + k <= usize::MAX {
            id + k
        } else {
            id + k - usize::MAX - 1
        },
    decreases k,
{
    if k > 0 {
        lemma_after(id, (k - 1) as nat);
    }
}

/// There is always room: if the ids `start`, the one after it, and so on up
/// to `steps` steps are all taken, more than `steps` ids are registered.
proof fn lemma_room(ids: Set<usize>, start: usize, steps: nat)
    requires
        ids.finite(),
        steps <= usize::MAX,
        forall|k: nat| k <= steps ==> ids.contains(#[trigger] after(start, k)),
    ensures
        steps < ids.len(),
{
    let f = |k: int| after(start, k as nat);
    let range = set_int_range(0, steps as int + 1);
    lemma_int_range(0, steps as int + 1);
    let image = range.map(f);
    assert(injective_on(f, range)) by {
        assert forall|a: int, b: int|
            range.contains(a) && range.contains(b) && #[trigger] f(a) == #[trigger] f(
                b,
            ) implies a == b by {
            lemma_after(start, a as nat);
            lemma_after(start, b as nat);
        }
    }
    lemma_map_size(range, image, f);
    assert(image.subset_of(ids)) by {
        assert forall|id: usize| image.contains(id) implies ids.contains(id) by {
            let k = choose|k: int| range.contains(k) && f(k) == id;
            assert(ids.contains(after(start, k as nat)));
        }
    }
    lemma_len_subset(image, ids);
}

/// The running tasks by id, with the id that was given out last. `H` is the
/// handle by which a task is cancelled.
pub struct Tasks<H> {
    last: usize,
    running: HashMap<usize, H>,
}

impl<H> Tasks<H> {
    /// The handle of each running task, by the id of the task.
    pub closed spec fn running(&self) -> Map<usize, H> {
        self.running@
    }

    /// The id that was given out last.
    pub closed spec fn last(&self) -> usize {
        self.last
    }

    /// A registry without tasks, which starts counting at zero.
    pub fn new() -> (tasks: Tasks<H>)
        ensures
            tasks.running() == Map::<usize, H>::empty(),
            tasks.last() == 0,
    {
        Tasks { last: 0, running: HashMap::new() }
    }

    /// How many tasks run.
    pub fn len(&self) -> (n: usize)
        ensures
            n == self.running().len(),
            self.running().dom().finite(),
    {
        broadcast use vstd::std_specs::hash::group_hash_axioms;

        self.running.len()
    }

    /// Whether a task runs under `id`.
    pub fn contains_key(&self, id: usize) -> (found: bool)
        ensures
            found == self.running().contains_key(id),
    {
        broadcast use vstd::std_specs::hash::group_hash_axioms;

        self.running.contains_key(&id)
    }

    /// The id for the next task: the one given out last if it is free again,
    /// else the first free one after it, going round past the largest.
    pub fn claim(&self) -> (id: usize)
        ensures
            exists|steps: nat|
                steps <= self.running().len() && #[trigger] first_free(
                    self.running().dom(),
                    self.last(),
                    steps,
                    id,
                ),
    {
        let mut id = self.last;
        let ghost mut steps: nat = 0;
        let ghost ids = self.running().dom();
        let n = self.len();
        while self.contains_key(id)
            invariant
                ids == self.running().dom(),
                ids.finite(),
                steps <= ids.len() <= usize::MAX,
                id == after(self.last(), steps),
                forall|k: nat| k < steps ==> ids.contains(#[trigger] after(self.last(), k)),
            decreases ids.len() - steps,
        {
            proof {
                assert forall|k: nat| k <= steps implies ids.contains(
                    #[trigger] after(self.last(), k),
                ) by {}
                lemma_room(ids, self.last(), steps);
                steps = steps + 1;
            }
            id = if id == usize::MAX {
                0
            } else {
                id + 1
            };
        }
        assert(first_free(ids, self.last(), steps, id));
        id
    }

    /// Registers a task that was started under `id`, and hands out the
    /// handle of the task that ran under that id before, if one did.
    pub fn insert(&mut self, id: usize, handle: H) -> (before: Option<H>)
        ensures
            final(self).running() == old(self).running().insert(id, handle),
            final(self).last() == id,
            before == if old(self).running().contains_key(id) {
                Some(old(self).running()[id])
            } else {
                None
            },
    {
        broadcast use vstd::std_specs::hash::group_hash_axioms;

        self.last = id;
        self.running.insert(id, handle)
    }

    /// Takes the task that runs under `id` out, when it has ended.
    pub fn remove(&mut self, id: usize) -> (handle: Option<H>)
        ensures
            final(self).running() == old(self).running().remove(id),
            final(self).last() == old(self).last(),
            handle == if old(self).running().contains_key(id) {
                Some(old(self).running()[id])
            } else {
                None
            },
    {
        broadcast use vstd::std_specs::hash::group_hash_axioms;

        self.running.remove(&id)
    }

    /// Takes all tasks out, to cancel them.
    pub fn drain(&mut self) -> (all: HashMap<usize, H>)
        ensures
            all@ == old(self).running(),
            final(self).running() == Map::<usize, H>::empty(),
            final(self).last() == old(self).last(),
    {
        let mut all: HashMap<usize, H> = HashMap::new();
        std::mem::swap(&mut self.running, &mut all);
        all
    }
}

} // verus!
