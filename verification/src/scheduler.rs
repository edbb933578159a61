//! Which waiting machines get a driver, under the executor's concurrency
//! caps.
//!
//! Every active machine wants one driver. A global cap bounds the number of
//! drivers, and a module may have a cap of its own; without caps every
//! machine is driven.

use vstd::prelude::*;
use crate::ids::ModuleInstanceId;

verus! {

/// The concurrency caps.
#[derive(Debug)]
pub struct Limits {
    /// The most drivers that may run at once, if that is bounded.
    pub global: Option<usize>,
    /// The most drivers that may run at once for a module instance; the
    /// first entry of an instance counts.
    pub per_module: Vec<(ModuleInstanceId, usize)>,
}

/// How often `module` occurs in `modules`.
pub open spec fn count_of(modules: Seq<ModuleInstanceId>, module: ModuleInstanceId) -> nat
    decreases modules.len(),
{
    if modules.len() == 0 {
        0
    } else {
        count_of(modules.drop_last(), module) + if modules.last() == module {
            1nat
        } else {
            0nat
        }
    }
}

/// How many machines were picked.
pub open spec fn picked_count(picks: Seq<bool>) -> nat
    decreases picks.len(),
{
    if picks.len() == 0 {
        0
    } else {
        picked_count(picks.drop_last()) + if picks.last() {
            1nat
        } else {
            0nat
        }
    }
}

/// How many machines of `module` were picked.
pub open spec fn picked_of(
    waiting: Seq<ModuleInstanceId>,
    picks: Seq<bool>,
    module: ModuleInstanceId,
) -> nat
    decreases picks.len(),
{
    if picks.len() == 0 || waiting.len() == 0 {
        0
    } else {
        picked_of(waiting.drop_last(), picks.drop_last(), module) + if picks.last()
            && waiting.last() == module {
            1nat
        } else {
            0nat
        }
    }
}

/// The cap of a module instance, if it has one.
pub open spec fn cap_of(caps: Seq<(ModuleInstanceId, usize)>, module: ModuleInstanceId) -> Option<
    usize,
>
    decreases caps.len(),
{
    if caps.len() == 0 {
        None
    } else if caps[0].0 == module {
        Some(caps[0].1)
    } else {
        cap_of(caps.drop_first(), module)
    }
}

/// One more driver fits under the cap when `used` are running.
pub open spec fn fits(cap: Option<usize>, used: nat) -> bool {
    cap matches Some(most) ==> used < most
}

/// For each waiting machine, in order, whether it gets a driver now:
/// it does if one more driver fits under the global cap and under the cap
/// of its module, counting the drivers that run and those picked before it.
pub open spec fn picks(
    global: Option<usize>,
    caps: Seq<(ModuleInstanceId, usize)>,
    running: Seq<ModuleInstanceId>,
    waiting: Seq<ModuleInstanceId>,
) -> Seq<bool>
    decreases waiting.len(),
{
    if waiting.len() == 0 {
        Seq::empty()
    } else {
        let earlier = waiting.drop_last();
        let before = picks(global, caps, running, earlier);
        let module = waiting.last();
        before.push(
            fits(global, running.len() + picked_count(before)) && fits(
                cap_of(caps, module),
                count_of(running, module) + picked_of(earlier, before, module),
            ),
        )
    }
}

/// Every waiting machine gets an answer.
pub proof fn lemma_picks_len(
    global: Option<usize>,
    caps: Seq<(ModuleInstanceId, usize)>,
    running: Seq<ModuleInstanceId>,
    waiting: Seq<ModuleInstanceId>,
)
    ensures
        picks(global, caps, running, waiting).len() == waiting.len(),
    decreases waiting.len(),
{
    if waiting.len() > 0 {
        lemma_picks_len(global, caps, running, waiting.drop_last());
    }
}

/// The drivers never outnumber a cap that they did not outnumber before:
/// neither the global cap nor the cap of any module.
pub proof fn lemma_picks_within_caps(
    global: Option<usize>,
    caps: Seq<(ModuleInstanceId, usize)>,
    running: Seq<ModuleInstanceId>,
    waiting: Seq<ModuleInstanceId>,
    module: ModuleInstanceId,
)
    ensures
        ({
            let chosen = picks(global, caps, running, waiting);
            &&& global matches Some(most) ==> running.len() <= most ==> running.len()
                + picked_count(chosen) <= most
            &&& cap_of(caps, module) matches Some(most) ==> count_of(running, module) <= most
                ==> count_of(running, module) + picked_of(waiting, chosen, module) <= most
        }),
    decreases waiting.len(),
{
    if waiting.len() > 0 {
        let earlier = waiting.drop_last();
        lemma_picks_within_caps(global, caps, running, earlier, module);
        lemma_picks_len(global, caps, running, earlier);
        let before = picks(global, caps, running, earlier);
        let chosen = picks(global, caps, running, waiting);
        assert(chosen.drop_last() == before);
    }
}

/// Without caps every waiting machine gets a driver.
pub proof fn lemma_unbounded_picks_all(running: Seq<ModuleInstanceId>, waiting: Seq<ModuleInstanceId>)
    ensures
        picks(None, Seq::empty(), running, waiting) == Seq::new(waiting.len(), |i: int| true),
    decreases waiting.len(),
{
    if waiting.len() > 0 {
        lemma_unbounded_picks_all(running, waiting.drop_last());
    }
    assert(picks(None, Seq::empty(), running, waiting) =~= Seq::new(
        waiting.len(),
        |i: int| true,
    ));
}

fn count_module(modules: &Vec<ModuleInstanceId>, module: ModuleInstanceId) -> (count: usize)
    ensures
        count == count_of(modules@, module),
{
    let mut count: usize = 0;
    let mut i: usize = 0;
    assert(modules@.subrange(0, 0) =~= Seq::<ModuleInstanceId>::empty());
    while i < modules.len()
        invariant
            i <= modules.len(),
            count <= i,
            count == count_of(modules@.subrange(0, i as int), module),
        decreases modules.len() - i,
    {
        proof {
            let next = modules@.subrange(0, i + 1);
            assert(next.drop_last() == modules@.subrange(0, i as int));
            assert(next.last() == modules@[i as int]);
        }
        if modules[i] == module {
            count += 1;
        }
        i += 1;
    }
    assert(modules@.subrange(0, i as int) == modules@);
    count
}

fn count_picked(waiting: &Vec<ModuleInstanceId>, picks: &Vec<bool>, module: ModuleInstanceId) -> (count:
    usize)
    requires
        picks@.len() <= waiting@.len(),
    ensures
        count == picked_of(waiting@.subrange(0, picks@.len() as int), picks@, module),
{
    let mut count: usize = 0;
    let mut i: usize = 0;
    assert(picks@.subrange(0, 0) =~= Seq::<bool>::empty());
    while i < picks.len()
        invariant
            i <= picks.len() <= waiting.len(),
            count <= i,
            count == picked_of(
                waiting@.subrange(0, i as int),
                picks@.subrange(0, i as int),
                module,
            ),
        decreases picks.len() - i,
    {
        proof {
            let next = picks@.subrange(0, i + 1);
            assert(next.drop_last() == picks@.subrange(0, i as int));
            assert(next.last() == picks@[i as int]);
            let queue = waiting@.subrange(0, i + 1);
            assert(queue.drop_last() == waiting@.subrange(0, i as int));
            assert(queue.last() == waiting@[i as int]);
        }
        if picks[i] && waiting[i] == module {
            count += 1;
        }
        i += 1;
    }
    assert(picks@.subrange(0, i as int) == picks@);
    count
}

impl Limits {
    /// No caps: every machine is driven.
    pub fn unbounded() -> (limits: Self)
        ensures
            limits.global is None,
            limits.per_module@ == Seq::<(ModuleInstanceId, usize)>::empty(),
    {
        Limits { global: None, per_module: Vec::new() }
    }

    /// The cap of a module instance, if it has one.
    pub fn module_cap(&self, module: ModuleInstanceId) -> (cap: Option<usize>)
        ensures
            cap == cap_of(self.per_module@, module),
    {
        let mut i: usize = 0;
        assert(self.per_module@.skip(0) == self.per_module@);
        while i < self.per_module.len()
            invariant
                i <= self.per_module.len(),
                cap_of(self.per_module@, module) == cap_of(self.per_module@.skip(i as int), module),
            decreases self.per_module.len() - i,
        {
            let entry = self.per_module[i];
            proof {
                let rest = self.per_module@.skip(i as int);
                assert(rest[0] == entry);
                assert(rest.drop_first() == self.per_module@.skip(i + 1));
            }
            if entry.0 == module {
                return Some(entry.1);
            }
            i += 1;
        }
        None
    }

    /// Decides, for each waiting machine in order, whether it gets a driver
    /// now. `running` holds the module instance of every machine that is
    /// driven, `waiting` that of every machine that waits for a driver.
    pub fn pick_drivers(&self, running: &Vec<ModuleInstanceId>, waiting: &Vec<ModuleInstanceId>) -> (chosen:
        Vec<bool>)
        ensures
            chosen@ == picks(self.global, self.per_module@, running@, waiting@),
    {
        let mut chosen: Vec<bool> = Vec::new();
        let mut total: usize = 0;
        let mut i: usize = 0;
        assert(waiting@.subrange(0, 0) =~= Seq::<ModuleInstanceId>::empty());
        while i < waiting.len()
            invariant
                i <= waiting.len(),
                chosen@.len() == i,
                total <= i,
                total == picked_count(chosen@),
                chosen@ == picks(
                    self.global,
                    self.per_module@,
                    running@,
                    waiting@.subrange(0, i as int),
                ),
            decreases waiting.len() - i,
        {
            let module = waiting[i];
            let ghost before = chosen@;
            proof {
                let next = waiting@.subrange(0, i + 1);
                assert(next.drop_last() == waiting@.subrange(0, i as int));
                assert(next.last() == module);
            }
            let under_global = match self.global {
                None => true,
                Some(most) => running.len() < most && total < most - running.len(),
            };
            let under_module = match self.module_cap(module) {
                None => true,
                Some(most) => {
                    let driven = count_module(running, module);
                    let picked = count_picked(waiting, &chosen, module);
                    driven < most && picked < most - driven
                },
            };
            let take = under_global && under_module;
            if take {
                total += 1;
            }
            chosen.push(take);
            proof {
                assert(chosen@.drop_last() == before);
            }
            i += 1;
        }
        assert(waiting@.subrange(0, i as int) == waiting@);
        chosen
    }
}

} // verus!
