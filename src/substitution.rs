use vstd::prelude::*;

use crate::error::{Error, InternalError};
use crate::mir::{SignalKey, SourceKey, Type, ValueName, ValueNameSource};
use crate::name::{NameID, Path};
use crate::signals::IdTracker;

verus! {

/// The name under which the value of a source variable is known in the current stage.
#[derive(Debug)]
pub enum Substitution {
    /// The value exists only after this many more stage boundaries.
    Waiting(u128),
    /// The value exists in the current stage under this name.
    Available(NameID),
    /// The variable is a port, which is never copied into pipeline registers.
    Port,
}

/// What a substitution says, up to the paths of the names it holds.
#[derive(Clone, Copy, Debug, PartialEq, Eq, Structural)]
pub enum SubstitutionKey {
    Waiting(u128),
    Available(u64),
    Port,
}

impl Substitution {
    pub open spec fn key(&self) -> SubstitutionKey {
        match self {
            Substitution::Waiting(n) => SubstitutionKey::Waiting(*n),
            Substitution::Available(n) => SubstitutionKey::Available(n.0),
            Substitution::Port => SubstitutionKey::Port,
        }
    }
}

/// The substitution of a variable that becomes available `time` stages from now.
pub open spec fn initial_substitution(name: u64, time: u128, is_port: bool) -> SubstitutionKey {
    if is_port {
        SubstitutionKey::Port
    } else if time == 0 {
        SubstitutionKey::Available(name)
    } else {
        SubstitutionKey::Waiting(time)
    }
}

/// Whether `after` is what the tracker says of variable `original` one stage boundary
/// after it said `before`, where `live` tells whether the variable is referred to after
/// the boundary and the pipeline copy made at that boundary, if any, is named `fresh`.
/// A variable that nothing refers to any more is not carried.
pub open spec fn advanced(original: u64, before: SubstitutionKey, after: SubstitutionKey, live: bool, fresh: int) -> bool {
    match before {
        SubstitutionKey::Waiting(n) => if n <= 1 {
            after == SubstitutionKey::Available(original)
        } else {
            after == SubstitutionKey::Waiting((n - 1) as u128)
        },
        SubstitutionKey::Available(_) => if live {
            after is Available && after->Available_0 == fresh
        } else {
            after == before
        },
        SubstitutionKey::Port => after == SubstitutionKey::Port,
    }
}

/// A variable copied across one stage boundary: its source identity, its name in the
/// stage before the boundary and the name of the register that holds it after.
#[derive(Debug)]
pub struct PipelineRegister {
    pub original: NameID,
    pub previous: NameID,
    pub new: NameID,
}

/// The live-variable tracker: for each variable of the pipeline, in the order in which
/// it was first recorded, under which name its value exists in the current stage.
#[derive(Debug)]
pub struct Substitutions {
    pub vars: Vec<(NameID, Substitution)>,
}

/// The (original, previous) names of the variables that a stage boundary carries: those
/// available before it that `live` holds, in order.
pub open spec fn carried(vars: Seq<(NameID, Substitution)>, live: Seq<u64>) -> Seq<(u64, u64)>
    decreases vars.len(),
{
    if vars.len() == 0 {
        Seq::empty()
    } else {
        let rest = carried(vars.drop_last(), live);
        match vars.last().1 {
            Substitution::Available(prev) => if live.contains(vars.last().0.0) {
                rest.push((vars.last().0.0, prev.0))
            } else {
                rest
            },
            _ => rest,
        }
    }
}

/// Whether `ids` holds `id`.
pub fn contains_id(ids: &Vec<u64>, id: u64) -> (r: bool)
    ensures
        r == ids@.contains(id),
{
    let mut i: usize = 0;
    while i < ids.len()
        invariant
            0 <= i <= ids@.len(),
            forall|j: int| 0 <= j < i ==> ids@[j] != id,
        decreases ids@.len() - i,
    {
        if ids[i] == id {
            assert(ids@[i as int] == id);
            return true;
        }
        i += 1;
    }
    false
}

/// The carried variables of a prefix of the tracked ones are a prefix of the carried
/// variables of all of them.
pub proof fn lemma_carried_prefix(vars: Seq<(NameID, Substitution)>, live: Seq<u64>, i: int)
    requires
        0 <= i <= vars.len(),
    ensures
        carried(vars.subrange(0, i), live).len() <= carried(vars, live).len(),
        forall|k: int| 0 <= k < carried(vars.subrange(0, i), live).len() ==>
            carried(vars, live)[k] == #[trigger] carried(vars.subrange(0, i), live)[k],
    decreases vars.len() - i,
{
    if i < vars.len() {
        lemma_carried_prefix(vars, live, i + 1);
        let longer = vars.subrange(0, i + 1);
        assert(longer.drop_last() =~= vars.subrange(0, i));
        let a = carried(vars.subrange(0, i), live);
        let b = carried(longer, live);
        assert forall|k: int| 0 <= k < a.len() implies carried(vars, live)[k] == #[trigger] a[k] by {
            assert(b[k] == a[k]);
        }
    } else {
        assert(vars.subrange(0, i) =~= vars);
    }
}

/// Whether a tracked variable is carried across a boundary after which `live` is live.
pub open spec fn is_carried(v: (NameID, Substitution), live: Seq<u64>) -> bool {
    v.1 is Available && live.contains(v.0.0)
}

/// A stage boundary carries exactly the variables that are available before it and
/// live after it, each once: one register per live variable and boundary crossed.
pub proof fn lemma_one_register_per_live_variable(subs: Substitutions, live: Seq<u64>)
    requires
        subs.wf(),
    ensures
        carried(subs.vars@, live).map_values(|c: (u64, u64)| c.0)
            == subs.vars@.filter(|v: (NameID, Substitution)| is_carried(v, live)).map_values(|v: (NameID, Substitution)| v.0.0),
        carried(subs.vars@, live).map_values(|c: (u64, u64)| c.0).no_duplicates(),
{
    lemma_carried_filter(subs.vars@, live);
}

/// The variables a boundary carries, in order, are the tracked ones that are available
/// and live, each once.
pub proof fn lemma_carried_filter(vars: Seq<(NameID, Substitution)>, live: Seq<u64>)
    requires
        forall|i: int, j: int| 0 <= i < j < vars.len() ==> vars[i].0.0 != vars[j].0.0,
    ensures
        carried(vars, live).map_values(|c: (u64, u64)| c.0)
            == vars.filter(|v: (NameID, Substitution)| is_carried(v, live)).map_values(|v: (NameID, Substitution)| v.0.0),
        carried(vars, live).map_values(|c: (u64, u64)| c.0).no_duplicates(),
        forall|k: int| 0 <= k < carried(vars, live).len() ==>
            exists|i: int| 0 <= i < vars.len() && vars[i].0.0 == #[trigger] carried(vars, live)[k].0,
    decreases vars.len(),
{
    let f = |v: (NameID, Substitution)| is_carried(v, live);
    if vars.len() > 0 {
        let rest = vars.drop_last();
        lemma_carried_filter(rest, live);
        assert(vars.filter(f) == if f(vars.last()) { rest.filter(f).push(vars.last()) } else { rest.filter(f) }) by {
            reveal(Seq::filter);
            assert(vars.drop_last() == rest);
        }
        let c = carried(vars, live);
        let cr = carried(rest, live);
        if f(vars.last()) {
            assert(c == cr.push((vars.last().0.0, vars.last().1->Available_0.0)));
            assert(c.map_values(|c: (u64, u64)| c.0) =~= cr.map_values(|c: (u64, u64)| c.0).push(vars.last().0.0));
            assert(rest.filter(f).push(vars.last()).map_values(|v: (NameID, Substitution)| v.0.0)
                =~= rest.filter(f).map_values(|v: (NameID, Substitution)| v.0.0).push(vars.last().0.0));
            let m = c.map_values(|c: (u64, u64)| c.0);
            assert forall|a: int, b: int| 0 <= a < m.len() && 0 <= b < m.len() && a != b implies
                #[trigger] m[a] != #[trigger] m[b] by {
                if a > b {
                    if a == c.len() - 1 {
                        let i = choose|i: int| 0 <= i < rest.len() && rest[i].0.0 == #[trigger] cr[b].0;
                        assert(vars[i].0.0 != vars[vars.len() - 1].0.0);
                    }
                } else if b == c.len() - 1 {
                    let i = choose|i: int| 0 <= i < rest.len() && rest[i].0.0 == #[trigger] cr[a].0;
                    assert(vars[i].0.0 != vars[vars.len() - 1].0.0);
                }
            }
            assert forall|k: int| 0 <= k < c.len() implies
                exists|i: int| 0 <= i < vars.len() && vars[i].0.0 == #[trigger] c[k].0 by {
                if k < cr.len() {
                    let i = choose|i: int| 0 <= i < rest.len() && rest[i].0.0 == #[trigger] cr[k].0;
                    assert(vars[i] == rest[i]);
                } else {
                    assert(vars[vars.len() - 1].0.0 == c[k].0);
                }
            }
        } else {
            assert(c == cr);
            assert forall|k: int| 0 <= k < c.len() implies
                exists|i: int| 0 <= i < vars.len() && vars[i].0.0 == #[trigger] c[k].0 by {
                let i = choose|i: int| 0 <= i < rest.len() && rest[i].0.0 == #[trigger] cr[k].0;
                assert(vars[i] == rest[i]);
            }
        }
    } else {
        assert(vars.filter(f) =~= Seq::<(NameID, Substitution)>::empty()) by {
            reveal(Seq::filter);
        }
        assert(carried(vars, live).map_values(|c: (u64, u64)| c.0) =~= Seq::<u64>::empty());
    }
}

impl Substitutions {
    pub fn new() -> (r: Substitutions)
        ensures
            r.vars@.len() == 0,
    {
        Substitutions { vars: Vec::new() }
    }

    /// Each variable is recorded once.
    pub open spec fn wf(&self) -> bool {
        forall|i: int, j: int| 0 <= i < j < self.vars@.len() ==> self.vars@[i].0.0 != self.vars@[j].0.0
    }

    /// The ids of the recorded variables, in order.
    pub open spec fn names(&self) -> Seq<u64> {
        self.vars@.map_values(|v: (NameID, Substitution)| v.0.0)
    }

    /// What the tracker says of each recorded variable, in order.
    pub open spec fn states(&self) -> Seq<SubstitutionKey> {
        self.vars@.map_values(|v: (NameID, Substitution)| v.1.key())
    }

    /// Where variable `name` is recorded, if it is.
    pub fn position(&self, name: u64) -> (r: Option<usize>)
        ensures
            match r {
                Some(i) => i < self.vars@.len() && self.vars@[i as int].0.0 == name,
                None => forall|i: int| 0 <= i < self.vars@.len() ==> self.vars@[i].0.0 != name,
            },
    {
        let mut i: usize = 0;
        while i < self.vars.len()
            invariant
                0 <= i <= self.vars@.len(),
                forall|j: int| 0 <= j < i ==> self.vars@[j].0.0 != name,
            decreases self.vars@.len() - i,
        {
            if self.vars[i].0.0 == name {
                return Some(i);
            }
            i += 1;
        }
        None
    }

    /// Records that variable `name` becomes available `time` stages after the current
    /// one, or that it is a port.
    pub fn set_available(&mut self, name: NameID, time: u128, is_port: bool)
        requires
            old(self).wf(),
        ensures
            final(self).wf(),
            old(self).names().contains(name.0) ==> final(self).names() == old(self).names(),
            !old(self).names().contains(name.0) ==> final(self).names() == old(self).names().push(name.0),
            forall|i: int| 0 <= i < final(self).vars@.len() ==> #[trigger] final(self).states()[i] == (
                if final(self).vars@[i].0.0 == name.0 {
                    initial_substitution(name.0, time, is_port)
                } else {
                    old(self).states()[i]
                }),
    {
        let id = name.0;
        let sub = if is_port {
            Substitution::Port
        } else if time == 0 {
            Substitution::Available(name.clone())
        } else {
            Substitution::Waiting(time)
        };
        let ghost old_names = self.names();
        let ghost old_states = self.states();
        match self.position(id) {
            Some(i) => {
                let ghost entry_name = self.vars@[i as int].0;
                let entry = (name, sub);
                self.vars.set(i, entry);
                assert(self.names() =~= old_names) by {
                    assert forall|j: int| 0 <= j < self.vars@.len() implies self.names()[j] == old_names[j] by {
                        if j == i {
                            assert(self.vars@[j].0.0 == id);
                        }
                    }
                }
                assert(old_names.contains(id)) by {
                    assert(old_names[i as int] == id);
                }
            },
            None => {
                self.vars.push((name, sub));
                assert(self.names() =~= old_names.push(id));
                assert(!old_names.contains(id)) by {
                    if old_names.contains(id) {
                        let j = choose|j: int| 0 <= j < old_names.len() && old_names[j] == id;
                        assert(old(self).vars@[j].0.0 == id);
                    }
                }
            },
        }
    }

    /// Advances to the next stage. Each variable available in the current stage that
    /// `live` holds, because something after the boundary refers to it, is carried across
    /// the boundary by a register with a fresh name; each variable that was waiting comes
    /// one stage closer, becoming available under its own name when it arrives; ports are
    /// never carried. Returns the carried variables, in order.
    #[verifier::rlimit(30)]
    pub fn next_stage(&mut self, ids: &mut IdTracker, live: &Vec<u64>) -> (regs: Vec<PipelineRegister>)
        requires
            old(self).wf(),
            old(ids).next_id + old(self).vars@.len() <= u64::MAX,
        ensures
            final(self).wf(),
            final(self).names() == old(self).names(),
            regs@.map_values(|r: PipelineRegister| (r.original.0, r.previous.0)) == carried(old(self).vars@, live@),
            forall|k: int| 0 <= k < regs@.len() ==> #[trigger] regs@[k].new.0 == old(ids).next_id + k,
            final(ids).next_id == old(ids).next_id + regs@.len(),
            forall|i: int| 0 <= i < final(self).vars@.len() ==> advanced(old(self).names()[i],
                old(self).states()[i], #[trigger] final(self).states()[i], live@.contains(old(self).names()[i]),
                old(ids).next_id + carried(old(self).vars@.subrange(0, i), live@).len()),
    {
        let ghost old_vars = self.vars@;
        let ghost first_id = ids.next_id;
        let mut regs: Vec<PipelineRegister> = Vec::new();
        let mut i: usize = 0;
        while i < self.vars.len()
            invariant
                0 <= i <= self.vars@.len(),
                self.vars@.len() == old_vars.len(),
                first_id + old_vars.len() <= u64::MAX,
                forall|j: int| 0 <= j < self.vars@.len() ==> self.vars@[j].0.0 == old_vars[j].0.0,
                forall|j: int| i <= j < self.vars@.len() ==> self.vars@[j].1.key() == old_vars[j].1.key(),
                regs@.map_values(|r: PipelineRegister| (r.original.0, r.previous.0)) == carried(old_vars.subrange(0, i as int), live@),
                regs@.len() <= i,
                forall|a: int, b: int| 0 <= a < b < old_vars.len() ==> old_vars[a].0.0 != old_vars[b].0.0,
                ids.next_id == first_id + regs@.len(),
                forall|k: int| 0 <= k < regs@.len() ==> #[trigger] regs@[k].new.0 == first_id + k,
                forall|j: int| 0 <= j < i ==> advanced(old_vars[j].0.0, old_vars[j].1.key(),
                    #[trigger] self.vars@[j].1.key(), live@.contains(old_vars[j].0.0),
                    first_id + carried(old_vars.subrange(0, j), live@).len()),
            decreases old_vars.len() - i,
        {
            assert(old_vars.subrange(0, i + 1).drop_last() =~= old_vars.subrange(0, i as int));
            let ghost before = regs@;
            let original = self.vars[i].0.clone();
            let next: Substitution = match &self.vars[i].1 {
                Substitution::Waiting(n) => {
                    if *n <= 1 {
                        Substitution::Available(original.clone())
                    } else {
                        Substitution::Waiting(*n - 1)
                    }
                },
                Substitution::Available(previous) => if !contains_id(live, original.0) {
                    Substitution::Available(previous.clone())
                } else {
                    let fresh = NameID(ids.next(), previous.1.clone());
                    let reg = PipelineRegister {
                        original: original.clone(),
                        previous: previous.clone(),
                        new: fresh.clone(),
                    };
                    regs.push(reg);
                    assert(regs@.map_values(|r: PipelineRegister| (r.original.0, r.previous.0))
                        =~= before.map_values(|r: PipelineRegister| (r.original.0, r.previous.0)).push((original.0, previous.0)));
                    Substitution::Available(fresh)
                },
                Substitution::Port => Substitution::Port,
            };
            let ghost vars_before = self.vars@;
            self.vars.set(i, (original, next));
            assert forall|j: int| 0 <= j < i implies advanced(old_vars[j].0.0, old_vars[j].1.key(),
                #[trigger] self.vars@[j].1.key(), live@.contains(old_vars[j].0.0),
                first_id + carried(old_vars.subrange(0, j), live@).len()) by {
                assert(self.vars@[j] == vars_before[j]);
            }
            i += 1;
        }
        assert(old_vars.subrange(0, i as int) =~= old_vars);
        assert(self.names() =~= old_vars.map_values(|v: (NameID, Substitution)| v.0.0));
        assert forall|j: int| 0 <= j < self.vars@.len() implies advanced(old_vars[j].0.0, old_vars[j].1.key(),
            #[trigger] self.states()[j], live@.contains(old_vars[j].0.0),
            first_id + carried(old_vars.subrange(0, j), live@).len()) by {
            assert(self.states()[j] == self.vars@[j].1.key());
        }
        assert(self.wf()) by {
            assert forall|a: int, b: int| 0 <= a < b < self.vars@.len() implies self.vars@[a].0.0 != self.vars@[b].0.0 by {
                assert(old_vars[a].0.0 != old_vars[b].0.0);
            }
        }
        regs
    }
}

} // verus!
