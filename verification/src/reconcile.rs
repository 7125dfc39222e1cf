//! The reconciliation engine's logic: classify every record against live
//! OS truth, producing the orphan report, and apply the repairs. The probes
//! themselves are nondeterministic, so classification is specified for every
//! possible vector of liveness answers; the laws at the end state what one
//! reconciliation pass does to a dead or zombie record.

use vstd::prelude::*;

use crate::codec::strings_view;
use crate::process::ProcessManager;
use crate::registry::{
    entries_view, ids_unique, lemma_reg_get_first, lemma_update_id_get, mark_view, reg_get,
    reg_wf, update_id, ProcessRegistry, RegView, TaskEntry,
};
use crate::types::{ExecutionMode, OrphanReport, TaskInfoView, TaskStatus};

verus! {

/// Relies on `chrono::Utc::now` and `DateTime::timestamp`: the current UTC
/// instant, in whole seconds from the Unix epoch.
#[verifier::external_body]
pub fn current_unix_time() -> i64 {
    chrono::Utc::now().timestamp()
}

/// The retention cutoff `now - days`, in seconds, or nothing where the
/// window does not fit the machine type.
pub fn cutoff_for_days(now: i64, days: u64) -> (r: Option<i64>)
    ensures
        match r {
            Some(c) => c as int == now - days * 86400,
            None => days * 86400 > i64::MAX || now - days * 86400 < i64::MIN,
        },
{
    if days > 106751991167300u64 {
        proof {
            assert(days * 86400 > i64::MAX) by (nonlinear_arith)
                requires
                    days > 106751991167300u64,
            ;
        }
        return None;
    }
    let w: i64 = (days as i64) * 86400;
    proof {
        assert(days * 86400 <= i64::MAX) by (nonlinear_arith)
            requires
                days <= 106751991167300u64,
        ;
        assert(w >= 0) by (nonlinear_arith)
            requires
                days >= 0,
                w == days * 86400,
        ;
    }
    if now >= i64::MIN + w {
        Some(now - w)
    } else {
        None
    }
}

/// Identifiers, from position `i` on, of records recorded Running whose
/// entity is not alive: the dead processes.
pub open spec fn spec_dead_ids_from(r: RegView, alive: Seq<bool>, i: int) -> Seq<Seq<char>>
    decreases r.len() - i,
{
    if 0 <= i < r.len() && alive.len() == r.len() {
        let rest = spec_dead_ids_from(r, alive, i + 1);
        if r[i].1.status == TaskStatus::Running && !alive[i] {
            seq![r[i].0] + rest
        } else {
            rest
        }
    } else {
        Seq::empty()
    }
}

/// Identifiers of all dead processes.
pub open spec fn spec_dead_ids(r: RegView, alive: Seq<bool>) -> Seq<Seq<char>> {
    spec_dead_ids_from(r, alive, 0)
}

/// Identifiers, from position `i` on, of records recorded Completed whose
/// entity is still alive: the zombie processes.
pub open spec fn spec_zombie_ids_from(r: RegView, alive: Seq<bool>, i: int) -> Seq<Seq<char>>
    decreases r.len() - i,
{
    if 0 <= i < r.len() && alive.len() == r.len() {
        let rest = spec_zombie_ids_from(r, alive, i + 1);
        if r[i].1.status == TaskStatus::Completed && alive[i] {
            seq![r[i].0] + rest
        } else {
            rest
        }
    } else {
        Seq::empty()
    }
}

/// Identifiers of all zombie processes.
pub open spec fn spec_zombie_ids(r: RegView, alive: Seq<bool>) -> Seq<Seq<char>> {
    spec_zombie_ids_from(r, alive, 0)
}

/// Classify every record against one vector of liveness answers, as the
/// table prescribes: Running and dead is an orphan, Completed and alive is
/// a zombie, everything else is left alone.
pub fn classify_records(entries: &Vec<TaskEntry>, alive: &Vec<bool>) -> (r: OrphanReport)
    requires
        entries@.len() == alive@.len(),
    ensures
        strings_view(r.dead_processes@) == spec_dead_ids(entries_view(entries@), alive@),
        strings_view(r.zombie_processes@) == spec_zombie_ids(entries_view(entries@), alive@),
{
    let ghost rv = entries_view(entries@);
    let mut report = OrphanReport::new();
    let n = entries.len();
    proof {
        assert(strings_view(report.dead_processes@) =~= Seq::<Seq<char>>::empty());
        assert(strings_view(report.zombie_processes@) =~= Seq::<Seq<char>>::empty());
    }
    for i in 0..n
        invariant
            n == entries@.len() == alive@.len(),
            rv == entries_view(entries@),
            strings_view(report.dead_processes@) + spec_dead_ids_from(rv, alive@, i as int)
                == spec_dead_ids(rv, alive@),
            strings_view(report.zombie_processes@) + spec_zombie_ids_from(rv, alive@, i as int)
                == spec_zombie_ids(rv, alive@),
    {
        let e = &entries[i];
        let ghost dead0 = strings_view(report.dead_processes@);
        let ghost zom0 = strings_view(report.zombie_processes@);
        let is_running = matches!(e.info.status, TaskStatus::Running);
        let is_completed = matches!(e.info.status, TaskStatus::Completed);
        if is_running && !alive[i] {
            report.dead_processes.push(e.task_id.clone());
            proof {
                assert(strings_view(report.dead_processes@) =~= dead0.push(rv[i as int].0));
            }
        }
        if is_completed && alive[i] {
            report.zombie_processes.push(e.task_id.clone());
            proof {
                assert(strings_view(report.zombie_processes@) =~= zom0.push(rv[i as int].0));
            }
        }
        proof {
            assert(spec_dead_ids_from(rv, alive@, i as int) == (if rv[i as int].1.status
                == TaskStatus::Running && !alive@[i as int] {
                seq![rv[i as int].0] + spec_dead_ids_from(rv, alive@, i + 1)
            } else {
                spec_dead_ids_from(rv, alive@, i + 1)
            }));
            assert(spec_zombie_ids_from(rv, alive@, i as int) == (if rv[i as int].1.status
                == TaskStatus::Completed && alive@[i as int] {
                seq![rv[i as int].0] + spec_zombie_ids_from(rv, alive@, i + 1)
            } else {
                spec_zombie_ids_from(rv, alive@, i + 1)
            }));
            assert(strings_view(report.dead_processes@) + spec_dead_ids_from(rv, alive@, i + 1)
                =~= dead0 + spec_dead_ids_from(rv, alive@, i as int));
            assert(strings_view(report.zombie_processes@) + spec_zombie_ids_from(
                rv,
                alive@,
                i + 1,
            ) =~= zom0 + spec_zombie_ids_from(rv, alive@, i as int));
        }
    }
    proof {
        assert(spec_dead_ids_from(rv, alive@, n as int) == Seq::<Seq<char>>::empty());
        assert(spec_zombie_ids_from(rv, alive@, n as int) == Seq::<Seq<char>>::empty());
        assert(strings_view(report.dead_processes@) + Seq::<Seq<char>>::empty() =~= strings_view(
            report.dead_processes@,
        ));
        assert(strings_view(report.zombie_processes@) + Seq::<Seq<char>>::empty()
            =~= strings_view(report.zombie_processes@));
    }
    report
}

/// Every identifier classified dead names an entry recorded Running whose
/// probe said not alive.
proof fn lemma_dead_ids_from_elems(r: RegView, alive: Seq<bool>, i: int, j: int)
    requires
        alive.len() == r.len(),
        0 <= j < spec_dead_ids_from(r, alive, i).len(),
    ensures
        exists|x: int|
            i <= x < r.len() && (#[trigger] r[x]).0 == spec_dead_ids_from(r, alive, i)[j]
                && r[x].1.status == TaskStatus::Running && !alive[x],
    decreases r.len() - i,
{
    if 0 <= i < r.len() {
        let rest = spec_dead_ids_from(r, alive, i + 1);
        if r[i].1.status == TaskStatus::Running && !alive[i] {
            if j == 0 {
                assert(spec_dead_ids_from(r, alive, i)[0] == r[i].0);
            } else {
                assert(spec_dead_ids_from(r, alive, i)[j] == rest[j - 1]);
                lemma_dead_ids_from_elems(r, alive, i + 1, j - 1);
            }
        } else {
            lemma_dead_ids_from_elems(r, alive, i + 1, j);
        }
    }
}

/// Every identifier classified a zombie names an entry recorded Completed
/// whose probe said alive.
proof fn lemma_zombie_ids_from_elems(r: RegView, alive: Seq<bool>, i: int, j: int)
    requires
        alive.len() == r.len(),
        0 <= j < spec_zombie_ids_from(r, alive, i).len(),
    ensures
        exists|x: int|
            i <= x < r.len() && (#[trigger] r[x]).0 == spec_zombie_ids_from(r, alive, i)[j]
                && r[x].1.status == TaskStatus::Completed && alive[x],
    decreases r.len() - i,
{
    if 0 <= i < r.len() {
        let rest = spec_zombie_ids_from(r, alive, i + 1);
        if r[i].1.status == TaskStatus::Completed && alive[i] {
            if j == 0 {
                assert(spec_zombie_ids_from(r, alive, i)[0] == r[i].0);
            } else {
                assert(spec_zombie_ids_from(r, alive, i)[j] == rest[j - 1]);
                lemma_zombie_ids_from_elems(r, alive, i + 1, j - 1);
            }
        } else {
            lemma_zombie_ids_from_elems(r, alive, i + 1, j);
        }
    }
}

impl ProcessRegistry {
    /// One classification pass over the registry. Native records are probed
    /// through the PID-reuse validator before their liveness is believed; a
    /// container record cannot be probed synchronously and counts as alive
    /// here, so that it is never misreported dead (the engine pass handles
    /// it); a record with no handle counts as dead. The report is the
    /// classification of the probe answers, whatever they were: under the
    /// registry invariant, everything reported dead is recorded Running and
    /// everything reported a zombie is recorded Completed.
    pub fn find_orphans(&self) -> (r: OrphanReport)
        ensures
            exists|alive: Seq<bool>|
                alive.len() == self@.len() && (forall|i: int|
                    0 <= i < self@.len() && (#[trigger] self@[i]).1.mode == ExecutionMode::Docker
                        ==> alive[i]) && (forall|i: int|
                    0 <= i < self@.len() && (#[trigger] self@[i]).1.mode == ExecutionMode::Native
                        && self@[i].1.native is None ==> !alive[i]) && strings_view(
                    r.dead_processes@,
                ) == spec_dead_ids(self@, alive) && strings_view(r.zombie_processes@)
                    == spec_zombie_ids(self@, alive),
            reg_wf(self@) ==> forall|j: int|
                0 <= j < r.dead_processes@.len() ==> (match reg_get(
                    self@,
                    (#[trigger] r.dead_processes@[j])@,
                ) {
                    Some(v) => v.status == TaskStatus::Running,
                    None => false,
                }),
            reg_wf(self@) ==> forall|j: int|
                0 <= j < r.zombie_processes@.len() ==> (match reg_get(
                    self@,
                    (#[trigger] r.zombie_processes@[j])@,
                ) {
                    Some(v) => v.status == TaskStatus::Completed,
                    None => false,
                }),
    {
        let n = self.tasks.len();
        let mut alive: Vec<bool> = Vec::new();
        for i in 0..n
            invariant
                n == self.tasks@.len(),
                alive@.len() == i,
                forall|j: int|
                    0 <= j < i && (#[trigger] self@[j]).1.mode == ExecutionMode::Docker
                        ==> alive@[j],
                forall|j: int|
                    0 <= j < i && (#[trigger] self@[j]).1.mode == ExecutionMode::Native
                        && self@[j].1.native is None ==> !alive@[j],
        {
            let e = &self.tasks[i];
            let a = match e.info.mode {
                ExecutionMode::Native => {
                    match &e.info.native {
                        Some(h) => {
                            if ProcessManager::validate_process(h.pid, h.start_time.as_str()) {
                                ProcessManager::is_alive(h.pid)
                            } else {
                                false
                            }
                        },
                        None => false,
                    }
                },
                ExecutionMode::Docker => true,
            };
            proof {
                assert(self@[i as int].1 == e.info@);
            }
            alive.push(a);
        }
        let report = classify_records(&self.tasks, &alive);
        proof {
            let w = alive@;
            assert(w.len() == self@.len());
            assert(forall|i: int|
                0 <= i < self@.len() && (#[trigger] self@[i]).1.mode == ExecutionMode::Docker
                    ==> w[i]);
            assert(forall|i: int|
                0 <= i < self@.len() && (#[trigger] self@[i]).1.mode == ExecutionMode::Native
                    && self@[i].1.native is None ==> !w[i]);
            assert(strings_view(report.dead_processes@) == spec_dead_ids(self@, w));
            if reg_wf(self@) {
                assert forall|j: int| 0 <= j < report.dead_processes@.len() implies (match reg_get(
                    self@,
                    (#[trigger] report.dead_processes@[j])@,
                ) {
                    Some(v) => v.status == TaskStatus::Running,
                    None => false,
                }) by {
                    let id = report.dead_processes@[j]@;
                    assert(spec_dead_ids(self@, w)[j] == id);
                    lemma_dead_ids_from_elems(self@, w, 0, j);
                    let x = choose|x: int|
                        0 <= x < self@.len() && (#[trigger] self@[x]).0 == id && self@[x].1.status
                            == TaskStatus::Running && !w[x];
                    assert forall|y: int| 0 <= y < x implies (#[trigger] self@[y]).0 != id by {}
                    lemma_reg_get_first(self@, id, x);
                }
                assert forall|j: int|
                    0 <= j < report.zombie_processes@.len() implies (match reg_get(
                    self@,
                    (#[trigger] report.zombie_processes@[j])@,
                ) {
                    Some(v) => v.status == TaskStatus::Completed,
                    None => false,
                }) by {
                    let id = report.zombie_processes@[j]@;
                    assert(spec_zombie_ids(self@, w)[j] == id);
                    lemma_zombie_ids_from_elems(self@, w, 0, j);
                    let x = choose|x: int|
                        0 <= x < self@.len() && (#[trigger] self@[x]).0 == id && self@[x].1.status
                            == TaskStatus::Completed && w[x];
                    assert forall|y: int| 0 <= y < x implies (#[trigger] self@[y]).0 != id by {}
                    lemma_reg_get_first(self@, id, x);
                }
            }
        }
        report
    }
}

/// The registry after marking every listed identifier with the terminal
/// status, in order.
pub open spec fn spec_mark_all(r: RegView, ids: Seq<Seq<char>>, st: TaskStatus, now: int) -> RegView
    decreases ids.len(),
{
    if ids.len() == 0 {
        r
    } else {
        spec_mark_all(update_id(r, ids[0], st, now), ids.drop_first(), st, now)
    }
}

/// How marking a list of identifiers changes each binding: listed records
/// are marked, everything else is untouched.
pub proof fn lemma_mark_all_get(
    r: RegView,
    ids: Seq<Seq<char>>,
    st: TaskStatus,
    now: int,
    k: Seq<char>,
)
    ensures
        reg_get(spec_mark_all(r, ids, st, now), k) == (if ids.contains(k) {
            match reg_get(r, k) {
                Some(v) => Some(mark_view(v, st, now)),
                None => None::<TaskInfoView>,
            }
        } else {
            reg_get(r, k)
        }),
        ids_unique(r) ==> ids_unique(spec_mark_all(r, ids, st, now)),
    decreases ids.len(),
{
    if ids.len() > 0 {
        let r1 = update_id(r, ids[0], st, now);
        lemma_update_id_get(r, ids[0], st, now, k);
        lemma_mark_all_get(r1, ids.drop_first(), st, now, k);
        if ids.contains(k) {
            let j = choose|j: int| 0 <= j < ids.len() && ids[j] == k;
            if k == ids[0] {
                if ids.drop_first().contains(k) {
                    // marking twice marks once: the mark is idempotent
                    assert(forall|v: TaskInfoView|
                        mark_view(mark_view(v, st, now), st, now) == mark_view(v, st, now));
                } else {
                }
            } else {
                assert(ids.drop_first()[j - 1] == ids[j]);
                assert(ids.drop_first().contains(k));
            }
        } else {
            assert(k != ids[0]);
            if ids.drop_first().contains(k) {
                let j = choose|j: int| 0 <= j < ids.drop_first().len() && ids.drop_first()[j] == k;
                assert(ids[j + 1] == ids.drop_first()[j]);
                assert(ids.contains(k));
            }
        }
    }
}

/// Mark every listed task failed at `now`; the repair applied to the dead
/// processes of an orphan report.
pub fn mark_all_failed(reg: &mut ProcessRegistry, ids: &Vec<String>, now: i64)
    requires
        reg_wf(old(reg)@),
    ensures
        final(reg)@ == spec_mark_all(old(reg)@, strings_view(ids@), TaskStatus::Failed, now as int),
        reg_wf(final(reg)@),
{
    let ghost r0 = reg@;
    let ghost idsv = strings_view(ids@);
    let n = ids.len();
    proof {
        assert(idsv.skip(0) =~= idsv);
    }
    for i in 0..n
        invariant
            n == ids@.len(),
            idsv == strings_view(ids@),
            reg_wf(reg@),
            spec_mark_all(r0, idsv, TaskStatus::Failed, now as int) == spec_mark_all(
                reg@,
                idsv.skip(i as int),
                TaskStatus::Failed,
                now as int,
            ),
    {
        let ghost pre = idsv.skip(i as int);
        proof {
            assert(pre[0] == idsv[i as int]);
            assert(pre.drop_first() =~= idsv.skip(i + 1));
        }
        reg.mark_failed(ids[i].as_str(), now);
    }
    proof {
        assert(idsv.skip(n as int) =~= Seq::<Seq<char>>::empty());
    }
}

/// A container-engine observation for one task: whether its container is
/// still running.
pub struct ContainerObservation {
    pub task_id: String,
    pub running: bool,
}

impl View for ContainerObservation {
    type V = (Seq<char>, bool);

    open spec fn view(&self) -> (Seq<char>, bool) {
        (self.task_id@, self.running)
    }
}

/// Identifiers, from `i` on, whose container was observed stopped.
pub open spec fn spec_stopped_ids_from(obs: Seq<(Seq<char>, bool)>, i: int) -> Seq<Seq<char>>
    decreases obs.len() - i,
{
    if 0 <= i < obs.len() {
        let rest = spec_stopped_ids_from(obs, i + 1);
        if !obs[i].1 {
            seq![obs[i].0] + rest
        } else {
            rest
        }
    } else {
        Seq::empty()
    }
}

/// The observed-stopped identifiers.
pub open spec fn spec_stopped_ids(obs: Seq<(Seq<char>, bool)>) -> Seq<Seq<char>> {
    spec_stopped_ids_from(obs, 0)
}

/// The container-mode records to mark failed after an engine pass: exactly
/// those whose container was observed not running. A cycle in which the
/// engine could not be reached makes no observations, and so fails nothing.
pub fn docker_tasks_to_fail(obs: &Vec<ContainerObservation>) -> (r: Vec<String>)
    ensures
        strings_view(r@) == spec_stopped_ids(Seq::new(obs@.len(), |i: int| obs@[i]@)),
{
    let ghost ov = Seq::new(obs@.len(), |i: int| obs@[i]@);
    let mut out: Vec<String> = Vec::new();
    let n = obs.len();
    proof {
        assert(strings_view(out@) =~= Seq::<Seq<char>>::empty());
    }
    for i in 0..n
        invariant
            n == obs@.len(),
            ov == Seq::new(obs@.len(), |i: int| obs@[i]@),
            strings_view(out@) + spec_stopped_ids_from(ov, i as int) == spec_stopped_ids(ov),
    {
        let ghost out0 = strings_view(out@);
        if !obs[i].running {
            out.push(obs[i].task_id.clone());
            proof {
                assert(strings_view(out@) =~= out0.push(ov[i as int].0));
            }
        }
        proof {
            assert(strings_view(out@) + spec_stopped_ids_from(ov, i + 1) =~= out0
                + spec_stopped_ids_from(ov, i as int));
        }
    }
    proof {
        assert(spec_stopped_ids_from(ov, n as int) == Seq::<Seq<char>>::empty());
        assert(strings_view(out@) + Seq::<Seq<char>>::empty() =~= strings_view(out@));
    }
    out
}

/// An index is classified dead exactly by the table's first row.
proof fn lemma_dead_ids_contains(r: RegView, alive: Seq<bool>, i: int, j: int)
    requires
        alive.len() == r.len(),
        0 <= j <= i < r.len(),
        r[i].1.status == TaskStatus::Running,
        !alive[i],
    ensures
        spec_dead_ids_from(r, alive, j).contains(r[i].0),
    decreases i - j,
{
    let rest = spec_dead_ids_from(r, alive, j + 1);
    if j == i {
        assert(spec_dead_ids_from(r, alive, j)[0] == r[i].0);
    } else {
        lemma_dead_ids_contains(r, alive, i, j + 1);
        let w = choose|w: int| 0 <= w < rest.len() && rest[w] == r[i].0;
        if r[j].1.status == TaskStatus::Running && !alive[j] {
            assert(spec_dead_ids_from(r, alive, j)[w + 1] == rest[w]);
        }
    }
}

/// The same for the zombie row.
proof fn lemma_zombie_ids_contains(r: RegView, alive: Seq<bool>, i: int, j: int)
    requires
        alive.len() == r.len(),
        0 <= j <= i < r.len(),
        r[i].1.status == TaskStatus::Completed,
        alive[i],
    ensures
        spec_zombie_ids_from(r, alive, j).contains(r[i].0),
    decreases i - j,
{
    let rest = spec_zombie_ids_from(r, alive, j + 1);
    if j == i {
        assert(spec_zombie_ids_from(r, alive, j)[0] == r[i].0);
    } else {
        lemma_zombie_ids_contains(r, alive, i, j + 1);
        let w = choose|w: int| 0 <= w < rest.len() && rest[w] == r[i].0;
        if r[j].1.status == TaskStatus::Completed && alive[j] {
            assert(spec_zombie_ids_from(r, alive, j)[w + 1] == rest[w]);
        }
    }
}

/// Law: a record recorded Running whose entity is not alive is classified a
/// dead process, and after the repairs of one reconciliation pass its
/// status is Failed with the completion instant set.
pub proof fn lemma_dead_process_repair(r: RegView, alive: Seq<bool>, i: int, now: int)
    requires
        reg_wf(r),
        alive.len() == r.len(),
        0 <= i < r.len(),
        r[i].1.status == TaskStatus::Running,
        !alive[i],
    ensures
        spec_dead_ids(r, alive).contains(r[i].0),
        reg_get(spec_mark_all(r, spec_dead_ids(r, alive), TaskStatus::Failed, now), r[i].0)
            == Some(mark_view(r[i].1, TaskStatus::Failed, now)),
        mark_view(r[i].1, TaskStatus::Failed, now).status == TaskStatus::Failed,
        mark_view(r[i].1, TaskStatus::Failed, now).completed_at == Some(now),
{
    lemma_dead_ids_contains(r, alive, i, 0);
    lemma_mark_all_get(r, spec_dead_ids(r, alive), TaskStatus::Failed, now, r[i].0);
    assert forall|j: int| 0 <= j < i implies (#[trigger] r[j]).0 != r[i].0 by {}
    lemma_reg_get_first(r, r[i].0, i);
}

/// Law: a record recorded Completed whose entity is still alive is
/// classified a zombie process. Its repair is the two-phase termination of
/// its handle, with no status change.
pub proof fn lemma_zombie_classified(r: RegView, alive: Seq<bool>, i: int)
    requires
        alive.len() == r.len(),
        0 <= i < r.len(),
        r[i].1.status == TaskStatus::Completed,
        alive[i],
    ensures
        spec_zombie_ids(r, alive).contains(r[i].0),
{
    lemma_zombie_ids_contains(r, alive, i, 0);
}

} // verus!
