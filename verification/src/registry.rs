//! The registry aggregate: a durable mapping from task identifier to task
//! record, here as the in-memory value together with every mutation the
//! daemon performs on it. Persistence (file locking, atomic replace) lives
//! outside the library; each mutation is a pure transformation stated and
//! proved here, so that the locked read-modify-write protocol applies exactly
//! the transformation its caller asked for.

use vstd::prelude::*;

use crate::types::{RegistryStats, TaskInfo, TaskInfoView, TaskStatus};

verus! {

/// One registry entry: an identifier and its record.
pub struct TaskEntry {
    pub task_id: String,
    pub info: TaskInfo,
}

impl View for TaskEntry {
    type V = (Seq<char>, TaskInfoView);

    open spec fn view(&self) -> (Seq<char>, TaskInfoView) {
        (self.task_id@, self.info@)
    }
}

/// Mathematical value of a registry: the entries in order.
pub type RegView = Seq<(Seq<char>, TaskInfoView)>;

/// The views of a sequence of entries.
pub open spec fn entries_view(s: Seq<TaskEntry>) -> RegView {
    Seq::new(s.len(), |i: int| s[i]@)
}

/// The record stored under `k`: the first entry whose identifier is `k`.
pub open spec fn reg_get(r: RegView, k: Seq<char>) -> Option<TaskInfoView>
    decreases r.len(),
{
    if r.len() == 0 {
        None
    } else if r[0].0 == k {
        Some(r[0].1)
    } else {
        reg_get(r.drop_first(), k)
    }
}

/// Some entry carries the identifier `k`.
pub open spec fn has_id(r: RegView, k: Seq<char>) -> bool {
    exists|j: int| 0 <= j < r.len() && (#[trigger] r[j]).0 == k
}

/// No identifier appears twice.
pub open spec fn ids_unique(r: RegView) -> bool {
    forall|i: int, j: int|
        0 <= i < j < r.len() ==> (#[trigger] r[i]).0 != (#[trigger] r[j]).0
}

/// Registry invariant: identifiers are unique and every record satisfies the
/// record invariant.
pub open spec fn reg_wf(r: RegView) -> bool {
    &&& ids_unique(r)
    &&& forall|i: int| 0 <= i < r.len() ==> (#[trigger] r[i]).1.wf()
}

/// `reg_get` misses exactly when no entry carries the identifier.
pub proof fn lemma_reg_get_none(r: RegView, k: Seq<char>)
    ensures
        (reg_get(r, k) is None) <==> !has_id(r, k),
    decreases r.len(),
{
    if r.len() == 0 {
        assert(!has_id(r, k));
    } else if r[0].0 == k {
        assert(has_id(r, k));
    } else {
        lemma_reg_get_none(r.drop_first(), k);
        let rd = r.drop_first();
        assert forall|j: int| 0 <= j < r.len() && (#[trigger] r[j]).0 == k implies has_id(rd, k) by {
            assert(rd[j - 1] == r[j]);
        }
        if has_id(rd, k) {
            let j = choose|j: int| 0 <= j < rd.len() && (#[trigger] rd[j]).0 == k;
            assert(r[j + 1] == rd[j]);
            assert(has_id(r, k));
        }
    }
}

/// The first matching entry determines `reg_get`.
pub proof fn lemma_reg_get_first(r: RegView, k: Seq<char>, i: int)
    requires
        0 <= i < r.len(),
        r[i].0 == k,
        forall|j: int| 0 <= j < i ==> (#[trigger] r[j]).0 != k,
    ensures
        reg_get(r, k) == Some(r[i].1),
    decreases i,
{
    if i > 0 {
        lemma_reg_get_first(r.drop_first(), k, i - 1);
    }
}

/// Appending an entry leaves every present identifier unchanged and binds a
/// previously absent one.
pub proof fn lemma_reg_get_push(r: RegView, e: (Seq<char>, TaskInfoView), k: Seq<char>)
    ensures
        reg_get(r.push(e), k) == (match reg_get(r, k) {
            Some(v) => Some(v),
            None => if e.0 == k {
                Some(e.1)
            } else {
                None
            },
        }),
    decreases r.len(),
{
    if r.len() == 0 {
        assert(r.push(e)[0] == e);
        assert(r.push(e).drop_first() =~= Seq::<(Seq<char>, TaskInfoView)>::empty());
        assert(reg_get(r, k) is None);
        assert(reg_get(r.push(e).drop_first(), k) is None);
        if e.0 == k {
            assert(reg_get(r.push(e), k) == Some(e.1));
        } else {
            assert(reg_get(r.push(e), k) is None);
        }
    } else {
        assert(r.push(e)[0] == r[0]);
        assert(r.push(e).drop_first() =~= r.drop_first().push(e));
        lemma_reg_get_push(r.drop_first(), e, k);
        if r[0].0 == k {
            assert(reg_get(r.push(e), k) == Some(r[0].1));
            assert(reg_get(r, k) == Some(r[0].1));
        } else {
            assert(reg_get(r.push(e), k) == reg_get(r.drop_first().push(e), k));
            assert(reg_get(r, k) == reg_get(r.drop_first(), k));
        }
    }
}

/// Removing the entry at `i` (identifiers unique) unbinds exactly its
/// identifier.
pub proof fn lemma_reg_get_remove(r: RegView, i: int, k: Seq<char>)
    requires
        ids_unique(r),
        0 <= i < r.len(),
    ensures
        reg_get(r.remove(i), k) == (if r[i].0 == k {
            None::<TaskInfoView>
        } else {
            reg_get(r, k)
        }),
    decreases r.len(),
{
    r.remove_ensures(i);
    if i == 0 {
        assert(r.remove(0) =~= r.drop_first());
        if r[0].0 == k {
            assert forall|j: int| 0 <= j < r.drop_first().len()
                implies (#[trigger] r.drop_first()[j]).0 != k by {
                assert(r.drop_first()[j] == r[j + 1]);
            }
            lemma_reg_get_none(r.drop_first(), k);
        }
    } else {
        if r[0].0 == k {
            assert(r[i].0 != k);
            assert(r.remove(i)[0] == r[0]);
        } else {
            assert(r.remove(i)[0] == r[0]);
            assert(r.remove(i).drop_first() =~= r.drop_first().remove(i - 1));
            assert(ids_unique(r.drop_first())) by {
                assert forall|a: int, b: int|
                    0 <= a < b < r.drop_first().len()
                    implies (#[trigger] r.drop_first()[a]).0 != (#[trigger] r.drop_first()[b]).0 by {
                    assert(r.drop_first()[a] == r[a + 1]);
                    assert(r.drop_first()[b] == r[b + 1]);
                }
            }
            lemma_reg_get_remove(r.drop_first(), i - 1, k);
            assert(r.drop_first()[i - 1] == r[i]);
        }
    }
}

/// Uniqueness survives removing an entry.
pub proof fn lemma_unique_remove(r: RegView, i: int)
    requires
        ids_unique(r),
        0 <= i < r.len(),
    ensures
        ids_unique(r.remove(i)),
{
    r.remove_ensures(i);
    assert forall|a: int, b: int|
        0 <= a < b < r.remove(i).len()
        implies (#[trigger] r.remove(i)[a]).0 != (#[trigger] r.remove(i)[b]).0 by {
        let a0: int = if a < i { a } else { a + 1 };
        let b0: int = if b < i { b } else { b + 1 };
        assert(r.remove(i)[a] == r[a0]);
        assert(r.remove(i)[b] == r[b0]);
    }
}

/// Uniqueness survives appending a fresh identifier.
pub proof fn lemma_unique_push(r: RegView, e: (Seq<char>, TaskInfoView))
    requires
        ids_unique(r),
        !has_id(r, e.0),
    ensures
        ids_unique(r.push(e)),
{
    assert forall|a: int, b: int|
        0 <= a < b < r.push(e).len()
        implies (#[trigger] r.push(e)[a]).0 != (#[trigger] r.push(e)[b]).0 by {
        if b < r.len() {
            assert(r.push(e)[a] == r[a]);
            assert(r.push(e)[b] == r[b]);
        } else {
            assert(r.push(e)[a] == r[a]);
            assert(r.push(e)[b] == e);
        }
    }
}

/// The sequence with the first entry named `k` (if any) taken out.
pub open spec fn remove_id(r: RegView, k: Seq<char>) -> RegView
    decreases r.len(),
{
    if r.len() == 0 {
        r
    } else if r[0].0 == k {
        r.drop_first()
    } else {
        seq![r[0]] + remove_id(r.drop_first(), k)
    }
}

/// Adding or replacing a binding: take out the old entry for `k`, then append
/// the new one.
pub open spec fn spec_upsert(r: RegView, k: Seq<char>, v: TaskInfoView) -> RegView {
    remove_id(r, k).push((k, v))
}

/// With unique identifiers, taking out `k` unbinds exactly `k`, keeps
/// uniqueness, and leaves no entry named `k` behind.
pub proof fn lemma_remove_id_get(r: RegView, k: Seq<char>, k2: Seq<char>)
    requires
        ids_unique(r),
    ensures
        reg_get(remove_id(r, k), k2) == (if k2 == k {
            None::<TaskInfoView>
        } else {
            reg_get(r, k2)
        }),
        ids_unique(remove_id(r, k)),
        !has_id(remove_id(r, k), k),
    decreases r.len(),
{
    lemma_reg_get_none(r, k);
    if r.len() == 0 {
    } else {
        assert(ids_unique(r.drop_first())) by {
            assert forall|a: int, b: int|
                0 <= a < b < r.drop_first().len()
                implies (#[trigger] r.drop_first()[a]).0 != (#[trigger] r.drop_first()[b]).0 by {
                assert(r.drop_first()[a] == r[a + 1]);
                assert(r.drop_first()[b] == r[b + 1]);
            }
        }
        if r[0].0 == k {
            lemma_reg_get_remove(r, 0, k2);
            assert(r.remove(0) =~= r.drop_first());
            lemma_unique_remove(r, 0);
            lemma_reg_get_none(r.drop_first(), k);
            if has_id(r.drop_first(), k) {
                let j = choose|j: int|
                    0 <= j < r.drop_first().len() && (#[trigger] r.drop_first()[j]).0 == k;
                assert(r[j + 1] == r.drop_first()[j]);
            }
        } else {
            lemma_remove_id_get(r.drop_first(), k, k2);
            let tail = remove_id(r.drop_first(), k);
            let whole = remove_id(r, k);
            assert(whole == seq![r[0]] + tail);
            assert(whole.len() == 1 + tail.len());
            assert(whole[0] == r[0]);
            assert(whole.drop_first() =~= tail);
            // uniqueness of seq![r[0]] + tail: r[0].0 differs from every tail id
            assert forall|j: int| 0 <= j < tail.len() implies (#[trigger] tail[j]).0 != r[0].0 by {
                lemma_reg_get_none(tail, tail[j].0);
                lemma_remove_id_get(r.drop_first(), k, tail[j].0);
                if tail[j].0 == r[0].0 {
                    assert(has_id(tail, tail[j].0));
                    assert(reg_get(tail, tail[j].0) is Some);
                    assert(tail[j].0 != k);
                    assert(reg_get(r.drop_first(), r[0].0) is Some);
                    lemma_reg_get_none(r.drop_first(), r[0].0);
                    let j2 = choose|j2: int|
                        0 <= j2 < r.drop_first().len() && (#[trigger] r.drop_first()[j2]).0 == r[0].0;
                    assert(r[j2 + 1] == r.drop_first()[j2]);
                }
            }
            assert(ids_unique(whole)) by {
                assert forall|a: int, b: int|
                    0 <= a < b < whole.len()
                    implies (#[trigger] whole[a]).0 != (#[trigger] whole[b]).0 by {
                    if a == 0 {
                        assert(whole[b] == tail[b - 1]);
                    } else {
                        assert(whole[a] == tail[a - 1]);
                        assert(whole[b] == tail[b - 1]);
                    }
                }
            }
            if has_id(whole, k) {
                let j = choose|j: int| 0 <= j < whole.len() && (#[trigger] whole[j]).0 == k;
                assert(j != 0);
                assert(whole[j] == tail[j - 1]);
                assert(has_id(tail, k));
            }
        }
    }
}

/// With unique identifiers, an upsert binds `k` to `v`, leaves every other
/// identifier unchanged, and keeps identifiers unique.
pub proof fn lemma_upsert_get(r: RegView, k: Seq<char>, v: TaskInfoView, k2: Seq<char>)
    requires
        ids_unique(r),
    ensures
        reg_get(spec_upsert(r, k, v), k2) == (if k2 == k {
            Some(v)
        } else {
            reg_get(r, k2)
        }),
        ids_unique(spec_upsert(r, k, v)),
{
    lemma_remove_id_get(r, k, k2);
    lemma_remove_id_get(r, k, k);
    lemma_reg_get_push(remove_id(r, k), (k, v), k2);
    lemma_unique_push(remove_id(r, k), (k, v));
}

/// Applying a sequence of upserts in order, each to the result of the one
/// before — the shape of independent writers each holding the lock in turn.
pub open spec fn apply_upserts(r: RegView, ops: Seq<(Seq<char>, TaskInfoView)>) -> RegView
    decreases ops.len(),
{
    if ops.len() == 0 {
        r
    } else {
        apply_upserts(spec_upsert(r, ops[0].0, ops[0].1), ops.drop_first())
    }
}

/// Law: no lost update. However many writers upsert in whatever order the
/// lock serialises them, every upsert whose key is not overwritten by a later
/// one is present afterwards — in particular, upserts with pairwise distinct
/// keys all survive — and keys never upserted keep their old binding.
pub proof fn lemma_no_lost_update(r: RegView, ops: Seq<(Seq<char>, TaskInfoView)>)
    requires
        ids_unique(r),
    ensures
        ids_unique(apply_upserts(r, ops)),
        forall|i: int|
            0 <= i < ops.len() && (forall|j: int|
                i < j < ops.len() ==> (#[trigger] ops[j]).0 != ops[i].0) ==> reg_get(
                apply_upserts(r, ops),
                (#[trigger] ops[i]).0,
            ) == Some(ops[i].1),
        forall|k: Seq<char>|
            (forall|j: int| 0 <= j < ops.len() ==> (#[trigger] ops[j]).0 != k) ==> reg_get(
                apply_upserts(r, ops),
                k,
            ) == reg_get(r, k),
    decreases ops.len(),
{
    if ops.len() > 0 {
        let r1 = spec_upsert(r, ops[0].0, ops[0].1);
        assert(ids_unique(r1)) by {
            lemma_upsert_get(r, ops[0].0, ops[0].1, ops[0].0);
        }
        lemma_no_lost_update(r1, ops.drop_first());
        let out = apply_upserts(r, ops);
        assert(out == apply_upserts(r1, ops.drop_first()));
        assert forall|i: int|
            0 <= i < ops.len() && (forall|j: int|
                i < j < ops.len() ==> (#[trigger] ops[j]).0 != ops[i].0)
            implies reg_get(out, (#[trigger] ops[i]).0) == Some(ops[i].1) by {
            if i == 0 {
                assert forall|j: int| 0 <= j < ops.drop_first().len()
                    implies (#[trigger] ops.drop_first()[j]).0 != ops[0].0 by {
                    assert(ops.drop_first()[j] == ops[j + 1]);
                }
                lemma_upsert_get(r, ops[0].0, ops[0].1, ops[0].0);
            } else {
                assert(ops.drop_first()[i - 1] == ops[i]);
                assert forall|j: int| i - 1 < j < ops.drop_first().len()
                    implies (#[trigger] ops.drop_first()[j]).0 != ops.drop_first()[i - 1].0 by {
                    assert(ops.drop_first()[j] == ops[j + 1]);
                }
            }
        }
        assert forall|k: Seq<char>|
            (forall|j: int| 0 <= j < ops.len() ==> (#[trigger] ops[j]).0 != k)
            implies reg_get(out, k) == reg_get(r, k) by {
            assert(ops[0].0 != k);
            assert forall|j: int| 0 <= j < ops.drop_first().len()
                implies (#[trigger] ops.drop_first()[j]).0 != k by {
                assert(ops.drop_first()[j] == ops[j + 1]);
            }
            lemma_upsert_get(r, ops[0].0, ops[0].1, k);
        }
    }
}

/// Where the first entry named `k` stands at `i`, `remove_id` is removal at
/// `i`.
pub proof fn lemma_remove_id_at(r: RegView, k: Seq<char>, i: int)
    requires
        0 <= i < r.len(),
        r[i].0 == k,
        forall|j: int| 0 <= j < i ==> (#[trigger] r[j]).0 != k,
    ensures
        remove_id(r, k) == r.remove(i),
    decreases i,
{
    r.remove_ensures(i);
    if i == 0 {
        assert(remove_id(r, k) == r.drop_first());
        assert(r.remove(0) =~= r.drop_first());
    } else {
        let rd = r.drop_first();
        assert(rd[i - 1] == r[i]);
        assert forall|j: int| 0 <= j < i - 1 implies (#[trigger] rd[j]).0 != k by {
            assert(rd[j] == r[j + 1]);
        }
        lemma_remove_id_at(rd, k, i - 1);
        assert(remove_id(r, k) == seq![r[0]] + rd.remove(i - 1));
        rd.remove_ensures(i - 1);
        assert(seq![r[0]] + rd.remove(i - 1) =~= r.remove(i));
    }
}

/// Where no entry is named `k`, `remove_id` changes nothing.
pub proof fn lemma_remove_id_absent(r: RegView, k: Seq<char>)
    requires
        forall|j: int| 0 <= j < r.len() ==> (#[trigger] r[j]).0 != k,
    ensures
        remove_id(r, k) == r,
    decreases r.len(),
{
    if r.len() > 0 {
        let rd = r.drop_first();
        assert forall|j: int| 0 <= j < rd.len() implies (#[trigger] rd[j]).0 != k by {
            assert(rd[j] == r[j + 1]);
        }
        lemma_remove_id_absent(rd, k);
        assert(seq![r[0]] + rd =~= r);
    }
}

/// The record value after a terminal transition.
pub open spec fn mark_view(v: TaskInfoView, st: TaskStatus, now: int) -> TaskInfoView {
    TaskInfoView { status: st, completed_at: Some(now), ..v }
}

/// Every entry named `k` rewritten to the marked record; others untouched.
pub open spec fn update_id(r: RegView, k: Seq<char>, st: TaskStatus, now: int) -> RegView {
    Seq::new(
        r.len(),
        |i: int|
            if r[i].0 == k {
                (r[i].0, mark_view(r[i].1, st, now))
            } else {
                r[i]
            },
    )
}

/// How `update_id` changes each binding.
pub proof fn lemma_update_id_get(r: RegView, k: Seq<char>, st: TaskStatus, now: int, k2: Seq<char>)
    ensures
        reg_get(update_id(r, k, st, now), k2) == (match reg_get(r, k2) {
            Some(v) => if k2 == k {
                Some(mark_view(v, st, now))
            } else {
                Some(v)
            },
            None => None::<TaskInfoView>,
        }),
        ids_unique(r) ==> ids_unique(update_id(r, k, st, now)),
    decreases r.len(),
{
    let u = update_id(r, k, st, now);
    assert(forall|i: int| 0 <= i < r.len() ==> (#[trigger] u[i]).0 == r[i].0);
    if r.len() > 0 {
        lemma_update_id_get(r.drop_first(), k, st, now, k2);
        assert(u.drop_first() =~= update_id(r.drop_first(), k, st, now));
        assert(u[0] == (if r[0].0 == k {
            (r[0].0, mark_view(r[0].1, st, now))
        } else {
            r[0]
        }));
    }
}

/// The entries satisfying `pred`, in order.
pub open spec fn filter_front(r: RegView, pred: spec_fn((Seq<char>, TaskInfoView)) -> bool) -> RegView
    decreases r.len(),
{
    if r.len() == 0 {
        r
    } else if pred(r[0]) {
        seq![r[0]] + filter_front(r.drop_first(), pred)
    } else {
        filter_front(r.drop_first(), pred)
    }
}

/// Filtering never invents identifiers.
pub proof fn lemma_filter_front_has(
    r: RegView,
    pred: spec_fn((Seq<char>, TaskInfoView)) -> bool,
    k: Seq<char>,
)
    requires
        has_id(filter_front(r, pred), k),
    ensures
        has_id(r, k),
    decreases r.len(),
{
    let f = filter_front(r, pred);
    if r.len() > 0 {
        let tail = filter_front(r.drop_first(), pred);
        if pred(r[0]) {
            let j = choose|j: int| 0 <= j < f.len() && (#[trigger] f[j]).0 == k;
            if j == 0 {
                assert(r[0].0 == k);
            } else {
                assert(f[j] == tail[j - 1]);
                assert(has_id(tail, k));
                lemma_filter_front_has(r.drop_first(), pred, k);
                let j2 = choose|j2: int|
                    0 <= j2 < r.drop_first().len() && (#[trigger] r.drop_first()[j2]).0 == k;
                assert(r[j2 + 1] == r.drop_first()[j2]);
            }
        } else {
            lemma_filter_front_has(r.drop_first(), pred, k);
            let j2 = choose|j2: int|
                0 <= j2 < r.drop_first().len() && (#[trigger] r.drop_first()[j2]).0 == k;
            assert(r[j2 + 1] == r.drop_first()[j2]);
        }
    }
}

/// Filtering keeps identifiers unique and changes each binding as the
/// predicate says: kept where the predicate holds, dropped where it does not.
pub proof fn lemma_filter_front_get(
    r: RegView,
    pred: spec_fn((Seq<char>, TaskInfoView)) -> bool,
    k: Seq<char>,
)
    requires
        ids_unique(r),
    ensures
        ids_unique(filter_front(r, pred)),
        reg_get(filter_front(r, pred), k) == (match reg_get(r, k) {
            Some(v) => if pred((k, v)) {
                Some(v)
            } else {
                None::<TaskInfoView>
            },
            None => None::<TaskInfoView>,
        }),
    decreases r.len(),
{
    lemma_reg_get_none(r, k);
    let f = filter_front(r, pred);
    if r.len() > 0 {
        let rd = r.drop_first();
        assert(ids_unique(rd)) by {
            assert forall|a: int, b: int|
                0 <= a < b < rd.len() implies (#[trigger] rd[a]).0 != (#[trigger] rd[b]).0 by {
                assert(rd[a] == r[a + 1]);
                assert(rd[b] == r[b + 1]);
            }
        }
        lemma_filter_front_get(rd, pred, k);
        let tail = filter_front(rd, pred);
        if pred(r[0]) {
            assert(f == seq![r[0]] + tail);
            assert(f[0] == r[0]);
            assert(f.drop_first() =~= tail);
            assert forall|j: int| 0 <= j < tail.len() implies (#[trigger] tail[j]).0 != r[0].0 by {
                if tail[j].0 == r[0].0 {
                    assert(has_id(tail, tail[j].0));
                    lemma_filter_front_has(rd, pred, tail[j].0);
                    let j2 = choose|j2: int| 0 <= j2 < rd.len() && (#[trigger] rd[j2]).0 == tail[j].0;
                    assert(r[j2 + 1] == rd[j2]);
                }
            }
            assert(ids_unique(f)) by {
                assert forall|a: int, b: int|
                    0 <= a < b < f.len() implies (#[trigger] f[a]).0 != (#[trigger] f[b]).0 by {
                    if a == 0 {
                        assert(f[b] == tail[b - 1]);
                    } else {
                        assert(f[a] == tail[a - 1]);
                        assert(f[b] == tail[b - 1]);
                    }
                }
            }
            if r[0].0 == k {
                assert(reg_get(f, k) == Some(r[0].1));
                assert(reg_get(r, k) == Some(r[0].1));
            }
        } else {
            assert(f == tail);
            if r[0].0 == k {
                // the entry named k was dropped; no other entry is named k
                assert forall|j: int| 0 <= j < rd.len() implies (#[trigger] rd[j]).0 != k by {
                    assert(rd[j] == r[j + 1]);
                }
                lemma_reg_get_none(rd, k);
                lemma_reg_get_none(tail, k);
                if has_id(tail, k) {
                    lemma_filter_front_has(rd, pred, k);
                }
            }
        }
    }
}

/// A record eligible for cleanup: terminal, finished, and older than the
/// cutoff.
pub open spec fn spec_removable(v: TaskInfoView, cutoff: int) -> bool {
    &&& v.status.spec_is_terminal()
    &&& v.completed_at is Some
    &&& v.completed_at->0 < cutoff
}

/// The entries that survive a cleanup with the given cutoff.
pub open spec fn kept_after_cleanup(r: RegView, cutoff: int) -> RegView {
    filter_front(r, |p: (Seq<char>, TaskInfoView)| !spec_removable(p.1, cutoff))
}

/// The entries whose record carries the given status.
pub open spec fn with_status(r: RegView, st: TaskStatus) -> RegView {
    filter_front(r, |p: (Seq<char>, TaskInfoView)| p.1.status == st)
}

/// The registry root: every supervised task record, keyed by task
/// identifier. The first entry wins a lookup, and under the invariant
/// [`reg_wf`] identifiers never repeat.
pub struct ProcessRegistry {
    pub tasks: Vec<TaskEntry>,
}

impl View for ProcessRegistry {
    type V = RegView;

    open spec fn view(&self) -> RegView {
        entries_view(self.tasks@)
    }
}

impl ProcessRegistry {
    /// An empty registry.
    pub fn new() -> (r: Self)
        ensures
            r@.len() == 0,
            reg_wf(r@),
            forall|k: Seq<char>| reg_get(r@, k) is None,
    {
        ProcessRegistry { tasks: Vec::new() }
    }

    /// Index of the first entry named `task_id`, if any.
    fn find_index(&self, task_id: &str) -> (r: Option<usize>)
        ensures
            match r {
                Some(i) => i < self@.len() && self@[i as int].0 == task_id@ && forall|j: int|
                    0 <= j < i ==> (#[trigger] self@[j]).0 != task_id@,
                None => forall|j: int| 0 <= j < self@.len() ==> (#[trigger] self@[j]).0 != task_id@,
            },
    {
        let key: String = task_id.to_owned();
        let n = self.tasks.len();
        for i in 0..n
            invariant
                n == self.tasks@.len(),
                key@ == task_id@,
                forall|j: int| 0 <= j < i ==> (#[trigger] self@[j]).0 != task_id@,
        {
            if self.tasks[i].task_id == key {
                return Some(i);
            }
        }
        None
    }

    /// The record stored under `task_id`, if any.
    pub fn get_task(&self, task_id: &str) -> (r: Option<&TaskInfo>)
        ensures
            match r {
                Some(t) => reg_get(self@, task_id@) == Some(t@),
                None => reg_get(self@, task_id@) is None,
            },
    {
        match self.find_index(task_id) {
            Some(i) => {
                proof {
                    lemma_reg_get_first(self@, task_id@, i as int);
                }
                Some(&self.tasks[i].info)
            },
            None => {
                proof {
                    lemma_reg_get_none(self@, task_id@);
                }
                None
            },
        }
    }

    /// Add a record, or replace the one already stored under `task_id`.
    /// Exactly the binding for `task_id` changes.
    pub fn add_task(&mut self, task_id: String, task: TaskInfo)
        requires
            reg_wf(old(self)@),
            task@.wf(),
        ensures
            final(self)@ == spec_upsert(old(self)@, task_id@, task@),
            reg_wf(final(self)@),
            reg_get(final(self)@, task_id@) == Some(task@),
            forall|k: Seq<char>|
                k != task_id@ ==> reg_get(final(self)@, k) == reg_get(old(self)@, k),
    {
        let ghost r0 = self@;
        let ghost k = task_id@;
        match self.find_index(task_id.as_str()) {
            Some(i) => {
                let ghost t0 = self.tasks@;
                self.tasks.remove(i);
                proof {
                    assert(entries_view(self.tasks@) =~= r0.remove(i as int)) by {
                        r0.remove_ensures(i as int);
                        t0.remove_ensures(i as int);
                    }
                    lemma_remove_id_at(r0, k, i as int);
                }
            },
            None => {
                proof {
                    lemma_remove_id_absent(r0, k);
                }
            },
        }
        let ghost mid = self@;
        let e = TaskEntry { task_id, info: task };
        self.tasks.push(e);
        proof {
            assert(entries_view(self.tasks@) =~= mid.push(e@));
            assert(self@ == spec_upsert(r0, k, e@.1));
            assert forall|k2: Seq<char>| true implies reg_get(self@, k2) == (if k2 == k {
                Some(e@.1)
            } else {
                reg_get(r0, k2)
            }) && ids_unique(self@) by {
                lemma_upsert_get(r0, k, e@.1, k2);
            }
            assert forall|i: int| 0 <= i < self@.len()
                implies (#[trigger] self@[i]).1.wf() by {
                let ri = remove_id(r0, k);
                if i < ri.len() {
                    lemma_remove_id_elems(r0, k, i);
                    let j = choose|j: int| 0 <= j < r0.len() && ri[i] == #[trigger] r0[j];
                    assert(r0[j].1.wf());
                    assert(self@[i] == ri[i]);
                } else {
                    assert(self@[i] == e@);
                }
            }
        }
    }

    /// Remove the record stored under `task_id`, returning it. Exactly the
    /// binding for `task_id` changes.
    pub fn remove_task(&mut self, task_id: &str) -> (r: Option<TaskInfo>)
        requires
            reg_wf(old(self)@),
        ensures
            final(self)@ == remove_id(old(self)@, task_id@),
            reg_wf(final(self)@),
            reg_get(final(self)@, task_id@) is None,
            forall|k: Seq<char>|
                k != task_id@ ==> reg_get(final(self)@, k) == reg_get(old(self)@, k),
            match r {
                Some(t) => reg_get(old(self)@, task_id@) == Some(t@),
                None => reg_get(old(self)@, task_id@) is None,
            },
    {
        let ghost r0 = self@;
        let ghost k = task_id@;
        let out = match self.find_index(task_id) {
            Some(i) => {
                proof {
                    lemma_reg_get_first(r0, k, i as int);
                    lemma_remove_id_at(r0, k, i as int);
                }
                let ghost t0 = self.tasks@;
                let e = self.tasks.remove(i);
                proof {
                    assert(entries_view(self.tasks@) =~= r0.remove(i as int)) by {
                        r0.remove_ensures(i as int);
                        t0.remove_ensures(i as int);
                    }
                }
                Some(e.info)
            },
            None => {
                proof {
                    lemma_reg_get_none(r0, k);
                    lemma_remove_id_absent(r0, k);
                }
                None
            },
        };
        proof {
            assert forall|k2: Seq<char>| true implies reg_get(self@, k2) == (if k2 == k {
                None::<TaskInfoView>
            } else {
                reg_get(r0, k2)
            }) && ids_unique(self@) by {
                lemma_remove_id_get(r0, k, k2);
            }
            assert forall|i: int| 0 <= i < self@.len()
                implies (#[trigger] self@[i]).1.wf() by {
                lemma_remove_id_elems(r0, k, i);
                let ri = remove_id(r0, k);
                let j = choose|j: int| 0 <= j < r0.len() && ri[i] == #[trigger] r0[j];
                assert(r0[j].1.wf());
            }
        }
        out
    }

    /// Mark the record under `task_id` with a terminal status and completion
    /// instant. A missing identifier changes nothing.
    fn mark_terminal(&mut self, task_id: &str, st: TaskStatus, now: i64)
        requires
            reg_wf(old(self)@),
            st.spec_is_terminal(),
        ensures
            final(self)@ == update_id(old(self)@, task_id@, st, now as int),
            reg_wf(final(self)@),
            forall|k: Seq<char>|
                k != task_id@ ==> reg_get(final(self)@, k) == reg_get(old(self)@, k),
            reg_get(final(self)@, task_id@) == (match reg_get(old(self)@, task_id@) {
                Some(v) => Some(mark_view(v, st, now as int)),
                None => None::<TaskInfoView>,
            }),
    {
        let ghost r0 = self@;
        let ghost k = task_id@;
        match self.find_index(task_id) {
            Some(i) => {
                let e = self.tasks.remove(i);
                let info = e.info;
                let marked = TaskInfo {
                    status: st,
                    completed_at: Some(now),
                    ..info
                };
                let e2 = TaskEntry { task_id: e.task_id, info: marked };
                self.tasks.insert(i, e2);
                proof {
                    r0.remove_ensures(i as int);
                    assert(self@ =~= update_id(r0, k, st, now as int));
                }
            },
            None => {
                proof {
                    assert(self@ =~= update_id(r0, k, st, now as int));
                }
            },
        }
        proof {
            assert forall|k2: Seq<char>| true implies reg_get(self@, k2) == (match reg_get(
                r0,
                k2,
            ) {
                Some(v) => if k2 == k {
                    Some(mark_view(v, st, now as int))
                } else {
                    Some(v)
                },
                None => None::<TaskInfoView>,
            }) && ids_unique(self@) by {
                lemma_update_id_get(r0, k, st, now as int, k2);
            }
            assert forall|i: int| 0 <= i < self@.len()
                implies (#[trigger] self@[i]).1.wf() by {
                assert(self@[i] == update_id(r0, k, st, now as int)[i]);
            }
        }
    }

    /// Mark the record under `task_id` completed at `now`.
    pub fn mark_complete(&mut self, task_id: &str, now: i64)
        requires
            reg_wf(old(self)@),
        ensures
            final(self)@ == update_id(old(self)@, task_id@, TaskStatus::Completed, now as int),
            reg_wf(final(self)@),
            forall|k: Seq<char>|
                k != task_id@ ==> reg_get(final(self)@, k) == reg_get(old(self)@, k),
            reg_get(final(self)@, task_id@) == (match reg_get(old(self)@, task_id@) {
                Some(v) => Some(mark_view(v, TaskStatus::Completed, now as int)),
                None => None::<TaskInfoView>,
            }),
    {
        self.mark_terminal(task_id, TaskStatus::Completed, now);
    }

    /// Mark the record under `task_id` failed at `now`.
    pub fn mark_failed(&mut self, task_id: &str, now: i64)
        requires
            reg_wf(old(self)@),
        ensures
            final(self)@ == update_id(old(self)@, task_id@, TaskStatus::Failed, now as int),
            reg_wf(final(self)@),
            forall|k: Seq<char>|
                k != task_id@ ==> reg_get(final(self)@, k) == reg_get(old(self)@, k),
            reg_get(final(self)@, task_id@) == (match reg_get(old(self)@, task_id@) {
                Some(v) => Some(mark_view(v, TaskStatus::Failed, now as int)),
                None => None::<TaskInfoView>,
            }),
    {
        self.mark_terminal(task_id, TaskStatus::Failed, now);
    }

    /// The entries whose status is `st`, in registry order, as copies.
    fn tasks_with_status(&self, st: TaskStatus) -> (r: Vec<TaskEntry>)
        ensures
            entries_view(r@) == with_status(self@, st),
    {
        let mut out: Vec<TaskEntry> = Vec::new();
        let n = self.tasks.len();
        let ghost pred = |p: (Seq<char>, TaskInfoView)| p.1.status == st;
        proof {
            assert(self@.skip(0) =~= self@);
        }
        for i in 0..n
            invariant
                n == self.tasks@.len(),
                entries_view(out@) + filter_front(self@.skip(i as int), pred) == filter_front(
                    self@,
                    pred,
                ),
                pred == (|p: (Seq<char>, TaskInfoView)| p.1.status == st),
        {
            let ghost pre = self@.skip(i as int);
            proof {
                assert(pre[0] == self@[i as int]);
                assert(pre.drop_first() =~= self@.skip(i as int + 1));
            }
            let keep = match self.tasks[i].info.status {
                TaskStatus::Running => matches!(st, TaskStatus::Running),
                TaskStatus::Completed => matches!(st, TaskStatus::Completed),
                TaskStatus::Failed => matches!(st, TaskStatus::Failed),
                TaskStatus::Cancelled => matches!(st, TaskStatus::Cancelled),
            };
            if keep {
                let e = &self.tasks[i];
                let copy = TaskEntry { task_id: e.task_id.clone(), info: e.info.duplicate() };
                proof {
                    assert(copy@ == self@[i as int]);
                }
                out.push(copy);
                proof {
                    assert(entries_view(out@) =~= entries_view(out@.drop_last()).push(
                        self@[i as int],
                    ));
                    assert(entries_view(out@) + filter_front(self@.skip(i as int + 1), pred)
                        =~= filter_front(self@, pred));
                }
            } else {
                proof {
                    assert(entries_view(out@) + filter_front(self@.skip(i as int + 1), pred)
                        =~= filter_front(self@, pred));
                }
            }
        }
        proof {
            assert(self@.skip(n as int) =~= Seq::<(Seq<char>, TaskInfoView)>::empty());
            assert(entries_view(out@) + filter_front(self@.skip(n as int), pred) =~= entries_view(
                out@,
            ));
        }
        out
    }

    /// The running tasks, in registry order.
    pub fn running_tasks(&self) -> (r: Vec<TaskEntry>)
        ensures
            entries_view(r@) == with_status(self@, TaskStatus::Running),
    {
        self.tasks_with_status(TaskStatus::Running)
    }

    /// The completed tasks, in registry order.
    pub fn completed_tasks(&self) -> (r: Vec<TaskEntry>)
        ensures
            entries_view(r@) == with_status(self@, TaskStatus::Completed),
    {
        self.tasks_with_status(TaskStatus::Completed)
    }

    /// Counts per status over the whole registry.
    pub fn stats(&self) -> (r: RegistryStats)
        ensures
            r.total == self@.len(),
            r.running == with_status(self@, TaskStatus::Running).len(),
            r.completed == with_status(self@, TaskStatus::Completed).len(),
            r.failed == with_status(self@, TaskStatus::Failed).len(),
    {
        let running = self.tasks_with_status(TaskStatus::Running).len();
        let completed = self.tasks_with_status(TaskStatus::Completed).len();
        let failed = self.tasks_with_status(TaskStatus::Failed).len();
        RegistryStats { total: self.tasks.len(), running, completed, failed }
    }

    /// Remove every terminal record whose completion instant is older than
    /// `cutoff`; running records are never touched, whatever their age.
    /// Returns how many records were removed.
    pub fn cleanup_old_tasks(&mut self, cutoff: i64) -> (r: usize)
        requires
            reg_wf(old(self)@),
        ensures
            final(self)@ == kept_after_cleanup(old(self)@, cutoff as int),
            reg_wf(final(self)@),
            r == old(self)@.len() - final(self)@.len(),
            forall|k: Seq<char>|
                reg_get(final(self)@, k) == (match reg_get(old(self)@, k) {
                    Some(v) => if spec_removable(v, cutoff as int) {
                        None::<TaskInfoView>
                    } else {
                        Some(v)
                    },
                    None => None::<TaskInfoView>,
                }),
            forall|k: Seq<char>, v: TaskInfoView|
                reg_get(old(self)@, k) == Some(v) && v.status == TaskStatus::Running ==> reg_get(
                    final(self)@,
                    k,
                ) == Some(v),
    {
        let ghost r0 = self@;
        let ghost pred = |p: (Seq<char>, TaskInfoView)| !spec_removable(p.1, cutoff as int);
        let mut kept: Vec<TaskEntry> = Vec::new();
        let mut removed: usize = 0;
        let n = self.tasks.len();
        proof {
            assert(r0.skip(0) =~= r0);
        }
        for i in 0..n
            invariant
                n == self.tasks@.len(),
                self@ == r0,
                entries_view(kept@) + filter_front(r0.skip(i as int), pred) == filter_front(
                    r0,
                    pred,
                ),
                removed == i - kept@.len(),
                kept@.len() <= i,
                pred == (|p: (Seq<char>, TaskInfoView)| !spec_removable(p.1, cutoff as int)),
        {
            let ghost pre = r0.skip(i as int);
            proof {
                assert(pre[0] == r0[i as int]);
                assert(pre.drop_first() =~= r0.skip(i as int + 1));
            }
            let e = &self.tasks[i];
            let terminal = e.info.status.is_terminal();
            let old_enough = match e.info.completed_at {
                Some(t) => t < cutoff,
                None => false,
            };
            if terminal && old_enough {
                removed = removed + 1;
                proof {
                    assert(spec_removable(r0[i as int].1, cutoff as int));
                    assert(entries_view(kept@) + filter_front(r0.skip(i as int + 1), pred)
                        =~= filter_front(r0, pred));
                }
            } else {
                let copy = TaskEntry { task_id: e.task_id.clone(), info: e.info.duplicate() };
                proof {
                    assert(copy@ == r0[i as int]);
                    assert(!spec_removable(r0[i as int].1, cutoff as int));
                }
                kept.push(copy);
                proof {
                    assert(entries_view(kept@) =~= entries_view(kept@.drop_last()).push(
                        r0[i as int],
                    ));
                    assert(entries_view(kept@) + filter_front(r0.skip(i as int + 1), pred)
                        =~= filter_front(r0, pred));
                }
            }
        }
        proof {
            assert(r0.skip(n as int) =~= Seq::<(Seq<char>, TaskInfoView)>::empty());
            assert(entries_view(kept@) + filter_front(r0.skip(n as int), pred) =~= entries_view(
                kept@,
            ));
        }
        self.tasks = kept;
        proof {
            assert(self@ == kept_after_cleanup(r0, cutoff as int));
            assert forall|k2: Seq<char>| true implies reg_get(self@, k2) == (match reg_get(
                r0,
                k2,
            ) {
                Some(v) => if spec_removable(v, cutoff as int) {
                    None::<TaskInfoView>
                } else {
                    Some(v)
                },
                None => None::<TaskInfoView>,
            }) && ids_unique(self@) by {
                lemma_filter_front_get(r0, pred, k2);
                if reg_get(r0, k2) is Some {
                    let v = reg_get(r0, k2)->0;
                    assert(pred((k2, v)) == !spec_removable(v, cutoff as int));
                }
            }
            assert(ids_unique(self@)) by {
                lemma_filter_front_get(r0, pred, Seq::<char>::empty());
            }
            assert forall|i: int| 0 <= i < self@.len()
                implies (#[trigger] self@[i]).1.wf() by {
                lemma_filter_front_elems(r0, pred, i);
                let f = filter_front(r0, pred);
                let j = choose|j: int| 0 <= j < r0.len() && f[i] == #[trigger] r0[j];
                assert(r0[j].1.wf());
            }
        }
        removed
    }
}

/// Every entry of `remove_id(r, k)` is an entry of `r`.
pub proof fn lemma_remove_id_elems(r: RegView, k: Seq<char>, i: int)
    ensures
        0 <= i < remove_id(r, k).len() ==> exists|j: int|
            0 <= j < r.len() && remove_id(r, k)[i] == #[trigger] r[j],
    decreases r.len(),
{
    if r.len() > 0 && 0 <= i < remove_id(r, k).len() {
        if r[0].0 == k {
            assert(remove_id(r, k)[i] == r[i + 1]);
        } else {
            let tail = remove_id(r.drop_first(), k);
            assert(remove_id(r, k) == seq![r[0]] + tail);
            if i == 0 {
                assert(remove_id(r, k)[0] == r[0]);
            } else {
                assert(remove_id(r, k)[i] == tail[i - 1]);
                lemma_remove_id_elems(r.drop_first(), k, i - 1);
                if 0 <= i - 1 < tail.len() {
                    let j = choose|j: int| 0 <= j < r.drop_first().len() && tail[i - 1]
                        == #[trigger] r.drop_first()[j];
                    assert(r[j + 1] == r.drop_first()[j]);
                }
            }
        }
    }
}

/// Every entry of a filtered sequence is an entry of the one it came from.
pub proof fn lemma_filter_front_elems(
    r: RegView,
    pred: spec_fn((Seq<char>, TaskInfoView)) -> bool,
    i: int,
)
    ensures
        0 <= i < filter_front(r, pred).len() ==> exists|j: int|
            0 <= j < r.len() && filter_front(r, pred)[i] == #[trigger] r[j],
    decreases r.len(),
{
    let f = filter_front(r, pred);
    if r.len() > 0 && 0 <= i < f.len() {
        let tail = filter_front(r.drop_first(), pred);
        if pred(r[0]) {
            if i == 0 {
                assert(f[0] == r[0]);
            } else {
                assert(f[i] == tail[i - 1]);
                lemma_filter_front_elems(r.drop_first(), pred, i - 1);
                let j = choose|j: int| 0 <= j < r.drop_first().len() && tail[i - 1]
                    == #[trigger] r.drop_first()[j];
                assert(r[j + 1] == r.drop_first()[j]);
            }
        } else {
            assert(f[i] == tail[i]);
            lemma_filter_front_elems(r.drop_first(), pred, i);
            let j = choose|j: int| 0 <= j < r.drop_first().len() && tail[i]
                == #[trigger] r.drop_first()[j];
            assert(r[j + 1] == r.drop_first()[j]);
        }
    }
}


} // verus!
