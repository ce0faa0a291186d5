//! The plan for one reconciliation pass: which rendered objects to apply and
//! which previously owned objects to delete.  By construction the two sets
//! are disjoint, and `delete` is exactly what was owned before but is no
//! longer rendered.

use vstd::prelude::*;

use crate::crd::{DHCPTemplateStatus, ObjectRef, ObjectRefError, ObjectRefView};
use crate::render::{spec_manifest_ref, Manifest, ManifestView};

verus! {

/// Why a plan could not be built.
#[derive(Clone, Copy, PartialEq, Eq, Structural, Debug)]
pub enum PlanDiffError {
    /// A rendered document lacks the fields that identify it.
    ObjectRef(ObjectRefError),
}

/// The identities of the rendered documents in order, or the first
/// extraction failure.
pub open spec fn spec_refs(ms: Seq<ManifestView>) -> Result<Seq<ObjectRefView>, ObjectRefError>
    decreases ms.len(),
{
    if ms.len() == 0 {
        Ok(Seq::empty())
    } else {
        match spec_manifest_ref(ms[0]) {
            Err(e) => Err(e),
            Ok(r) => match spec_refs(ms.drop_first()) {
                Err(e) => Err(e),
                Ok(rest) => Ok(seq![r] + rest),
            },
        }
    }
}

/// The references with their first occurrence kept, skipping any already
/// `seen`.
pub open spec fn dedup_refs(s: Seq<ObjectRefView>, seen: Set<ObjectRefView>) -> Seq<ObjectRefView>
    decreases s.len(),
{
    if s.len() == 0 {
        Seq::empty()
    } else if seen.contains(s[0]) {
        dedup_refs(s.drop_first(), seen)
    } else {
        seq![s[0]] + dedup_refs(s.drop_first(), seen.insert(s[0]))
    }
}

/// Nothing that was already seen comes out of a deduplication, and
/// everything that comes out was in the list.
proof fn lemma_dedup_refs_range(s: Seq<ObjectRefView>, seen: Set<ObjectRefView>)
    ensures
        forall|k: int|
            0 <= k < dedup_refs(s, seen).len() ==> s.contains(#[trigger] dedup_refs(s, seen)[k])
                && !seen.contains(dedup_refs(s, seen)[k]),
    decreases s.len(),
{
    if s.len() > 0 {
        let d = dedup_refs(s, seen);
        if seen.contains(s[0]) {
            let u = dedup_refs(s.drop_first(), seen);
            lemma_dedup_refs_range(s.drop_first(), seen);
            assert(d == u);
            assert forall|k: int| 0 <= k < d.len() implies s.contains(d[k]) && !seen.contains(
                d[k],
            ) by {
                assert(s.drop_first().contains(dedup_refs(s.drop_first(), seen)[k]));
                assert(!seen.contains(dedup_refs(s.drop_first(), seen)[k]));
                let j = choose|j: int| 0 <= j < s.drop_first().len() && s.drop_first()[j] == d[k];
                assert(s[j + 1] == d[k]);
                assert(s.contains(d[k]));
            }
        } else {
            let seen1 = seen.insert(s[0]);
            let u = dedup_refs(s.drop_first(), seen1);
            lemma_dedup_refs_range(s.drop_first(), seen1);
            assert(d =~= seq![s[0]] + u);
            assert forall|k: int| 0 <= k < d.len() implies s.contains(d[k]) && !seen.contains(
                d[k],
            ) by {
                if k == 0 {
                    assert(s[0] == d[0]);
                    assert(s.contains(s[0]));
                } else {
                    assert(d[k] == u[k - 1]);
                    assert(s.drop_first().contains(dedup_refs(s.drop_first(), seen1)[k - 1]));
                    assert(!seen1.contains(dedup_refs(s.drop_first(), seen1)[k - 1]));
                    let j = choose|j: int|
                        0 <= j < s.drop_first().len() && s.drop_first()[j] == u[k - 1];
                    assert(s[j + 1] == d[k]);
                    assert(s.contains(d[k]));
                }
            }
        }
    }
}

/// A deduplication holds each reference at most once.
proof fn lemma_dedup_refs_unique(s: Seq<ObjectRefView>, seen: Set<ObjectRefView>)
    ensures
        forall|i: int, j: int|
            0 <= i < j < dedup_refs(s, seen).len() ==> #[trigger] dedup_refs(s, seen)[i]
                != #[trigger] dedup_refs(s, seen)[j],
    decreases s.len(),
{
    if s.len() > 0 {
        let d = dedup_refs(s, seen);
        if seen.contains(s[0]) {
            let u = dedup_refs(s.drop_first(), seen);
            lemma_dedup_refs_unique(s.drop_first(), seen);
            assert(d == u);
            assert forall|i: int, j: int| 0 <= i < j < d.len() implies d[i] != d[j] by {
                assert(dedup_refs(s.drop_first(), seen)[i] != dedup_refs(s.drop_first(), seen)[j]);
            }
        } else {
            let seen1 = seen.insert(s[0]);
            let u = dedup_refs(s.drop_first(), seen1);
            lemma_dedup_refs_unique(s.drop_first(), seen1);
            lemma_dedup_refs_range(s.drop_first(), seen1);
            assert(d =~= seq![s[0]] + u);
            assert forall|i: int, j: int| 0 <= i < j < d.len() implies d[i] != d[j] by {
                if i == 0 {
                    assert(d[j] == u[j - 1]);
                    assert(!seen1.contains(dedup_refs(s.drop_first(), seen1)[j - 1]));
                } else {
                    assert(d[i] == u[i - 1] && d[j] == u[j - 1]);
                    assert(dedup_refs(s.drop_first(), seen1)[i - 1] != dedup_refs(
                        s.drop_first(),
                        seen1,
                    )[j - 1]);
                }
            }
        }
    }
}

/// Deduplication keeps the set of references: what comes out is exactly
/// what went in and was not yet seen.
proof fn lemma_dedup_refs_set(s: Seq<ObjectRefView>, seen: Set<ObjectRefView>)
    ensures
        dedup_refs(s, seen).to_set() =~= s.to_set().difference(seen),
    decreases s.len(),
{
    if s.len() == 0 {
        assert(s.to_set() =~= Set::<ObjectRefView>::empty());
        assert(dedup_refs(s, seen).to_set() =~= Set::<ObjectRefView>::empty());
    } else {
        let d = dedup_refs(s, seen);
        assert(s.to_set() =~= s.drop_first().to_set().insert(s[0])) by {
            assert forall|x: ObjectRefView| s.to_set().contains(x) implies s.drop_first()
                .to_set()
                .insert(s[0])
                .contains(x) by {
                let j = choose|j: int| 0 <= j < s.len() && s[j] == x;
                if j > 0 {
                    assert(s.drop_first()[j - 1] == x);
                    assert(s.drop_first().contains(x));
                }
            }
            assert forall|x: ObjectRefView| s.drop_first().to_set().insert(s[0]).contains(
                x,
            ) implies s.to_set().contains(x) by {
                if x == s[0] {
                    assert(s.contains(x));
                } else {
                    let j = choose|j: int|
                        0 <= j < s.drop_first().len() && s.drop_first()[j] == x;
                    assert(s[j + 1] == x);
                    assert(s.contains(x));
                }
            }
        }
        if seen.contains(s[0]) {
            lemma_dedup_refs_set(s.drop_first(), seen);
        } else {
            let seen1 = seen.insert(s[0]);
            let u = dedup_refs(s.drop_first(), seen1);
            lemma_dedup_refs_set(s.drop_first(), seen1);
            assert(d =~= seq![s[0]] + u);
            assert(d.to_set() =~= u.to_set().insert(s[0])) by {
                assert forall|x: ObjectRefView| d.to_set().contains(x) implies u.to_set().insert(
                    s[0],
                ).contains(x) by {
                    let j = choose|j: int| 0 <= j < d.len() && d[j] == x;
                    if j > 0 {
                        assert(u[j - 1] == x);
                        assert(u.contains(x));
                    }
                }
                assert forall|x: ObjectRefView| u.to_set().insert(s[0]).contains(x) implies d
                    .to_set()
                    .contains(x) by {
                    if x == s[0] {
                        assert(d[0] == x);
                        assert(d.contains(x));
                    } else {
                        let j = choose|j: int| 0 <= j < u.len() && u[j] == x;
                        assert(d[j + 1] == x);
                        assert(d.contains(x));
                    }
                }
            }
        }
    }
}

/// The apply/delete object sets computed for one reconciliation pass.
#[derive(Debug)]
pub struct Plan {
    pub apply: Vec<ObjectRef>,
    pub delete: Vec<ObjectRef>,
}

pub ghost struct PlanView {
    pub apply: Seq<ObjectRefView>,
    pub delete: Seq<ObjectRefView>,
}

impl View for Plan {
    type V = PlanView;

    open spec fn view(&self) -> PlanView {
        PlanView {
            apply: self.apply@.map_values(|o: ObjectRef| o@),
            delete: self.delete@.map_values(|o: ObjectRef| o@),
        }
    }
}

/// The object set a previous status owned, if there was one.
pub open spec fn spec_previous_objects(status: Option<&DHCPTemplateStatus>) -> Seq<ObjectRefView> {
    match status {
        Some(s) => s@.objects,
        None => Seq::empty(),
    }
}

/// Whether `v` holds an object equal to `x`.
fn contains_ref(v: &Vec<ObjectRef>, x: &ObjectRef) -> (r: bool)
    ensures
        r == v@.map_values(|o: ObjectRef| o@).contains(x@),
{
    let ghost vs = v@.map_values(|o: ObjectRef| o@);
    let mut j: usize = 0;
    while j < v.len()
        invariant
            j <= v@.len(),
            vs == v@.map_values(|o: ObjectRef| o@),
            forall|k: int| 0 <= k < j ==> #[trigger] vs[k] != x@,
        decreases v@.len() - j,
    {
        proof {
            assert(vs[j as int] == v@[j as int]@);
        }
        if v[j].eq(x) {
            proof {
                assert(vs.contains(x@));
            }
            return true;
        }
        j = j + 1;
    }
    proof {
        if vs.contains(x@) {
            let k = choose|k: int| 0 <= k < vs.len() && vs[k] == x@;
            assert(vs[k] != x@);
        }
    }
    false
}

impl Plan {
    /// Diffs the freshly rendered documents against the previously owned
    /// object set.
    ///
    /// `apply` holds the identity of every rendered document, first
    /// occurrence only; the whole diff fails with the first document that
    /// lacks its identity fields.  `delete` holds what was owned before and
    /// is no longer rendered.  The two never share an object.
    pub fn diff(status: Option<&DHCPTemplateStatus>, manifests: &Vec<Manifest>) -> (r: Result<
        Plan,
        PlanDiffError,
    >)
        ensures
            ({
                let mv = manifests@.map_values(|m: Manifest| m@);
                let prev = spec_previous_objects(status);
                match spec_refs(mv) {
                    Err(e) => r == Err::<Plan, PlanDiffError>(PlanDiffError::ObjectRef(e)),
                    Ok(refs) => r matches Ok(p) && {
                        &&& p@.apply =~= dedup_refs(refs, Set::empty())
                        &&& p@.delete =~= dedup_refs(prev, refs.to_set())
                        &&& forall|k: int|
                            0 <= k < p@.delete.len() ==> !p@.apply.contains(
                                #[trigger] p@.delete[k],
                            )
                        &&& forall|i: int, j: int|
                            0 <= i < j < p@.apply.len() ==> #[trigger] p@.apply[i]
                                != #[trigger] p@.apply[j]
                        &&& forall|i: int, j: int|
                            0 <= i < j < p@.delete.len() ==> #[trigger] p@.delete[i]
                                != #[trigger] p@.delete[j]
                    },
                }
            }),
    {
        let ghost mv = manifests@.map_values(|m: Manifest| m@);
        let ghost prev = spec_previous_objects(status);

        // Extract every document's identity; the first failure fails the
        // whole diff.
        let mut refs: Vec<ObjectRef> = Vec::new();
        let mut i: usize = 0;
        proof {
            assert(mv.skip(0) =~= mv);
        }
        while i < manifests.len()
            invariant
                i <= manifests@.len(),
                mv == manifests@.map_values(|m: Manifest| m@),
                ({
                    let done = refs@.map_values(|o: ObjectRef| o@);
                    match spec_refs(mv.skip(i as int)) {
                        Ok(rest) => spec_refs(mv) == Ok::<Seq<ObjectRefView>, ObjectRefError>(
                            done + rest,
                        ),
                        Err(e) => spec_refs(mv) == Err::<Seq<ObjectRefView>, ObjectRefError>(e),
                    }
                }),
            decreases manifests@.len() - i,
        {
            proof {
                assert(mv[i as int] == manifests@[i as int]@);
                assert(mv.skip(i as int)[0] == mv[i as int]);
                assert(mv.skip(i as int).drop_first() =~= mv.skip(i as int + 1));
            }
            let ghost done0 = refs@.map_values(|o: ObjectRef| o@);
            match manifests[i].object_ref() {
                Ok(o) => {
                    refs.push(o);
                    proof {
                        assert(refs@.map_values(|o: ObjectRef| o@) =~= done0 + seq![
                            mv[i as int],
                        ].map_values(|m: ManifestView| spec_manifest_ref(m).unwrap()));
                        if spec_refs(mv.skip(i as int + 1)) is Ok {
                            let rest1 = spec_refs(mv.skip(i as int + 1)).unwrap();
                            assert(spec_refs(mv.skip(i as int)) == Ok::<
                                Seq<ObjectRefView>,
                                ObjectRefError,
                            >(seq![spec_manifest_ref(mv[i as int]).unwrap()] + rest1));
                            assert(done0 + (seq![spec_manifest_ref(mv[i as int]).unwrap()] + rest1)
                                =~= refs@.map_values(|o: ObjectRef| o@) + rest1);
                        }
                    }
                },
                Err(e) => {
                    return Err(PlanDiffError::ObjectRef(e));
                },
            }
            i = i + 1;
        }
        proof {
            assert(mv.skip(mv.len() as int) =~= Seq::<ManifestView>::empty());
            assert(spec_refs(mv) == Ok::<Seq<ObjectRefView>, ObjectRefError>(
                refs@.map_values(|o: ObjectRef| o@) + Seq::<ObjectRefView>::empty(),
            ));
            assert(refs@.map_values(|o: ObjectRef| o@) + Seq::<ObjectRefView>::empty()
                =~= refs@.map_values(|o: ObjectRef| o@));
        }
        let ghost refs_v = refs@.map_values(|o: ObjectRef| o@);

        // Keep the first occurrence of each rendered identity.
        let mut apply: Vec<ObjectRef> = Vec::new();
        let ghost mut seen: Set<ObjectRefView> = Set::empty();
        let mut i: usize = 0;
        proof {
            assert(refs_v.skip(0) =~= refs_v);
            assert(apply@.map_values(|o: ObjectRef| o@).to_set() =~= seen);
        }
        while i < refs.len()
            invariant
                i <= refs@.len(),
                refs_v == refs@.map_values(|o: ObjectRef| o@),
                apply@.map_values(|o: ObjectRef| o@).to_set() =~= seen,
                dedup_refs(refs_v, Set::empty()) =~= apply@.map_values(|o: ObjectRef| o@)
                    + dedup_refs(refs_v.skip(i as int), seen),
            decreases refs@.len() - i,
        {
            proof {
                assert(refs_v[i as int] == refs@[i as int]@);
                assert(refs_v.skip(i as int)[0] == refs_v[i as int]);
                assert(refs_v.skip(i as int).drop_first() =~= refs_v.skip(i as int + 1));
            }
            let ghost apply0 = apply@.map_values(|o: ObjectRef| o@);
            if !contains_ref(&apply, &refs[i]) {
                let o = refs[i].clone();
                apply.push(o);
                proof {
                    assert(apply@.map_values(|o: ObjectRef| o@) =~= apply0 + seq![
                        refs_v[i as int],
                    ]);
                    seen = seen.insert(refs_v[i as int]);
                    assert(apply@.map_values(|o: ObjectRef| o@).to_set() =~= seen) by {
                        let av = apply@.map_values(|o: ObjectRef| o@);
                        assert forall|x: ObjectRefView| av.to_set().contains(x) implies
                            seen.contains(x) by {
                            let j = choose|j: int| 0 <= j < av.len() && av[j] == x;
                            if j < apply0.len() {
                                assert(apply0[j] == x);
                                assert(apply0.contains(x));
                            }
                        }
                        assert forall|x: ObjectRefView| seen.contains(x) implies av.to_set()
                            .contains(x) by {
                            if x == refs_v[i as int] {
                                assert(av[av.len() - 1] == x);
                                assert(av.contains(x));
                            } else {
                                assert(apply0.to_set().contains(x));
                                let j = choose|j: int| 0 <= j < apply0.len() && apply0[j] == x;
                                assert(av[j] == x);
                                assert(av.contains(x));
                            }
                        }
                    }
                }
            } else {
                proof {
                    assert(seen.contains(refs_v[i as int]));
                }
            }
            i = i + 1;
        }
        proof {
            assert(refs_v.skip(refs_v.len() as int) =~= Seq::<ObjectRefView>::empty());
            assert(dedup_refs(refs_v, Set::empty()) =~= apply@.map_values(|o: ObjectRef| o@));
        }

        // What was owned before and is no longer rendered.
        let ghost apply_v = apply@.map_values(|o: ObjectRef| o@);
        proof {
            lemma_dedup_refs_set(refs_v, Set::empty());
            assert(apply_v.to_set() =~= refs_v.to_set());
        }
        let mut delete: Vec<ObjectRef> = Vec::new();
        let ghost mut seen_d: Set<ObjectRefView> = refs_v.to_set();
        let mut i: usize = 0;
        proof {
            assert(prev.skip(0) =~= prev);
        }
        let empty_objects: Vec<ObjectRef> = Vec::new();
        let previous_objects: &Vec<ObjectRef> = match status {
            Some(s) => &s.objects,
            None => &empty_objects,
        };
        proof {
            assert(previous_objects@.map_values(|o: ObjectRef| o@) =~= prev);
        }
        while i < previous_objects.len()
            invariant
                i <= previous_objects@.len(),
                prev == previous_objects@.map_values(|o: ObjectRef| o@),
                apply_v == apply@.map_values(|o: ObjectRef| o@),
                apply_v.to_set() =~= refs_v.to_set(),
                seen_d =~= refs_v.to_set().union(delete@.map_values(|o: ObjectRef| o@).to_set()),
                dedup_refs(prev, refs_v.to_set()) =~= delete@.map_values(|o: ObjectRef| o@)
                    + dedup_refs(prev.skip(i as int), seen_d),
            decreases previous_objects@.len() - i,
        {
            proof {
                assert(prev[i as int] == previous_objects@[i as int]@);
                assert(prev.skip(i as int)[0] == prev[i as int]);
                assert(prev.skip(i as int).drop_first() =~= prev.skip(i as int + 1));
            }
            let ghost delete0 = delete@.map_values(|o: ObjectRef| o@);
            let in_apply = contains_ref(&apply, &previous_objects[i]);
            let in_delete = contains_ref(&delete, &previous_objects[i]);
            proof {
                assert(seen_d.contains(prev[i as int]) == (in_apply || in_delete)) by {
                    assert(apply_v.contains(prev[i as int]) == apply_v.to_set().contains(
                        prev[i as int],
                    ));
                    assert(delete0.contains(prev[i as int]) == delete0.to_set().contains(
                        prev[i as int],
                    ));
                }
            }
            if !in_apply && !in_delete {
                let o = previous_objects[i].clone();
                delete.push(o);
                proof {
                    assert(delete@.map_values(|o: ObjectRef| o@) =~= delete0 + seq![
                        prev[i as int],
                    ]);
                    seen_d = seen_d.insert(prev[i as int]);
                    assert(seen_d =~= refs_v.to_set().union(
                        delete@.map_values(|o: ObjectRef| o@).to_set(),
                    )) by {
                        let dv = delete@.map_values(|o: ObjectRef| o@);
                        assert forall|x: ObjectRefView| dv.to_set().contains(x) implies
                            delete0.to_set().insert(prev[i as int]).contains(x) by {
                            let j = choose|j: int| 0 <= j < dv.len() && dv[j] == x;
                            if j < delete0.len() {
                                assert(delete0[j] == x);
                                assert(delete0.contains(x));
                            }
                        }
                        assert forall|x: ObjectRefView| delete0.to_set().insert(
                            prev[i as int],
                        ).contains(x) implies dv.to_set().contains(x) by {
                            if x == prev[i as int] {
                                assert(dv[dv.len() - 1] == x);
                                assert(dv.contains(x));
                            } else {
                                let j = choose|j: int| 0 <= j < delete0.len() && delete0[j] == x;
                                assert(dv[j] == x);
                                assert(dv.contains(x));
                            }
                        }
                    }
                }
            }
            i = i + 1;
        }
        proof {
            assert(prev.skip(prev.len() as int) =~= Seq::<ObjectRefView>::empty());
            assert(dedup_refs(prev, refs_v.to_set()) =~= delete@.map_values(|o: ObjectRef| o@));
            lemma_dedup_refs_range(prev, refs_v.to_set());
            lemma_dedup_refs_unique(prev, refs_v.to_set());
            lemma_dedup_refs_unique(refs_v, Set::empty());
            let dv = delete@.map_values(|o: ObjectRef| o@);
            assert forall|k: int| 0 <= k < dv.len() implies !apply_v.contains(
                #[trigger] dv[k],
            ) by {
                assert(!refs_v.to_set().contains(dv[k]));
                if apply_v.contains(dv[k]) {
                    assert(apply_v.to_set().contains(dv[k]));
                }
            }
        }
        Ok(Plan { apply, delete })
    }

    /// Every object this pass considers relevant: what it will apply and
    /// what it will delete, in that order.
    pub fn all(&self) -> (r: Vec<ObjectRef>)
        ensures
            r@.map_values(|o: ObjectRef| o@) =~= self@.apply + self@.delete,
    {
        let mut out: Vec<ObjectRef> = Vec::new();
        let mut i: usize = 0;
        while i < self.apply.len()
            invariant
                i <= self.apply@.len(),
                out@.map_values(|o: ObjectRef| o@) =~= self@.apply.take(i as int),
            decreases self.apply@.len() - i,
        {
            proof {
                assert(self@.apply[i as int] == self.apply@[i as int]@);
            }
            let ghost out0 = out@.map_values(|o: ObjectRef| o@);
            let o = self.apply[i].clone();
            out.push(o);
            proof {
                assert(out@.map_values(|o: ObjectRef| o@) =~= out0 + seq![self@.apply[i as int]]);
                assert(self@.apply.take(i as int + 1) =~= self@.apply.take(i as int) + seq![
                    self@.apply[i as int],
                ]);
            }
            i = i + 1;
        }
        proof {
            assert(self@.apply.take(self@.apply.len() as int) =~= self@.apply);
        }
        let mut i: usize = 0;
        while i < self.delete.len()
            invariant
                i <= self.delete@.len(),
                out@.map_values(|o: ObjectRef| o@) =~= self@.apply + self@.delete.take(i as int),
            decreases self.delete@.len() - i,
        {
            proof {
                assert(self@.delete[i as int] == self.delete@[i as int]@);
            }
            let ghost out0 = out@.map_values(|o: ObjectRef| o@);
            let o = self.delete[i].clone();
            out.push(o);
            proof {
                assert(out@.map_values(|o: ObjectRef| o@) =~= out0 + seq![
                    self@.delete[i as int],
                ]);
                assert(self@.delete.take(i as int + 1) =~= self@.delete.take(i as int) + seq![
                    self@.delete[i as int],
                ]);
            }
            i = i + 1;
        }
        proof {
            assert(self@.delete.take(self@.delete.len() as int) =~= self@.delete);
        }
        out
    }
}

/// One step of executing a plan.
#[derive(Debug)]
pub enum PlanStep {
    /// Delete this previously owned object, if the guard permits.
    Delete(ObjectRef),
    /// Apply this rendered object, if the guard permits.
    Apply(ObjectRef),
}

pub ghost enum PlanStepView {
    Delete(ObjectRefView),
    Apply(ObjectRefView),
}

impl View for PlanStep {
    type V = PlanStepView;

    open spec fn view(&self) -> PlanStepView {
        match self {
            PlanStep::Delete(o) => PlanStepView::Delete(o@),
            PlanStep::Apply(o) => PlanStepView::Apply(o@),
        }
    }
}

impl Plan {
    /// The execution order of one pass: every delete first, then every
    /// apply, each in plan order — deleting first avoids transiently
    /// recreating stale objects.
    pub fn steps(&self) -> (r: Vec<PlanStep>)
        ensures
            r@.map_values(|s: PlanStep| s@) =~= self@.delete.map_values(
                |o: ObjectRefView| PlanStepView::Delete(o),
            ) + self@.apply.map_values(|o: ObjectRefView| PlanStepView::Apply(o)),
    {
        let ghost deletes = self@.delete.map_values(|o: ObjectRefView| PlanStepView::Delete(o));
        let ghost applies = self@.apply.map_values(|o: ObjectRefView| PlanStepView::Apply(o));
        let mut out: Vec<PlanStep> = Vec::new();
        let mut i: usize = 0;
        while i < self.delete.len()
            invariant
                i <= self.delete@.len(),
                deletes == self@.delete.map_values(|o: ObjectRefView| PlanStepView::Delete(o)),
                out@.map_values(|s: PlanStep| s@) =~= deletes.take(i as int),
            decreases self.delete@.len() - i,
        {
            proof {
                assert(self@.delete[i as int] == self.delete@[i as int]@);
            }
            let ghost out0 = out@.map_values(|s: PlanStep| s@);
            let o = self.delete[i].clone();
            out.push(PlanStep::Delete(o));
            proof {
                assert(out@.map_values(|s: PlanStep| s@) =~= out0 + seq![deletes[i as int]]);
                assert(deletes.take(i as int + 1) =~= deletes.take(i as int) + seq![
                    deletes[i as int],
                ]);
            }
            i = i + 1;
        }
        proof {
            assert(deletes.take(deletes.len() as int) =~= deletes);
        }
        let mut i: usize = 0;
        while i < self.apply.len()
            invariant
                i <= self.apply@.len(),
                deletes == self@.delete.map_values(|o: ObjectRefView| PlanStepView::Delete(o)),
                applies == self@.apply.map_values(|o: ObjectRefView| PlanStepView::Apply(o)),
                out@.map_values(|s: PlanStep| s@) =~= deletes + applies.take(i as int),
            decreases self.apply@.len() - i,
        {
            proof {
                assert(self@.apply[i as int] == self.apply@[i as int]@);
            }
            let ghost out0 = out@.map_values(|s: PlanStep| s@);
            let o = self.apply[i].clone();
            out.push(PlanStep::Apply(o));
            proof {
                assert(out@.map_values(|s: PlanStep| s@) =~= out0 + seq![applies[i as int]]);
                assert(applies.take(i as int + 1) =~= applies.take(i as int) + seq![
                    applies[i as int],
                ]);
            }
            i = i + 1;
        }
        proof {
            assert(applies.take(applies.len() as int) =~= applies);
        }
        out
    }
}

/// Finds the first rendered document whose identity is `target`, so an
/// apply step can be traced back to the document it came from.
pub fn find_manifest(manifests: &Vec<Manifest>, target: &ObjectRef) -> (r: Option<usize>)
    ensures
        ({
            let mv = manifests@.map_values(|m: Manifest| m@);
            match r {
                Some(i) => i < mv.len() && spec_manifest_ref(mv[i as int]) == Ok::<
                    ObjectRefView,
                    ObjectRefError,
                >(target@) && forall|j: int|
                    0 <= j < i ==> spec_manifest_ref(#[trigger] mv[j]) != Ok::<
                        ObjectRefView,
                        ObjectRefError,
                    >(target@),
                None => forall|j: int|
                    0 <= j < mv.len() ==> spec_manifest_ref(#[trigger] mv[j]) != Ok::<
                        ObjectRefView,
                        ObjectRefError,
                    >(target@),
            }
        }),
{
    let ghost mv = manifests@.map_values(|m: Manifest| m@);
    let mut i: usize = 0;
    while i < manifests.len()
        invariant
            i <= manifests@.len(),
            mv == manifests@.map_values(|m: Manifest| m@),
            forall|j: int|
                0 <= j < i ==> spec_manifest_ref(#[trigger] mv[j]) != Ok::<
                    ObjectRefView,
                    ObjectRefError,
                >(target@),
        decreases manifests@.len() - i,
    {
        proof {
            assert(mv[i as int] == manifests@[i as int]@);
        }
        match manifests[i].object_ref() {
            Ok(o) => {
                if o.eq(target) {
                    return Some(i);
                }
            },
            Err(_) => {},
        }
        i = i + 1;
    }
    None
}

} // verus!
