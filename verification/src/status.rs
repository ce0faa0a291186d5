//! Idempotent status merging: new conditions are placed before the persisted
//! ones and the list is deduplicated by type, keeping the first occurrence —
//! so a new condition always supersedes the previous one of its type while
//! untouched types survive unchanged.  The object set is always replaced
//! wholesale, never merged.
//!
//! The surrounding code writes the merged status back with a whole-status
//! replace; that is only free of lost updates because reconciliation is
//! serialized to one in-flight pass per process.

use vstd::prelude::*;

use crate::crd::{Condition, ConditionView, DHCPTemplateStatus, ObjectRef, Type};

verus! {

/// The conditions with the first occurrence of each type kept, ignoring
/// types already `seen`.
pub open spec fn dedup_by_type(s: Seq<ConditionView>, seen: Set<Type>) -> Seq<ConditionView>
    decreases s.len(),
{
    if s.len() == 0 {
        Seq::empty()
    } else if seen.contains(s[0].type_) {
        dedup_by_type(s.drop_first(), seen)
    } else {
        seq![s[0]] + dedup_by_type(s.drop_first(), seen.insert(s[0].type_))
    }
}

/// The merged condition list: new conditions first, then the current ones,
/// one condition per type, first occurrence winning.
pub open spec fn spec_merge(new: Seq<ConditionView>, current: Seq<ConditionView>) -> Seq<
    ConditionView,
> {
    dedup_by_type(new + current, Set::empty())
}

/// The set of condition types occurring in a list.
pub open spec fn typeset(s: Seq<ConditionView>) -> Set<Type>
    decreases s.len(),
{
    if s.len() == 0 {
        Set::empty()
    } else {
        typeset(s.drop_first()).insert(s[0].type_)
    }
}

/// The first condition of a given type in a list, if any.
pub open spec fn first_of_type(s: Seq<ConditionView>, t: Type) -> Option<ConditionView>
    decreases s.len(),
{
    if s.len() == 0 {
        None
    } else if s[0].type_ == t {
        Some(s[0])
    } else {
        first_of_type(s.drop_first(), t)
    }
}

/// Splitting a deduplication at a concatenation: the right part continues
/// with every type of the left part already seen.
proof fn lemma_dedup_split(a: Seq<ConditionView>, b: Seq<ConditionView>, seen: Set<Type>)
    ensures
        dedup_by_type(a + b, seen) =~= dedup_by_type(a, seen) + dedup_by_type(
            b,
            seen.union(typeset(a)),
        ),
    decreases a.len(),
{
    if a.len() == 0 {
        assert(a + b =~= b);
        assert(seen.union(typeset(a)) =~= seen);
    } else {
        let ab = a + b;
        assert(ab[0] == a[0]);
        assert(ab.drop_first() =~= a.drop_first() + b);
        if seen.contains(a[0].type_) {
            lemma_dedup_split(a.drop_first(), b, seen);
            assert(seen.union(typeset(a.drop_first())) =~= seen.union(typeset(a)));
        } else {
            lemma_dedup_split(a.drop_first(), b, seen.insert(a[0].type_));
            assert(seen.insert(a[0].type_).union(typeset(a.drop_first())) =~= seen.union(
                typeset(a),
            ));
        }
    }
}

/// Every type a deduplicated list holds comes from the list itself, and none
/// of them was already seen.
proof fn lemma_dedup_typeset(s: Seq<ConditionView>, seen: Set<Type>)
    ensures
        forall|t: Type|
            #[trigger] typeset(dedup_by_type(s, seen)).contains(t) ==> typeset(s).contains(t)
                && !seen.contains(t),
    decreases s.len(),
{
    if s.len() > 0 {
        let d = dedup_by_type(s, seen);
        if seen.contains(s[0].type_) {
            lemma_dedup_typeset(s.drop_first(), seen);
            assert forall|t: Type| #[trigger] typeset(d).contains(t) implies typeset(s).contains(
                t,
            ) && !seen.contains(t) by {
                assert(typeset(dedup_by_type(s.drop_first(), seen)).contains(t));
                assert(typeset(s.drop_first()).contains(t));
            }
        } else {
            lemma_dedup_typeset(s.drop_first(), seen.insert(s[0].type_));
            let u = dedup_by_type(s.drop_first(), seen.insert(s[0].type_));
            assert(d =~= seq![s[0]] + u);
            assert(d.drop_first() =~= u);
            assert forall|t: Type| #[trigger] typeset(d).contains(t) implies typeset(s).contains(
                t,
            ) && !seen.contains(t) by {
                if t != s[0].type_ {
                    assert(typeset(d) == typeset(d.drop_first()).insert(d[0].type_));
                    assert(typeset(u).contains(t));
                    assert(typeset(s.drop_first()).contains(t));
                }
            }
        }
    }
}

/// Deduplicating a list whose every type was already seen leaves nothing.
proof fn lemma_dedup_all_seen(s: Seq<ConditionView>, seen: Set<Type>)
    requires
        forall|t: Type| #[trigger] typeset(s).contains(t) ==> seen.contains(t),
    ensures
        dedup_by_type(s, seen) =~= Seq::<ConditionView>::empty(),
    decreases s.len(),
{
    if s.len() > 0 {
        assert(typeset(s).contains(s[0].type_));
        assert forall|t: Type| #[trigger] typeset(s.drop_first()).contains(t) implies seen.contains(
            t,
        ) by {
            assert(typeset(s).contains(t));
        }
        lemma_dedup_all_seen(s.drop_first(), seen);
    }
}

/// Deduplication is idempotent over the same seen set.
proof fn lemma_dedup_idempotent(s: Seq<ConditionView>, seen: Set<Type>)
    ensures
        dedup_by_type(dedup_by_type(s, seen), seen) =~= dedup_by_type(s, seen),
    decreases s.len(),
{
    if s.len() > 0 {
        if seen.contains(s[0].type_) {
            lemma_dedup_idempotent(s.drop_first(), seen);
        } else {
            let seen1 = seen.insert(s[0].type_);
            let u = dedup_by_type(s.drop_first(), seen1);
            lemma_dedup_idempotent(s.drop_first(), seen1);
            let d = dedup_by_type(s, seen);
            assert(d =~= seq![s[0]] + u);
            assert(d[0] == s[0]);
            assert(d.drop_first() =~= u);
        }
    }
}

/// Law: the merge is idempotent.  Applying the same new conditions to an
/// already merged status changes nothing: there stays one condition of each
/// type, and every other type keeps its condition.
pub proof fn lemma_merge_idempotent(new: Seq<ConditionView>, current: Seq<ConditionView>)
    ensures
        spec_merge(new, spec_merge(new, current)) =~= spec_merge(new, current),
{
    let none = Set::<Type>::empty();
    let t_new = typeset(new);
    let m = spec_merge(new, current);
    lemma_dedup_split(new, current, none);
    assert(none.union(t_new) =~= t_new);
    let dn = dedup_by_type(new, none);
    let dc = dedup_by_type(current, t_new);
    assert(m =~= dn + dc);
    lemma_dedup_split(new, m, none);
    assert(spec_merge(new, m) =~= dn + dedup_by_type(m, t_new));
    lemma_dedup_split(dn, dc, t_new);
    assert(dedup_by_type(m, t_new) =~= dedup_by_type(dn + dc, t_new));
    assert(dedup_by_type(dn, t_new) =~= Seq::<ConditionView>::empty()) by {
        lemma_dedup_typeset(new, none);
        assert forall|t: Type| #[trigger] typeset(dn).contains(t) implies t_new.contains(t) by {}
        lemma_dedup_all_seen(dn, t_new);
    }
    assert(t_new.union(typeset(dn)) =~= t_new) by {
        lemma_dedup_typeset(new, none);
    }
    assert(dedup_by_type(dc, t_new.union(typeset(dn))) == dedup_by_type(dc, t_new));
    assert(dedup_by_type(dc, t_new) =~= dc) by {
        lemma_dedup_idempotent(current, t_new);
    }
    assert(dedup_by_type(m, t_new) =~= dc);
}

/// Law: what each type resolves to after a merge.  A type pushed in the new
/// conditions resolves to its first new condition — the latest write wins —
/// and every other type keeps exactly the condition it had.
pub proof fn lemma_merge_resolves(new: Seq<ConditionView>, current: Seq<ConditionView>, t: Type)
    ensures
        first_of_type(spec_merge(new, current), t) == if first_of_type(new, t) is Some {
            first_of_type(new, t)
        } else {
            first_of_type(current, t)
        },
{
    lemma_first_dedup(new + current, Set::empty(), t);
    lemma_first_concat(new, current, t);
}

/// Law: a merged condition list never holds two conditions of one type.
pub proof fn lemma_merge_unique_types(new: Seq<ConditionView>, current: Seq<ConditionView>)
    ensures
        forall|i: int, j: int|
            0 <= i < j < spec_merge(new, current).len() ==> (#[trigger] spec_merge(
                new,
                current,
            )[i]).type_ != (#[trigger] spec_merge(new, current)[j]).type_,
{
    lemma_dedup_unique(new + current, Set::empty());
}

proof fn lemma_first_dedup(s: Seq<ConditionView>, seen: Set<Type>, t: Type)
    ensures
        first_of_type(dedup_by_type(s, seen), t) == if seen.contains(t) {
            None::<ConditionView>
        } else {
            first_of_type(s, t)
        },
    decreases s.len(),
{
    if s.len() > 0 {
        let d = dedup_by_type(s, seen);
        if seen.contains(s[0].type_) {
            lemma_first_dedup(s.drop_first(), seen, t);
        } else {
            let seen1 = seen.insert(s[0].type_);
            let u = dedup_by_type(s.drop_first(), seen1);
            lemma_first_dedup(s.drop_first(), seen1, t);
            assert(d =~= seq![s[0]] + u);
            assert(d[0] == s[0]);
            assert(d.drop_first() =~= u);
        }
    }
}

proof fn lemma_first_concat(a: Seq<ConditionView>, b: Seq<ConditionView>, t: Type)
    ensures
        first_of_type(a + b, t) == if first_of_type(a, t) is Some {
            first_of_type(a, t)
        } else {
            first_of_type(b, t)
        },
    decreases a.len(),
{
    if a.len() == 0 {
        assert(a + b =~= b);
    } else {
        let ab = a + b;
        assert(ab[0] == a[0]);
        assert(ab.drop_first() =~= a.drop_first() + b);
        lemma_first_concat(a.drop_first(), b, t);
    }
}

proof fn lemma_dedup_unique(s: Seq<ConditionView>, seen: Set<Type>)
    ensures
        forall|i: int, j: int|
            0 <= i < j < dedup_by_type(s, seen).len() ==> (#[trigger] dedup_by_type(s, seen)[i]).type_
                != (#[trigger] dedup_by_type(s, seen)[j]).type_,
    decreases s.len(),
{
    if s.len() > 0 {
        let d = dedup_by_type(s, seen);
        if seen.contains(s[0].type_) {
            lemma_dedup_unique(s.drop_first(), seen);
        } else {
            let seen1 = seen.insert(s[0].type_);
            let u = dedup_by_type(s.drop_first(), seen1);
            lemma_dedup_unique(s.drop_first(), seen1);
            lemma_dedup_typeset(s.drop_first(), seen1);
            assert(d =~= seq![s[0]] + u);
            assert forall|i: int, j: int| 0 <= i < j < d.len() implies d[i].type_
                != d[j].type_ by {
                if i == 0 {
                    assert(d[j] == u[j - 1]);
                    assert(typeset(u).contains(u[j - 1].type_)) by {
                        lemma_typeset_index(u, j - 1);
                    }
                } else {
                    assert(d[i] == u[i - 1] && d[j] == u[j - 1]);
                }
            }
        }
    }
}

proof fn lemma_typeset_index(s: Seq<ConditionView>, i: int)
    requires
        0 <= i < s.len(),
    ensures
        typeset(s).contains(s[i].type_),
    decreases i,
{
    if i > 0 {
        lemma_typeset_index(s.drop_first(), i - 1);
    }
}

fn type_seen(t: Type, pending: bool, ready: bool, error: bool, unknown: bool) -> (r: bool)
    ensures
        r == (match t {
            Type::Pending => pending,
            Type::Ready => ready,
            Type::Error => error,
            Type::Unknown => unknown,
        }),
{
    match t {
        Type::Pending => pending,
        Type::Ready => ready,
        Type::Error => error,
        Type::Unknown => unknown,
    }
}

/// Merges condition lists: `new` first, then `current`, keeping the first
/// condition of each type.
pub fn merge_conditions(new: Vec<Condition>, current: Vec<Condition>) -> (r: Vec<Condition>)
    ensures
        r@.map_values(|c: Condition| c@) =~= spec_merge(
            new@.map_values(|c: Condition| c@),
            current@.map_values(|c: Condition| c@),
        ),
{
    let ghost new_v = new@.map_values(|c: Condition| c@);
    let ghost current_v = current@.map_values(|c: Condition| c@);
    let mut all = new;
    let mut rest = current;
    all.append(&mut rest);
    let ghost all_v = all@.map_values(|c: Condition| c@);
    proof {
        assert(all_v =~= new_v + current_v);
    }
    let mut out: Vec<Condition> = Vec::new();
    let mut pending = false;
    let mut ready = false;
    let mut error = false;
    let mut unknown = false;
    let ghost mut seen: Set<Type> = Set::empty();
    let mut i: usize = 0;
    proof {
        assert(all_v.skip(0) =~= all_v);
    }
    while i < all.len()
        invariant
            i <= all@.len(),
            all_v == all@.map_values(|c: Condition| c@),
            pending == seen.contains(Type::Pending),
            ready == seen.contains(Type::Ready),
            error == seen.contains(Type::Error),
            unknown == seen.contains(Type::Unknown),
            dedup_by_type(all_v, Set::empty()) =~= out@.map_values(|c: Condition| c@)
                + dedup_by_type(all_v.skip(i as int), seen),
        decreases all@.len() - i,
    {
        proof {
            assert(all_v[i as int] == all@[i as int]@);
            assert(all_v.skip(i as int)[0] == all_v[i as int]);
            assert(all_v.skip(i as int).drop_first() =~= all_v.skip(i as int + 1));
        }
        let t = all[i].type_;
        let ghost out0 = out@;
        if !type_seen(t, pending, ready, error, unknown) {
            let c = all[i].clone();
            out.push(c);
            match t {
                Type::Pending => pending = true,
                Type::Ready => ready = true,
                Type::Error => error = true,
                Type::Unknown => unknown = true,
            }
            proof {
                assert(out@.map_values(|c: Condition| c@) =~= out0.map_values(|c: Condition| c@)
                    + seq![all_v[i as int]]);
                seen = seen.insert(t);
            }
        }
        i = i + 1;
    }
    proof {
        assert(all_v.skip(all_v.len() as int) =~= Seq::<ConditionView>::empty());
        assert(out@.map_values(|c: Condition| c@) =~= dedup_by_type(all_v, Set::empty()));
    }
    out
}

/// Builds the status written after a pass: the given object set, wholesale,
/// and exactly one fresh condition.
pub fn status_with_condition(objects: Vec<ObjectRef>, condition: Condition) -> (r:
    DHCPTemplateStatus)
    ensures
        r@.objects =~= objects@.map_values(|o: ObjectRef| o@),
        r@.conditions =~= seq![condition@],
{
    let mut conditions: Vec<Condition> = Vec::new();
    conditions.push(condition);
    DHCPTemplateStatus { objects, conditions }
}

/// Merges a freshly built status into the currently persisted one: the
/// object set is replaced wholesale with the new one, and the conditions are
/// merged by type with the new ones winning.
pub fn merge_status(new: DHCPTemplateStatus, current: Option<DHCPTemplateStatus>) -> (r:
    DHCPTemplateStatus)
    ensures
        r@.objects =~= new@.objects,
        r@.conditions =~= spec_merge(
            new@.conditions,
            match current {
                Some(c) => c@.conditions,
                None => Seq::<ConditionView>::empty(),
            },
        ),
{
    let DHCPTemplateStatus { objects, conditions } = new;
    let merged = match current {
        Some(c) => merge_conditions(conditions, c.conditions),
        None => {
            let empty: Vec<Condition> = Vec::new();
            proof {
                assert(empty@.map_values(|c: Condition| c@) =~= Seq::<ConditionView>::empty());
            }
            merge_conditions(conditions, empty)
        },
    };
    DHCPTemplateStatus { objects, conditions: merged }
}

} // verus!
