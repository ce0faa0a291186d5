//! The dhcpcd lease directory reader's logic: which files are lease files,
//! which interface a lease file belongs to, and how parsed leases fold into
//! the interface list.  Reading the directory and decoding the lease bytes
//! are I/O and live with the caller.

pub mod v4;
pub mod v6;

use vstd::prelude::*;

use crate::api::{Interface, InterfaceView, Lease4, Lease4View, Lease6, Lease6View};
use crate::text::{
    ffind_char, find_first, find_last, lemma_lex_irreflexive, lex_lt, rfind_char, str_eq, str_lt,
};

verus! {

/// Reads interfaces from dhcpcd's lease files.
pub struct DhcpcdInterfaceReader;

/// The file-name portion of a path text: what follows the last `/`, or the
/// whole text where there is none.
pub open spec fn spec_file_name(p: Seq<char>) -> Seq<char> {
    let k = find_last(p, '/');
    if k == -1 {
        p
    } else {
        p.skip(k + 1)
    }
}

/// The extension of a path text: what follows the last `.` of its file
/// name, where that dot is not the name's first character.
pub open spec fn spec_extension(p: Seq<char>) -> Option<Seq<char>> {
    let f = spec_file_name(p);
    if f.len() == 0 {
        None
    } else {
        let d = find_last(f.drop_first(), '.');
        if d == -1 {
            None
        } else {
            Some(f.drop_first().skip(d + 1))
        }
    }
}

/// The base name of a path text: its file name up to the first `.` that is
/// not the name's first character; absent for an empty file name.
pub open spec fn spec_file_base(p: Seq<char>) -> Option<Seq<char>> {
    let f = spec_file_name(p);
    if f.len() == 0 {
        None
    } else {
        let d = find_first(f.drop_first(), '.');
        if d == -1 {
            Some(f)
        } else {
            Some(f.take(d + 1))
        }
    }
}

/// The file-name portion of a path text.
fn file_name_part<'a>(path: &'a str) -> (r: &'a str)
    ensures
        r@ == spec_file_name(path@),
{
    let n = path.unicode_len();
    match rfind_char(path, '/') {
        Some(k) => {
            let r = path.substring_char(k + 1, n);
            proof {
                assert(r@ =~= path@.skip(k + 1));
            }
            r
        },
        None => path,
    }
}

/// Whether the path's extension is exactly `ext`.
pub(crate) fn extension_is(path: &str, ext: &str) -> (r: bool)
    ensures
        r == (spec_extension(path@) == Some(ext@)),
{
    let name = file_name_part(path);
    let m = name.unicode_len();
    if m == 0 {
        return false;
    }
    let tail = name.substring_char(1, m);
    proof {
        assert(tail@ =~= name@.drop_first());
    }
    match rfind_char(tail, '.') {
        None => false,
        Some(d) => {
            let tail_len = m - 1;
            let ext_part = tail.substring_char(d + 1, tail_len);
            proof {
                assert(ext_part@ =~= tail@.skip(d + 1));
            }
            str_eq(ext_part, ext)
        },
    }
}

/// The interface a lease file belongs to: the file's base name.
pub fn file_base_name(path: &str) -> (r: Option<String>)
    ensures
        match r {
            Some(base) => spec_file_base(path@) == Some(base@),
            None => spec_file_base(path@) is None,
        },
{
    let name = file_name_part(path);
    let m = name.unicode_len();
    if m == 0 {
        return None;
    }
    let tail = name.substring_char(1, m);
    proof {
        assert(tail@ =~= name@.drop_first());
    }
    match ffind_char(tail, '.') {
        None => Some(name.to_owned()),
        Some(d) => {
            let base = name.substring_char(0, d + 1);
            proof {
                assert(base@ =~= name@.take(d + 1));
            }
            Some(base.to_owned())
        },
    }
}

/// One decoded lease, of either address family.
#[derive(Debug)]
pub enum Lease {
    V4(Lease4),
    V6(Lease6),
}

pub ghost enum LeaseView {
    V4(Lease4View),
    V6(Lease6View),
}

impl View for Lease {
    type V = LeaseView;

    open spec fn view(&self) -> LeaseView {
        match self {
            Lease::V4(l) => LeaseView::V4(l@),
            Lease::V6(l) => LeaseView::V6(l@),
        }
    }
}

/// An interface with one more lease recorded: the lease of that family is
/// replaced, the other is kept.
pub open spec fn apply_lease(i: InterfaceView, l: LeaseView) -> InterfaceView {
    match l {
        LeaseView::V4(x) => InterfaceView { name: i.name, lease4: Some(x), lease6: i.lease6 },
        LeaseView::V6(x) => InterfaceView { name: i.name, lease4: i.lease4, lease6: Some(x) },
    }
}

/// An interface that has not seen any lease yet.
pub open spec fn fresh_interface(name: Seq<char>) -> InterfaceView {
    InterfaceView { name, lease4: None, lease6: None }
}

/// The interface list after recording one lease for `name`: the interface
/// is updated in place, or created at its position in name order.
pub open spec fn spec_upsert(s: Seq<InterfaceView>, name: Seq<char>, l: LeaseView) -> Seq<
    InterfaceView,
>
    decreases s.len(),
{
    if s.len() == 0 {
        seq![apply_lease(fresh_interface(name), l)]
    } else if lex_lt(s[0].name, name) {
        seq![s[0]] + spec_upsert(s.drop_first(), name, l)
    } else if s[0].name == name {
        s.update(0, apply_lease(s[0], l))
    } else {
        seq![apply_lease(fresh_interface(name), l)] + s
    }
}

/// The interface list after recording a sequence of named leases, in
/// order: interfaces are grouped by name, kept in name order, and within
/// one interface the last lease of each family wins.
pub open spec fn spec_fold_leases(entries: Seq<(Seq<char>, LeaseView)>) -> Seq<InterfaceView>
    decreases entries.len(),
{
    if entries.len() == 0 {
        Seq::empty()
    } else {
        spec_upsert(
            spec_fold_leases(entries.drop_last()),
            entries.last().0,
            entries.last().1,
        )
    }
}

proof fn lemma_upsert_replace(s: Seq<InterfaceView>, name: Seq<char>, l: LeaseView, p: int)
    requires
        0 <= p < s.len(),
        s[p].name == name,
        forall|j: int| 0 <= j < p ==> lex_lt(#[trigger] s[j].name, name),
    ensures
        spec_upsert(s, name, l) =~= s.update(p, apply_lease(s[p], l)),
    decreases p,
{
    if p == 0 {
        lemma_lex_irreflexive(name);
    } else {
        lemma_upsert_replace(s.drop_first(), name, l, p - 1);
    }
}

proof fn lemma_upsert_new(s: Seq<InterfaceView>, name: Seq<char>, l: LeaseView, p: int)
    requires
        0 <= p <= s.len(),
        forall|j: int| 0 <= j < p ==> lex_lt(#[trigger] s[j].name, name),
        p == s.len() || (s[p].name != name && !lex_lt(s[p].name, name)),
    ensures
        spec_upsert(s, name, l) =~= s.subrange(0, p) + seq![
            apply_lease(fresh_interface(name), l),
        ] + s.subrange(p, s.len() as int),
    decreases p,
{
    if p > 0 {
        lemma_upsert_new(s.drop_first(), name, l, p - 1);
    }
}

fn clone_opt_lease4(o: &Option<Lease4>) -> (r: Option<Lease4>)
    ensures
        (match r {
            Some(l) => Some(l@),
            None => None,
        }) == (match o {
            Some(l) => Some(l@),
            None => None::<Lease4View>,
        }),
{
    match o {
        Some(l) => Some(l.clone()),
        None => None,
    }
}

fn clone_opt_lease6(o: &Option<Lease6>) -> (r: Option<Lease6>)
    ensures
        (match r {
            Some(l) => Some(l@),
            None => None,
        }) == (match o {
            Some(l) => Some(l@),
            None => None::<Lease6View>,
        }),
{
    match o {
        Some(l) => Some(l.clone()),
        None => None,
    }
}

fn scan_interfaces(v: &Vec<Interface>, name: &str) -> (p: usize)
    ensures
        p <= v@.len(),
        forall|j: int| 0 <= j < p ==> lex_lt((#[trigger] v@[j])@.name, name@),
        p == v@.len() || !lex_lt(v@[p as int]@.name, name@),
{
    let n = v.len();
    let mut p: usize = 0;
    loop
        invariant
            p <= n,
            n == v@.len(),
            forall|j: int| 0 <= j < p ==> lex_lt((#[trigger] v@[j])@.name, name@),
        ensures
            p <= n,
            forall|j: int| 0 <= j < p ==> lex_lt((#[trigger] v@[j])@.name, name@),
            p == n || !lex_lt(v@[p as int]@.name, name@),
        decreases n - p,
    {
        if p == n {
            break ;
        }
        if !str_lt(v[p].name.as_str(), name) {
            break ;
        }
        p = p + 1;
    }
    p
}

/// An interface built from one lease under a fresh name.
fn interface_from_lease(name: String, lease: Lease) -> (r: Interface)
    ensures
        r@ == apply_lease(fresh_interface(name@), lease@),
{
    match lease {
        Lease::V4(l) => Interface { name, lease4: Some(l), lease6: None },
        Lease::V6(l) => Interface { name, lease4: None, lease6: Some(l) },
    }
}

/// Folds named leases, in order, into the interface list: one interface
/// per name, in name order, the last lease of each family winning.
pub fn assemble_interfaces(entries: Vec<(String, Lease)>) -> (r: Vec<Interface>)
    ensures
        r@.map_values(|i: Interface| i@) =~= spec_fold_leases(
            entries@.map_values(|e: (String, Lease)| (e.0@, e.1@)),
        ),
{
    let ghost ev = entries@.map_values(|e: (String, Lease)| (e.0@, e.1@));
    let total = entries.len();
    let mut out: Vec<Interface> = Vec::new();
    let mut i: usize = 0;
    let mut rest = entries;
    proof {
        assert(ev.take(0) =~= Seq::<(Seq<char>, LeaseView)>::empty());
    }
    while rest.len() > 0
        invariant
            total == ev.len(),
            i + rest@.len() == ev.len(),
            ev == ev.take(i as int) + rest@.map_values(|e: (String, Lease)| (e.0@, e.1@)),
            out@.map_values(|x: Interface| x@) =~= spec_fold_leases(ev.take(i as int)),
        decreases rest@.len(),
    {
        let ghost out0 = out@.map_values(|x: Interface| x@);
        let (name, lease) = rest.remove(0);
        proof {
            assert(ev[i as int] == (name@, lease@));
        }
        let p = scan_interfaces(&out, name.as_str());
        let ghost pv = p as int;
        if p < out.len() && str_eq(out[p].name.as_str(), name.as_str()) {
            proof {
                assert(out0[pv] == out@[pv]@);
            }
            let updated = match lease {
                Lease::V4(l) => Interface {
                    name: out[p].name.clone(),
                    lease4: Some(l),
                    lease6: clone_opt_lease6(&out[p].lease6),
                },
                Lease::V6(l) => Interface {
                    name: out[p].name.clone(),
                    lease4: clone_opt_lease4(&out[p].lease4),
                    lease6: Some(l),
                },
            };
            proof {
                assert(updated@ == apply_lease(out0[pv], lease@));
            }
            out.set(p, updated);
            proof {
                lemma_upsert_replace(out0, name@, lease@, pv);
                assert(out@.map_values(|x: Interface| x@) =~= out0.update(
                    pv,
                    apply_lease(out0[pv], lease@),
                ));
            }
        } else {
            proof {
                if pv < out0.len() {
                    assert(out0[pv] == out@[pv]@);
                }
                lemma_upsert_new(out0, name@, lease@, pv);
            }
            let fresh = interface_from_lease(name, lease);
            out.insert(p, fresh);
            proof {
                assert(out@.map_values(|x: Interface| x@) =~= out0.subrange(0, pv) + seq![
                    apply_lease(fresh_interface(ev[i as int].0), lease@),
                ] + out0.subrange(pv, out0.len() as int));
            }
        }
        proof {
            assert(ev.take(i as int + 1).drop_last() =~= ev.take(i as int));
            assert(ev.take(i as int + 1).last() == ev[i as int]);
            assert(out@.map_values(|x: Interface| x@) =~= spec_fold_leases(ev.take(i as int + 1)));
        }
        i = i + 1;
    }
    proof {
        assert(ev.take(ev.len() as int) =~= ev);
    }
    out
}

} // verus!
