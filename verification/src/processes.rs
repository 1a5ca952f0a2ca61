use vstd::prelude::*;
use crate::rule_pack::{lemma_text_less_transitive, lemma_text_less_irreflexive, text_before, text_less};
use crate::text::{chars_of, ends_with, has_suffix, lowercase_str, lowercased};

verus! {

broadcast use vstd::string::group_string_axioms;

/// A running program offered for process rules: its executable name, and
/// whether it has a visible window (an application) or not (a background
/// process).
pub struct ProcessInfo {
    pub name: String,
    pub is_app: bool,
}

pub open spec fn infos_view(r: Seq<ProcessInfo>) -> Seq<(Seq<char>, bool)> {
    r.map_values(|p: ProcessInfo| (p.name@, p.is_app))
}

pub open spec fn procs_view(procs: Seq<(u32, String)>) -> Seq<(u32, Seq<char>)> {
    procs.map_values(|p: (u32, String)| (p.0, p.1@))
}

/// A name ending in `.exe`, in any case.
pub open spec fn is_exe_name(n: Seq<char>) -> bool {
    ends_with(lowercased(n), ".exe"@)
}

/// Some process with a visible window runs the executable `n`.
pub open spec fn is_app_name(procs: Seq<(u32, Seq<char>)>, visible: Seq<u32>, n: Seq<char>) -> bool {
    is_exe_name(n) && exists|i: int| 0 <= i < procs.len() && #[trigger] procs[i].1 == n && visible.contains(procs[i].0)
}

/// Some process without a visible window runs the executable `n`.
pub open spec fn is_background_name(procs: Seq<(u32, Seq<char>)>, visible: Seq<u32>, n: Seq<char>) -> bool {
    is_exe_name(n) && exists|i: int| 0 <= i < procs.len() && #[trigger] procs[i].1 == n && !visible.contains(procs[i].0)
}

/// Applications come first; within each group, names ascend by their
/// lower-cased form.
pub open spec fn listing_ordered(r: Seq<(Seq<char>, bool)>) -> bool {
    forall|i: int, j: int|
        0 <= i < j < r.len() ==> (#[trigger] r[i].1 && !(#[trigger] r[j].1)) || (r[i].1 == r[j].1
            && !text_less(lowercased(r[j].0), lowercased(r[i].0)))
}

/// No name is listed twice.
pub open spec fn names_distinct(r: Seq<(Seq<char>, bool)>) -> bool {
    forall|i: int, j: int| 0 <= i < j < r.len() ==> #[trigger] r[i].0 != #[trigger] r[j].0
}

/// A name is listed as an application when some windowed process runs it,
/// and as a background process when only windowless ones do.
pub open spec fn listing_members(procs: Seq<(u32, Seq<char>)>, visible: Seq<u32>, r: Seq<(Seq<char>, bool)>) -> bool {
    forall|n: Seq<char>, b: bool| #[trigger] r.contains((n, b)) <==> (if b {
        is_app_name(procs, visible, n)
    } else {
        is_background_name(procs, visible, n) && !is_app_name(procs, visible, n)
    })
}

/// A list of names kept ascending by lower-cased form, each with that form.
pub open spec fn keyed_sorted(s: Seq<(Seq<char>, Seq<char>)>) -> bool {
    &&& forall|i: int| 0 <= i < s.len() ==> (#[trigger] s[i]).1 == lowercased(s[i].0)
    &&& forall|i: int, j: int| 0 <= i < j < s.len() ==> !text_less(#[trigger] s[j].1, #[trigger] s[i].1)
    &&& forall|i: int, j: int| 0 <= i < j < s.len() ==> #[trigger] s[i].0 != #[trigger] s[j].0
}

pub open spec fn keyed_view(s: Seq<(String, Vec<char>)>) -> Seq<(Seq<char>, Seq<char>)> {
    s.map_values(|e: (String, Vec<char>)| (e.0@, e.1@))
}

pub open spec fn keyed_names(s: Seq<(Seq<char>, Seq<char>)>) -> Seq<Seq<char>> {
    s.map_values(|e: (Seq<char>, Seq<char>)| e.0)
}

fn same_name(a: &String, b: &String) -> (r: bool)
    ensures
        r == (a@ == b@),
{
    *a == *b
}

fn has_name(list: &Vec<(String, Vec<char>)>, name: &String) -> (r: bool)
    ensures
        r == keyed_names(keyed_view(list@)).contains(name@),
{
    let mut i: usize = 0;
    while i < list.len()
        invariant
            i <= list.len(),
            forall|j: int| 0 <= j < i ==> keyed_names(keyed_view(list@))[j] != name@,
        decreases list.len() - i,
    {
        if same_name(&list[i].0, name) {
            assert(keyed_names(keyed_view(list@))[i as int] == name@);
            return true;
        }
        i = i + 1;
    }
    false
}

/// Adds a name (with its lower-cased form `key`) after every entry whose
/// form does not come after it, unless the name is already there.
fn insert_keyed(list: &mut Vec<(String, Vec<char>)>, name: String, key: Vec<char>)
    requires
        keyed_sorted(keyed_view(old(list)@)),
        key@ == lowercased(name@),
    ensures
        keyed_sorted(keyed_view(final(list)@)),
        forall|n: Seq<char>| #[trigger] keyed_names(keyed_view(final(list)@)).contains(n) <==> (keyed_names(keyed_view(old(list)@)).contains(n) || n == name@),
{
    let ghost ov = keyed_view(list@);
    if has_name(list, &name) {
        return;
    }
    let mut p: usize = 0;
    while p < list.len() && !text_before(&key, &list[p].1)
        invariant
            p <= list.len(),
            keyed_view(list@) == ov,
            forall|j: int| 0 <= j < p ==> !text_less(key@, #[trigger] ov[j].1),
        decreases list.len() - p,
    {
        p = p + 1;
    }
    let ghost e = (name@, key@);
    list.insert(p, (name, key));
    let ghost nv = keyed_view(list@);
    assert(nv =~= ov.insert(p as int, e));
    assert forall|i: int, j: int| 0 <= i < j < nv.len() implies !text_less(#[trigger] nv[j].1, #[trigger] nv[i].1) by {
        if i < p && j == p {
            assert(nv[i] == ov[i]);
        } else if i == p && j > p {
            assert(nv[j] == ov[j - 1]);
            // key < ov[p].1 <= ov[j-1].1
            assert(text_less(key@, ov[p as int].1));
            if text_less(ov[j - 1].1, key@) {
                if j - 1 > p {
                    lemma_text_less_transitive(ov[j - 1].1, key@, ov[p as int].1);
                } else {
                    lemma_text_less_transitive(key@, ov[p as int].1, key@);
                    lemma_text_less_irreflexive(key@);
                }
            }
        } else if i < p && j > p {
            assert(nv[i] == ov[i] && nv[j] == ov[j - 1]);
        } else if j < p {
            assert(nv[i] == ov[i] && nv[j] == ov[j]);
        } else {
            assert(nv[i] == ov[i - 1] && nv[j] == ov[j - 1]);
        }
    }
    assert forall|i: int, j: int| 0 <= i < j < nv.len() implies #[trigger] nv[i].0 != #[trigger] nv[j].0 by {
        if i == p {
            assert(nv[j] == ov[j - 1]);
            assert(keyed_names(ov)[j - 1] == ov[j - 1].0);
        } else if j == p {
            assert(nv[i] == ov[i]);
            assert(keyed_names(ov)[i] == ov[i].0);
        } else if i < p && j > p {
            assert(nv[i] == ov[i] && nv[j] == ov[j - 1]);
        } else if j < p {
            assert(nv[i] == ov[i] && nv[j] == ov[j]);
        } else {
            assert(nv[i] == ov[i - 1] && nv[j] == ov[j - 1]);
        }
    }
    assert forall|n: Seq<char>| #[trigger] keyed_names(nv).contains(n) <==> (keyed_names(ov).contains(n) || n == name@) by {
        if keyed_names(nv).contains(n) {
            let k = choose|k: int| 0 <= k < keyed_names(nv).len() && keyed_names(nv)[k] == n;
            if k < p {
                assert(keyed_names(ov)[k] == n);
            } else if k > p {
                assert(keyed_names(ov)[k - 1] == n);
            }
        }
        if keyed_names(ov).contains(n) {
            let k = choose|k: int| 0 <= k < keyed_names(ov).len() && keyed_names(ov)[k] == n;
            if k < p {
                assert(keyed_names(nv)[k] == n);
            } else {
                assert(keyed_names(nv)[k + 1] == n);
            }
        }
        if n == name@ {
            assert(keyed_names(nv)[p as int] == n);
        }
    }
}

fn pid_visible(visible: &Vec<u32>, pid: u32) -> (r: bool)
    ensures
        r == visible@.contains(pid),
{
    let mut i: usize = 0;
    while i < visible.len()
        invariant
            i <= visible.len(),
            forall|j: int| 0 <= j < i ==> visible@[j] != pid,
        decreases visible.len() - i,
    {
        if visible[i] == pid {
            return true;
        }
        i = i + 1;
    }
    false
}

/// Splits the `.exe` processes into applications (`visible` holds the ids
/// of processes with a visible window) and background processes, each list
/// without repeats and ascending by lower-cased name.
fn group_processes(procs: &Vec<(u32, String)>, visible: &Vec<u32>) -> (r: (Vec<(String, Vec<char>)>, Vec<(String, Vec<char>)>))
    ensures
        keyed_sorted(keyed_view(r.0@)),
        keyed_sorted(keyed_view(r.1@)),
        forall|n: Seq<char>| #[trigger] keyed_names(keyed_view(r.0@)).contains(n) <==> is_app_name(procs_view(procs@), visible@, n),
        forall|n: Seq<char>| #[trigger] keyed_names(keyed_view(r.1@)).contains(n) <==> is_background_name(procs_view(procs@), visible@, n),
{
    let mut apps: Vec<(String, Vec<char>)> = Vec::new();
    let mut bgs: Vec<(String, Vec<char>)> = Vec::new();
    assert(keyed_view(apps@) =~= Seq::<(Seq<char>, Seq<char>)>::empty());
    assert(keyed_view(bgs@) =~= Seq::<(Seq<char>, Seq<char>)>::empty());
    let ghost pv = procs_view(procs@);
    let mut i: usize = 0;
    while i < procs.len()
        invariant
            i <= procs.len(),
            pv == procs_view(procs@),
            keyed_sorted(keyed_view(apps@)),
            keyed_sorted(keyed_view(bgs@)),
            forall|n: Seq<char>| #[trigger] keyed_names(keyed_view(apps@)).contains(n) <==> is_app_name(pv.take(i as int), visible@, n),
            forall|n: Seq<char>| #[trigger] keyed_names(keyed_view(bgs@)).contains(n) <==> is_background_name(pv.take(i as int), visible@, n),
        decreases procs.len() - i,
    {
        let name = &procs[i].1;
        let pid = procs[i].0;
        let low = lowercase_str(name.as_str());
        let key = chars_of(low.as_str());
        let is_exe = has_suffix(&key, ".exe");
        let vis = pid_visible(visible, pid);
        let ghost a0 = keyed_names(keyed_view(apps@));
        let ghost b0 = keyed_names(keyed_view(bgs@));
        if is_exe {
            if vis {
                insert_keyed(&mut apps, name.clone(), key);
            } else {
                insert_keyed(&mut bgs, name.clone(), key);
            }
        }
        let ghost t0 = pv.take(i as int);
        let ghost t1 = pv.take(i + 1);
        assert(t1 =~= t0.push(pv[i as int]));
        assert(pv[i as int] == (pid, name@));
        assert forall|n: Seq<char>| #[trigger] keyed_names(keyed_view(apps@)).contains(n) <==> is_app_name(t1, visible@, n) by {
            if is_app_name(t0, visible@, n) {
                let k = choose|k: int| 0 <= k < t0.len() && #[trigger] t0[k].1 == n && visible@.contains(t0[k].0);
                assert(t1[k] == t0[k]);
            }
            if is_app_name(t1, visible@, n) {
                let k = choose|k: int| 0 <= k < t1.len() && #[trigger] t1[k].1 == n && visible@.contains(t1[k].0);
                if k < t0.len() {
                    assert(t0[k] == t1[k]);
                }
            }
            if is_exe && vis && n == name@ {
                assert(t1[i as int].1 == n);
            }
        }
        assert forall|n: Seq<char>| #[trigger] keyed_names(keyed_view(bgs@)).contains(n) <==> is_background_name(t1, visible@, n) by {
            if is_background_name(t0, visible@, n) {
                let k = choose|k: int| 0 <= k < t0.len() && #[trigger] t0[k].1 == n && !visible@.contains(t0[k].0);
                assert(t1[k] == t0[k]);
            }
            if is_background_name(t1, visible@, n) {
                let k = choose|k: int| 0 <= k < t1.len() && #[trigger] t1[k].1 == n && !visible@.contains(t1[k].0);
                if k < t0.len() {
                    assert(t0[k] == t1[k]);
                }
            }
            if is_exe && !vis && n == name@ {
                assert(t1[i as int].1 == n);
            }
        }
        i = i + 1;
    }
    assert(pv.take(procs.len() as int) =~= pv);
    (apps, bgs)
}

/// Lists the running `.exe` programs for the process-rule picker:
/// applications (some process with a visible window, its id in `visible`)
/// first, then background processes not already listed; each group without
/// repeats, ascending by lower-cased name (names equal in that form may come
/// in either order). `procs` pairs each process id with its executable name.
pub fn order_running_processes(procs: &Vec<(u32, String)>, visible: &Vec<u32>) -> (r: Vec<ProcessInfo>)
    ensures
        listing_ordered(infos_view(r@)),
        names_distinct(infos_view(r@)),
        listing_members(procs_view(procs@), visible@, infos_view(r@)),
{
    let (apps, bgs) = group_processes(procs, visible);
    let ghost av = keyed_view(apps@);
    let ghost bv = keyed_view(bgs@);
    let mut out: Vec<ProcessInfo> = Vec::new();
    let mut i: usize = 0;
    while i < apps.len()
        invariant
            i <= apps.len(),
            av == keyed_view(apps@),
            out@.len() == i,
            forall|k: int| 0 <= k < i ==> #[trigger] infos_view(out@)[k] == (av[k].0, true),
        decreases apps.len() - i,
    {
        let ghost o0 = infos_view(out@);
        out.push(ProcessInfo { name: apps[i].0.clone(), is_app: true });
        assert(infos_view(out@) =~= o0.push((av[i as int].0, true)));
        i = i + 1;
    }
    let ghost na = out@.len();
    assert(listing_ordered(infos_view(out@))) by {
        let o = infos_view(out@);
        assert forall|a: int, b: int| 0 <= a < b < o.len() implies (#[trigger] o[a].1 && !(#[trigger] o[b].1)) || (o[a].1 == o[b].1
            && !text_less(lowercased(o[b].0), lowercased(o[a].0))) by {
            assert(av[a].1 == lowercased(av[a].0) && av[b].1 == lowercased(av[b].0));
        }
    }
    assert(names_distinct(infos_view(out@))) by {
        let o = infos_view(out@);
        assert forall|a: int, b: int| 0 <= a < b < o.len() implies #[trigger] o[a].0 != #[trigger] o[b].0 by {
            assert(o[a].0 == av[a].0 && o[b].0 == av[b].0);
        }
    }
    let mut j: usize = 0;
    while j < bgs.len()
        invariant
            j <= bgs.len(),
            av == keyed_view(apps@),
            bv == keyed_view(bgs@),
            keyed_sorted(av),
            keyed_sorted(bv),
            na == av.len(),
            out@.len() >= na,
            forall|k: int| 0 <= k < na ==> #[trigger] infos_view(out@)[k] == (av[k].0, true),
            forall|k: int| na <= k < out@.len() ==> (#[trigger] infos_view(out@)[k]).1 == false
                && !keyed_names(av).contains(infos_view(out@)[k].0)
                && exists|m: int| 0 <= m < j && bv[m].0 == infos_view(out@)[k].0,
            forall|k: int, m: int| na <= k < out@.len() && j <= m < bv.len() ==> !text_less(#[trigger] bv[m].1, lowercased(#[trigger] infos_view(out@)[k].0)),
            forall|n: Seq<char>| (!keyed_names(av).contains(n) && exists|m: int| 0 <= m < j && #[trigger] bv[m].0 == n)
                ==> infos_view(out@).contains((n, false)),
            names_distinct(infos_view(out@)),
            listing_ordered(infos_view(out@)),
        decreases bgs.len() - j,
    {
        let listed = has_name(&apps, &bgs[j].0);
        let ghost o0 = infos_view(out@);
        if !listed {
            out.push(ProcessInfo { name: bgs[j].0.clone(), is_app: false });
            let ghost o1 = infos_view(out@);
            assert(o1 =~= o0.push((bv[j as int].0, false)));
            assert(bv[j as int].1 == lowercased(bv[j as int].0));
            assert forall|a: int, b: int| 0 <= a < b < o1.len() implies #[trigger] o1[a].0 != #[trigger] o1[b].0 by {
                if b == o0.len() {
                    if a < na {
                        assert(keyed_names(av)[a] == av[a].0);
                    } else {
                        let m = choose|m: int| 0 <= m < j && bv[m].0 == o0[a].0;
                        assert(bv[m].0 != bv[j as int].0);
                    }
                } else {
                    assert(o1[a] == o0[a] && o1[b] == o0[b]);
                }
            }
            assert forall|a: int, b: int| 0 <= a < b < o1.len() implies (#[trigger] o1[a].1 && !(#[trigger] o1[b].1)) || (o1[a].1 == o1[b].1
                && !text_less(lowercased(o1[b].0), lowercased(o1[a].0))) by {
                if b == o0.len() {
                    if a >= na {
                        assert(!text_less(bv[j as int].1, lowercased(o0[a].0)));
                    }
                } else {
                    assert(o1[a] == o0[a] && o1[b] == o0[b]);
                }
            }
            assert forall|k: int, m: int| na <= k < o1.len() && j + 1 <= m < bv.len() implies !text_less(#[trigger] bv[m].1, lowercased(#[trigger] o1[k].0)) by {
                if k < o0.len() {
                    assert(o1[k] == o0[k]);
                } else {
                    assert(!text_less(bv[m].1, bv[j as int].1));
                }
            }
            assert forall|k: int| na <= k < o1.len() implies (#[trigger] o1[k]).1 == false
                && !keyed_names(av).contains(o1[k].0)
                && exists|m: int| 0 <= m < j + 1 && bv[m].0 == o1[k].0 by {
                if k < o0.len() {
                    assert(o1[k] == o0[k]);
                    let m = choose|m: int| 0 <= m < j && bv[m].0 == o0[k].0;
                    assert(0 <= m < j + 1 && bv[m].0 == o1[k].0);
                } else {
                    assert(bv[j as int].0 == o1[k].0);
                }
            }
        } else {
            assert forall|k: int| na <= k < o0.len() implies (#[trigger] o0[k]).1 == false
                && !keyed_names(av).contains(o0[k].0)
                && exists|m: int| 0 <= m < j + 1 && bv[m].0 == o0[k].0 by {
                let m = choose|m: int| 0 <= m < j && bv[m].0 == o0[k].0;
                assert(0 <= m < j + 1 && bv[m].0 == o0[k].0);
            }
        }
        let ghost oj = infos_view(out@);
        assert forall|n: Seq<char>| (!keyed_names(av).contains(n) && exists|m: int| 0 <= m < j + 1 && #[trigger] bv[m].0 == n)
            implies oj.contains((n, false)) by {
            let m = choose|m: int| 0 <= m < j + 1 && #[trigger] bv[m].0 == n;
            if m == j {
                assert(oj[oj.len() - 1] == (n, false));
            } else {
                assert(o0.contains((n, false)));
                let k = choose|k: int| 0 <= k < o0.len() && o0[k] == (n, false);
                assert(oj[k] == (n, false));
            }
        }
        j = j + 1;
    }
    let ghost o = infos_view(out@);
    let ghost pv = procs_view(procs@);
    assert forall|n: Seq<char>, b: bool| #[trigger] o.contains((n, b)) implies (if b {
        is_app_name(pv, visible@, n)
    } else {
        is_background_name(pv, visible@, n) && !is_app_name(pv, visible@, n)
    }) by {
        let k = choose|k: int| 0 <= k < o.len() && o[k] == (n, b);
        if k < na {
            assert(keyed_names(av)[k] == n);
            assert(keyed_names(av).contains(n));
        } else {
            let m = choose|m: int| 0 <= m < bgs.len() && bv[m].0 == o[k].0;
            assert(keyed_names(bv)[m] == n);
            assert(keyed_names(bv).contains(n));
        }
    }
    assert forall|n: Seq<char>| is_app_name(pv, visible@, n) implies #[trigger] o.contains((n, true)) by {
        assert(keyed_names(av).contains(n));
        let k = choose|k: int| 0 <= k < keyed_names(av).len() && keyed_names(av)[k] == n;
        assert(o[k] == (n, true));
    }
    assert forall|n: Seq<char>| is_background_name(pv, visible@, n) && !is_app_name(pv, visible@, n) implies #[trigger] o.contains((n, false)) by {
        assert(keyed_names(bv).contains(n));
        let m = choose|m: int| 0 <= m < keyed_names(bv).len() && keyed_names(bv)[m] == n;
        assert(bv[m].0 == n);
        assert(!keyed_names(av).contains(n));
    }
    assert(listing_members(pv, visible@, o)) by {
        assert forall|n: Seq<char>, b: bool| #[trigger] o.contains((n, b)) <==> (if b {
            is_app_name(pv, visible@, n)
        } else {
            is_background_name(pv, visible@, n) && !is_app_name(pv, visible@, n)
        }) by {
            if b {
                if is_app_name(pv, visible@, n) {
                    assert(o.contains((n, true)));
                }
            } else {
                if is_background_name(pv, visible@, n) && !is_app_name(pv, visible@, n) {
                    assert(o.contains((n, false)));
                }
            }
        }
    }
    out
}

} // verus!
