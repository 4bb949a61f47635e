use vstd::prelude::*;
use crate::commits::{CommitInfo, CommitView, interesting, is_interesting, clone_refs};
use crate::ids::strictly_sorted_ids;
use crate::ids::insert_id;

verus! {

/// How many commits of the walked history are materialized at most for
/// one simplification run.
pub const DEFAULT_WINDOW_LIMIT: usize = 2000;

/// Position of the commit a lookup table built over the window would
/// find for `id`: the last commit of the window with that id, or -1 when
/// no commit of the window has it.
pub open spec fn window_index_of(w: Seq<CommitView>, id: Seq<char>) -> int
    decreases w.len(),
{
    if w.len() == 0 {
        -1
    } else if w.last().oid == id {
        w.len() - 1
    } else {
        window_index_of(w.drop_last(), id)
    }
}

/// Whether some commit of the window carries this id.
pub open spec fn in_window(w: Seq<CommitView>, id: Seq<char>) -> bool {
    window_index_of(w, id) >= 0
}

/// The window commit found for `id`.
pub open spec fn commit_of(w: Seq<CommitView>, id: Seq<char>) -> CommitView {
    w[window_index_of(w, id)]
}

/// The ids the window holds, as a set.
pub open spec fn window_ids(w: Seq<CommitView>) -> Set<Seq<char>> {
    w.map_values(|c: CommitView| c.oid).to_set()
}

pub proof fn lemma_window_index(w: Seq<CommitView>, id: Seq<char>)
    ensures
        -1 <= window_index_of(w, id) < w.len(),
        window_index_of(w, id) >= 0 ==> w[window_index_of(w, id)].oid == id,
        window_index_of(w, id) == -1 ==> forall|k: int| 0 <= k < w.len() ==> w[k].oid != id,
    decreases w.len(),
{
    if w.len() > 0 && w.last().oid != id {
        lemma_window_index(w.drop_last(), id);
        if window_index_of(w, id) >= 0 {
            assert(w.drop_last()[window_index_of(w, id)] == w[window_index_of(w, id)]);
        } else {
            assert forall|k: int| 0 <= k < w.len() implies w[k].oid != id by {
                if k < w.len() - 1 {
                    assert(w.drop_last()[k] == w[k]);
                }
            }
        }
    }
}

pub proof fn lemma_window_ids_contains(w: Seq<CommitView>, id: Seq<char>)
    ensures
        in_window(w, id) <==> window_ids(w).contains(id),
{
    lemma_window_index(w, id);
    let m = w.map_values(|c: CommitView| c.oid);
    if in_window(w, id) {
        assert(m[window_index_of(w, id)] == id);
        assert(m.contains(id));
    }
    if window_ids(w).contains(id) {
        let k = choose|k: int| 0 <= k < m.len() && m[k] == id;
        assert(w[k].oid == id);
    }
}

/// Where an original parent edge is re-linked to: walking up the
/// first-parent chain from `cur`, skipping uninteresting commits, the
/// walk ends at the first interesting commit (`Some` of its id), leaves
/// the window (`Some` of the out-of-window id, an edge stub), or revisits
/// an id already seen — a cycle in corrupt history — and drops the edge
/// (`None`).
pub open spec fn resolve_step(w: Seq<CommitView>, cur: Seq<char>, seen: Set<Seq<char>>) -> Option<
    Seq<char>,
>
    decreases window_ids(w).difference(seen).len(),
    via resolve_step_dec
{
    if seen.contains(cur) {
        None
    } else if !in_window(w, cur) {
        Some(cur)
    } else if interesting(commit_of(w, cur)) {
        Some(cur)
    } else {
        resolve_step(w, commit_of(w, cur).parents[0], seen.insert(cur))
    }
}

#[via_fn]
proof fn resolve_step_dec(w: Seq<CommitView>, cur: Seq<char>, seen: Set<Seq<char>>) {
    broadcast use vstd::seq_lib::seq_to_set_is_finite;

    if !seen.contains(cur) && in_window(w, cur) && !interesting(commit_of(w, cur)) {
        lemma_window_ids_contains(w, cur);
        window_ids(w).lemma_set_insert_diff_decreases(seen, cur);
    }
}

/// Whatever id the walk settles on is interesting or a genuine stub:
/// never an uninteresting commit of the window.
pub proof fn lemma_resolve_target(w: Seq<CommitView>, cur: Seq<char>, seen: Set<Seq<char>>)
    ensures
        resolve_step(w, cur, seen) matches Some(q) ==> (!in_window(w, q) || interesting(
            commit_of(w, q),
        )),
    decreases window_ids(w).difference(seen).len(),
{
    broadcast use vstd::seq_lib::seq_to_set_is_finite;

    if !seen.contains(cur) && in_window(w, cur) && !interesting(commit_of(w, cur)) {
        lemma_window_ids_contains(w, cur);
        window_ids(w).lemma_set_insert_diff_decreases(seen, cur);
        lemma_resolve_target(w, commit_of(w, cur).parents[0], seen.insert(cur));
    }
}

/// The set an interesting commit's parent edges are re-linked to: each
/// original parent resolved independently, dropped edges omitted.
pub open spec fn resolved_parents(w: Seq<CommitView>, ps: Seq<Seq<char>>) -> Set<Seq<char>> {
    Set::new(
        |q: Seq<char>|
            exists|k: int|
                0 <= k < ps.len() && resolve_step(w, ps[k], Set::empty()) == Some(q),
    )
}

/// The interesting commits of the window, in window order.
pub open spec fn kept_commits(w: Seq<CommitView>) -> Seq<CommitView> {
    w.filter(|c: CommitView| interesting(c))
}

/// All fields agree but the parent list.
pub open spec fn fields_match(c: CommitView, rc: CommitView) -> bool {
    rc.oid == c.oid && rc.author == c.author && rc.email == c.email && rc.date == c.date
        && rc.message == c.message && rc.refs == c.refs
}

/// `rc` is the reduced form of window commit `c`: same commit, with its
/// parent list rewritten to the resolved ancestor set, sorted ascending
/// and free of duplicates.
pub open spec fn reduced_from(w: Seq<CommitView>, c: CommitView, rc: CommitView) -> bool {
    fields_match(c, rc) && strictly_sorted_ids(rc.parents) && rc.parents.to_set()
        == resolved_parents(w, c.parents)
}

/// `r` is the simplified graph of window `w`: exactly the interesting
/// commits, in order, each in reduced form.
pub open spec fn is_simplified(w: Seq<CommitView>, r: Seq<CommitView>) -> bool {
    r.len() == kept_commits(w).len() && (forall|j: int|
        0 <= j < r.len() ==> reduced_from(w, kept_commits(w)[j], #[trigger] r[j]))
}

proof fn lemma_to_set_push(s: Seq<Seq<char>>, x: Seq<char>)
    ensures
        s.push(x).to_set() == s.to_set().insert(x),
{
    let sp = s.push(x);
    assert forall|y: Seq<char>| #[trigger] sp.to_set().contains(y) implies s.to_set().insert(
        x,
    ).contains(y) by {
        let ii = choose|ii: int| 0 <= ii < sp.len() && sp[ii] == y;
        if ii < s.len() {
            assert(s[ii] == y);
            assert(s.contains(y));
        }
    }
    assert forall|y: Seq<char>| #[trigger] s.to_set().insert(x).contains(y) implies sp.to_set().contains(
        y,
    ) by {
        if y == x {
            assert(sp.last() == y);
            assert(sp.contains(y));
        } else {
            let ii = choose|ii: int| 0 <= ii < s.len() && s[ii] == y;
            assert(sp[ii] == y);
            assert(sp.contains(y));
        }
    }
    assert(sp.to_set() =~= s.to_set().insert(x));
}

fn contains_id(v: &Vec<String>, id: &String) -> (r: bool)
    ensures
        r == v.deep_view().contains(id@),
{
    let mut i: usize = 0;
    while i < v.len()
        invariant
            i <= v.len(),
            forall|k: int| 0 <= k < i ==> v.deep_view()[k] != id@,
        decreases v.len() - i,
    {
        if v[i] == *id {
            proof {
                assert(v.deep_view()[i as int] == id@);
            }
            return true;
        }
        i = i + 1;
    }
    proof {
        if v.deep_view().contains(id@) {
            let k = choose|k: int| 0 <= k < v.deep_view().len() && v.deep_view()[k] == id@;
            assert(false);
        }
    }
    false
}

fn find_in_window<'a>(w: &'a Vec<CommitInfo>, id: &String) -> (r: Option<&'a CommitInfo>)
    ensures
        r matches Some(c) ==> in_window(w.deep_view(), id@) && c@ == commit_of(
            w.deep_view(),
            id@,
        ),
        r is None ==> !in_window(w.deep_view(), id@),
{
    let ghost dw = w.deep_view();
    let mut i: usize = w.len();
    proof {
        assert(dw.take(w.len() as int) =~= dw);
    }
    while i > 0
        invariant
            i <= w.len(),
            dw == w.deep_view(),
            w.len() == dw.len(),
            window_index_of(dw, id@) == window_index_of(dw.take(i as int), id@),
        decreases i,
    {
        i = i - 1;
        if w[i].oid == *id {
            proof {
                assert(dw.take(i + 1).last() == dw[i as int]);
                assert(dw[i as int].oid == id@);
                assert(window_index_of(dw.take(i + 1), id@) == i);
                lemma_window_index(dw, id@);
            }
            return Some(&w[i]);
        }
        proof {
            assert(dw.take(i + 1).last() == dw[i as int]);
            assert(dw.take(i + 1).drop_last() =~= dw.take(i as int));
        }
    }
    proof {
        assert(dw.take(0).len() == 0);
    }
    None
}

fn resolve_parent(w: &Vec<CommitInfo>, parent: &String) -> (r: Option<String>)
    ensures
        r.deep_view() == resolve_step(w.deep_view(), parent@, Set::<Seq<char>>::empty()),
{
    let ghost dw = w.deep_view();
    let mut runner: String = parent.clone();
    let mut seen: Vec<String> = Vec::new();
    proof {
        assert(seen.deep_view().to_set() =~= Set::<Seq<char>>::empty());
    }
    loop
        invariant
            dw == w.deep_view(),
            resolve_step(dw, parent@, Set::<Seq<char>>::empty()) == resolve_step(
                dw,
                runner@,
                seen.deep_view().to_set(),
            ),
        decreases window_ids(dw).difference(seen.deep_view().to_set()).len(),
    {
        let ghost sset = seen.deep_view().to_set();
        if contains_id(&seen, &runner) {
            proof {
                assert(sset.contains(runner@));
                assert(resolve_step(dw, runner@, sset) is None);
            }
            return None;
        }
        match find_in_window(w, &runner) {
            None => {
                proof {
                    assert(resolve_step(dw, runner@, sset) == Some(runner@));
                }
                return Some(runner);
            },
            Some(c) => {
                if is_interesting(c) {
                    proof {
                        assert(resolve_step(dw, runner@, sset) == Some(runner@));
                    }
                    return Some(runner);
                }
                let ghost prev = seen.deep_view();
                let next: String = c.parents[0].clone();
                seen.push(runner.clone());
                proof {
                    assert(seen.deep_view() =~= prev.push(runner@));
                    lemma_to_set_push(prev, runner@);
                    assert(seen.deep_view().to_set() == sset.insert(runner@));
                    assert(c@ == commit_of(dw, runner@));
                    assert(c@.parents.len() == 1);
                    assert(next@ == c@.parents[0]);
                    assert(resolve_step(dw, runner@, sset) == resolve_step(
                        dw,
                        c@.parents[0],
                        sset.insert(runner@),
                    ));
                    broadcast use vstd::seq_lib::seq_to_set_is_finite;

                    lemma_window_ids_contains(dw, runner@);
                    window_ids(dw).lemma_set_insert_diff_decreases(sset, runner@);
                }
                runner = next;
            },
        }
    }
}

fn resolve_all(w: &Vec<CommitInfo>, ps: &Vec<String>) -> (r: Vec<String>)
    ensures
        strictly_sorted_ids(r.deep_view()),
        r.deep_view().to_set() == resolved_parents(w.deep_view(), ps.deep_view()),
{
    let ghost dw = w.deep_view();
    let ghost dps = ps.deep_view();
    let mut acc: Vec<String> = Vec::new();
    let mut k: usize = 0;
    proof {
        assert(acc.deep_view().to_set() =~= resolved_parents(dw, dps.take(0)));
    }
    while k < ps.len()
        invariant
            dw == w.deep_view(),
            dps == ps.deep_view(),
            k <= ps.len(),
            ps.len() == dps.len(),
            strictly_sorted_ids(acc.deep_view()),
            acc.deep_view().to_set() == resolved_parents(dw, dps.take(k as int)),
        decreases ps.len() - k,
    {
        let ghost sk = acc.deep_view().to_set();
        let ghost res = resolve_step(dw, dps[k as int], Set::<Seq<char>>::empty());
        let rp = resolve_parent(w, &ps[k]);
        match rp {
            Some(idv) => {
                proof {
                    assert(res == Some(idv@));
                }
                insert_id(&mut acc, idv);
            },
            None => {
                proof {
                    assert(res is None);
                }
            },
        }
        proof {
            let snew = acc.deep_view().to_set();
            let goal = resolved_parents(dw, dps.take(k + 1));
            assert forall|x: Seq<char>| #[trigger] snew.contains(x) implies goal.contains(x) by {
                if res == Some(x) {
                    assert(dps.take(k + 1)[k as int] == dps[k as int]);
                    assert(resolve_step(dw, dps.take(k + 1)[k as int], Set::empty()) == Some(x));
                } else {
                    assert(sk.contains(x));
                    let j = choose|j: int|
                        0 <= j < dps.take(k as int).len() && #[trigger] resolve_step(
                            dw,
                            dps.take(k as int)[j],
                            Set::empty(),
                        ) == Some(x);
                    assert(dps.take(k + 1)[j] == dps.take(k as int)[j]);
                    assert(resolve_step(dw, dps.take(k + 1)[j], Set::empty()) == Some(x));
                }
            }
            assert forall|x: Seq<char>| #[trigger] goal.contains(x) implies snew.contains(x) by {
                let j = choose|j: int|
                    0 <= j < dps.take(k + 1).len() && #[trigger] resolve_step(
                        dw,
                        dps.take(k + 1)[j],
                        Set::empty(),
                    ) == Some(x);
                if j < k {
                    assert(dps.take(k as int)[j] == dps.take(k + 1)[j]);
                    assert(sk.contains(x));
                } else {
                    assert(dps.take(k + 1)[j] == dps[k as int]);
                    assert(res == Some(x));
                }
            }
            assert(snew =~= goal);
        }
        k = k + 1;
    }
    proof {
        assert(dps.take(ps.len() as int) =~= dps);
    }
    acc
}

/// Reduce the window to the commits worth drawing: keep exactly the
/// interesting commits, re-link each kept commit's parents to the
/// nearest interesting ancestor along first-parent chains (or to an
/// out-of-window stub id), sorted and deduplicated; when nothing at all
/// is interesting, fall back to the whole window unchanged.
pub fn simplify_commits(window: &Vec<CommitInfo>) -> (r: Vec<CommitInfo>)
    ensures
        kept_commits(window.deep_view()).len() > 0 || window.deep_view().len() == 0
            ==> is_simplified(window.deep_view(), r.deep_view()),
        kept_commits(window.deep_view()).len() == 0 && window.deep_view().len() > 0
            ==> r.deep_view() == window.deep_view(),
{
    let ghost dw = window.deep_view();
    let mut out: Vec<CommitInfo> = Vec::new();
    let mut i: usize = 0;
    proof {
        assert(dw.take(0).len() == 0);
        reveal(Seq::filter);
    }
    while i < window.len()
        invariant
            dw == window.deep_view(),
            i <= window.len(),
            window.len() == dw.len(),
            out.deep_view().len() == kept_commits(dw.take(i as int)).len(),
            forall|j: int|
                0 <= j < out.deep_view().len() ==> reduced_from(
                    dw,
                    kept_commits(dw.take(i as int))[j],
                    #[trigger] out.deep_view()[j],
                ),
        decreases window.len() - i,
    {
        let ghost kprev = kept_commits(dw.take(i as int));
        let ghost oprev = out.deep_view();
        let c = &window[i];
        let keep = is_interesting(c);
        if keep {
            let parents = resolve_all(window, &c.parents);
            let rc = CommitInfo {
                oid: c.oid.clone(),
                parents,
                author: c.author.clone(),
                email: c.email.clone(),
                date: c.date,
                message: c.message.clone(),
                refs: clone_refs(&c.refs),
            };
            proof {
                assert(c@ == dw[i as int]);
                assert(reduced_from(dw, c@, rc@));
            }
            out.push(rc);
        }
        proof {
            reveal(Seq::filter);
            assert(dw.take(i + 1).drop_last() =~= dw.take(i as int));
            assert(dw.take(i + 1).last() == dw[i as int]);
            let knew = kept_commits(dw.take(i + 1));
            if interesting(dw[i as int]) {
                assert(knew == kprev.push(dw[i as int]));
                assert(out.deep_view() =~= oprev.push(out.deep_view().last()));
            } else {
                assert(knew == kprev);
                assert(out.deep_view() == oprev);
            }
            assert forall|j: int|
                0 <= j < out.deep_view().len() implies reduced_from(
                dw,
                knew[j],
                out.deep_view()[j],
            ) by {
                if j < oprev.len() {
                    assert(knew[j] == kprev[j]);
                    assert(out.deep_view()[j] == oprev[j]);
                }
            }
        }
        i = i + 1;
    }
    proof {
        assert(dw.take(dw.len() as int) =~= dw);
    }
    if out.len() == 0 && window.len() > 0 {
        let copy = clone_window(window);
        return copy;
    }
    out
}

fn clone_window(v: &Vec<CommitInfo>) -> (r: Vec<CommitInfo>)
    ensures
        r.deep_view() == v.deep_view(),
{
    let mut out: Vec<CommitInfo> = Vec::new();
    let mut i: usize = 0;
    while i < v.len()
        invariant
            0 <= i <= v.len(),
            out.deep_view() =~= v.deep_view().take(i as int),
        decreases v.len() - i,
    {
        let ghost prev = out.deep_view();
        out.push(v[i].clone());
        proof {
            assert(out.deep_view() =~= prev.push(v.deep_view()[i as int]));
            assert(out.deep_view() =~= v.deep_view().take(i + 1));
        }
        i = i + 1;
    }
    proof {
        assert(out.deep_view() =~= v.deep_view());
    }
    out
}

/// Cut the walked history down to its newest `limit` commits; a window
/// already within the limit is kept whole.
pub fn cap_window(window: &mut Vec<CommitInfo>, limit: usize)
    ensures
        limit <= old(window)@.len() ==> final(window).deep_view() == old(
            window,
        ).deep_view().take(limit as int),
        limit > old(window)@.len() ==> final(window).deep_view() == old(window).deep_view(),
{
    let ghost dv0 = window.deep_view();
    window.truncate(limit);
    proof {
        if limit <= dv0.len() {
            assert(window.deep_view() =~= dv0.take(limit as int));
        } else {
            assert(window.deep_view() =~= dv0);
        }
    }
}

/// Ids are unique within the window, as a deduplicating history walk
/// guarantees.
pub open spec fn distinct_oids(w: Seq<CommitView>) -> bool {
    forall|i: int, j: int| 0 <= i < j < w.len() ==> w[i].oid != w[j].oid
}

/// Interestingness closure: in a simplified graph over a window of
/// distinct ids, a window commit's id appears in the output exactly when
/// that commit is interesting — no other commit is ever retained.
pub proof fn lemma_retained_iff_interesting(w: Seq<CommitView>, r: Seq<CommitView>, i: int)
    requires
        is_simplified(w, r),
        distinct_oids(w),
        0 <= i < w.len(),
    ensures
        interesting(w[i]) <==> exists|j: int| 0 <= j < r.len() && r[j].oid == w[i].oid,
{
    let p = |c: CommitView| interesting(c);
    let kept = kept_commits(w);
    if interesting(w[i]) {
        w.lemma_filter_contains(p, i);
        assert(kept.contains(w[i]));
        let j = choose|j: int| 0 <= j < kept.len() && kept[j] == w[i];
        assert(r[j].oid == w[i].oid);
    }
    if exists|j: int| 0 <= j < r.len() && r[j].oid == w[i].oid {
        let j = choose|j: int| 0 <= j < r.len() && r[j].oid == w[i].oid;
        assert(reduced_from(w, kept[j], r[j]));
        w.lemma_filter_pred(p, j);
        assert(interesting(kept[j]));
        w.lemma_filter_contains_rev(p, kept[j]);
        assert(w.contains(kept[j]));
        let i2 = choose|i2: int| 0 <= i2 < w.len() && w[i2] == kept[j];
        assert(w[i2].oid == w[i].oid);
        if i2 != i {
            assert(false);
        }
    }
}

/// No dangling non-stub edges: every parent id of a reduced commit is
/// the id of a commit in the output, or absent from the window entirely
/// (a genuine stub) — never an uninteresting window commit.
pub proof fn lemma_no_dangling_edges(w: Seq<CommitView>, r: Seq<CommitView>, j: int, q: Seq<char>)
    requires
        is_simplified(w, r),
        0 <= j < r.len(),
        r[j].parents.contains(q),
    ensures
        in_window(w, q) ==> exists|k: int| 0 <= k < r.len() && r[k].oid == q,
{
    let p = |c: CommitView| interesting(c);
    let kept = kept_commits(w);
    let c = kept[j];
    assert(reduced_from(w, c, r[j]));
    assert(r[j].parents.to_set().contains(q));
    let k0 = choose|k0: int|
        0 <= k0 < c.parents.len() && #[trigger] resolve_step(w, c.parents[k0], Set::empty())
            == Some(q);
    lemma_resolve_target(w, c.parents[k0], Set::<Seq<char>>::empty());
    if in_window(w, q) {
        lemma_window_index(w, q);
        let idx = window_index_of(w, q);
        assert(interesting(w[idx]));
        w.lemma_filter_contains(p, idx);
        assert(kept.contains(w[idx]));
        let k = choose|k: int| 0 <= k < kept.len() && kept[k] == w[idx];
        assert(r[k].oid == q);
    }
}

} // verus!
