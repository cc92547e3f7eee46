//! The whole topology check, and the validation every mutation passes.
//!
//! `analyze` runs the error rules in a fixed order (edges, port shapes, specs,
//! duplicate listeners, cycles, ip_hash) and appends the warnings after all of them.
//! `ensure_valid` rejects a topology with its first error; warnings never block.

use crate::checks::{
    append_problems, check_duplicate_listen, check_duplicate_listen_exec, check_edges,
    check_edges_exec, check_ip_hash, check_ip_hash_exec, check_port_shapes,
    check_port_shapes_exec, check_specs, check_specs_exec, check_warnings, check_warnings_exec,
    dup_problems, edge_rule_problems, flat_edges, flat_pos, ip_hash_problems, oversubscribed,
    oversubscribed_problem, shape_problems, sorted_nodes, sorted_order, spec_node_problems,
    warning_problems,
};
use crate::cycles::{check_cycles, cycle_problem, cycle_reports, dep_graph, has_cycle};
use crate::model::{CanvasTopology, TopologyView};
use crate::seqs::{first_where, lemma_first_where, lemma_first_where_concat};
use crate::topology::{problems_view, ProblemSeverity, ProblemView, TopologyError, TopologyProblem};
use vstd::prelude::*;

verus! {

pub open spec fn is_error(p: ProblemView) -> bool {
    p.severity == ProblemSeverity::Error
}

/// The findings of the rules that run before the cycle check.
pub open spec fn findings_before_cycles(t: TopologyView) -> Seq<ProblemView> {
    check_edges(t) + check_port_shapes(t) + check_specs(t) + check_duplicate_listen(t)
}

/// The findings that follow the cycles: ip_hash errors, then every warning rule.
pub open spec fn findings_after_cycles(t: TopologyView) -> Seq<ProblemView> {
    check_ip_hash(t) + check_warnings(t)
}

/// What `analyze` returns for `t`: the findings of each rule in turn, with the
/// cycles between the rules that run before and after them.
pub open spec fn analysis_of(t: TopologyView, r: Seq<ProblemView>) -> bool {
    let head = findings_before_cycles(t);
    let tail = findings_after_cycles(t);
    &&& r.len() >= head.len() + tail.len()
    &&& r.subrange(0, head.len() as int) == head
    &&& r.subrange(r.len() - tail.len(), r.len() as int) == tail
    &&& forall|k: int| head.len() <= k < r.len() - tail.len() ==> cycle_problem(t, #[trigger] r[k])
    &&& forall|i: int, j: int|
        head.len() <= i < j < r.len() - tail.len() ==> (#[trigger] r[i]).nodes != (#[trigger] r[j]).nodes
    &&& (r.len() == head.len() + tail.len() <==> !has_cycle(dep_graph(t)))
}

/// What `analyze` returns for `t`: the findings of the rules before the cycle check,
/// the cycle reports, then the ip_hash errors and the warnings.
pub open spec fn full_analysis(t: TopologyView) -> Seq<ProblemView> {
    findings_before_cycles(t) + cycle_reports(t) + findings_after_cycles(t)
}

/// Every finding about a topology, errors of each rule in turn and warnings last.
pub fn analyze(t: &CanvasTopology) -> (r: Vec<TopologyProblem>)
    ensures
        problems_view(r@) == full_analysis(t@),
        analysis_of(t@, problems_view(r@)),
{
    let order = sorted_nodes(t);
    let mut out = check_edges_exec(t);
    append_problems(&mut out, check_port_shapes_exec(t, &order));
    append_problems(&mut out, check_specs_exec(t, &order));
    append_problems(&mut out, check_duplicate_listen_exec(t, &order));
    let ghost head = problems_view(out@);
    let cycles = check_cycles(t);
    let ghost cv = problems_view(cycles@);
    append_problems(&mut out, cycles);
    let mut tail = check_ip_hash_exec(t, &order);
    append_problems(&mut tail, check_warnings_exec(t, &order));
    let ghost tv = problems_view(tail@);
    append_problems(&mut out, tail);
    proof {
        let r = problems_view(out@);
        assert(r == head + cv + tv);
        assert(head == findings_before_cycles(t@));
        assert(tv == findings_after_cycles(t@));
        assert(r.subrange(0, head.len() as int) =~= head);
        assert(r.subrange(r.len() - tv.len(), r.len() as int) =~= tv);
        assert forall|k: int| head.len() <= k < r.len() - tv.len() implies cycle_problem(t@, #[trigger] r[k]) by {
            assert(r[k] == cv[k - head.len()]);
            assert(cv[k - head.len()] == cycles@[k - head.len()]@);
        }
        assert forall|i: int, j: int| head.len() <= i < j < r.len() - tv.len() implies (#[trigger] r[i]).nodes
            != (#[trigger] r[j]).nodes by {
            assert(r[i] == cv[i - head.len()]);
            assert(cv[i - head.len()] == cycles@[i - head.len()]@);
            assert(r[j] == cv[j - head.len()]);
            assert(cv[j - head.len()] == cycles@[j - head.len()]@);
        }
    }
    out
}

proof fn lemma_flat_pos_severity(
    t: TopologyView,
    o: Seq<int>,
    n: int,
    f: spec_fn(TopologyView, Seq<int>, int) -> Seq<ProblemView>,
    sev: ProblemSeverity,
)
    requires
        forall|m: int, k: int| 0 <= m < n && 0 <= k < f(t, o, m).len() ==> (#[trigger] f(t, o, m)[k]).severity
            == sev,
    ensures
        forall|k: int| 0 <= k < flat_pos(t, o, n, f).len() ==> (#[trigger] flat_pos(t, o, n, f)[k]).severity == sev,
    decreases n,
{
    if n > 0 {
        lemma_flat_pos_severity(t, o, n - 1, f, sev);
        let a = flat_pos(t, o, n - 1, f);
        let b = f(t, o, n - 1);
        assert forall|k: int| 0 <= k < flat_pos(t, o, n, f).len() implies (#[trigger] flat_pos(t, o, n, f)[k]).severity
            == sev by {
            if k < a.len() {
                assert(flat_pos(t, o, n, f)[k] == a[k]);
            } else {
                assert(flat_pos(t, o, n, f)[k] == b[k - a.len()]);
            }
        }
    }
}

/// Every finding of the warning rules is a warning, so none of them blocks a change.
pub proof fn warnings_never_block(t: TopologyView)
    ensures
        forall|k: int| 0 <= k < check_warnings(t).len() ==> (#[trigger] check_warnings(t)[k]).severity
            == ProblemSeverity::Warning,
{
    let o = sorted_order(t);
    let f = |t: TopologyView, o: Seq<int>, m: int| warning_problems(t, o[m]);
    assert forall|m: int, k: int| 0 <= m < o.len() && 0 <= k < f(t, o, m).len() implies (#[trigger] f(
        t,
        o,
        m,
    )[k]).severity == ProblemSeverity::Warning by {
        assert(f(t, o, m) == warning_problems(t, o[m]));
    }
    lemma_flat_pos_severity(t, o, o.len() as int, f, ProblemSeverity::Warning);
}

/// Every ip_hash finding is an error.
proof fn lemma_ip_hash_errors(t: TopologyView)
    ensures
        forall|k: int| 0 <= k < check_ip_hash(t).len() ==> (#[trigger] check_ip_hash(t)[k]).severity
            == ProblemSeverity::Error,
{
    let o = sorted_order(t);
    let f = |t: TopologyView, o: Seq<int>, m: int| ip_hash_problems(t, o[m]);
    assert forall|m: int, k: int| 0 <= m < o.len() && 0 <= k < f(t, o, m).len() implies (#[trigger] f(
        t,
        o,
        m,
    )[k]).severity == ProblemSeverity::Error by {
        assert(f(t, o, m) == ip_hash_problems(t, o[m]));
    }
    lemma_flat_pos_severity(t, o, o.len() as int, f, ProblemSeverity::Error);
}

proof fn lemma_flat_edges_errors(t: TopologyView, n: int, f: spec_fn(TopologyView, int) -> Seq<ProblemView>)
    requires
        forall|e: int, k: int| 0 <= e < n && 0 <= k < f(t, e).len() ==> (#[trigger] f(t, e)[k]).severity
            == ProblemSeverity::Error,
    ensures
        forall|k: int| 0 <= k < flat_edges(t, n, f).len() ==> (#[trigger] flat_edges(t, n, f)[k]).severity
            == ProblemSeverity::Error,
    decreases n,
{
    if n > 0 {
        lemma_flat_edges_errors(t, n - 1, f);
        let a = flat_edges(t, n - 1, f);
        let b = f(t, n - 1);
        assert forall|k: int| 0 <= k < flat_edges(t, n, f).len() implies (#[trigger] flat_edges(t, n, f)[k]).severity
            == ProblemSeverity::Error by {
            if k < a.len() {
                assert(flat_edges(t, n, f)[k] == a[k]);
            } else {
                assert(flat_edges(t, n, f)[k] == b[k - a.len()]);
            }
        }
    }
}

/// Every finding of the rules that run before the cycle check is an error.
#[verifier::spinoff_prover]
#[verifier::rlimit(50)]
proof fn lemma_head_errors(t: TopologyView)
    ensures
        forall|k: int| 0 <= k < findings_before_cycles(t).len() ==> (#[trigger] findings_before_cycles(t)[k]).severity
            == ProblemSeverity::Error,
{
    let o = sorted_order(t);
    let fe = |t: TopologyView, ei: int| edge_rule_problems(t, ei);
    assert forall|e: int, k: int| 0 <= e < t.edges.len() && 0 <= k < fe(t, e).len() implies (#[trigger] fe(t, e)[k]).severity
        == ProblemSeverity::Error by {
        assert(fe(t, e) == edge_rule_problems(t, e));
    }
    lemma_flat_edges_errors(t, t.edges.len() as int, fe);
    let fs = |t: TopologyView, o: Seq<int>, m: int| shape_problems(t, o, m);
    assert forall|m: int, k: int| 0 <= m < o.len() && 0 <= k < fs(t, o, m).len() implies (#[trigger] fs(t, o, m)[k]).severity
        == ProblemSeverity::Error by {
        assert(fs(t, o, m) == shape_problems(t, o, m));
    }
    lemma_flat_pos_severity(t, o, o.len() as int, fs, ProblemSeverity::Error);
    let fp = |t: TopologyView, o: Seq<int>, m: int| spec_node_problems(t, o[m]);
    assert forall|m: int, k: int| 0 <= m < o.len() && 0 <= k < fp(t, o, m).len() implies (#[trigger] fp(t, o, m)[k]).severity
        == ProblemSeverity::Error by {
        assert(fp(t, o, m) == spec_node_problems(t, o[m]));
    }
    lemma_flat_pos_severity(t, o, o.len() as int, fp, ProblemSeverity::Error);
    let fd = |t: TopologyView, o: Seq<int>, m: int| dup_problems(t, o, m);
    assert forall|m: int, k: int| 0 <= m < o.len() && 0 <= k < fd(t, o, m).len() implies (#[trigger] fd(t, o, m)[k]).severity
        == ProblemSeverity::Error by {
        assert(fd(t, o, m) == dup_problems(t, o, m));
    }
    lemma_flat_pos_severity(t, o, o.len() as int, fd, ProblemSeverity::Error);
    let ov = oversubscribed(t).map_values(|k: Seq<char>| oversubscribed_problem(t, k));
    let ce = check_edges(t);
    assert forall|k: int| 0 <= k < ce.len() implies (#[trigger] ce[k]).severity == ProblemSeverity::Error by {
        let a = flat_edges(t, t.edges.len() as int, fe);
        if k < a.len() {
            assert(ce[k] == a[k]);
        } else {
            assert(ce[k] == ov[k - a.len()]);
        }
    }
    let h = findings_before_cycles(t);
    let a1 = check_port_shapes(t);
    let a2 = check_specs(t);
    let a3 = check_duplicate_listen(t);
    assert forall|k: int| 0 <= k < h.len() implies (#[trigger] h[k]).severity == ProblemSeverity::Error by {
        if k < ce.len() {
            assert(h[k] == ce[k]);
        } else if k < ce.len() + a1.len() {
            assert(h[k] == a1[k - ce.len()]);
        } else if k < ce.len() + a1.len() + a2.len() {
            assert(h[k] == a2[k - ce.len() - a1.len()]);
        } else {
            assert(h[k] == a3[k - ce.len() - a1.len() - a2.len()]);
        }
    }
}

/// Errors first, then warnings: in what `analyze` returns no warning comes before an
/// error.
pub proof fn errors_come_before_warnings(t: TopologyView, r: Seq<ProblemView>)
    requires
        analysis_of(t, r),
    ensures
        forall|i: int, j: int|
            0 <= i < j < r.len() && (#[trigger] r[j]).severity == ProblemSeverity::Error ==> (#[trigger] r[i]).severity
                == ProblemSeverity::Error,
{
    lemma_head_errors(t);
    lemma_ip_hash_errors(t);
    warnings_never_block(t);
    let head = findings_before_cycles(t);
    let tail = findings_after_cycles(t);
    let ih = check_ip_hash(t);
    let cw = check_warnings(t);
    let start = r.len() - tail.len();
    assert forall|k: int| 0 <= k < r.len() implies ((#[trigger] r[k]).severity == ProblemSeverity::Error
        <==> k < start + ih.len()) by {
        if k < head.len() {
            assert(r[k] == r.subrange(0, head.len() as int)[k]);
        } else if k < start {
            assert(cycle_problem(t, r[k]));
        } else {
            assert(r[k] == r.subrange(start, r.len() as int)[k - start]);
            if k < start + ih.len() {
                assert(tail[k - start] == ih[k - start]);
            } else {
                assert(tail[k - start] == cw[k - start - ih.len()]);
            }
        }
    }
}

pub open spec fn first_error(r: Seq<ProblemView>) -> Option<int> {
    first_where(r, |p: ProblemView| is_error(p))
}

/// The first error of findings made of four parts, of which the second and third
/// hold only errors and the fourth none.
proof fn lemma_first_error_parts(
    head: Seq<ProblemView>,
    mid: Seq<ProblemView>,
    ip: Seq<ProblemView>,
    wn: Seq<ProblemView>,
)
    requires
        forall|z: int| 0 <= z < mid.len() ==> is_error(#[trigger] mid[z]),
        forall|z: int| 0 <= z < ip.len() ==> is_error(#[trigger] ip[z]),
        forall|z: int| 0 <= z < wn.len() ==> !is_error(#[trigger] wn[z]),
    ensures
        first_error(head + mid + (ip + wn)) == match first_error(head) {
            Some(i) => Some(i),
            None => if mid.len() > 0 {
                Some(head.len() as int)
            } else if ip.len() > 0 {
                Some(head.len() + mid.len() as int)
            } else {
                None::<int>
            },
        },
{
    let pe = |p: ProblemView| is_error(p);
    lemma_first_where_concat(head + mid, ip + wn, pe);
    lemma_first_where_concat(head, mid, pe);
    lemma_first_where_concat(ip, wn, pe);
    lemma_first_where(mid, pe, 0);
    lemma_first_where(ip, pe, 0);
    lemma_first_where(wn, pe, wn.len() as int);
}

/// Where the first error of an analysis lies.
proof fn lemma_first_error_of_analysis(t: TopologyView, r: Seq<ProblemView>)
    requires
        analysis_of(t, r),
    ensures
        first_error(r) == match first_error(findings_before_cycles(t)) {
            Some(i) => Some(i),
            None => if has_cycle(dep_graph(t)) {
                Some(findings_before_cycles(t).len() as int)
            } else if check_ip_hash(t).len() > 0 {
                Some(findings_before_cycles(t).len() as int)
            } else {
                None::<int>
            },
        },
        first_error(findings_before_cycles(t)) matches Some(i) ==> r[i] == findings_before_cycles(t)[i],
        first_error(findings_before_cycles(t)) is None && has_cycle(dep_graph(t)) ==> cycle_problem(
            t,
            r[findings_before_cycles(t).len() as int],
        ),
        first_error(findings_before_cycles(t)) is None && !has_cycle(dep_graph(t)) && check_ip_hash(t).len()
            > 0 ==> r[findings_before_cycles(t).len() as int] == check_ip_hash(t)[0],
{
    let head = findings_before_cycles(t);
    let ip = check_ip_hash(t);
    let wn = check_warnings(t);
    let tail = ip + wn;
    let mid = r.subrange(head.len() as int, r.len() - tail.len());
    assert(r =~= head + mid + tail);
    assert forall|z: int| 0 <= z < mid.len() implies is_error(#[trigger] mid[z]) by {
        assert(mid[z] == r[head.len() + z]);
    }
    lemma_ip_hash_errors(t);
    warnings_never_block(t);
    assert forall|z: int| 0 <= z < wn.len() implies !is_error(#[trigger] wn[z]) by {
        assert(wn[z].severity == ProblemSeverity::Warning);
    }
    lemma_first_error_parts(head, mid, ip, wn);
    if let Some(i) = first_error(head) {
        crate::seqs::lemma_first_where_props(head, |p: ProblemView| is_error(p));
        assert(r[i] == head[i]);
    }
    if mid.len() > 0 {
        assert(r[head.len() as int] == mid[0]);
    } else if ip.len() > 0 {
        assert(r[head.len() as int] == ip[0]);
    }
}

/// The problem a topology is rejected with: the first error `analyze` reports (the
/// first error of the rules before the cycle check, else the first cycle report,
/// else the first ip_hash error).
pub open spec fn first_rejection(t: TopologyView, p: ProblemView) -> bool {
    &&& match first_error(findings_before_cycles(t)) {
        Some(i) => p == findings_before_cycles(t)[i],
        None => if has_cycle(dep_graph(t)) {
            cycle_problem(t, p)
        } else {
            p == check_ip_hash(t)[0]
        },
    }
    &&& first_error(full_analysis(t)) matches Some(i) && p == full_analysis(t)[i]
}

/// Accepts a topology without errors; otherwise rejects it with its first error,
/// in the order `analyze` reports them.
pub fn ensure_valid(t: &CanvasTopology) -> (r: Result<(), Box<TopologyError>>)
    ensures
        r is Ok <==> first_error(findings_before_cycles(t@)) is None && !has_cycle(dep_graph(t@))
            && check_ip_hash(t@).len() == 0,
        r matches Err(e) ==> first_rejection(t@, e.first@),
{
    let mut all = analyze(t);
    let ghost r = problems_view(all@);
    let ghost pe = |p: ProblemView| is_error(p);
    let mut k: usize = 0;
    while k < all.len() && all[k].severity == ProblemSeverity::Warning
        invariant
            k <= all.len(),
            r == problems_view(all@),
            pe == (|p: ProblemView| is_error(p)),
            forall|z: int| 0 <= z < k ==> !pe(#[trigger] r[z]),
        decreases all.len() - k,
    {
        k = k + 1;
    }
    proof {
        if k < all.len() {
            assert(r[k as int] == all@[k as int]@);
        }
        lemma_first_where(r, pe, k as int);
        lemma_first_error_of_analysis(t@, r);
    }
    if k < all.len() {
        let ghost fk = all@[k as int];
        let first = all.remove(k);
        assert(first == fk);
        assert(r == full_analysis(t@) && first_error(r) == Some(k as int) && r[k as int] == first@);
        Err(Box::new(TopologyError { first }))
    } else {
        Ok(())
    }
}

} // verus!
