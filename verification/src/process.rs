//! Process records, cross-process grouping, and the decision cores of the
//! process-management operations.
//!
//! `group_processes` folds the per-pid records into one representative
//! record per executable name: the representative pid is the group's
//! minimum pid, cpu usage is summed (saturating), the instance count is the
//! group size, and the memory, start-time and user fields follow the
//! representative record. The result is independent of the order in which
//! the records are handed in; `lemma_grouping_order_independent` proves
//! that over the grouping model.

use vstd::prelude::*;
use vstd::seq_lib::{commutative_foldl, lemma_fold_left_permutation};
use vstd::string::StringExecFns;
use crate::arith::{sat_add_u32, sat_add_u64};
use crate::error::MonitorError;

verus! {

/// Status of a process.
#[derive(Debug, Clone, Copy, PartialEq, Eq, Structural)]
pub enum ProcStatus {
    Running,
    Sleeping,
    Stopped,
    Zombie,
    Dead,
    Unknown,
}

/// One row per OS process id. Usage figures are scaled integers: cpu usage
/// and memory percentage in hundredths of a percent.
#[derive(Debug, Clone)]
pub struct ProcessInfo {
    pub pid: u32,
    pub parent_pid: Option<u32>,
    pub name: String,
    pub exe_path: String,
    pub command: Vec<String>,
    pub status: ProcStatus,
    pub cpu_usage: u64,
    pub memory_bytes: u64,
    pub memory_percent: u32,
    pub start_time: u64,
    pub run_time: u64,
    pub user_id: Option<String>,
    pub nice: i32,
    pub instance_count: Option<u32>,
}

/// The order-independent part of one grouped row: representative pid,
/// summed cpu usage, group size, and the representative's memory,
/// start-time and user fields.
#[verifier::ext_equal]
pub ghost struct GroupSummary {
    pub pid: u32,
    pub cpu_usage: u64,
    pub instance_count: u32,
    pub memory_bytes: u64,
    pub memory_percent: u32,
    pub start_time: u64,
    pub user_id: Option<Seq<char>>,
}

/// The user field as an abstract value.
pub open spec fn user_view(u: Option<String>) -> Option<Seq<char>> {
    match u {
        Some(s) => Some(s@),
        None => None,
    }
}

/// Strict lexicographic order on character sequences.
pub open spec fn seq_char_lt(a: Seq<char>, b: Seq<char>) -> bool
    decreases a.len(),
{
    if b.len() == 0 {
        false
    } else if a.len() == 0 {
        true
    } else if a[0] != b[0] {
        (a[0] as int) < (b[0] as int)
    } else {
        seq_char_lt(a.drop_first(), b.drop_first())
    }
}

/// Strict order on optional character sequences: absent sorts first.
pub open spec fn opt_seq_lt(a: Option<Seq<char>>, b: Option<Seq<char>>) -> bool {
    match (a, b) {
        (Option::None, Option::None) => false,
        (Option::None, Option::Some(_)) => true,
        (Option::Some(_), Option::None) => false,
        (Option::Some(x), Option::Some(y)) => seq_char_lt(x, y),
    }
}

/// Strict order on the representative fields, used only to break the
/// (in practice impossible) tie of two same-name records with equal pids
/// deterministically, so that grouping commutes unconditionally.
pub open spec fn rep_fields_lt(a: GroupSummary, b: GroupSummary) -> bool {
    a.memory_bytes < b.memory_bytes || (a.memory_bytes == b.memory_bytes && (a.memory_percent
        < b.memory_percent || (a.memory_percent == b.memory_percent && (a.start_time < b.start_time
        || (a.start_time == b.start_time && opt_seq_lt(a.user_id, b.user_id))))))
}

/// Whether an incoming record takes over as the group's representative:
/// strictly smaller pid, with the representative fields as tie-break.
pub open spec fn takes_over(r: GroupSummary, acc: GroupSummary) -> bool {
    r.pid < acc.pid || (r.pid == acc.pid && rep_fields_lt(r, acc))
}

/// Merge one record's summary into a group accumulator.
pub open spec fn combine_summary(acc: GroupSummary, r: GroupSummary) -> GroupSummary {
    let cpu = sat_add_u64(acc.cpu_usage, r.cpu_usage);
    let count = sat_add_u32(acc.instance_count, r.instance_count);
    if takes_over(r, acc) {
        GroupSummary {
            pid: r.pid,
            cpu_usage: cpu,
            instance_count: count,
            memory_bytes: r.memory_bytes,
            memory_percent: r.memory_percent,
            start_time: r.start_time,
            user_id: r.user_id,
        }
    } else {
        GroupSummary {
            pid: acc.pid,
            cpu_usage: cpu,
            instance_count: count,
            memory_bytes: acc.memory_bytes,
            memory_percent: acc.memory_percent,
            start_time: acc.start_time,
            user_id: acc.user_id,
        }
    }
}

/// A single record as a fresh group of one.
pub open spec fn seed_summary(p: ProcessInfo) -> GroupSummary {
    GroupSummary {
        pid: p.pid,
        cpu_usage: p.cpu_usage,
        instance_count: 1,
        memory_bytes: p.memory_bytes,
        memory_percent: p.memory_percent,
        start_time: p.start_time,
        user_id: user_view(p.user_id),
    }
}

/// Fold one record into the name-keyed grouping map.
pub open spec fn group_step(
    m: Map<Seq<char>, GroupSummary>,
    p: ProcessInfo,
) -> Map<Seq<char>, GroupSummary> {
    let k = p.name@;
    if m.contains_key(k) {
        m.insert(k, combine_summary(m[k], seed_summary(p)))
    } else {
        m.insert(k, seed_summary(p))
    }
}

/// The grouping step as a function value, for folding.
pub open spec fn group_step_fn() -> spec_fn(Map<Seq<char>, GroupSummary>, ProcessInfo) -> Map<
    Seq<char>,
    GroupSummary,
> {
    |m: Map<Seq<char>, GroupSummary>, p: ProcessInfo| group_step(m, p)
}

/// The grouping model: one summary per executable name.
pub open spec fn group_model(s: Seq<ProcessInfo>) -> Map<Seq<char>, GroupSummary> {
    s.fold_left(Map::<Seq<char>, GroupSummary>::empty(), group_step_fn())
}

proof fn lemma_seq_char_lt_props(a: Seq<char>, b: Seq<char>)
    ensures
        !(seq_char_lt(a, b) && seq_char_lt(b, a)),
        (!seq_char_lt(a, b) && !seq_char_lt(b, a)) ==> a == b,
    decreases a.len(),
{
    if b.len() == 0 {
        if a.len() == 0 {
            assert(a =~= b);
        }
    } else if a.len() == 0 {
    } else if a[0] != b[0] {
    } else {
        lemma_seq_char_lt_props(a.drop_first(), b.drop_first());
        if !seq_char_lt(a, b) && !seq_char_lt(b, a) {
            assert(a.drop_first() == b.drop_first());
            assert(a =~= b) by {
                assert(a.len() == b.len());
                assert(forall|i: int|
                    1 <= i < a.len() ==> a[i] == a.drop_first()[i - 1] && b[i] == b.drop_first()[i
                        - 1]);
            }
        }
    }
}

proof fn lemma_seq_char_lt_trans(a: Seq<char>, b: Seq<char>, c: Seq<char>)
    ensures
        seq_char_lt(a, b) && seq_char_lt(b, c) ==> seq_char_lt(a, c),
    decreases a.len() + b.len() + c.len(),
{
    if seq_char_lt(a, b) && seq_char_lt(b, c) {
        if c.len() == 0 {
        } else if b.len() == 0 {
        } else if a.len() == 0 {
        } else {
            if a[0] == b[0] && b[0] == c[0] {
                lemma_seq_char_lt_trans(a.drop_first(), b.drop_first(), c.drop_first());
            }
        }
    }
}

proof fn lemma_opt_seq_lt_props(a: Option<Seq<char>>, b: Option<Seq<char>>)
    ensures
        !(opt_seq_lt(a, b) && opt_seq_lt(b, a)),
        (!opt_seq_lt(a, b) && !opt_seq_lt(b, a)) ==> a == b,
{
    match (a, b) {
        (Option::Some(x), Option::Some(y)) => {
            lemma_seq_char_lt_props(x, y);
        },
        _ => {},
    }
}

proof fn lemma_opt_seq_lt_trans(a: Option<Seq<char>>, b: Option<Seq<char>>, c: Option<Seq<char>>)
    ensures
        opt_seq_lt(a, b) && opt_seq_lt(b, c) ==> opt_seq_lt(a, c),
{
    match (a, b, c) {
        (Option::Some(x), Option::Some(y), Option::Some(z)) => {
            lemma_seq_char_lt_trans(x, y, z);
        },
        _ => {},
    }
}

proof fn lemma_takes_over_props(a: GroupSummary, b: GroupSummary)
    ensures
        !(takes_over(a, b) && takes_over(b, a)),
        (!takes_over(a, b) && !takes_over(b, a)) ==> (a.pid == b.pid && a.memory_bytes
            == b.memory_bytes && a.memory_percent == b.memory_percent && a.start_time
            == b.start_time && a.user_id == b.user_id),
{
    lemma_opt_seq_lt_props(a.user_id, b.user_id);
}

proof fn lemma_takes_over_trans(a: GroupSummary, b: GroupSummary, c: GroupSummary)
    ensures
        takes_over(a, b) && takes_over(b, c) ==> takes_over(a, c),
{
    lemma_opt_seq_lt_trans(a.user_id, b.user_id, c.user_id);
    lemma_opt_seq_lt_props(a.user_id, b.user_id);
    lemma_opt_seq_lt_props(b.user_id, c.user_id);
}

proof fn lemma_combine_comm(a: GroupSummary, b: GroupSummary)
    ensures
        combine_summary(a, b) == combine_summary(b, a),
{
    lemma_takes_over_props(a, b);
}

proof fn lemma_combine_comm3(v: GroupSummary, a: GroupSummary, b: GroupSummary)
    ensures
        combine_summary(combine_summary(v, a), b) == combine_summary(combine_summary(v, b), a),
{
    lemma_takes_over_props(a, v);
    lemma_takes_over_props(b, v);
    lemma_takes_over_props(a, b);
    lemma_takes_over_trans(a, b, v);
    lemma_takes_over_trans(b, a, v);
    lemma_takes_over_trans(a, v, b);
    lemma_takes_over_trans(b, v, a);
    lemma_takes_over_trans(v, a, b);
    lemma_takes_over_trans(v, b, a);
    let l = combine_summary(combine_summary(v, a), b);
    let r = combine_summary(combine_summary(v, b), a);
    assert(l.cpu_usage == r.cpu_usage);
    assert(l.instance_count == r.instance_count);
    assert(l.pid == r.pid && l.memory_bytes == r.memory_bytes && l.memory_percent
        == r.memory_percent && l.start_time == r.start_time && l.user_id == r.user_id);
}

proof fn lemma_group_step_commutes(
    m: Map<Seq<char>, GroupSummary>,
    x: ProcessInfo,
    y: ProcessInfo,
)
    ensures
        group_step(group_step(m, x), y) == group_step(group_step(m, y), x),
{
    let kx = x.name@;
    let ky = y.name@;
    if kx == ky {
        if m.contains_key(kx) {
            lemma_combine_comm3(m[kx], seed_summary(x), seed_summary(y));
        } else {
            lemma_combine_comm(seed_summary(x), seed_summary(y));
        }
        assert(group_step(group_step(m, x), y) =~= group_step(group_step(m, y), x));
    } else {
        assert(group_step(group_step(m, x), y) =~= group_step(group_step(m, y), x));
    }
}

/// Grouping order-independence: any two record sequences with the same
/// multiset of records — any permutation of the same records — produce the
/// same grouping model: per executable name the same representative pid,
/// the same summed cpu usage, the same instance count, and the same
/// representative memory, start-time and user fields.
pub proof fn lemma_grouping_order_independent(s1: Seq<ProcessInfo>, s2: Seq<ProcessInfo>)
    requires
        s1.to_multiset() == s2.to_multiset(),
    ensures
        group_model(s1) == group_model(s2),
{
    let f = group_step_fn();
    assert(commutative_foldl(f)) by {
        assert forall|x: ProcessInfo, y: ProcessInfo, v: Map<Seq<char>, GroupSummary>| #[trigger]
            f(f(v, x), y) == f(f(v, y), x) by {
            lemma_group_step_commutes(v, x, y);
        }
    }
    lemma_fold_left_permutation(s1, s2, f, Map::<Seq<char>, GroupSummary>::empty());
}

/// How many records carry this executable name.
pub open spec fn group_count(s: Seq<ProcessInfo>, k: Seq<char>) -> int
    decreases s.len(),
{
    if s.len() == 0 {
        0
    } else {
        group_count(s.drop_last(), k) + if s.last().name@ == k {
            1int
        } else {
            0int
        }
    }
}

/// The exact cpu total over the records carrying this executable name.
pub open spec fn group_cpu(s: Seq<ProcessInfo>, k: Seq<char>) -> int
    decreases s.len(),
{
    if s.len() == 0 {
        0
    } else {
        group_cpu(s.drop_last(), k) + if s.last().name@ == k {
            s.last().cpu_usage as int
        } else {
            0
        }
    }
}

/// What the grouping model holds for a name: a name is present exactly when
/// some record carries it; its summary's pid is the group minimum, its cpu
/// usage the (saturating) group total, and its instance count the
/// (saturating) group size.
pub proof fn lemma_group_model_characterization(s: Seq<ProcessInfo>, k: Seq<char>)
    ensures
        0 <= group_count(s, k),
        0 <= group_cpu(s, k),
        group_count(s, k) == 0 ==> group_cpu(s, k) == 0,
        group_model(s).contains_key(k) <==> group_count(s, k) > 0,
        group_model(s).contains_key(k) ==> exists|i: int|
            0 <= i < s.len() && s[i].name@ == k && s[i].pid == group_model(s)[k].pid,
        group_model(s).contains_key(k) ==> forall|i: int|
            0 <= i < s.len() && (#[trigger] s[i]).name@ == k ==> group_model(s)[k].pid <= s[i].pid,
        group_model(s).contains_key(k) ==> group_model(s)[k].cpu_usage == (if group_cpu(s, k)
            > u64::MAX {
            u64::MAX as int
        } else {
            group_cpu(s, k)
        }),
        group_model(s).contains_key(k) ==> group_model(s)[k].instance_count == (if group_count(
            s,
            k,
        ) > u32::MAX {
            u32::MAX as int
        } else {
            group_count(s, k)
        }),
    decreases s.len(),
{
    if s.len() == 0 {
        assert(s.fold_left(Map::<Seq<char>, GroupSummary>::empty(), group_step_fn())
            =~= Map::<Seq<char>, GroupSummary>::empty());
    } else {
        let t = s.drop_last();
        let p = s.last();
        lemma_group_model_characterization(t, k);
        assert(group_model(s) == group_step(group_model(t), p));
        assert(forall|i: int| 0 <= i < t.len() ==> t[i] == s[i]);
        if p.name@ == k {
            if group_model(t).contains_key(k) {
                let g = group_model(t)[k];
                assert(group_model(s)[k] == combine_summary(g, seed_summary(p)));
                let wi = choose|i: int| 0 <= i < t.len() && t[i].name@ == k && t[i].pid == g.pid;
                if takes_over(seed_summary(p), g) {
                    assert(group_model(s)[k].pid == p.pid);
                    assert(s[s.len() - 1].name@ == k && s[s.len() - 1].pid == p.pid);
                } else {
                    assert(group_model(s)[k].pid == g.pid);
                    assert(s[wi].name@ == k && s[wi].pid == g.pid);
                    assert(p.pid >= g.pid);
                }
            } else {
                assert(group_count(t, k) == 0);
                assert(group_model(s)[k] == seed_summary(p));
                assert(s[s.len() - 1].name@ == k && s[s.len() - 1].pid == p.pid);
                assert(forall|i: int|
                    0 <= i < s.len() - 1 && (#[trigger] s[i]).name@ == k ==> group_count(
                        s.drop_last(),
                        k,
                    ) > 0) by {
                    assert forall|i: int|
                        0 <= i < s.len() - 1 && (#[trigger] s[i]).name@ == k implies group_count(
                        t,
                        k,
                    ) > 0 by {
                        lemma_group_count_witness(t, k, i);
                    }
                }
            }
        } else {
            if group_model(t).contains_key(k) {
                assert(group_model(s)[k] == group_model(t)[k]);
            }
        }
    }
}

proof fn lemma_group_count_nonneg(s: Seq<ProcessInfo>, k: Seq<char>)
    ensures
        group_count(s, k) >= 0,
        group_cpu(s, k) >= 0,
    decreases s.len(),
{
    if s.len() > 0 {
        lemma_group_count_nonneg(s.drop_last(), k);
    }
}

proof fn lemma_group_count_witness(s: Seq<ProcessInfo>, k: Seq<char>, i: int)
    requires
        0 <= i < s.len(),
        s[i].name@ == k,
    ensures
        group_count(s, k) > 0,
    decreases s.len(),
{
    lemma_group_count_nonneg(s.drop_last(), k);
    if i < s.len() - 1 {
        lemma_group_count_witness(s.drop_last(), k, i);
        lemma_group_count_nonneg(s, k);
    }
}

/// The representative fields of a grouped summary come from the unique
/// record that supplied the representative pid: with distinct pids, the
/// memory, start-time and user fields are the minimum-pid record's.
pub proof fn lemma_representative_fields(s: Seq<ProcessInfo>, k: Seq<char>)
    requires
        distinct_pids(s),
    ensures
        group_model(s).contains_key(k) ==> forall|i: int|
            0 <= i < s.len() && (#[trigger] s[i]).name@ == k && s[i].pid == group_model(s)[k].pid
                ==> group_model(s)[k].memory_bytes == s[i].memory_bytes && group_model(s)[k].memory_percent
                == s[i].memory_percent && group_model(s)[k].start_time == s[i].start_time
                && group_model(s)[k].user_id == user_view(s[i].user_id),
    decreases s.len(),
{
    if s.len() > 0 && group_model(s).contains_key(k) {
        let t = s.drop_last();
        let p = s.last();
        assert(distinct_pids(t)) by {
            assert(forall|i: int| 0 <= i < t.len() ==> t[i] == s[i]);
        }
        lemma_representative_fields(t, k);
        lemma_group_model_characterization(t, k);
        assert(group_model(s) == group_step(group_model(t), p));
        assert(forall|i: int| 0 <= i < t.len() ==> t[i] == s[i]);
        if p.name@ == k {
            if group_model(t).contains_key(k) {
                let g = group_model(t)[k];
                let wi = choose|i: int| 0 <= i < t.len() && t[i].name@ == k && t[i].pid == g.pid;
                assert(s[wi].pid == g.pid && s[s.len() - 1].pid == p.pid);
                assert(p.pid != g.pid);
                assert(group_model(s)[k] == combine_summary(g, seed_summary(p)));
            }
        } else {
            assert(group_model(s)[k] == group_model(t)[k]);
        }
    }
}

/// The order-independent summary carried by one grouped row.
pub open spec fn row_summary(o: ProcessInfo) -> GroupSummary {
    GroupSummary {
        pid: o.pid,
        cpu_usage: o.cpu_usage,
        instance_count: match o.instance_count {
            Some(c) => c,
            None => 1,
        },
        memory_bytes: o.memory_bytes,
        memory_percent: o.memory_percent,
        start_time: o.start_time,
        user_id: user_view(o.user_id),
    }
}

/// The identity fields of a grouped row are taken verbatim from one of the
/// group's input records.
pub open spec fn id_fields_from(o: ProcessInfo, r: ProcessInfo) -> bool {
    o.name == r.name && o.exe_path == r.exe_path && o.command == r.command && o.status == r.status
        && o.run_time == r.run_time && o.nice == r.nice && o.parent_pid == r.parent_pid
}

/// No two rows share an executable name.
pub open spec fn rows_distinct_names(s: Seq<ProcessInfo>) -> bool {
    forall|i: int, j: int| 0 <= i < j < s.len() ==> s[i].name@ != s[j].name@
}

/// All pids are distinct, as in a per-pid process listing.
pub open spec fn distinct_pids(s: Seq<ProcessInfo>) -> bool {
    forall|i: int, j: int| 0 <= i < j < s.len() ==> s[i].pid != s[j].pid
}

/// Model of a row list as a name-keyed summary map.
spec fn rows_model(s: Seq<ProcessInfo>) -> Map<Seq<char>, GroupSummary>
    decreases s.len(),
{
    if s.len() == 0 {
        Map::empty()
    } else {
        rows_model(s.drop_last()).insert(s.last().name@, row_summary(s.last()))
    }
}

proof fn lemma_rows_model_char(s: Seq<ProcessInfo>, k: Seq<char>)
    ensures
        rows_model(s).contains_key(k) <==> exists|i: int| 0 <= i < s.len() && s[i].name@ == k,
        rows_distinct_names(s) ==> forall|i: int|
            0 <= i < s.len() && s[i].name@ == k ==> rows_model(s)[k] == row_summary(s[i]),
    decreases s.len(),
{
    if s.len() > 0 {
        lemma_rows_model_char(s.drop_last(), k);
        assert(forall|i: int| 0 <= i < s.len() - 1 ==> s.drop_last()[i] == s[i]);
        if s.last().name@ == k {
            assert(s[s.len() - 1].name@ == k);
        }
    }
}

proof fn lemma_rows_model_remove(s: Seq<ProcessInfo>, i: int)
    requires
        0 <= i < s.len(),
        rows_distinct_names(s),
    ensures
        rows_distinct_names(s.remove(i)),
        rows_model(s.remove(i)) == rows_model(s).remove(s[i].name@),
    decreases s.len(),
{
    assert(rows_distinct_names(s.remove(i))) by {
        assert(forall|a: int, b: int|
            0 <= a < b < s.len() - 1 ==> (s.remove(i)[a] == (if a < i {
                s[a]
            } else {
                s[a + 1]
            }) && s.remove(i)[b] == (if b < i {
                s[b]
            } else {
                s[b + 1]
            })));
    }
    if i == s.len() - 1 {
        assert(s.remove(i) =~= s.drop_last());
        lemma_rows_model_char(s.drop_last(), s[i].name@);
        assert(!rows_model(s.drop_last()).contains_key(s[i].name@));
        assert(rows_model(s).remove(s[i].name@) =~= rows_model(s.drop_last()));
    } else {
        let t = s.drop_last();
        lemma_rows_model_remove(t, i);
        assert(s.remove(i).drop_last() =~= t.remove(i));
        assert(s.remove(i).last() == s.last());
        assert(s[i].name@ != s.last().name@);
        assert(rows_model(t.remove(i)).insert(s.last().name@, row_summary(s.last())) =~= rows_model(
            s,
        ).remove(s[i].name@));
    }
}

proof fn lemma_group_model_step(orig: Seq<ProcessInfo>, done: int)
    requires
        0 <= done < orig.len(),
    ensures
        group_model(orig.take(done + 1)) == group_step(group_model(orig.take(done)), orig[done]),
{
    assert(orig.take(done + 1).drop_last() =~= orig.take(done));
    assert(orig.take(done + 1).last() == orig[done]);
}

proof fn lemma_group_push(
    orig: Seq<ProcessInfo>,
    done: int,
    pre: Seq<ProcessInfo>,
    post: Seq<ProcessInfo>,
    p: ProcessInfo,
)
    requires
        0 <= done < orig.len(),
        post == pre.push(p),
        rows_distinct_names(pre),
        rows_model(pre) == group_model(orig.take(done)),
        forall|i: int| 0 <= i < pre.len() ==> pre[i].name@ != orig[done].name@,
        row_summary(p) == seed_summary(orig[done]),
        p.name@ == orig[done].name@,
    ensures
        rows_distinct_names(post),
        rows_model(post) == group_model(orig.take(done + 1)),
{
    lemma_group_model_step(orig, done);
    lemma_rows_model_char(pre, orig[done].name@);
    assert(!group_model(orig.take(done)).contains_key(orig[done].name@));
    assert(post.drop_last() =~= pre);
    assert(forall|i: int| 0 <= i < pre.len() ==> post[i] == pre[i]);
}

proof fn lemma_group_merge(
    orig: Seq<ProcessInfo>,
    done: int,
    pre: Seq<ProcessInfo>,
    i: int,
    merged: ProcessInfo,
    post: Seq<ProcessInfo>,
)
    requires
        0 <= done < orig.len(),
        0 <= i < pre.len(),
        rows_distinct_names(pre),
        rows_model(pre) == group_model(orig.take(done)),
        pre[i].name@ == orig[done].name@,
        merged.name@ == orig[done].name@,
        row_summary(merged) == combine_summary(row_summary(pre[i]), seed_summary(orig[done])),
        post == pre.remove(i).push(merged),
    ensures
        rows_distinct_names(post),
        rows_model(post) == group_model(orig.take(done + 1)),
{
    lemma_group_model_step(orig, done);
    lemma_rows_model_char(pre, orig[done].name@);
    assert(group_model(orig.take(done)).contains_key(orig[done].name@));
    assert(rows_model(pre)[orig[done].name@] == row_summary(pre[i]));
    lemma_rows_model_remove(pre, i);
    lemma_rows_model_char(pre.remove(i), orig[done].name@);
    assert(forall|a: int|
        0 <= a < pre.remove(i).len() ==> pre.remove(i)[a] == (if a < i {
            pre[a]
        } else {
            pre[a + 1]
        }));
    assert(forall|a: int| 0 <= a < pre.remove(i).len() ==> pre.remove(i)[a].name@ != merged.name@);
    assert(post.drop_last() =~= pre.remove(i));
    assert(rows_distinct_names(post)) by {
        assert(forall|a: int| 0 <= a < post.len() - 1 ==> post[a] == pre.remove(i)[a]);
    }
    assert(rows_model(post) == rows_model(pre.remove(i)).insert(merged.name@, row_summary(merged)));
    assert(rows_model(post) =~= group_model(orig.take(done + 1)));
}

/// Everything a grouping accumulator row owes to the first `done` input
/// records: a set instance count, identity fields and a representative pid
/// taken from records already folded in.
pub open spec fn row_origin_ok(row: ProcessInfo, orig: Seq<ProcessInfo>, done: int) -> bool {
    &&& row.instance_count is Some
    &&& exists|j: int|
        0 <= j < done && orig[j].name@ == row.name@ && id_fields_from(row, orig[j])
    &&& exists|j: int| 0 <= j < done && orig[j].pid == row.pid
}

proof fn lemma_row_origin_mono(row: ProcessInfo, orig: Seq<ProcessInfo>, done: int, done2: int)
    requires
        row_origin_ok(row, orig, done),
        done <= done2,
    ensures
        row_origin_ok(row, orig, done2),
{
}

proof fn lemma_no_pid_tie(orig: Seq<ProcessInfo>, done: int, row: ProcessInfo)
    requires
        distinct_pids(orig),
        0 <= done < orig.len(),
        row_origin_ok(row, orig, done),
    ensures
        orig[done].pid != row.pid,
{
    let j = choose|j: int| 0 <= j < done && orig[j].pid == row.pid;
    assert(orig[j].pid != orig[done].pid);
}

proof fn lemma_origin_after_push(
    orig: Seq<ProcessInfo>,
    done: int,
    pre: Seq<ProcessInfo>,
    post: Seq<ProcessInfo>,
    p: ProcessInfo,
)
    requires
        0 <= done < orig.len(),
        post == pre.push(p),
        forall|i: int| 0 <= i < pre.len() ==> row_origin_ok(#[trigger] pre[i], orig, done),
        p.instance_count is Some,
        id_fields_from(p, orig[done]),
        p.name@ == orig[done].name@,
        p.pid == orig[done].pid,
    ensures
        forall|k: int| 0 <= k < post.len() ==> row_origin_ok(#[trigger] post[k], orig, done + 1),
{
    assert forall|k: int| 0 <= k < post.len() implies row_origin_ok(
        #[trigger] post[k],
        orig,
        done + 1,
    ) by {
        if k < pre.len() {
            assert(post[k] == pre[k]);
            lemma_row_origin_mono(pre[k], orig, done, done + 1);
        } else {
            assert(post[k] == p);
        }
    }
}

proof fn lemma_origin_after_merge(
    orig: Seq<ProcessInfo>,
    done: int,
    pre: Seq<ProcessInfo>,
    i: int,
    merged: ProcessInfo,
    post: Seq<ProcessInfo>,
)
    requires
        0 <= done < orig.len(),
        0 <= i < pre.len(),
        post == pre.remove(i).push(merged),
        forall|k: int| 0 <= k < pre.len() ==> row_origin_ok(#[trigger] pre[k], orig, done),
        merged.instance_count is Some,
        id_fields_from(merged, pre[i]),
        merged.pid == orig[done].pid || merged.pid == pre[i].pid,
    ensures
        forall|k: int| 0 <= k < post.len() ==> row_origin_ok(#[trigger] post[k], orig, done + 1),
{
    assert forall|k: int| 0 <= k < post.len() implies row_origin_ok(
        #[trigger] post[k],
        orig,
        done + 1,
    ) by {
        if k < post.len() - 1 {
            let prev = if k < i {
                pre[k]
            } else {
                pre[k + 1]
            };
            assert(post[k] == prev);
            lemma_row_origin_mono(prev, orig, done, done + 1);
        } else {
            assert(post[k] == merged);
            let jn = choose|j: int|
                0 <= j < done && orig[j].name@ == pre[i].name@ && id_fields_from(pre[i], orig[j]);
            assert(id_fields_from(merged, orig[jn]));
            assert(merged.name@ == orig[jn].name@);
            if merged.pid == orig[done].pid {
                assert(0 <= done < done + 1 && orig[done].pid == merged.pid);
            } else {
                let jp = choose|j: int| 0 <= j < done && orig[j].pid == pre[i].pid;
                assert(orig[jp].pid == merged.pid);
            }
        }
    }
}

/// Merge one record into an existing accumulator row for the same name.
fn merge_rows(row: ProcessInfo, r: ProcessInfo) -> (merged: ProcessInfo)
    requires
        r.pid != row.pid,
    ensures
        row_summary(merged) == combine_summary(row_summary(row), seed_summary(r)),
        id_fields_from(merged, row),
        merged.pid == r.pid || merged.pid == row.pid,
        merged.instance_count is Some,
{
    let cpu = crate::arith::sat_add64(row.cpu_usage, r.cpu_usage);
    let count = match row.instance_count {
        Some(c) => crate::arith::sat_add32(c, 1),
        None => 2,
    };
    let merged = if r.pid < row.pid {
        ProcessInfo {
            pid: r.pid,
            parent_pid: row.parent_pid,
            name: row.name,
            exe_path: row.exe_path,
            command: row.command,
            status: row.status,
            cpu_usage: cpu,
            memory_bytes: r.memory_bytes,
            memory_percent: r.memory_percent,
            start_time: r.start_time,
            run_time: row.run_time,
            user_id: r.user_id,
            nice: row.nice,
            instance_count: Some(count),
        }
    } else {
        ProcessInfo {
            pid: row.pid,
            parent_pid: row.parent_pid,
            name: row.name,
            exe_path: row.exe_path,
            command: row.command,
            status: row.status,
            cpu_usage: cpu,
            memory_bytes: row.memory_bytes,
            memory_percent: row.memory_percent,
            start_time: row.start_time,
            run_time: row.run_time,
            user_id: row.user_id,
            nice: row.nice,
            instance_count: Some(count),
        }
    };
    proof {
        assert(row_summary(merged) =~= combine_summary(row_summary(row), seed_summary(r)));
    }
    merged
}

/// The output of grouping, characterized against the grouping model:
/// exactly one row per input name, each realizing the model's summary for
/// that name, carrying the identity fields of one of the group's records,
/// and sorted by cpu usage descending.
pub open spec fn grouped_correctly(input: Seq<ProcessInfo>, out: Seq<ProcessInfo>) -> bool {
    &&& forall|i: int| 0 <= i < out.len() ==> (#[trigger] out[i]).instance_count is Some
    &&& forall|i: int|
        0 <= i < out.len() ==> group_model(input).contains_key((#[trigger] out[i]).name@)
    &&& forall|i: int|
        0 <= i < out.len() ==> row_summary(#[trigger] out[i]) == group_model(input)[out[i].name@]
    &&& forall|i: int|
        0 <= i < out.len() ==> exists|j: int|
            0 <= j < input.len() && input[j].name@ == (#[trigger] out[i]).name@ && id_fields_from(
                out[i],
                input[j],
            )
    &&& forall|k: Seq<char>|
        group_model(input).contains_key(k) ==> exists|i: int|
            0 <= i < out.len() && (#[trigger] out[i]).name@ == k
    &&& rows_distinct_names(out)
    &&& forall|i: int, j: int| 0 <= i < j < out.len() ==> out[i].cpu_usage >= out[j].cpu_usage
}

/// Group per-pid records by executable name: representative pid is the
/// group minimum, cpu usage is summed, the memory, start-time and user
/// fields follow the representative, and the result is sorted by cpu usage
/// descending.
#[verifier::rlimit(100)]
pub fn group_processes(records: Vec<ProcessInfo>) -> (out: Vec<ProcessInfo>)
    requires
        distinct_pids(records@),
    ensures
        grouped_correctly(records@, out@),
{
    let ghost orig = records@;
    let mut rest = records;
    let mut acc: Vec<ProcessInfo> = Vec::new();
    proof {
        assert(orig.skip(0) =~= orig);
    }
    while rest.len() > 0
        invariant
            rest@.len() <= orig.len(),
            rest@ == orig.skip(orig.len() - rest@.len()),
            distinct_pids(orig),
            rows_distinct_names(acc@),
            rows_model(acc@) == group_model(orig.take(orig.len() - rest@.len())),
            forall|i: int|
                0 <= i < acc@.len() ==> row_origin_ok(
                    #[trigger] acc@[i],
                    orig,
                    orig.len() - rest@.len(),
                ),
        decreases rest@.len(),
    {
        let ghost done = orig.len() - rest@.len();
        let r = rest.remove(0);
        proof {
            assert(r == orig[done]);
            assert(rest@ =~= orig.skip(done + 1));
        }
        let idx = find_row(&acc, &r.name);
        match idx {
            None => {
                let mut p = r;
                p.instance_count = Some(1);
                let ghost pre = acc@;
                acc.push(p);
                proof {
                    assert(row_summary(acc@.last()) =~= seed_summary(orig[done]));
                    lemma_group_push(orig, done, pre, acc@, acc@.last());
                    lemma_origin_after_push(orig, done, pre, acc@, acc@.last());
                }
            },
            Some(i) => {
                let ghost pre = acc@;
                let row = acc.remove(i);
                proof {
                    // the representative pid came from an earlier record, so
                    // the incoming pid cannot collide with it
                    lemma_no_pid_tie(orig, done, pre[i as int]);
                }
                let merged = merge_rows(row, r);
                acc.push(merged);
                proof {
                    assert(acc@ =~= pre.remove(i as int).push(merged));
                    lemma_group_merge(orig, done, pre, i as int, merged, acc@);
                    lemma_origin_after_merge(orig, done, pre, i as int, merged, acc@);
                }
            },
        }
    }
    proof {
        assert(orig.take(orig.len() as int) =~= orig);
        assert forall|i: int| 0 <= i < acc@.len() implies group_model(orig).contains_key(
            (#[trigger] acc@[i]).name@,
        ) && row_summary(acc@[i]) == group_model(orig)[acc@[i].name@] by {
            lemma_rows_model_char(acc@, acc@[i].name@);
        }
        assert forall|k: Seq<char>| group_model(orig).contains_key(k) implies exists|i: int|
            0 <= i < acc@.len() && (#[trigger] acc@[i]).name@ == k by {
            lemma_rows_model_char(acc@, k);
        }
    }
    let ghost pre_sort = acc@;
    sort_rows_by_cpu_desc(&mut acc);
    proof {
        broadcast use vstd::seq_lib::group_to_multiset_ensures;
        broadcast use vstd::multiset::group_multiset_axioms;

        assert forall|i: int| 0 <= i < acc@.len() implies pre_sort.contains(#[trigger] acc@[i]) by {
            assert(acc@.contains(acc@[i]));
            assert(acc@.to_multiset().count(acc@[i]) > 0);
            assert(pre_sort.to_multiset().count(acc@[i]) > 0);
        }
        assert forall|j: int| 0 <= j < pre_sort.len() implies acc@.contains(
            #[trigger] pre_sort[j],
        ) by {
            assert(pre_sort.contains(pre_sort[j]));
            assert(pre_sort.to_multiset().count(pre_sort[j]) > 0);
            assert(acc@.to_multiset().count(pre_sort[j]) > 0);
        }
        assert(pre_sort.no_duplicates()) by {
            assert forall|a: int, b: int|
                0 <= a < pre_sort.len() && 0 <= b < pre_sort.len() && a != b implies pre_sort[a]
                != pre_sort[b] by {
                if pre_sort[a] == pre_sort[b] {
                    assert(pre_sort[a].name@ == pre_sort[b].name@);
                }
            }
        }
        pre_sort.lemma_multiset_has_no_duplicates();
        assert(rows_distinct_names(acc@)) by {
            assert forall|i: int, j: int| 0 <= i < j < acc@.len() implies (#[trigger] acc@[i]).name@
                != (#[trigger] acc@[j]).name@ by {
                if acc@[i].name@ == acc@[j].name@ {
                    let ji = choose|a: int| 0 <= a < pre_sort.len() && pre_sort[a] == acc@[i];
                    let jj = choose|a: int| 0 <= a < pre_sort.len() && pre_sort[a] == acc@[j];
                    if ji != jj {
                        assert(pre_sort[ji].name@ != pre_sort[jj].name@);
                    } else {
                        assert(acc@[i] == acc@[j]);
                        assert(acc@.remove(i)[j - 1] == acc@[j]);
                        assert(acc@.remove(i).contains(acc@[j]));
                        vstd::seq_lib::to_multiset_remove::<ProcessInfo>(acc@, i);
                        vstd::seq_lib::to_multiset_contains::<ProcessInfo>(acc@.remove(i), acc@[j]);
                        assert(acc@.remove(i).to_multiset().count(acc@[j]) > 0);
                        assert(acc@.to_multiset().count(acc@[i]) >= 2);
                        assert(pre_sort.to_multiset().count(acc@[i]) >= 2);
                        assert(pre_sort.to_multiset().contains(acc@[i]));
                        assert(false);
                    }
                }
            }
        }
        assert forall|i: int| 0 <= i < acc@.len() implies (#[trigger] acc@[i]).instance_count
            is Some && group_model(orig).contains_key(acc@[i].name@) && row_summary(acc@[i])
            == group_model(orig)[acc@[i].name@] && exists|j: int|
            0 <= j < orig.len() && orig[j].name@ == acc@[i].name@ && id_fields_from(
                acc@[i],
                orig[j],
            ) by {
            assert(pre_sort.contains(acc@[i]));
            let a = choose|a: int| 0 <= a < pre_sort.len() && pre_sort[a] == acc@[i];
            assert(pre_sort[a].instance_count is Some);
        }
        assert forall|k: Seq<char>| group_model(orig).contains_key(k) implies exists|i: int|
            0 <= i < acc@.len() && (#[trigger] acc@[i]).name@ == k by {
            let a = choose|a: int| 0 <= a < pre_sort.len() && (#[trigger] pre_sort[a]).name@ == k;
            assert(acc@.contains(pre_sort[a]));
            let i = choose|i: int| 0 <= i < acc@.len() && acc@[i] == pre_sort[a];
            assert(acc@[i].name@ == k);
        }
    }
    acc
}

/// Grouped process listing: one row per executable name plus the row count.
#[derive(Debug, Clone)]
pub struct ProcessList {
    pub processes: Vec<ProcessInfo>,
    pub total_count: usize,
}

/// Group the records and wrap them with their count.
pub fn build_process_list(records: Vec<ProcessInfo>) -> (r: ProcessList)
    requires
        distinct_pids(records@),
    ensures
        grouped_correctly(records@, r.processes@),
        r.total_count == r.processes@.len(),
{
    let processes = group_processes(records);
    let total_count = processes.len();
    ProcessList { processes, total_count }
}

/// Linux errno for an operation that was not permitted.
pub const EPERM_ERRNO: i32 = 1;

/// Linux errno for a process that does not exist.
pub const ESRCH_ERRNO: i32 = 3;

/// Validate a niceness value before any OS call is attempted: values
/// outside `[-20, 19]` are rejected with a permission error.
pub fn set_priority_precheck(nice: i32) -> (r: Result<(), MonitorError>)
    ensures
        r is Ok <==> -20 <= nice <= 19,
        r matches Err(e) ==> e.is_permission_denied(),
{
    if nice < -20 || nice > 19 {
        Err(
            MonitorError::PermissionDenied(
                String::from_str("Nice value must be between -20 and 19"),
            ),
        )
    } else {
        Ok(())
    }
}

/// Map the outcome of the OS priority call to the error taxonomy:
/// a permission failure to `PermissionDenied`, a vanished process to
/// `ProcessNotFound`, and anything else to `SystemAccess` carrying the
/// OS error code.
pub fn classify_set_priority_result(ok: bool, errno: i32, pid: u32) -> (r: Result<
    (),
    MonitorError,
>)
    ensures
        ok ==> r is Ok,
        !ok ==> match r {
            Ok(_) => false,
            Err(e) => if errno == EPERM_ERRNO {
                e.is_permission_denied()
            } else if errno == ESRCH_ERRNO {
                e == MonitorError::ProcessNotFound(pid)
            } else {
                e.is_system_access()
            },
        },
{
    if ok {
        Ok(())
    } else if errno == EPERM_ERRNO {
        Err(
            MonitorError::PermissionDenied(
                String::from_str("Permission denied: negative nice values require CAP_SYS_NICE"),
            ),
        )
    } else if errno == ESRCH_ERRNO {
        Err(MonitorError::ProcessNotFound(pid))
    } else {
        let mut detail = String::from_str("Failed to set priority: errno ");
        if errno >= 0 {
            detail.append(crate::text::u64_to_dec_string(errno as u64).as_str());
        } else {
            detail.append("-");
            detail.append(crate::text::u64_to_dec_string((-(errno as i64)) as u64).as_str());
        }
        Err(MonitorError::SystemAccess(detail))
    }
}

/// Decision core of process termination. `initialized` says whether the
/// process table was ever loaded; `found` whether the pid resolved to a
/// live process; `delivered` what the signal delivery reported, `None`
/// meaning the signal could not be delivered (protected process or
/// insufficient privilege).
pub fn classify_kill_outcome(initialized: bool, found: bool, delivered: Option<bool>, pid: u32) -> (r: Result<
    bool,
    MonitorError,
>)
    ensures
        !initialized ==> (r matches Err(e) && e.is_system_access()),
        initialized && !found ==> r == Err::<bool, MonitorError>(MonitorError::ProcessNotFound(pid)),
        initialized && found ==> match delivered {
            Some(b) => r == Ok::<bool, MonitorError>(b),
            None => (r matches Err(e) && e.is_permission_denied()),
        },
{
    if !initialized {
        Err(MonitorError::SystemAccess(String::from_str("Process monitor not initialized")))
    } else if !found {
        Err(MonitorError::ProcessNotFound(pid))
    } else {
        match delivered {
            Some(b) => Ok(b),
            None => {
                let mut detail = String::from_str("Failed to kill process ");
                detail.append(crate::text::u64_to_dec_string(pid as u64).as_str());
                detail.append(": permission denied or process protected");
                Err(MonitorError::PermissionDenied(detail))
            },
        }
    }
}

/// Index of the row whose name equals `name`, if any.
fn find_row(acc: &Vec<ProcessInfo>, name: &String) -> (r: Option<usize>)
    ensures
        match r {
            Some(i) => i < acc@.len() && acc@[i as int].name@ == name@,
            None => forall|i: int| 0 <= i < acc@.len() ==> acc@[i].name@ != name@,
        },
{
    let mut i: usize = 0;
    while i < acc.len()
        invariant
            i <= acc@.len(),
            forall|k: int| 0 <= k < i ==> acc@[k].name@ != name@,
        decreases acc@.len() - i,
    {
        if acc[i].name.eq(name) {
            return Some(i);
        }
        i += 1;
    }
    None
}

/// Insertion sort by cpu usage, descending; keeps the multiset of rows and
/// every per-row property intact.
fn sort_rows_by_cpu_desc(v: &mut Vec<ProcessInfo>)
    ensures
        final(v)@.to_multiset() == old(v)@.to_multiset(),
        final(v)@.len() == old(v)@.len(),
        forall|i: int, j: int|
            0 <= i < j < final(v)@.len() ==> final(v)@[i].cpu_usage >= final(v)@[j].cpu_usage,
{
    broadcast use vstd::seq_lib::group_to_multiset_ensures;

    if v.len() <= 1 {
        return ;
    }
    let mut i: usize = 1;
    while i < v.len()
        invariant
            1 <= i <= v@.len(),
            v@.len() == old(v)@.len(),
            v@.to_multiset() == old(v)@.to_multiset(),
            forall|a: int, b: int| 0 <= a < b < i ==> v@[a].cpu_usage >= v@[b].cpu_usage,
        decreases v@.len() - i,
    {
        let ghost before = v@;
        let x = v.remove(i);
        let mut j: usize = i;
        while j > 0 && v[j - 1].cpu_usage < x.cpu_usage
            invariant
                j <= i,
                i < before.len(),
                v@ == before.remove(i as int),
                forall|k: int| j <= k < i ==> v@[k].cpu_usage < x.cpu_usage,
            decreases j,
        {
            j -= 1;
        }
        let ghost mid = v@;
        v.insert(j, x);
        proof {
            broadcast use vstd::multiset::group_multiset_axioms;

            vstd::seq_lib::to_multiset_remove::<ProcessInfo>(before, i as int);
            vstd::seq_lib::to_multiset_insert::<ProcessInfo>(mid, j as int, x);
            assert(before.remove(i as int).to_multiset() == before.to_multiset().remove(
                before[i as int],
            ));
            assert(v@.to_multiset() == mid.to_multiset().insert(x));
            assert(before.contains(before[i as int]));
            vstd::seq_lib::to_multiset_contains::<ProcessInfo>(before, before[i as int]);
            assert(before.to_multiset().count(before[i as int]) > 0);
            assert(v@.to_multiset() =~= before.to_multiset());
            assert(forall|a: int, b: int|
                0 <= a < b < i + 1 ==> v@[a].cpu_usage >= v@[b].cpu_usage) by {
                assert(forall|k: int| 0 <= k < j ==> v@[k] == mid[k]);
                assert(v@[j as int] == x);
                assert(forall|k: int| j < k < before.len() ==> v@[k] == mid[k - 1]);
                assert(forall|k: int| 0 <= k < i ==> mid[k] == (if k < i {
                    before[k]
                } else {
                    before[k + 1]
                }));
                if j > 0 {
                    assert(mid[j - 1].cpu_usage >= x.cpu_usage);
                }
            }
        }
        i += 1;
    }
}

} // verus!
