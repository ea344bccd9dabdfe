//! The rollup aggregator: recorded outcomes bucketed into fixed-width time
//! windows, with per-bucket statistics, sorted by `(bucket, name, kind)`.
//!
//! A bucket with no successful sample reports its latency statistics as
//! absent rather than zero, so that an all-error bucket cannot be misread
//! as instant success.

use crate::check::Kind;
use crate::db::{Record, StoreError};
use crate::identity::{identities_wf, Identity};
use crate::text::chars_lt;
use vstd::arithmetic::div_mod::{lemma_div_by_multiple, lemma_div_is_ordered};
use vstd::prelude::*;

verus! {

/// A failed metrics query: the window was empty or inverted, or the
/// datastore failed.
#[derive(Clone, Debug)]
pub enum QueryError {
    InvalidRange,
    Storage(StoreError),
}

/// One rollup bucket: the statistics of one check over one fixed-width time
/// window. `min`, `avg` and `max` are taken over successful samples only
/// and are absent when the bucket holds none; errors still count toward
/// `count` and `errs`.
#[derive(Clone, Debug)]
pub struct Rollup {
    pub check_id: u64,
    pub name: String,
    pub kind: Kind,
    pub bucket: u64,
    pub min: Option<u64>,
    pub avg: Option<u64>,
    pub max: Option<u64>,
    pub count: usize,
    pub errs: usize,
}

/// The bucket width a window is rolled up at: windows of up to 600 seconds
/// keep 1-second buckets; anything larger coarsens to 5-second buckets.
pub open spec fn resolution_spec(window: u64) -> u64 {
    if window <= 600 {
        1u64
    } else {
        5u64
    }
}

/// Selects the bucket width for a window, a fixed step function of the
/// window's length alone.
pub fn resolution(window: u64) -> (r: u64)
    ensures
        r == resolution_spec(window),
{
    if window <= 600 {
        1
    } else {
        5
    }
}

/// The start of the bucket an epoch falls into: the epoch rounded down to a
/// multiple of the width.
pub open spec fn bucket_spec(epoch: u64, width: u64) -> int
    recommends
        width > 0,
{
    epoch - (epoch as int % width as int)
}

/// Rounds an epoch down to its bucket start.
pub fn bucket_of(epoch: u64, width: u64) -> (r: u64)
    requires
        width > 0,
    ensures
        r == bucket_spec(epoch, width),
{
    proof {
        assert(epoch % width <= epoch) by (nonlinear_arith)
            requires
                width > 0,
        ;
    }
    epoch - epoch % width
}

/// Which records one bucket aggregates: the group of one check and one
/// bucket start, within one query window of one bucket width.
pub struct GroupSel {
    pub cid: u64,
    pub bucket: u64,
    pub width: u64,
    pub start: u64,
    pub end: u64,
}

/// Whether a record falls into the query window `[start, end)`.
pub open spec fn in_window(r: Record, start: u64, end: u64) -> bool {
    start <= r.epoch < end
}

/// Whether a record belongs to a group: in the window, of the group's
/// check, in the group's bucket.
pub open spec fn in_group(r: Record, sel: GroupSel) -> bool {
    &&& in_window(r, sel.start, sel.end)
    &&& r.check_id == sel.cid
    &&& bucket_spec(r.epoch, sel.width) == sel.bucket
}

/// Whether a record is an error record.
pub open spec fn is_err_rec(r: Record) -> bool {
    r.err is Some
}

/// Whether a record carries a successful latency sample.
pub open spec fn is_ok_sample(r: Record) -> bool {
    r.err is None && r.ms is Some
}

/// How many records of the list fall into the group.
pub open spec fn count_group(rs: Seq<Record>, sel: GroupSel) -> nat
    decreases rs.len(),
{
    if rs.len() == 0 {
        0
    } else {
        count_group(rs.drop_last(), sel) + if in_group(rs.last(), sel) {
            1nat
        } else {
            0nat
        }
    }
}

/// How many records of the group are error records.
pub open spec fn errs_group(rs: Seq<Record>, sel: GroupSel) -> nat
    decreases rs.len(),
{
    if rs.len() == 0 {
        0
    } else {
        errs_group(rs.drop_last(), sel) + if in_group(rs.last(), sel) && is_err_rec(rs.last()) {
            1nat
        } else {
            0nat
        }
    }
}

/// How many records of the group are successful samples.
pub open spec fn oks_group(rs: Seq<Record>, sel: GroupSel) -> nat
    decreases rs.len(),
{
    if rs.len() == 0 {
        0
    } else {
        oks_group(rs.drop_last(), sel) + if in_group(rs.last(), sel) && is_ok_sample(rs.last()) {
            1nat
        } else {
            0nat
        }
    }
}

/// The sum of the group's successful latencies.
pub open spec fn sum_group(rs: Seq<Record>, sel: GroupSel) -> int
    decreases rs.len(),
{
    if rs.len() == 0 {
        0
    } else {
        sum_group(rs.drop_last(), sel) + if in_group(rs.last(), sel) && is_ok_sample(rs.last()) {
            rs.last().ms->Some_0 as int
        } else {
            0
        }
    }
}

/// Folds one more latency into an optional minimum.
pub open spec fn opt_min(a: Option<u64>, v: u64) -> Option<u64> {
    match a {
        None => Some(v),
        Some(m) => Some(if v < m {
            v
        } else {
            m
        }),
    }
}

/// Folds one more latency into an optional maximum.
pub open spec fn opt_max(a: Option<u64>, v: u64) -> Option<u64> {
    match a {
        None => Some(v),
        Some(m) => Some(if v > m {
            v
        } else {
            m
        }),
    }
}

/// The least successful latency of the group, absent when the group has no
/// successful sample.
pub open spec fn min_group(rs: Seq<Record>, sel: GroupSel) -> Option<u64>
    decreases rs.len(),
{
    if rs.len() == 0 {
        None
    } else if in_group(rs.last(), sel) && is_ok_sample(rs.last()) {
        opt_min(min_group(rs.drop_last(), sel), rs.last().ms->Some_0)
    } else {
        min_group(rs.drop_last(), sel)
    }
}

/// The greatest successful latency of the group, absent when the group has
/// no successful sample.
pub open spec fn max_group(rs: Seq<Record>, sel: GroupSel) -> Option<u64>
    decreases rs.len(),
{
    if rs.len() == 0 {
        None
    } else if in_group(rs.last(), sel) && is_ok_sample(rs.last()) {
        opt_max(max_group(rs.drop_last(), sel), rs.last().ms->Some_0)
    } else {
        max_group(rs.drop_last(), sel)
    }
}

/// Extending the record list by one element extends each group statistic by
/// that element's contribution.
proof fn lemma_group_step(rs: Seq<Record>, j: int, sel: GroupSel)
    requires
        0 <= j < rs.len(),
    ensures
        count_group(rs.take(j + 1), sel) == count_group(rs.take(j), sel) + if in_group(
            rs[j],
            sel,
        ) {
            1int
        } else {
            0int
        },
        errs_group(rs.take(j + 1), sel) == errs_group(rs.take(j), sel) + if in_group(rs[j], sel)
            && is_err_rec(rs[j]) {
            1int
        } else {
            0int
        },
        oks_group(rs.take(j + 1), sel) == oks_group(rs.take(j), sel) + if in_group(rs[j], sel)
            && is_ok_sample(rs[j]) {
            1int
        } else {
            0int
        },
        sum_group(rs.take(j + 1), sel) == sum_group(rs.take(j), sel) + if in_group(rs[j], sel)
            && is_ok_sample(rs[j]) {
            rs[j].ms->Some_0 as int
        } else {
            0int
        },
        min_group(rs.take(j + 1), sel) == if in_group(rs[j], sel) && is_ok_sample(rs[j]) {
            opt_min(min_group(rs.take(j), sel), rs[j].ms->Some_0)
        } else {
            min_group(rs.take(j), sel)
        },
        max_group(rs.take(j + 1), sel) == if in_group(rs[j], sel) && is_ok_sample(rs[j]) {
            opt_max(max_group(rs.take(j), sel), rs[j].ms->Some_0)
        } else {
            max_group(rs.take(j), sel)
        },
{
    assert(rs.take(j + 1).drop_last() =~= rs.take(j));
    assert(rs.take(j + 1).last() == rs[j]);
}

/// Bounds of the group statistics: no statistic exceeds the number of
/// records, errors and successes partition at most the group, and the sum
/// is bounded by the number of successes at the largest latency.
proof fn lemma_group_bounds(rs: Seq<Record>, sel: GroupSel)
    ensures
        count_group(rs, sel) <= rs.len(),
        errs_group(rs, sel) <= count_group(rs, sel),
        oks_group(rs, sel) <= count_group(rs, sel),
        0 <= sum_group(rs, sel),
        sum_group(rs, sel) <= oks_group(rs, sel) * (u64::MAX as int),
    decreases rs.len(),
{
    if rs.len() > 0 {
        lemma_group_bounds(rs.drop_last(), sel);
        let oks0 = oks_group(rs.drop_last(), sel) as int;
        let oks1 = oks_group(rs, sel) as int;
        assert(oks0 * (u64::MAX as int) + (u64::MAX as int) == (oks0 + 1) * (u64::MAX as int))
            by (nonlinear_arith);
        assert(oks1 >= oks0);
        assert(oks0 * (u64::MAX as int) <= oks1 * (u64::MAX as int)) by (nonlinear_arith)
            requires
                oks0 <= oks1,
        ;
    }
}

/// A record that lies in the group makes the group's count positive.
proof fn lemma_member_count(rs: Seq<Record>, sel: GroupSel, j: int)
    requires
        0 <= j < rs.len(),
        in_group(rs[j], sel),
    ensures
        count_group(rs, sel) >= 1,
    decreases rs.len(),
{
    if j == rs.len() - 1 {
    } else {
        assert(rs.drop_last()[j] == rs[j]);
        lemma_member_count(rs.drop_last(), sel, j);
    }
}

/// The sort rank of a kind: `http` sorts before `ping`, as their spellings
/// do.
pub open spec fn kind_rank(k: Kind) -> int {
    match k {
        Kind::Http => 0,
        Kind::Ping => 1,
    }
}

/// The output order of the aggregator: by bucket start, then name (by code
/// point), then kind.
pub open spec fn triple_lt(
    b1: u64,
    n1: Seq<char>,
    k1: Kind,
    b2: u64,
    n2: Seq<char>,
    k2: Kind,
) -> bool {
    ||| b1 < b2
    ||| (b1 == b2 && chars_lt(n1, n2))
    ||| (b1 == b2 && n1 == n2 && kind_rank(k1) < kind_rank(k2))
}

/// The output order on rollup buckets.
pub open spec fn row_lt(a: Rollup, b: Rollup) -> bool {
    triple_lt(a.bucket, a.name@, a.kind, b.bucket, b.name@, b.kind)
}

/// One group the aggregation found: the check, its display key, and the
/// bucket start.
struct GroupKey {
    check_id: u64,
    bucket: u64,
    name: String,
    kind: Kind,
}

spec fn key_lt(a: GroupKey, b: GroupKey) -> bool {
    triple_lt(a.bucket, a.name@, a.kind, b.bucket, b.name@, b.kind)
}

spec fn sorted_keys(s: Seq<GroupKey>) -> bool {
    forall|k: int| 0 <= k && k + 1 < s.len() ==> key_lt(#[trigger] s[k], s[k + 1])
}

/// A key names a materialized identity: its id, name and kind agree with
/// one entry of the check list.
spec fn key_valid(checks: Seq<Identity>, k: GroupKey) -> bool {
    exists|c: int|
        0 <= c < checks.len() && (#[trigger] checks[c]).id == k.check_id && checks[c].name@
            == k.name@ && checks[c].kind == k.kind
}

/// Of two `(bucket, name, kind)` triples, exactly one holds: before, equal,
/// or after.
proof fn lemma_triple_trichotomy(b1: u64, n1: Seq<char>, k1: Kind, b2: u64, n2: Seq<char>, k2: Kind)
    ensures
        triple_lt(b1, n1, k1, b2, n2, k2) || triple_lt(b2, n2, k2, b1, n1, k1) || (b1 == b2 && n1
            == n2 && k1 == k2),
        triple_lt(b1, n1, k1, b2, n2, k2) ==> !triple_lt(b2, n2, k2, b1, n1, k1) && !(b1 == b2 && n1
            == n2 && k1 == k2),
{
    crate::text::lemma_chars_lt_trichotomy(n1, n2);
}

/// The output order is transitive.
proof fn lemma_triple_transitive(
    b1: u64,
    n1: Seq<char>,
    k1: Kind,
    b2: u64,
    n2: Seq<char>,
    k2: Kind,
    b3: u64,
    n3: Seq<char>,
    k3: Kind,
)
    requires
        triple_lt(b1, n1, k1, b2, n2, k2),
        triple_lt(b2, n2, k2, b3, n3, k3),
    ensures
        triple_lt(b1, n1, k1, b3, n3, k3),
{
    if b1 == b2 && b2 == b3 {
        if chars_lt(n1, n2) && chars_lt(n2, n3) {
            crate::text::lemma_chars_lt_transitive(n1, n2, n3);
        }
    }
}

/// In a run of buckets each sorting before the next, every earlier bucket
/// sorts before every later one.
pub(crate) proof fn lemma_rows_chain(rows: Seq<Rollup>, k1: int, k2: int)
    requires
        forall|k: int| 0 <= k && k + 1 < rows.len() ==> row_lt(#[trigger] rows[k], rows[k + 1]),
        0 <= k1 < k2 < rows.len(),
    ensures
        row_lt(rows[k1], rows[k2]),
    decreases k2 - k1,
{
    if k2 == k1 + 1 {
    } else {
        lemma_rows_chain(rows, k1, k2 - 1);
        let a = rows[k1];
        let b = rows[k2 - 1];
        let c = rows[k2];
        lemma_triple_transitive(
            a.bucket,
            a.name@,
            a.kind,
            b.bucket,
            b.name@,
            b.kind,
            c.bucket,
            c.name@,
            c.kind,
        );
    }
}

/// For two valid keys of one well-formed check list, sharing the check is
/// the same as sharing name and kind.
proof fn lemma_valid_same_check(checks: Seq<Identity>, a: GroupKey, b: GroupKey)
    requires
        identities_wf(checks),
        key_valid(checks, a),
        key_valid(checks, b),
    ensures
        a.check_id == b.check_id <==> (a.name@ == b.name@ && a.kind == b.kind),
{
    let ca = choose|c: int|
        0 <= c < checks.len() && (#[trigger] checks[c]).id == a.check_id && checks[c].name@
            == a.name@ && checks[c].kind == a.kind;
    let cb = choose|c: int|
        0 <= c < checks.len() && (#[trigger] checks[c]).id == b.check_id && checks[c].name@
            == b.name@ && checks[c].kind == b.kind;
    if ca != cb {
        if ca < cb {
            assert(checks[ca].id != checks[cb].id && !(checks[ca].name@ == checks[cb].name@
                && checks[ca].kind == checks[cb].kind));
        } else {
            assert(checks[cb].id != checks[ca].id && !(checks[cb].name@ == checks[ca].name@
                && checks[cb].kind == checks[ca].kind));
        }
    }
}

/// Compares two keys in the output order.
fn key_before(a: &GroupKey, b: &GroupKey) -> (r: bool)
    ensures
        r == key_lt(*a, *b),
{
    if a.bucket < b.bucket {
        true
    } else if a.bucket > b.bucket {
        false
    } else if crate::text::str_lt(a.name.as_str(), b.name.as_str()) {
        true
    } else if crate::text::str_lt(b.name.as_str(), a.name.as_str()) {
        false
    } else {
        proof {
            crate::text::lemma_chars_lt_trichotomy(a.name@, b.name@);
        }
        let ra: u8 = match a.kind {
            Kind::Http => 0,
            Kind::Ping => 1,
        };
        let rb: u8 = match b.kind {
            Kind::Http => 0,
            Kind::Ping => 1,
        };
        ra < rb
    }
}

/// Whether two keys name the same `(bucket, name, kind)` triple.
fn key_same(a: &GroupKey, b: &GroupKey) -> (r: bool)
    ensures
        r == (a.bucket == b.bucket && a.name@ == b.name@ && a.kind == b.kind),
{
    a.bucket == b.bucket && crate::text::str_eq(a.name.as_str(), b.name.as_str()) && a.kind
        == b.kind
}

/// The identity a check id belongs to, if the check list has it.
fn find_ident(checks: &Vec<Identity>, cid: u64) -> (r: Option<usize>)
    ensures
        r matches Some(c) ==> c < checks@.len() && checks@[c as int].id == cid,
        r is None ==> forall|c: int| 0 <= c < checks@.len() ==> (#[trigger] checks@[c]).id != cid,
{
    let mut c: usize = 0;
    while c < checks.len()
        invariant
            c <= checks@.len(),
            forall|q: int| 0 <= q < c ==> (#[trigger] checks@[q]).id != cid,
        decreases checks@.len() - c,
    {
        if checks[c].id == cid {
            return Some(c);
        }
        c += 1;
    }
    None
}

/// The first position whose key does not sort before the given key; the
/// length when every key does.
fn find_insert_pos(keys: &Vec<GroupKey>, key: &GroupKey) -> (p: usize)
    ensures
        p <= keys@.len(),
        forall|q: int| 0 <= q < p ==> key_lt(#[trigger] keys@[q], *key),
        p < keys@.len() ==> !key_lt(keys@[p as int], *key),
{
    let mut p: usize = 0;
    loop
        invariant
            p <= keys@.len(),
            forall|q: int| 0 <= q < p ==> key_lt(#[trigger] keys@[q], *key),
        decreases keys@.len() - p,
    {
        if p == keys.len() {
            return p;
        }
        if !key_before(&keys[p], key) {
            return p;
        }
        p += 1;
    }
}

/// Inserts a group key into the sorted key list, keeping it sorted, unless
/// its group is already present.
fn insert_key(keys: &mut Vec<GroupKey>, checks: &Vec<Identity>, key: GroupKey)
    requires
        identities_wf(checks@),
        sorted_keys(old(keys)@),
        forall|k: int| 0 <= k < old(keys)@.len() ==> key_valid(checks@, #[trigger] old(keys)@[k]),
        key_valid(checks@, key),
    ensures
        sorted_keys(final(keys)@),
        forall|k: int|
            0 <= k < final(keys)@.len() ==> key_valid(checks@, #[trigger] final(keys)@[k]),
        forall|k: int|
            0 <= k < final(keys)@.len() ==> old(keys)@.contains(#[trigger] final(keys)@[k])
                || final(keys)@[k] == key,
        forall|k: int| 0 <= k < old(keys)@.len() ==> final(keys)@.contains(#[trigger] old(keys)@[k]),
        exists|k: int|
            0 <= k < final(keys)@.len() && (#[trigger] final(keys)@[k]).check_id == key.check_id
                && final(keys)@[k].bucket == key.bucket,
{
    let ghost pre = keys@;
    let p = find_insert_pos(keys, &key);
    if p < keys.len() {
        if key_same(&keys[p], &key) {
            proof {
                lemma_valid_same_check(checks@, pre[p as int], key);
            }
            return ;
        }
    }
    proof {
        if p < pre.len() {
            lemma_triple_trichotomy(
                key.bucket,
                key.name@,
                key.kind,
                pre[p as int].bucket,
                pre[p as int].name@,
                pre[p as int].kind,
            );
        }
    }
    keys.insert(p, key);
    proof {
        let post = keys@;
        assert(post == pre.insert(p as int, key));
        assert forall|k: int| 0 <= k && k + 1 < post.len() implies key_lt(
            #[trigger] post[k],
            post[k + 1],
        ) by {
            if k + 1 < p {
                assert(post[k] == pre[k]);
                assert(post[k + 1] == pre[k + 1]);
            } else if k + 1 == p {
                assert(post[k] == pre[k]);
                assert(post[k + 1] == key);
            } else if k == p {
                assert(post[k] == key);
                assert(post[k + 1] == pre[k]);
            } else {
                assert(post[k] == pre[k - 1]);
                assert(post[k + 1] == pre[k]);
            }
        }
        assert forall|k: int| 0 <= k < pre.len() implies post.contains(#[trigger] pre[k]) by {
            if k < p {
                assert(post[k] == pre[k]);
            } else {
                assert(post[k + 1] == pre[k]);
            }
        }
        assert forall|k: int| 0 <= k < post.len() implies pre.contains(#[trigger] post[k])
            || post[k] == key by {
            if k < p {
                assert(post[k] == pre[k]);
                assert(pre.contains(pre[k]));
            } else if k > p {
                assert(post[k] == pre[k - 1]);
                assert(pre.contains(pre[k - 1]));
            }
        }
        assert(post[p as int] == key);
    }
}

/// The bucket width of a query window.
pub open spec fn width_of(start: u64, end: u64) -> u64
    recommends
        start < end,
{
    resolution_spec((end - start) as u64)
}

/// The group a rollup bucket reports on.
pub open spec fn sel_of(cid: u64, bucket: u64, start: u64, end: u64) -> GroupSel {
    GroupSel { cid, bucket, width: width_of(start, end), start, end }
}

/// What one rollup bucket must report: the check's identity, and exactly
/// the group's statistics over the whole record list — every record
/// counted, errors counted apart, and the latency statistics over the
/// successful samples alone, absent when there are none.
pub open spec fn row_valid(
    checks: Seq<Identity>,
    rs: Seq<Record>,
    start: u64,
    end: u64,
    row: Rollup,
) -> bool {
    let sel = sel_of(row.check_id, row.bucket, start, end);
    &&& exists|c: int|
        0 <= c < checks.len() && (#[trigger] checks[c]).id == row.check_id && checks[c].name@
            == row.name@ && checks[c].kind == row.kind
    &&& row.count == count_group(rs, sel)
    &&& row.count > 0
    &&& row.errs == errs_group(rs, sel)
    &&& (oks_group(rs, sel) == 0 ==> row.min is None && row.avg is None && row.max is None)
    &&& (oks_group(rs, sel) > 0 ==> ({
        &&& row.min == min_group(rs, sel)
        &&& row.max == max_group(rs, sel)
        &&& row.avg matches Some(a) && a == sum_group(rs, sel) / (oks_group(rs, sel) as int)
    }))
}

/// Whether the record at index `j` is accounted for: an in-window record of
/// a known check has a bucket reporting its group.
pub open spec fn covered(
    rs: Seq<Record>,
    checks: Seq<Identity>,
    start: u64,
    end: u64,
    j: int,
    rows: Seq<Rollup>,
) -> bool {
    (0 <= j < rs.len() && in_window(rs[j], start, end) && (exists|c: int|
        0 <= c < checks.len() && (#[trigger] checks[c]).id == rs[j].check_id)) ==> exists|k: int|
        0 <= k < rows.len() && (#[trigger] rows[k]).check_id == rs[j].check_id && rows[k].bucket
            == bucket_spec(rs[j].epoch, width_of(start, end))
}

/// The statistics of one group, accumulated in one pass.
struct GroupStats {
    count: usize,
    errs: usize,
    oks: usize,
    sum: u128,
    min: Option<u64>,
    max: Option<u64>,
}

/// Accumulates the statistics of one group over the record list.
#[verifier::loop_isolation(false)]
fn stats_for(records: &Vec<Record>, cid: u64, bucket: u64, width: u64, start: u64, end: u64) -> (out:
    GroupStats)
    requires
        width > 0,
    ensures
        ({
            let sel = GroupSel { cid, bucket, width, start, end };
            &&& out.count == count_group(records@, sel)
            &&& out.errs == errs_group(records@, sel)
            &&& out.oks == oks_group(records@, sel)
            &&& out.sum == sum_group(records@, sel)
            &&& out.min == min_group(records@, sel)
            &&& out.max == max_group(records@, sel)
        }),
{
    let ghost sel = GroupSel { cid, bucket, width, start, end };
    let mut st = GroupStats { count: 0, errs: 0, oks: 0, sum: 0, min: None, max: None };
    let mut j: usize = 0;
    proof {
        assert(records@.take(0) =~= Seq::<Record>::empty());
    }
    while j < records.len()
        invariant
            j <= records@.len(),
            st.count == count_group(records@.take(j as int), sel),
            st.errs == errs_group(records@.take(j as int), sel),
            st.oks == oks_group(records@.take(j as int), sel),
            st.sum == sum_group(records@.take(j as int), sel),
            st.min == min_group(records@.take(j as int), sel),
            st.max == max_group(records@.take(j as int), sel),
            st.count <= j,
            st.errs <= j,
            st.oks <= j,
        decreases records@.len() - j,
    {
        proof {
            lemma_group_step(records@, j as int, sel);
        }
        let r = &records[j];
        if r.epoch >= start && r.epoch < end && r.check_id == cid && bucket_of(r.epoch, width)
            == bucket {
            st.count = st.count + 1;
            if r.err.is_some() {
                st.errs = st.errs + 1;
            } else {
                match r.ms {
                    Some(v) => {
                        st.oks = st.oks + 1;
                        proof {
                            lemma_group_bounds(records@.take(j as int), sel);
                            assert(st.sum <= (u64::MAX as int) * (u64::MAX as int))
                                by (nonlinear_arith)
                                requires
                                    st.sum <= st.oks as int * (u64::MAX as int),
                                    st.oks as int <= u64::MAX as int,
                            ;
                            assert(st.sum + v <= (u64::MAX as int) * (u64::MAX as int) + (
                            u64::MAX as int) < u128::MAX) by (nonlinear_arith)
                                requires
                                    st.sum <= (u64::MAX as int) * (u64::MAX as int),
                                    v <= u64::MAX,
                            ;
                        }
                        st.sum = st.sum + (v as u128);
                        st.min = match st.min {
                            None => Some(v),
                            Some(m) => if v < m {
                                Some(v)
                            } else {
                                Some(m)
                            },
                        };
                        st.max = match st.max {
                            None => Some(v),
                            Some(m) => if v > m {
                                Some(v)
                            } else {
                                Some(m)
                            },
                        };
                    },
                    None => {
                    },
                }
            }
        }
        j += 1;
    }
    proof {
        assert(records@.take(records@.len() as int) =~= records@);
    }
    st
}

/// The latency minimum and maximum are absent exactly when the group has no
/// successful sample.
proof fn lemma_minmax_absent(rs: Seq<Record>, sel: GroupSel)
    ensures
        (oks_group(rs, sel) == 0) <==> (min_group(rs, sel) is None),
        (oks_group(rs, sel) == 0) <==> (max_group(rs, sel) is None),
    decreases rs.len(),
{
    if rs.len() > 0 {
        lemma_minmax_absent(rs.drop_last(), sel);
    }
}

/// Rolls the recorded outcomes up over the window `[start, end)`: one
/// bucket per `(check, bucket start)` group that holds at least one
/// in-window record of a known check, each bucket carrying exactly its
/// group's statistics, the whole sorted by `(bucket, name, kind)`. Records
/// outside the window, and records of ids the check list does not know,
/// are left out.
#[verifier::loop_isolation(false)]
pub fn rollup_rows(checks: &Vec<Identity>, records: &Vec<Record>, start: u64, end: u64) -> (rows:
    Vec<Rollup>)
    requires
        identities_wf(checks@),
        start < end,
    ensures
        forall|k: int|
            0 <= k < rows@.len() ==> row_valid(checks@, records@, start, end, #[trigger] rows@[k]),
        forall|k: int| 0 <= k && k + 1 < rows@.len() ==> row_lt(#[trigger] rows@[k], rows@[k + 1]),
        forall|j: int| 0 <= j < records@.len() ==> covered(records@, checks@, start, end, j, rows@),
        forall|k1: int, k2: int|
            0 <= k1 < k2 < rows@.len() ==> !((#[trigger] rows@[k1]).check_id == (
            #[trigger] rows@[k2]).check_id && rows@[k1].bucket == rows@[k2].bucket),
{
    let width = resolution(end - start);
    proof {
        assert(width == width_of(start, end));
    }
    let mut keys: Vec<GroupKey> = Vec::new();
    let mut i: usize = 0;
    while i < records.len()
        invariant
            i <= records@.len(),
            sorted_keys(keys@),
            forall|k: int| 0 <= k < keys@.len() ==> key_valid(checks@, #[trigger] keys@[k]),
            forall|k: int|
                0 <= k < keys@.len() ==> exists|j: int|
                    0 <= j < i && in_group(
                        records@[j],
                        GroupSel {
                            cid: (#[trigger] keys@[k]).check_id,
                            bucket: keys@[k].bucket,
                            width,
                            start,
                            end,
                        },
                    ),
            forall|j: int|
                0 <= j < i ==> (in_window(#[trigger] records@[j], start, end) && (exists|c: int|
                    0 <= c < checks@.len() && (#[trigger] checks@[c]).id == records@[j].check_id)
                    ==> exists|k: int|
                    0 <= k < keys@.len() && (#[trigger] keys@[k]).check_id == records@[j].check_id
                        && keys@[k].bucket == bucket_spec(records@[j].epoch, width)),
        decreases records@.len() - i,
    {
        let ghost pre_keys = keys@;
        let r = &records[i];
        if r.epoch >= start && r.epoch < end {
            match find_ident(checks, r.check_id) {
                Some(c) => {
                    let b = bucket_of(r.epoch, width);
                    let ident = &checks[c];
                    let key = GroupKey {
                        check_id: r.check_id,
                        bucket: b,
                        name: ident.name.clone(),
                        kind: ident.kind,
                    };
                    proof {
                        assert(key_valid(checks@, key)) by {
                            assert(0 <= c < checks@.len() && checks@[c as int].id == key.check_id
                                && checks@[c as int].name@ == key.name@ && checks@[c as int].kind
                                == key.kind);
                        }
                    }
                    insert_key(&mut keys, checks, key);
                    proof {
                        assert forall|k: int| 0 <= k < keys@.len() implies exists|j: int|
                            0 <= j < i + 1 && in_group(
                                records@[j],
                                GroupSel {
                                    cid: (#[trigger] keys@[k]).check_id,
                                    bucket: keys@[k].bucket,
                                    width,
                                    start,
                                    end,
                                },
                            ) by {
                            if pre_keys.contains(keys@[k]) {
                                let m = choose|m: int|
                                    0 <= m < pre_keys.len() && pre_keys[m] == keys@[k];
                                let j = choose|j: int|
                                    0 <= j < i && in_group(
                                        records@[j],
                                        GroupSel {
                                            cid: pre_keys[m].check_id,
                                            bucket: pre_keys[m].bucket,
                                            width,
                                            start,
                                            end,
                                        },
                                    );
                                assert(0 <= j < i + 1 && in_group(
                                    records@[j],
                                    GroupSel {
                                        cid: keys@[k].check_id,
                                        bucket: keys@[k].bucket,
                                        width,
                                        start,
                                        end,
                                    },
                                ));
                            } else {
                                assert(keys@[k] == key);
                                assert(in_group(
                                    records@[i as int],
                                    GroupSel {
                                        cid: key.check_id,
                                        bucket: key.bucket,
                                        width,
                                        start,
                                        end,
                                    },
                                ));
                            }
                        }
                        assert forall|j: int|
                            0 <= j < i + 1 implies (in_window(
                            #[trigger] records@[j],
                            start,
                            end,
                        ) && (exists|c2: int|
                            0 <= c2 < checks@.len() && (#[trigger] checks@[c2]).id
                                == records@[j].check_id) ==> exists|k: int|
                            0 <= k < keys@.len() && (#[trigger] keys@[k]).check_id
                                == records@[j].check_id && keys@[k].bucket == bucket_spec(
                                records@[j].epoch,
                                width,
                            )) by {
                            if j < i {
                                if in_window(records@[j], start, end) && (exists|c2: int|
                                    0 <= c2 < checks@.len() && (#[trigger] checks@[c2]).id
                                        == records@[j].check_id) {
                                    let k0 = choose|k0: int|
                                        0 <= k0 < pre_keys.len() && (#[trigger] pre_keys[k0]).check_id
                                            == records@[j].check_id && pre_keys[k0].bucket
                                            == bucket_spec(records@[j].epoch, width);
                                    assert(keys@.contains(pre_keys[k0]));
                                    let k1 = choose|k1: int|
                                        0 <= k1 < keys@.len() && keys@[k1] == pre_keys[k0];
                                    assert(0 <= k1 < keys@.len() && keys@[k1].check_id
                                        == records@[j].check_id && keys@[k1].bucket == bucket_spec(
                                        records@[j].epoch,
                                        width,
                                    ));
                                }
                            }
                        }
                    }
                },
                None => {
                },
            }
        }
        i += 1;
    }
    let ghost all_keys = keys@;
    let mut rows: Vec<Rollup> = Vec::new();
    let mut k: usize = 0;
    while k < keys.len()
        invariant
            k <= keys@.len(),
            rows@.len() == k,
            forall|m: int|
                0 <= m < k ==> row_valid(checks@, records@, start, end, #[trigger] rows@[m]),
            forall|m: int|
                0 <= m < k ==> ({
                    &&& (#[trigger] rows@[m]).check_id == keys@[m].check_id
                    &&& rows@[m].bucket == keys@[m].bucket
                    &&& rows@[m].name@ == keys@[m].name@
                    &&& rows@[m].kind == keys@[m].kind
                }),
        decreases keys@.len() - k,
    {
        let key = &keys[k];
        let st = stats_for(records, key.check_id, key.bucket, width, start, end);
        let ghost sel = GroupSel { cid: key.check_id, bucket: key.bucket, width, start, end };
        proof {
            let j = choose|j: int| 0 <= j < records@.len() && in_group(records@[j], sel);
            lemma_member_count(records@, sel, j);
            lemma_minmax_absent(records@, sel);
            lemma_group_bounds(records@, sel);
        }
        let avg = if st.oks > 0 {
            proof {
                lemma_div_is_ordered(
                    st.sum as int,
                    st.oks as int * (u64::MAX as int),
                    st.oks as int,
                );
                lemma_div_by_multiple(u64::MAX as int, st.oks as int);
                assert(st.oks as int * (u64::MAX as int) == (u64::MAX as int) * (st.oks as int))
                    by (nonlinear_arith);
            }
            Some((st.sum / (st.oks as u128)) as u64)
        } else {
            None
        };
        rows.push(
            Rollup {
                check_id: key.check_id,
                name: key.name.clone(),
                kind: key.kind,
                bucket: key.bucket,
                min: st.min,
                avg,
                max: st.max,
                count: st.count,
                errs: st.errs,
            },
        );
        k += 1;
    }
    proof {
        assert forall|j: int| 0 <= j < records@.len() implies covered(
            records@,
            checks@,
            start,
            end,
            j,
            rows@,
        ) by {
            if in_window(records@[j], start, end) && (exists|c: int|
                0 <= c < checks@.len() && (#[trigger] checks@[c]).id == records@[j].check_id) {
                let k0 = choose|k0: int|
                    0 <= k0 < all_keys.len() && (#[trigger] all_keys[k0]).check_id
                        == records@[j].check_id && all_keys[k0].bucket == bucket_spec(
                        records@[j].epoch,
                        width,
                    );
                assert(rows@[k0].check_id == records@[j].check_id && rows@[k0].bucket
                    == bucket_spec(records@[j].epoch, width));
            }
        }
        assert forall|k: int| 0 <= k && k + 1 < rows@.len() implies row_lt(
            #[trigger] rows@[k],
            rows@[k + 1],
        ) by {
            assert(key_lt(all_keys[k], all_keys[k + 1]));
        }
        assert forall|k1: int, k2: int|
            0 <= k1 < k2 < rows@.len() implies !((#[trigger] rows@[k1]).check_id == (
        #[trigger] rows@[k2]).check_id && rows@[k1].bucket == rows@[k2].bucket) by {
            if rows@[k1].check_id == rows@[k2].check_id && rows@[k1].bucket == rows@[k2].bucket {
                lemma_rows_chain(rows@, k1, k2);
                let a = rows@[k1];
                let b = rows@[k2];
                let c1 = choose|c: int|
                    0 <= c < checks@.len() && (#[trigger] checks@[c]).id == a.check_id
                        && checks@[c].name@ == a.name@ && checks@[c].kind == a.kind;
                let c2 = choose|c: int|
                    0 <= c < checks@.len() && (#[trigger] checks@[c]).id == b.check_id
                        && checks@[c].name@ == b.name@ && checks@[c].kind == b.kind;
                if c1 < c2 {
                    assert(checks@[c1].id != checks@[c2].id);
                } else if c2 < c1 {
                    assert(checks@[c2].id != checks@[c1].id);
                }
                assert(a.name@ == b.name@ && a.kind == b.kind);
                lemma_triple_trichotomy(a.bucket, a.name@, a.kind, b.bucket, b.name@, b.kind);
                assert(false);
            }
        }
    }
    rows
}

/// A group no record falls into reports nothing: zero counts, no sum, no
/// extremes.
proof fn lemma_group_vacant(rs: Seq<Record>, sel: GroupSel)
    requires
        forall|m: int| 0 <= m < rs.len() ==> !in_group(#[trigger] rs[m], sel),
    ensures
        count_group(rs, sel) == 0,
        errs_group(rs, sel) == 0,
        oks_group(rs, sel) == 0,
        sum_group(rs, sel) == 0,
        min_group(rs, sel) is None,
        max_group(rs, sel) is None,
    decreases rs.len(),
{
    if rs.len() > 0 {
        assert(rs[rs.len() - 1] == rs.last());
        assert(forall|m: int| 0 <= m < rs.drop_last().len() ==> rs.drop_last()[m] == rs[m]);
        lemma_group_vacant(rs.drop_last(), sel);
    }
}

/// Round-trip: a recorded outcome is retrievable from the rollup with its
/// fields intact. When exactly one record of the log falls into a group at
/// 1-second resolution, that group's statistics are the record itself: the
/// bucket start is the record's epoch, a success appears as one counted
/// sample whose minimum, sum and maximum are its latency, and a failure
/// appears as one counted error with no latency statistics.
pub proof fn lemma_round_trip(log: Seq<Record>, j: int, sel: GroupSel)
    requires
        0 <= j < log.len(),
        in_group(log[j], sel),
        forall|m: int| 0 <= m < log.len() && m != j ==> !in_group(#[trigger] log[m], sel),
        sel.width == 1,
    ensures
        sel.bucket == log[j].epoch,
        sel.cid == log[j].check_id,
        count_group(log, sel) == 1,
        is_err_rec(log[j]) ==> errs_group(log, sel) == 1 && oks_group(log, sel) == 0 && min_group(
            log,
            sel,
        ) is None && max_group(log, sel) is None,
        log[j].err is None ==> (match log[j].ms {
            Some(v) => errs_group(log, sel) == 0 && oks_group(log, sel) == 1 && sum_group(log, sel)
                == v && min_group(log, sel) == Some(v) && max_group(log, sel) == Some(v),
            None => true,
        }),
    decreases log.len(),
{
    assert(log[j].epoch as int % 1int == 0) by (nonlinear_arith);
    if j == log.len() - 1 {
        assert(log.last() == log[j]);
        assert(forall|m: int| 0 <= m < log.drop_last().len() ==> log.drop_last()[m] == log[m]);
        lemma_group_vacant(log.drop_last(), sel);
    } else {
        assert(log.drop_last()[j] == log[j]);
        assert(forall|m: int|
            0 <= m < log.drop_last().len() && m != j ==> log.drop_last()[m] == log[m]);
        lemma_round_trip(log.drop_last(), j, sel);
        assert(log[log.len() - 1] == log.last());
    }
}

/// Answers a metrics query over the window `[start, end)`: an empty or
/// inverted window is rejected as `InvalidRange` — never silently swapped,
/// clamped, or answered with an empty success — and otherwise the
/// datastore's records are rolled up as [`rollup_rows`] states, with a
/// storage failure surfaced as `Storage`.
pub fn query(conn: &rusqlite::Connection, checks: &Vec<Identity>, start: u64, end: u64) -> (r:
    Result<Vec<Rollup>, QueryError>)
    requires
        identities_wf(checks@),
    ensures
        (end <= start) <==> (r matches Err(e) && e is InvalidRange),
        r matches Ok(rows) ==> ({
            &&& forall|k: int|
                0 <= k && k + 1 < rows@.len() ==> row_lt(#[trigger] rows@[k], rows@[k + 1])
            &&& forall|k: int|
                0 <= k < rows@.len() ==> exists|c: int|
                    0 <= c < checks@.len() && (#[trigger] checks@[c]).id == (
                    #[trigger] rows@[k]).check_id && checks@[c].name@ == rows@[k].name@
                        && checks@[c].kind == rows@[k].kind
            &&& forall|k1: int, k2: int|
                0 <= k1 < k2 < rows@.len() ==> !((#[trigger] rows@[k1]).check_id == (
                #[trigger] rows@[k2]).check_id && rows@[k1].bucket == rows@[k2].bucket)
            &&& forall|k: int| 0 <= k < rows@.len() ==> (#[trigger] rows@[k]).count > 0
        }),
{
    if end <= start {
        return Err(QueryError::InvalidRange);
    }
    let records = match crate::db::select_records(conn) {
        Ok(rs) => rs,
        Err(e) => {
            return Err(QueryError::Storage(e));
        },
    };
    Ok(rollup_rows(checks, &records, start, end))
}

} // verus!
