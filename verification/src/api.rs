//! The metrics answer handed to the API layer: rollup buckets regrouped
//! into one series per check, and the request-level error shape.

use crate::check::Kind;
use crate::db::StoreError;
use crate::rollup::{QueryError, Rollup};
use vstd::prelude::*;

verus! {

/// What a metrics answer says about itself: the bucket width used and the
/// window answered.
#[derive(Clone, Copy, Debug, PartialEq, Eq, Structural)]
pub struct Meta {
    pub res: u64,
    pub start: u64,
    pub end: u64,
}

/// One bucket of one series: the bucket start and the bucket's statistics.
/// Latency statistics are absent when the bucket holds no successful
/// sample.
#[derive(Clone, Debug)]
pub struct TimeValue {
    pub ts: u64,
    pub count: usize,
    pub errs: usize,
    pub avg: Option<u64>,
    pub min: Option<u64>,
    pub max: Option<u64>,
}

/// The buckets of one check, in bucket order.
#[derive(Clone, Debug)]
pub struct Series {
    pub kind: Kind,
    pub name: String,
    pub values: Vec<TimeValue>,
}

/// A metrics answer: the query's meta data and one series per check that
/// had any bucket in the window.
#[derive(Clone, Debug)]
pub struct Metrics {
    pub meta: Meta,
    pub series: Vec<Series>,
}

/// A request-level error: a message and a coarse kind tag.
#[derive(Clone, Debug)]
pub struct Error {
    pub msg: String,
    pub kind: String,
}

/// The bucket a rollup row contributes to its series.
pub open spec fn tv_of_row(row: Rollup) -> TimeValue {
    TimeValue {
        ts: row.bucket,
        count: row.count,
        errs: row.errs,
        avg: row.avg,
        min: row.min,
        max: row.max,
    }
}

/// The values of one `(name, kind)` series: the buckets of the rows that
/// carry that name and kind, in row order.
pub open spec fn series_values(rows: Seq<Rollup>, name: Seq<char>, kind: Kind) -> Seq<TimeValue>
    decreases rows.len(),
{
    if rows.len() == 0 {
        Seq::empty()
    } else if rows.last().name@ == name && rows.last().kind == kind {
        series_values(rows.drop_last(), name, kind).push(tv_of_row(rows.last()))
    } else {
        series_values(rows.drop_last(), name, kind)
    }
}

/// The first series carrying `(name, kind)`, if any.
pub open spec fn series_pos(s: Seq<Series>, name: Seq<char>, kind: Kind) -> Option<int>
    decreases s.len(),
{
    if s.len() == 0 {
        None
    } else if s[0].name@ == name && s[0].kind == kind {
        Some(0)
    } else {
        match series_pos(s.skip(1), name, kind) {
            Some(i) => Some(i + 1),
            None => None,
        }
    }
}

/// A found position is in range and matches; a miss means no series
/// matches.
proof fn lemma_series_pos(s: Seq<Series>, name: Seq<char>, kind: Kind)
    ensures
        series_pos(s, name, kind) matches Some(i) ==> 0 <= i < s.len() && s[i].name@ == name
            && s[i].kind == kind,
        series_pos(s, name, kind) is None ==> forall|m: int|
            0 <= m < s.len() ==> !((#[trigger] s[m]).name@ == name && s[m].kind == kind),
    decreases s.len(),
{
    if s.len() > 0 {
        lemma_series_pos(s.skip(1), name, kind);
        if series_pos(s, name, kind) is None {
            assert forall|m: int|
                0 <= m < s.len() implies !((#[trigger] s[m]).name@ == name && s[m].kind
                == kind) by {
                if m > 0 {
                    assert(s.skip(1)[m - 1] == s[m]);
                }
            }
        } else {
            if !(s[0].name@ == name && s[0].kind == kind) {
                let i0 = series_pos(s.skip(1), name, kind)->Some_0;
                assert(s.skip(1)[i0] == s[i0 + 1]);
            }
        }
    }
}

/// Appending one row extends exactly the series the row belongs to, by the
/// row's bucket.
proof fn lemma_series_step(rows: Seq<Rollup>, j: int, name: Seq<char>, kind: Kind)
    requires
        0 <= j < rows.len(),
    ensures
        series_values(rows.take(j + 1), name, kind) == if rows[j].name@ == name && rows[j].kind
            == kind {
            series_values(rows.take(j), name, kind).push(tv_of_row(rows[j]))
        } else {
            series_values(rows.take(j), name, kind)
        },
{
    assert(rows.take(j + 1).drop_last() =~= rows.take(j));
    assert(rows.take(j + 1).last() == rows[j]);
}

/// Within one series of a sorted rollup, buckets strictly ascend: when the
/// rows stand in the output order `(bucket, name, kind)`, the values of
/// any one `(name, kind)` series keep strictly ascending bucket starts,
/// and the series' last value is the bucket of its last row.
pub proof fn lemma_series_buckets_ascend(rows: Seq<Rollup>, name: Seq<char>, kind: Kind)
    requires
        forall|k: int|
            0 <= k && k + 1 < rows.len() ==> crate::rollup::row_lt(#[trigger] rows[k], rows[k + 1]),
    ensures
        forall|v: int|
            0 <= v && v + 1 < series_values(rows, name, kind).len() ==> (#[trigger] series_values(
                rows,
                name,
                kind,
            )[v]).ts < series_values(rows, name, kind)[v + 1].ts,
        series_values(rows, name, kind).len() > 0 ==> exists|i: int|
            0 <= i < rows.len() && (#[trigger] rows[i]).name@ == name && rows[i].kind == kind
                && series_values(rows, name, kind).last() == tv_of_row(rows[i]),
    decreases rows.len(),
{
    if rows.len() > 0 {
        let dl = rows.drop_last();
        assert forall|k: int|
            0 <= k && k + 1 < dl.len() implies crate::rollup::row_lt(
            #[trigger] dl[k],
            dl[k + 1],
        ) by {
            assert(dl[k] == rows[k]);
            assert(dl[k + 1] == rows[k + 1]);
        }
        lemma_series_buckets_ascend(dl, name, kind);
        let sv = series_values(rows, name, kind);
        let svd = series_values(dl, name, kind);
        assert(rows[rows.len() - 1] == rows.last());
        if rows.last().name@ == name && rows.last().kind == kind {
            if svd.len() > 0 {
                let i = choose|i: int|
                    0 <= i < dl.len() && (#[trigger] dl[i]).name@ == name && dl[i].kind == kind
                        && svd.last() == tv_of_row(dl[i]);
                assert(dl[i] == rows[i]);
                crate::rollup::lemma_rows_chain(rows, i, rows.len() - 1);
                crate::text::lemma_chars_lt_trichotomy(name, name);
                assert(rows[i].bucket < rows.last().bucket);
            }
            assert forall|v: int| 0 <= v && v + 1 < sv.len() implies (#[trigger] sv[v]).ts < sv[v
                + 1].ts by {
                if v + 1 < svd.len() {
                    assert(sv[v] == svd[v]);
                    assert(sv[v + 1] == svd[v + 1]);
                } else {
                    assert(sv[v] == svd.last());
                    assert(sv[v + 1] == tv_of_row(rows.last()));
                }
            }
            assert(sv.last() == tv_of_row(rows[rows.len() - 1]));
        } else {
            if sv.len() > 0 {
                let i = choose|i: int|
                    0 <= i < dl.len() && (#[trigger] dl[i]).name@ == name && dl[i].kind == kind
                        && svd.last() == tv_of_row(dl[i]);
                assert(rows[i] == dl[i]);
            }
        }
    }
}

/// A series no row belongs to is empty.
proof fn lemma_series_vacant(rows: Seq<Rollup>, name: Seq<char>, kind: Kind)
    requires
        forall|j: int|
            0 <= j < rows.len() ==> !((#[trigger] rows[j]).name@ == name && rows[j].kind == kind),
    ensures
        series_values(rows, name, kind) == Seq::<TimeValue>::empty(),
    decreases rows.len(),
{
    if rows.len() > 0 {
        assert(rows[rows.len() - 1] == rows.last());
        assert(forall|j: int| 0 <= j < rows.drop_last().len() ==> rows.drop_last()[j] == rows[j]);
        lemma_series_vacant(rows.drop_last(), name, kind);
    }
}

impl Metrics {
    /// The position of the `(name, kind)` series, scanning in order.
    fn find_pos(&self, name: &str, kind: Kind) -> (r: Option<usize>)
        ensures
            r matches Some(u) ==> series_pos(self.series@, name@, kind) == Some(u as int),
            r is None ==> series_pos(self.series@, name@, kind) is None,
    {
        let mut i: usize = 0;
        proof {
            assert(self.series@.skip(0) =~= self.series@);
        }
        while i < self.series.len()
            invariant
                i <= self.series@.len(),
                series_pos(self.series@, name@, kind) == match series_pos(
                    self.series@.skip(i as int),
                    name@,
                    kind,
                ) {
                    Some(p) => Some(p + i),
                    None => None::<int>,
                },
            decreases self.series@.len() - i,
        {
            proof {
                assert(self.series@.skip(i as int)[0] == self.series@[i as int]);
                assert(self.series@.skip(i as int).skip(1) =~= self.series@.skip(i + 1));
            }
            let s = &self.series[i];
            if crate::text::str_eq(s.name.as_str(), name) && s.kind == kind {
                return Some(i);
            }
            i += 1;
        }
        proof {
            assert(self.series@.skip(i as int).len() == 0);
        }
        None
    }

    /// The series of `(name, kind)`, created empty at the end of the list
    /// when absent.
    pub fn get_mut(&mut self, name: &str, kind: Kind) -> (ret: &mut Series)
        ensures
            final(self).meta == old(self).meta,
            match series_pos(old(self).series@, name@, kind) {
                Some(i) => (*ret) == old(self).series@[i] && final(self).series@ == old(
                    self,
                ).series@.update(i, *final(ret)),
                None => (*ret).kind == kind && (*ret).name@ == name@ && (*ret).values@ == Seq::<
                    TimeValue,
                >::empty() && final(self).series@ == old(self).series@.push(*final(ret)),
            },
    {
        proof {
            lemma_series_pos(old(self).series@, name@, kind);
        }
        let idx: usize = match self.find_pos(name, kind) {
            Some(i) => i,
            None => {
                let series = Series { kind, name: name.to_owned(), values: Vec::new() };
                self.series.push(series);
                self.series.len() - 1
            },
        };
        proof {
            let ghost mid = self.series@;
            if series_pos(old(self).series@, name@, kind) is None {
                assert forall|v: Series| #[trigger]
                    mid.update(idx as int, v) == old(self).series@.push(v) by {
                    assert(mid.update(idx as int, v) =~= old(self).series@.push(v));
                }
            }
        }
        &mut self.series[idx]
    }

    /// Regroups sorted rollup buckets into one series per check: each
    /// series holds, in order, exactly the buckets of the rows carrying
    /// its name and kind; no two series share a key; and every row's key
    /// has its series.
    pub fn from_rollups(rows: &Vec<Rollup>, meta: Meta) -> (r: Metrics)
        ensures
            r.meta == meta,
            forall|m: int|
                0 <= m < r.series@.len() ==> (#[trigger] r.series@[m]).values@ == series_values(
                    rows@,
                    r.series@[m].name@,
                    r.series@[m].kind,
                ),
            forall|m1: int, m2: int|
                0 <= m1 < m2 < r.series@.len() ==> !((#[trigger] r.series@[m1]).name@ == (
                #[trigger] r.series@[m2]).name@ && r.series@[m1].kind == r.series@[m2].kind),
            forall|j: int|
                0 <= j < rows@.len() ==> exists|m: int|
                    0 <= m < r.series@.len() && (#[trigger] r.series@[m]).name@ == (
                    #[trigger] rows@[j]).name@ && r.series@[m].kind == rows@[j].kind,
    {
        let mut out = Metrics { meta, series: Vec::new() };
        let mut i: usize = 0;
        while i < rows.len()
            invariant
                i <= rows@.len(),
                out.meta == meta,
                forall|m: int|
                    0 <= m < out.series@.len() ==> (#[trigger] out.series@[m]).values@
                        == series_values(
                        rows@.take(i as int),
                        out.series@[m].name@,
                        out.series@[m].kind,
                    ),
                forall|m1: int, m2: int|
                    0 <= m1 < m2 < out.series@.len() ==> !((#[trigger] out.series@[m1]).name@ == (
                    #[trigger] out.series@[m2]).name@ && out.series@[m1].kind
                        == out.series@[m2].kind),
                forall|j: int|
                    0 <= j < i ==> exists|m: int|
                        0 <= m < out.series@.len() && (#[trigger] out.series@[m]).name@ == (
                        #[trigger] rows@[j]).name@ && out.series@[m].kind == rows@[j].kind,
            decreases rows@.len() - i,
        {
            let ghost pre = out.series@;
            let row = &rows[i];
            proof {
                lemma_series_pos(pre, row.name@, row.kind);
                lemma_series_step(rows@, i as int, row.name@, row.kind);
            }
            let tv = TimeValue {
                ts: row.bucket,
                count: row.count,
                errs: row.errs,
                avg: row.avg,
                min: row.min,
                max: row.max,
            };
            let s = out.get_mut(row.name.as_str(), row.kind);
            s.values.push(tv);
            proof {
                let post = out.series@;
                match series_pos(pre, row.name@, row.kind) {
                    Some(p) => {
                        assert forall|m: int|
                            0 <= m < post.len() implies (#[trigger] post[m]).values@
                            == series_values(
                            rows@.take(i + 1),
                            post[m].name@,
                            post[m].kind,
                        ) by {
                            if m != p {
                                assert(post[m] == pre[m]);
                                lemma_series_step(rows@, i as int, post[m].name@, post[m].kind);
                                if post[m].name@ == row.name@ && post[m].kind == row.kind {
                                    assert(false);
                                }
                            } else {
                                lemma_series_step(rows@, i as int, post[m].name@, post[m].kind);
                            }
                        }
                        assert forall|j: int|
                            0 <= j < i + 1 implies exists|m: int|
                            0 <= m < post.len() && (#[trigger] post[m]).name@ == (
                            #[trigger] rows@[j]).name@ && post[m].kind == rows@[j].kind by {
                            if j < i {
                                let m0 = choose|m0: int|
                                    0 <= m0 < pre.len() && (#[trigger] pre[m0]).name@
                                        == rows@[j].name@ && pre[m0].kind == rows@[j].kind;
                                if m0 == p {
                                    assert(post[p].name@ == pre[p].name@ && post[p].kind
                                        == pre[p].kind);
                                } else {
                                    assert(post[m0] == pre[m0]);
                                }
                            } else {
                                assert(post[p].name@ == rows@[j].name@ && post[p].kind
                                    == rows@[j].kind);
                            }
                        }
                    },
                    None => {
                        let p = pre.len() as int;
                        assert(post[p].name@ == row.name@ && post[p].kind == row.kind);
                        assert forall|m: int|
                            0 <= m < post.len() implies (#[trigger] post[m]).values@
                            == series_values(
                            rows@.take(i + 1),
                            post[m].name@,
                            post[m].kind,
                        ) by {
                            if m < p {
                                assert(post[m] == pre[m]);
                                lemma_series_step(rows@, i as int, post[m].name@, post[m].kind);
                                if post[m].name@ == row.name@ && post[m].kind == row.kind {
                                    assert(false);
                                }
                            } else {
                                lemma_series_step(rows@, i as int, post[m].name@, post[m].kind);
                                assert(series_values(rows@.take(i as int), row.name@, row.kind)
                                    == Seq::<TimeValue>::empty()) by {
                                    assert forall|j: int|
                                        0 <= j < rows@.take(i as int).len() implies !((
                                        #[trigger] rows@.take(i as int)[j]).name@ == row.name@
                                        && rows@.take(i as int)[j].kind == row.kind) by {
                                        if rows@[j].name@ == row.name@ && rows@[j].kind
                                            == row.kind {
                                            let m0 = choose|m0: int|
                                                0 <= m0 < pre.len() && (#[trigger] pre[m0]).name@
                                                    == rows@[j].name@ && pre[m0].kind
                                                    == rows@[j].kind;
                                            assert(false);
                                        }
                                    }
                                    lemma_series_vacant(rows@.take(i as int), row.name@, row.kind);
                                }
                            }
                        }
                        assert forall|j: int|
                            0 <= j < i + 1 implies exists|m: int|
                            0 <= m < post.len() && (#[trigger] post[m]).name@ == (
                            #[trigger] rows@[j]).name@ && post[m].kind == rows@[j].kind by {
                            if j < i {
                                let m0 = choose|m0: int|
                                    0 <= m0 < pre.len() && (#[trigger] pre[m0]).name@
                                        == rows@[j].name@ && pre[m0].kind == rows@[j].kind;
                                assert(post[m0] == pre[m0]);
                            } else {
                                assert(post[p].name@ == rows@[j].name@ && post[p].kind
                                    == rows@[j].kind);
                            }
                        }
                        assert forall|m1: int, m2: int|
                            0 <= m1 < m2 < post.len() implies !((#[trigger] post[m1]).name@ == (
                        #[trigger] post[m2]).name@ && post[m1].kind == post[m2].kind) by {
                            if m2 < p {
                                assert(post[m1] == pre[m1]);
                                assert(post[m2] == pre[m2]);
                            } else {
                                assert(m2 == p);
                                assert(post[m1] == pre[m1]);
                            }
                        }
                    },
                }
            }
            i += 1;
        }
        proof {
            assert(rows@.take(rows@.len() as int) =~= rows@);
        }
        out
    }
}

/// The request-level shape of a failed query: the invalid window is the
/// caller's fault; everything else is the server's.
pub fn error_response(e: &QueryError) -> (r: (u16, Error))
    ensures
        e is InvalidRange ==> r.0 == 400 && r.1.msg@ == "end date must be after start date"@
            && r.1.kind@ == "invalid_range"@,
        e matches QueryError::Storage(s) ==> r.0 == 500 && r.1.kind@ == "storage"@ && (match s {
            StoreError::Failed(m) => r.1.msg@ == m@,
            StoreError::Conflict => r.1.msg@ == "conflict"@,
        }),
{
    match e {
        QueryError::InvalidRange => (
            400,
            Error {
                msg: "end date must be after start date".to_owned(),
                kind: "invalid_range".to_owned(),
            },
        ),
        QueryError::Storage(s) => {
            let msg = match s {
                StoreError::Failed(m) => m.clone(),
                StoreError::Conflict => "conflict".to_owned(),
            };
            (500, Error { msg, kind: "storage".to_owned() })
        },
    }
}

} // verus!
