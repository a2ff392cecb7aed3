//! Shared pieces of the RFC dashboards: the two paged issue queries, and the
//! extraction of an issue's label timeline as a time-ordered event list.
//!
//! Timestamps are Unix seconds; the transport turns wire dates into them.

use vstd::prelude::*;

use crate::github;
use crate::github::PaginatedQuery;

verus! {

/// The paged query for issues with their labels.
pub struct IssuesWithLabelsQuery;

/// The paged query for issues with their labels and bodies.
pub struct IssuesWithLabelsAndBodyQuery;

/// Variables of both queries: repository, label filter, paging cursor.
pub struct RepoVariables {
    pub owner: String,
    pub name: String,
    pub labels: Vec<String>,
    pub after: Option<String>,
}

/// The timeline of labeling events attached to an issue.
pub struct TimelineItems {
    pub edges: Option<Vec<Option<TimelineEdge>>>,
}

/// One timeline edge; the node may be absent.
pub struct TimelineEdge {
    pub node: Option<TimelineEvent>,
}

/// One timeline event: a label applied or removed at some time, or any
/// other kind of event, which the dashboards ignore.
pub enum TimelineEvent {
    Labeled { at: i64, label: String },
    Unlabeled { at: i64, label: String },
    Other,
}

/// An issue of the labels query.
pub struct IssueNode {
    pub number: i64,
    pub title: String,
    pub created_at: i64,
    pub closed_at: Option<i64>,
    pub timeline_items: TimelineItems,
}

/// An issue of the labels-and-body query.
pub struct BodiedIssueNode {
    pub number: i64,
    pub title: String,
    pub body: String,
    pub created_at: i64,
    pub closed_at: Option<i64>,
    pub timeline_items: TimelineItems,
}

/// The response payloads of the two queries.
pub type IssuesResponseData = github::ResponseData<IssueNode>;

pub type BodiedIssuesResponseData = github::ResponseData<BodiedIssueNode>;

/// The character views of a variables value's fields other than the cursor.
pub open spec fn spec_repo_query(v: &RepoVariables) -> (Seq<char>, Seq<char>, Seq<Seq<char>>) {
    (v.owner@, v.name@, v.labels@.map_values(|s: String| s@))
}

impl PaginatedQuery for IssuesWithLabelsQuery {
    type Variables = RepoVariables;

    type ResponseData = IssuesResponseData;

    type Edge = Option<github::IssueEdge<IssueNode>>;

    open spec fn data_wf(data: &IssuesResponseData) -> bool {
        data.repository is Some
    }

    open spec fn spec_edges(data: &IssuesResponseData) -> Seq<
        Option<github::IssueEdge<IssueNode>>,
    > {
        github::spec_conn_edges(data)
    }

    open spec fn spec_page_info(data: &IssuesResponseData) -> (Option<Seq<char>>, bool) {
        github::spec_conn_page_info(data)
    }

    open spec fn spec_after(variables: &RepoVariables) -> Option<Seq<char>> {
        github::spec_opt_str(variables.after)
    }

    open spec fn same_query(a: &RepoVariables, b: &RepoVariables) -> bool {
        spec_repo_query(a) == spec_repo_query(b)
    }

    fn page_info(data: &IssuesResponseData) -> (r: github::PageInfo) {
        github::conn_page_info(data)
    }

    fn with_after(variables: &RepoVariables, after: Option<String>) -> (r: RepoVariables) {
        let r = RepoVariables {
            owner: variables.owner.clone(),
            name: variables.name.clone(),
            labels: clone_strings(&variables.labels),
            after,
        };
        r
    }

    fn merge_page(acc: &mut IssuesResponseData, page: IssuesResponseData) {
        github::conn_merge_page(acc, page);
    }
}

impl PaginatedQuery for IssuesWithLabelsAndBodyQuery {
    type Variables = RepoVariables;

    type ResponseData = BodiedIssuesResponseData;

    type Edge = Option<github::IssueEdge<BodiedIssueNode>>;

    open spec fn data_wf(data: &BodiedIssuesResponseData) -> bool {
        data.repository is Some
    }

    open spec fn spec_edges(data: &BodiedIssuesResponseData) -> Seq<
        Option<github::IssueEdge<BodiedIssueNode>>,
    > {
        github::spec_conn_edges(data)
    }

    open spec fn spec_page_info(data: &BodiedIssuesResponseData) -> (Option<Seq<char>>, bool) {
        github::spec_conn_page_info(data)
    }

    open spec fn spec_after(variables: &RepoVariables) -> Option<Seq<char>> {
        github::spec_opt_str(variables.after)
    }

    open spec fn same_query(a: &RepoVariables, b: &RepoVariables) -> bool {
        spec_repo_query(a) == spec_repo_query(b)
    }

    fn page_info(data: &BodiedIssuesResponseData) -> (r: github::PageInfo) {
        github::conn_page_info(data)
    }

    fn with_after(variables: &RepoVariables, after: Option<String>) -> (r: RepoVariables) {
        let r = RepoVariables {
            owner: variables.owner.clone(),
            name: variables.name.clone(),
            labels: clone_strings(&variables.labels),
            after,
        };
        r
    }

    fn merge_page(acc: &mut BodiedIssuesResponseData, page: BodiedIssuesResponseData) {
        github::conn_merge_page(acc, page);
    }
}

/// A copy of a string list with the same character views.
fn clone_strings(v: &Vec<String>) -> (r: Vec<String>)
    ensures
        r@.map_values(|s: String| s@) == v@.map_values(|s: String| s@),
{
    let mut r: Vec<String> = Vec::new();
    let mut i: usize = 0;
    while i < v.len()
        invariant
            i <= v@.len(),
            r@.len() == i,
            forall|k: int| 0 <= k < i ==> (#[trigger] r@[k])@ == v@[k]@,
        decreases v@.len() - i,
    {
        r.push(v[i].clone());
        i = i + 1;
    }
    proof {
        assert(r@.map_values(|s: String| s@) =~= v@.map_values(|s: String| s@));
    }
    r
}

/// A label vocabulary: how a dashboard reads its labels out of their names.
pub trait LabelParse: Sized {
    /// The label a name denotes, `None` for any other name.
    spec fn spec_parse(s: Seq<char>) -> Option<Self>;

    /// The label a name denotes, as `spec_parse` defines it.
    fn parse(s: &str) -> (r: Option<Self>)
        ensures
            r == Self::spec_parse(s@),
    ;
}

/// A recognized label applied to or removed from an issue at some time.
pub enum LabelEvent<L> {
    Applied { at: i64, label: L },
    Removed { at: i64, label: L },
}

/// The time of a label event.
pub open spec fn spec_event_at<L>(e: LabelEvent<L>) -> int {
    match e {
        LabelEvent::Applied { at, .. } => at as int,
        LabelEvent::Removed { at, .. } => at as int,
    }
}

/// The recognized label events of a timeline edge sequence, in timeline
/// order: applications and removals whose label the vocabulary knows.
pub open spec fn spec_events<L: LabelParse>(edges: Seq<Option<TimelineEdge>>) -> Seq<LabelEvent<L>>
    decreases edges.len(),
{
    if edges.len() == 0 {
        Seq::empty()
    } else {
        let rest = spec_events::<L>(edges.subrange(1, edges.len() as int));
        match spec_edge_event::<L>(edges[0]) {
            Option::Some(e) => seq![e] + rest,
            Option::None => rest,
        }
    }
}

/// The event one timeline edge contributes, if any.
pub open spec fn spec_edge_event<L: LabelParse>(edge: Option<TimelineEdge>) -> Option<
    LabelEvent<L>,
> {
    match edge {
        Option::None => Option::None,
        Option::Some(e) => match e.node {
            Option::None => Option::None,
            Option::Some(ev) => match ev {
                TimelineEvent::Labeled { at, label } => match L::spec_parse(label@) {
                    Option::Some(l) => Option::Some(LabelEvent::Applied { at, label: l }),
                    Option::None => Option::None,
                },
                TimelineEvent::Unlabeled { at, label } => match L::spec_parse(label@) {
                    Option::Some(l) => Option::Some(LabelEvent::Removed { at, label: l }),
                    Option::None => Option::None,
                },
                TimelineEvent::Other => Option::None,
            },
        },
    }
}

/// A sorted sequence with `e` inserted after every element of equal or
/// earlier time: the insertion step of a stable sort by time.
pub open spec fn spec_insert_event<L>(s: Seq<LabelEvent<L>>, e: LabelEvent<L>) -> Seq<
    LabelEvent<L>,
>
    decreases s.len(),
{
    if s.len() == 0 {
        seq![e]
    } else if spec_event_at(s.last()) <= spec_event_at(e) {
        s.push(e)
    } else {
        spec_insert_event(s.drop_last(), e).push(s.last())
    }
}

/// The stable sort of an event sequence by time: later events keep their
/// relative order when times are equal.
pub open spec fn spec_sort_events<L>(s: Seq<LabelEvent<L>>) -> Seq<LabelEvent<L>>
    decreases s.len(),
{
    if s.len() == 0 {
        Seq::empty()
    } else {
        spec_insert_event(spec_sort_events(s.drop_last()), s.last())
    }
}

/// Sorted by time, non-decreasing.
pub open spec fn spec_sorted_by_at<L>(s: Seq<LabelEvent<L>>) -> bool {
    forall|i: int, j: int| 0 <= i <= j < s.len() ==> spec_event_at(s[i]) <= spec_event_at(s[j])
}

/// Inserting at the position the scan finds is what [`spec_insert_event`]
/// computes.
proof fn lemma_insert_event_at<L>(s: Seq<LabelEvent<L>>, e: LabelEvent<L>, p: int)
    requires
        spec_sorted_by_at(s),
        0 <= p <= s.len(),
        forall|i: int| 0 <= i < p ==> spec_event_at(#[trigger] s[i]) <= spec_event_at(e),
        forall|i: int| p <= i < s.len() ==> spec_event_at(#[trigger] s[i]) > spec_event_at(e),
    ensures
        spec_insert_event(s, e) =~= s.subrange(0, p) + seq![e] + s.subrange(p, s.len() as int),
    decreases s.len(),
{
    if s.len() == 0 {
    } else if spec_event_at(s.last()) <= spec_event_at(e) {
        assert(p == s.len());
    } else {
        lemma_insert_event_at(s.drop_last(), e, p);
    }
}

/// The label events of a timeline, in time order; the stable sort keeps
/// same-time events in timeline order.
pub fn label_events_for<L: LabelParse>(timeline_items: TimelineItems) -> (r: Vec<LabelEvent<L>>)
    ensures
        r@ == spec_sort_events(spec_events::<L>(spec_timeline_edges(&timeline_items))),
{
    let ghost all = spec_timeline_edges(&timeline_items);
    let mut collected: Vec<LabelEvent<L>> = Vec::new();
    match timeline_items.edges {
        None => {
            proof {
                assert(all =~= Seq::<Option<TimelineEdge>>::empty());
            }
        },
        Some(edges) => {
            let n = edges.len();
            proof {
                assert(all == edges@);
                assert(all.subrange(0, n as int) =~= all);
                assert(collected@ + spec_events::<L>(all.subrange(0, n as int)) =~= spec_events::<
                    L,
                >(all));
            }
            let mut i: usize = 0;
            while i < n
                invariant
                    n == edges@.len(),
                    i <= n,
                    all == edges@,
                    collected@ + spec_events::<L>(all.subrange(i as int, n as int)) == spec_events::<
                        L,
                    >(all),
                decreases n - i,
            {
                let ghost rem = all.subrange(i as int, n as int);
                proof {
                    assert(rem[0] == all[i as int]);
                    assert(rem.subrange(1, rem.len() as int) =~= all.subrange(i + 1, n as int));
                }
                let ghost before = collected@;
                match &edges[i] {
                    None => {},
                    Some(edge) => match &edge.node {
                        None => {},
                        Some(ev) => match ev {
                            TimelineEvent::Labeled { at, label } => match L::parse(
                                label.as_str(),
                            ) {
                                Some(l) => collected.push(LabelEvent::Applied { at: *at, label: l }),
                                None => {},
                            },
                            TimelineEvent::Unlabeled { at, label } => match L::parse(
                                label.as_str(),
                            ) {
                                Some(l) => collected.push(LabelEvent::Removed { at: *at, label: l }),
                                None => {},
                            },
                            TimelineEvent::Other => {},
                        },
                    },
                }
                proof {
                    match spec_edge_event::<L>(all[i as int]) {
                        Option::Some(e) => {
                            assert(collected@ =~= before.push(e));
                            assert(before + (seq![e] + spec_events::<L>(
                                all.subrange(i + 1, n as int),
                            )) =~= collected@ + spec_events::<L>(all.subrange(i + 1, n as int)));
                        },
                        Option::None => {},
                    }
                }
                i = i + 1;
            }
            proof {
                assert(spec_events::<L>(all.subrange(n as int, n as int)) =~= Seq::<
                    LabelEvent<L>,
                >::empty());
                assert(collected@ + Seq::<LabelEvent<L>>::empty() =~= collected@);
            }
        },
    }
    sort_events(collected)
}

/// The timeline edges, none when the edge list is absent.
pub open spec fn spec_timeline_edges(t: &TimelineItems) -> Seq<Option<TimelineEdge>> {
    match t.edges {
        Option::Some(v) => v@,
        Option::None => Seq::empty(),
    }
}

/// Sorts events by time with a stable insertion sort, as
/// [`spec_sort_events`] defines it.
fn sort_events<L>(mut v: Vec<LabelEvent<L>>) -> (r: Vec<LabelEvent<L>>)
    ensures
        r@ == spec_sort_events(v@),
{
    let ghost input = v@;
    let mut out: Vec<LabelEvent<L>> = Vec::new();
    let ghost mut taken: int = 0;
    proof {
        assert(input.subrange(0, 0) =~= Seq::<LabelEvent<L>>::empty());
        assert(out@ =~= spec_sort_events(input.subrange(0, 0)));
    }
    while v.len() > 0
        invariant
            0 <= taken <= input.len(),
            v@ == input.subrange(taken, input.len() as int),
            out@ == spec_sort_events(input.subrange(0, taken)),
            spec_sorted_by_at(out@),
        decreases v@.len(),
    {
        let item = v.remove(0);
        proof {
            assert(item == input[taken]);
            assert(v@ =~= input.subrange(taken + 1, input.len() as int));
        }
        let e = event_time(&item);
        let mut p: usize = 0;
        while p < out.len() && event_time_ref(&out, p) <= e
            invariant
                p <= out@.len(),
                forall|k: int| 0 <= k < p ==> spec_event_at(#[trigger] out@[k]) <= e,
                e == spec_event_at(item),
                spec_sorted_by_at(out@),
            decreases out@.len() - p,
        {
            p = p + 1;
        }
        proof {
            assert(forall|k: int|
                p <= k < out@.len() ==> spec_event_at(#[trigger] out@[k]) > e) by {
                assert forall|k: int| p <= k < out@.len() implies spec_event_at(
                    #[trigger] out@[k],
                ) > e by {
                    if p < out@.len() {
                        assert(spec_event_at(out@[p as int]) > e);
                        assert(spec_event_at(out@[p as int]) <= spec_event_at(out@[k]));
                    }
                }
            }
            lemma_insert_event_at(out@, item, p as int);
        }
        let ghost prior = out@;
        out.insert(p, item);
        proof {
            assert(out@ =~= prior.subrange(0, p as int) + seq![item] + prior.subrange(
                p as int,
                prior.len() as int,
            ));
            assert(input.subrange(0, taken + 1).drop_last() =~= input.subrange(0, taken));
            assert(input.subrange(0, taken + 1).last() == input[taken]);
            assert(out@ == spec_insert_event(prior, item));
            assert(spec_sorted_by_at(out@)) by {
                assert(forall|k: int|
                    0 <= k < out@.len() ==> spec_event_at(#[trigger] out@[k]) == (if k < p {
                        spec_event_at(prior[k])
                    } else if k == p {
                        spec_event_at(item)
                    } else {
                        spec_event_at(prior[k - 1])
                    }));
            }
            taken = taken + 1;
        }
    }
    proof {
        assert(input.subrange(0, input.len() as int) =~= input);
        assert(taken == input.len());
    }
    out
}

/// One bar of the completion histogram: how many items completed within
/// `label` months.
#[derive(Clone, Copy, Debug, PartialEq, Eq, Structural)]
pub struct Bucket {
    pub label: u32,
    pub count: u64,
}

/// Summary of the completion histogram.
#[derive(Clone, Copy, Debug, PartialEq, Eq, Structural)]
pub struct HistogramStats {
    pub median: u32,
}

/// The month spans of a list of `(start, end)` ranges, in order; `None`
/// when any span cannot be computed.
pub open spec fn spec_months_list(ranges: Seq<(i64, i64)>) -> Option<Seq<u32>>
    decreases ranges.len(),
{
    if ranges.len() == 0 {
        Option::Some(Seq::empty())
    } else {
        match crate::dates::spec_months_open(ranges[0].0 as int, ranges[0].1 as int) {
            Option::None => Option::None,
            Option::Some(m) => match spec_months_list(ranges.subrange(1, ranges.len() as int)) {
                Option::None => Option::None,
                Option::Some(rest) => Option::Some(seq![m] + rest),
            },
        }
    }
}

/// How many entries equal `b`.
pub open spec fn spec_count_eq(ms: Seq<u32>, b: int) -> int
    decreases ms.len(),
{
    if ms.len() == 0 {
        0
    } else {
        spec_count_eq(ms.drop_last(), b) + (if ms.last() as int == b {
            1int
        } else {
            0int
        })
    }
}

/// The largest entry of a non-empty list.
pub open spec fn spec_max(ms: Seq<u32>) -> int
    decreases ms.len(),
{
    if ms.len() <= 1 {
        ms[0] as int
    } else if ms.last() as int > spec_max(ms.drop_last()) {
        ms.last() as int
    } else {
        spec_max(ms.drop_last())
    }
}

/// The median scan over labels `l..=top`: the reported median is the last
/// label up to which the cumulative count stays within half the total.
pub open spec fn spec_median_scan(
    ms: Seq<u32>,
    mc: int,
    l: int,
    top: int,
    median: int,
    acc: int,
) -> int
    decreases top + 1 - l,
{
    if l > top {
        median
    } else {
        let nc = acc + spec_count_eq(ms, l);
        if nc > mc {
            spec_median_scan(ms, mc, l + 1, top, median, nc)
        } else {
            spec_median_scan(ms, mc, l + 1, top, l, nc)
        }
    }
}

/// The completion histogram of a list of ranges: one bucket per month span
/// from zero to the largest seen, and the median span.
pub open spec fn spec_histogram(ranges: Seq<(i64, i64)>) -> Option<(Seq<Bucket>, u32)> {
    match spec_months_list(ranges) {
        Option::None => Option::None,
        Option::Some(ms) => {
            if ms.len() == 0 {
                Option::Some((Seq::<Bucket>::empty(), 0u32))
            } else {
                let top = spec_max(ms);
                let buckets = Seq::new(
                    (top + 1) as nat,
                    |b: int| (Bucket { label: b as u32, count: spec_count_eq(ms, b) as u64 }),
                );
                Option::Some(
                    (buckets, spec_median_scan(ms, ms.len() as int / 2, 0, top, 0, 0) as u32),
                )
            }
        },
    }
}

/// Every entry is at most the maximum.
proof fn lemma_max_ge(ms: Seq<u32>, k: int)
    requires
        ms.len() > 0,
        0 <= k < ms.len(),
    ensures
        ms[k] as int <= spec_max(ms),
    decreases ms.len(),
{
    if ms.len() <= 1 {
    } else if k == ms.len() - 1 {
    } else {
        lemma_max_ge(ms.drop_last(), k);
    }
}

/// A count is never larger than the list it counts in.
proof fn lemma_count_eq_le(ms: Seq<u32>, b: int)
    ensures
        0 <= spec_count_eq(ms, b) <= ms.len(),
    decreases ms.len(),
{
    if ms.len() > 0 {
        lemma_count_eq_le(ms.drop_last(), b);
    }
}

/// Computes the completion histogram, as [`spec_histogram`] defines it:
/// `None` exactly when some range's month span cannot be computed.
pub fn completion_months_histogram(ranges: &Vec<(i64, i64)>) -> (r: Option<
    (Vec<Bucket>, HistogramStats),
>)
    requires
        forall|i: int|
            0 <= i < ranges@.len() ==> crate::dates::spec_ts_ok((#[trigger] ranges@[i]).0 as int)
                && crate::dates::spec_ts_ok(ranges@[i].1 as int),
    ensures
        match r {
            Option::Some(pair) => spec_histogram(ranges@) == Option::Some(
                (pair.0@, pair.1.median),
            ),
            Option::None => spec_histogram(ranges@) is None,
        },
{
    let n = ranges.len();
    let mut ms: Vec<u32> = Vec::new();
    proof {
        assert(ranges@.subrange(0, n as int) =~= ranges@);
    }
    let mut i: usize = 0;
    while i < n
        invariant
            n == ranges@.len(),
            i <= n,
            forall|k: int|
                0 <= k < ranges@.len() ==> crate::dates::spec_ts_ok(
                    (#[trigger] ranges@[k]).0 as int,
                ) && crate::dates::spec_ts_ok(ranges@[k].1 as int),
            ms@.len() == i,
            forall|k: int| 0 <= k < i ==> (#[trigger] ms@[k]) <= 7_300_000,
            spec_months_list(ranges@) == (match spec_months_list(
                ranges@.subrange(i as int, n as int),
            ) {
                Option::None => Option::<Seq<u32>>::None,
                Option::Some(rest) => Option::Some(ms@ + rest),
            }),
        decreases n - i,
    {
        let ghost rem = ranges@.subrange(i as int, n as int);
        proof {
            assert(rem[0] == ranges@[i as int]);
            assert(rem.subrange(1, rem.len() as int) =~= ranges@.subrange(i + 1, n as int));
        }
        let (start, end) = ranges[i];
        match crate::dates::months_open(start, end) {
            None => {
                return None;
            },
            Some(m) => {
                let ghost before = ms@;
                ms.push(m);
                proof {
                    match spec_months_list(ranges@.subrange(i + 1, n as int)) {
                        Option::None => {},
                        Option::Some(rest) => {
                            assert(before + (seq![m] + rest) =~= ms@ + rest);
                        },
                    }
                }
            },
        }
        i = i + 1;
    }
    proof {
        assert(spec_months_list(ranges@.subrange(n as int, n as int)) == Option::Some(
            Seq::<u32>::empty(),
        ));
        assert(ms@ + Seq::<u32>::empty() =~= ms@);
    }
    let ghost months = ms@;

    if ms.len() == 0 {
        let empty: Vec<Bucket> = Vec::new();
        proof {
            assert(empty@ =~= Seq::<Bucket>::empty());
        }
        return Some((empty, HistogramStats { median: 0 }));
    }

    // The largest span.
    let mn = ms.len();
    let mut top: u32 = ms[0];
    proof {
        assert(months.subrange(0, 1).len() == 1);
        assert(months.subrange(0, 1)[0] == months[0]);
        assert(top as int == spec_max(months.subrange(0, 1)));
    }
    let mut j: usize = 1;
    while j < mn
        invariant
            mn == months.len(),
            ms@ == months,
            1 <= j <= mn,
            forall|k: int| 0 <= k < months.len() ==> (#[trigger] months[k]) <= 7_300_000,
            top as int == spec_max(months.subrange(0, j as int)),
            top <= 7_300_000,
        decreases mn - j,
    {
        proof {
            assert(months.subrange(0, j + 1).drop_last() =~= months.subrange(0, j as int));
            assert(months.subrange(0, j + 1).last() == months[j as int]);
        }
        if ms[j] > top {
            top = ms[j];
        }
        j = j + 1;
    }
    proof {
        assert(months.subrange(0, mn as int) =~= months);
    }

    // One counter per month span up to the largest.
    let size = (top as usize) + 1;
    let mut counts: Vec<u64> = Vec::new();
    let mut b: usize = 0;
    while b < size
        invariant
            size == top as int + 1,
            b <= size,
            counts@.len() == b,
            forall|k: int| 0 <= k < b ==> counts@[k] == 0u64,
        decreases size - b,
    {
        counts.push(0);
        b = b + 1;
    }
    proof {
        assert(forall|k: int|
            0 <= k < size ==> #[trigger] counts@[k] as int == spec_count_eq(
                months.subrange(0, 0),
                k,
            ));
        assert(forall|k: int| 0 <= k < months.len() ==> (#[trigger] months[k]) as int <= spec_max(
            months,
        )) by {
            assert forall|k: int| 0 <= k < months.len() implies (#[trigger] months[k]) as int
                <= spec_max(months) by {
                lemma_max_ge(months, k);
            }
        }
    }
    let mut j2: usize = 0;
    while j2 < mn
        invariant
            mn == months.len(),
            ms@ == months,
            j2 <= mn,
            counts@.len() == top as int + 1,
            forall|k: int| 0 <= k < months.len() ==> (#[trigger] months[k]) <= top,
            forall|k: int|
                0 <= k < counts@.len() ==> #[trigger] counts@[k] as int == spec_count_eq(
                    months.subrange(0, j2 as int),
                    k,
                ),
        decreases mn - j2,
    {
        proof {
            assert(months.subrange(0, j2 + 1).drop_last() =~= months.subrange(0, j2 as int));
            assert(months.subrange(0, j2 + 1).last() == months[j2 as int]);
            lemma_count_eq_le(months.subrange(0, j2 as int), months[j2 as int] as int);
        }
        let m = ms[j2];
        let cur = counts[m as usize];
        counts.set(m as usize, cur + 1);
        j2 = j2 + 1;
    }
    proof {
        assert(months.subrange(0, mn as int) =~= months);
    }

    // The buckets, and the median scan.
    let mut buckets: Vec<Bucket> = Vec::new();
    let mut l: usize = 0;
    while l < size
        invariant
            size == top as int + 1,
            counts@.len() == size,
            forall|k: int|
                0 <= k < counts@.len() ==> #[trigger] counts@[k] as int == spec_count_eq(
                    months,
                    k,
                ),
            l <= size,
            buckets@.len() == l,
            top <= 7_300_000,
            forall|k: int|
                0 <= k < l ==> #[trigger] buckets@[k] == (Bucket {
                    label: k as u32,
                    count: spec_count_eq(months, k) as u64,
                }),
        decreases size - l,
    {
        buckets.push(Bucket { label: l as u32, count: counts[l] });
        l = l + 1;
    }

    let median_count: u64 = (ms.len() as u64) / 2;
    let mut median: u32 = 0;
    let mut acc: u128 = 0;
    let mut l2: usize = 0;
    while l2 < size
        invariant
            size == top as int + 1,
            counts@.len() == size,
            mn == months.len(),
            forall|k: int|
                0 <= k < counts@.len() ==> #[trigger] counts@[k] as int == spec_count_eq(
                    months,
                    k,
                ),
            l2 <= size,
            top <= 7_300_000,
            median_count == months.len() / 2,
            acc <= l2 * 0xffff_ffff_ffff_ffff,
            spec_median_scan(months, median_count as int, 0, top as int, 0, 0)
                == spec_median_scan(
                months,
                median_count as int,
                l2 as int,
                top as int,
                median as int,
                acc as int,
            ),
        decreases size - l2,
    {
        proof {
            lemma_count_eq_le(months, l2 as int);
            assert((l2 as int) * 0xffff_ffff_ffff_ffff + 0xffff_ffff_ffff_ffff == (l2 as int + 1)
                * 0xffff_ffff_ffff_ffff) by (nonlinear_arith);
            assert((l2 as int + 1) * 0xffff_ffff_ffff_ffff <= 7_300_002
                * 0xffff_ffff_ffff_ffff) by (nonlinear_arith)
                requires
                    l2 as int + 1 <= 7_300_002,
            ;
        }
        let c = counts[l2];
        let nc = acc + (c as u128);
        if nc > median_count as u128 {
        } else {
            median = l2 as u32;
        }
        acc = nc;
        l2 = l2 + 1;
    }

    proof {
        assert(buckets@ =~= Seq::new(
            (top as int + 1) as nat,
            |bb: int| (Bucket { label: bb as u32, count: spec_count_eq(months, bb) as u64 }),
        ));
    }
    Some((buckets, HistogramStats { median }))
}

/// The time of one event.
fn event_time<L>(e: &LabelEvent<L>) -> (r: i64)
    ensures
        r as int == spec_event_at(*e),
{
    match e {
        LabelEvent::Applied { at, .. } => *at,
        LabelEvent::Removed { at, .. } => *at,
    }
}

/// The time of the event at one position.
fn event_time_ref<L>(v: &Vec<LabelEvent<L>>, p: usize) -> (r: i64)
    requires
        p < v@.len(),
    ensures
        r as int == spec_event_at(v@[p as int]),
{
    event_time(&v[p])
}

} // verus!
