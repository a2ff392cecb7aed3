//! The proposal dashboard's data reduction: each proposal walks a small
//! state machine driven by its label events, every transition contributes a
//! per-day delta, and the deltas accumulate into a day-by-day census of
//! proposals per state, together with the open and closed proposal lists.
//!
//! The census arithmetic is checked: on inputs whose counts would leave the
//! machine's integer ranges the reduction reports failure instead of a
//! result.

use vstd::prelude::*;

use crate::dates;
use crate::rfc_common;
use crate::rfc_common::IssueNode;
use crate::rfc_common::LabelEvent;
use crate::rfc_common::LabelParse;
use crate::sorting;
use crate::sorting::Keyed;
use crate::text;

verus! {

/// The proposal process labels the dashboard reads.
#[derive(Clone, Copy, Debug, PartialEq, Eq, Structural)]
pub enum Label {
    Proposal,
    ProposalHold,
    ProposalAccepted,
}

impl LabelParse for Label {
    open spec fn spec_parse(s: Seq<char>) -> Option<Label> {
        if s == "Proposal"@ {
            Option::Some(Label::Proposal)
        } else if s == "Proposal-Hold"@ {
            Option::Some(Label::ProposalHold)
        } else if s == "Proposal-Accepted"@ {
            Option::Some(Label::ProposalAccepted)
        } else {
            Option::None
        }
    }

    fn parse(s: &str) -> (r: Option<Label>) {
        if text::str_eq(s, "Proposal") {
            Some(Label::Proposal)
        } else if text::str_eq(s, "Proposal-Hold") {
            Some(Label::ProposalHold)
        } else if text::str_eq(s, "Proposal-Accepted") {
            Some(Label::ProposalAccepted)
        } else {
            None
        }
    }
}

/// One proposal: its issue data and its time-ordered label events.
pub struct Proposal {
    pub number: i64,
    pub title: String,
    pub created_at: i64,
    pub closed_at: Option<i64>,
    pub label_events: Vec<LabelEvent<Label>>,
}

/// The abstract value of a proposal.
pub struct ProposalV {
    pub number: int,
    pub title: Seq<char>,
    pub created_at: int,
    pub closed_at: Option<i64>,
    pub events: Seq<LabelEvent<Label>>,
}

impl View for Proposal {
    type V = ProposalV;

    open spec fn view(&self) -> ProposalV {
        ProposalV {
            number: self.number as int,
            title: self.title@,
            created_at: self.created_at as int,
            closed_at: self.closed_at,
            events: self.label_events@,
        }
    }
}

impl Proposal {
    /// A proposal from its fetched issue: the fields carry over and the
    /// timeline becomes the sorted label-event list.
    pub fn new(issue: IssueNode) -> (r: Option<Proposal>)
        ensures
            match r {
                Option::Some(p) => {
                    &&& p.number == issue.number
                    &&& p.title@ == issue.title@
                    &&& p.created_at == issue.created_at
                    &&& p.closed_at == issue.closed_at
                    &&& p.label_events@ == rfc_common::spec_sort_events(
                        rfc_common::spec_events::<Label>(
                            rfc_common::spec_timeline_edges(&issue.timeline_items),
                        ),
                    )
                },
                Option::None => false,
            },
    {
        let label_events = rfc_common::label_events_for::<Label>(issue.timeline_items);
        Some(
            Proposal {
                number: issue.number,
                title: issue.title,
                created_at: issue.created_at,
                closed_at: issue.closed_at,
                label_events,
            },
        )
    }
}

impl Keyed for Proposal {
    open spec fn spec_key(&self) -> int {
        self.number as int
    }

    fn key(&self) -> (r: i64) {
        self.number
    }
}

/// The fetched proposals in issue-number order, as the dashboard lists
/// them.
pub fn sort_proposals_by_number(proposals: Vec<Proposal>) -> (r: Vec<Proposal>)
    ensures
        r@ == sorting::spec_sort_by_key(proposals@),
        sorting::spec_sorted_by_key(r@),
{
    sorting::sort_by_key_stable(proposals)
}

/// The states a proposal moves through while open.
#[derive(Clone, Copy, Debug, PartialEq, Eq, Structural)]
pub enum ProposalState {
    Created,
    OnHold,
    Accepted,
}

/// The five census categories a day's counts cover.
#[derive(Clone, Copy, Debug, PartialEq, Eq, Structural)]
pub enum Category {
    Created,
    OnHold,
    Accepted,
    Implemented,
    Closed,
}

/// One census contribution: on `day`, `category` changes by `by`.
#[derive(Clone, Copy, Debug, PartialEq, Eq, Structural)]
pub struct Bump {
    pub day: i64,
    pub category: Category,
    pub by: i64,
}

impl Keyed for Bump {
    open spec fn spec_key(&self) -> int {
        self.day as int
    }

    fn key(&self) -> (r: i64) {
        self.day
    }
}

/// Counts per category, unbounded.
pub struct Counts {
    pub created: int,
    pub on_hold: int,
    pub accepted: int,
    pub implemented: int,
    pub closed: int,
}

/// All categories at zero.
pub open spec fn spec_counts_zero() -> Counts {
    Counts { created: 0, on_hold: 0, accepted: 0, implemented: 0, closed: 0 }
}

/// One category changed by `by`.
pub open spec fn spec_counts_bump(c: Counts, cat: Category, by: int) -> Counts {
    match cat {
        Category::Created => Counts { created: c.created + by, ..c },
        Category::OnHold => Counts { on_hold: c.on_hold + by, ..c },
        Category::Accepted => Counts { accepted: c.accepted + by, ..c },
        Category::Implemented => Counts { implemented: c.implemented + by, ..c },
        Category::Closed => Counts { closed: c.closed + by, ..c },
    }
}

/// Categorywise sum.
pub open spec fn spec_counts_add(a: Counts, b: Counts) -> Counts {
    Counts {
        created: a.created + b.created,
        on_hold: a.on_hold + b.on_hold,
        accepted: a.accepted + b.accepted,
        implemented: a.implemented + b.implemented,
        closed: a.closed + b.closed,
    }
}

/// Every category within the signed range a day's delta is summed in.
pub open spec fn spec_counts_ok_i64(c: Counts) -> bool {
    &&& i64::MIN <= c.created <= i64::MAX
    &&& i64::MIN <= c.on_hold <= i64::MAX
    &&& i64::MIN <= c.accepted <= i64::MAX
    &&& i64::MIN <= c.implemented <= i64::MAX
    &&& i64::MIN <= c.closed <= i64::MAX
}

/// Every category within the unsigned range a running census is held in.
pub open spec fn spec_counts_ok_u64(c: Counts) -> bool {
    &&& 0 <= c.created <= u64::MAX
    &&& 0 <= c.on_hold <= u64::MAX
    &&& 0 <= c.accepted <= u64::MAX
    &&& 0 <= c.implemented <= u64::MAX
    &&& 0 <= c.closed <= u64::MAX
}

/// Two census bumps on the day of `at`: `dec` down by one, `inc` up by one.
pub open spec fn spec_transition(log: Seq<Bump>, at: i64, dec: Category, inc: Category) -> Seq<
    Bump,
> {
    log + seq![
        (Bump { day: dates::spec_day_of(at as int) as i64, category: dec, by: -1i64 }),
        (Bump { day: dates::spec_day_of(at as int) as i64, category: inc, by: 1i64 }),
    ]
}

/// The effect of one label event on an open proposal: events at or after
/// the closing time are ignored, as are events that do not change state.
pub open spec fn spec_apply_event(
    closed_at: Option<i64>,
    st: ProposalState,
    log: Seq<Bump>,
    e: LabelEvent<Label>,
) -> (ProposalState, Seq<Bump>) {
    let ignored = match (closed_at, e) {
        (Option::Some(c), LabelEvent::Applied { at, .. }) => c <= at,
        (Option::Some(c), LabelEvent::Removed { at, .. }) => c <= at,
        _ => false,
    };
    if ignored {
        (st, log)
    } else {
        match e {
            LabelEvent::Applied { at, label } => match (st, label) {
                (_, Label::Proposal) => (st, log),
                (ProposalState::OnHold, Label::ProposalHold) => (st, log),
                (ProposalState::Accepted, Label::ProposalAccepted) => (st, log),
                (ProposalState::Created, Label::ProposalHold) => (
                    ProposalState::OnHold,
                    spec_transition(log, at, Category::Created, Category::OnHold),
                ),
                (ProposalState::Accepted, Label::ProposalHold) => (
                    ProposalState::OnHold,
                    spec_transition(log, at, Category::Accepted, Category::OnHold),
                ),
                (ProposalState::Created, Label::ProposalAccepted) => (
                    ProposalState::Accepted,
                    spec_transition(log, at, Category::Created, Category::Accepted),
                ),
                (ProposalState::OnHold, Label::ProposalAccepted) => (
                    ProposalState::Accepted,
                    spec_transition(log, at, Category::OnHold, Category::Accepted),
                ),
            },
            LabelEvent::Removed { at, label } => match (st, label) {
                (_, Label::Proposal) => (st, log),
                (ProposalState::Created, Label::ProposalHold) => (st, log),
                (ProposalState::Accepted, Label::ProposalHold) => (st, log),
                (ProposalState::Created, Label::ProposalAccepted) => (st, log),
                (ProposalState::OnHold, Label::ProposalAccepted) => (st, log),
                (ProposalState::OnHold, Label::ProposalHold) => (
                    ProposalState::Created,
                    spec_transition(log, at, Category::OnHold, Category::Created),
                ),
                (ProposalState::Accepted, Label::ProposalAccepted) => (
                    ProposalState::Created,
                    spec_transition(log, at, Category::Accepted, Category::Created),
                ),
            },
        }
    }
}

/// The state and log after a run of label events.
pub open spec fn spec_fold_events(
    closed_at: Option<i64>,
    st: ProposalState,
    log: Seq<Bump>,
    events: Seq<LabelEvent<Label>>,
) -> (ProposalState, Seq<Bump>)
    decreases events.len(),
{
    if events.len() == 0 {
        (st, log)
    } else {
        let step = spec_apply_event(closed_at, st, log, events[0]);
        spec_fold_events(closed_at, step.0, step.1, events.subrange(1, events.len() as int))
    }
}

/// Every census contribution of one proposal: created on its creation day,
/// state changes as its events say, and on its closing day either closed
/// (from the created or on-hold states) or implemented (from accepted).
pub open spec fn spec_apply_proposal(log: Seq<Bump>, p: ProposalV) -> Seq<Bump> {
    let log1 = log + seq![
        (Bump {
            day: dates::spec_day_of(p.created_at) as i64,
            category: Category::Created,
            by: 1i64,
        }),
    ];
    let folded = spec_fold_events(p.closed_at, ProposalState::Created, log1, p.events);
    match p.closed_at {
        Option::None => folded.1,
        Option::Some(c) => match folded.0 {
            ProposalState::Created => spec_transition(
                folded.1,
                c,
                Category::Created,
                Category::Closed,
            ),
            ProposalState::OnHold => spec_transition(
                folded.1,
                c,
                Category::OnHold,
                Category::Closed,
            ),
            ProposalState::Accepted => spec_transition(
                folded.1,
                c,
                Category::Accepted,
                Category::Implemented,
            ),
        },
    }
}

/// The census contributions of a run of proposals, in order.
pub open spec fn spec_bumps_from(log: Seq<Bump>, ps: Seq<ProposalV>) -> Seq<Bump>
    decreases ps.len(),
{
    if ps.len() == 0 {
        log
    } else {
        spec_bumps_from(spec_apply_proposal(log, ps[0]), ps.subrange(1, ps.len() as int))
    }
}

/// One day of the census: the date and the running counts on it.
pub struct AggV {
    pub date: int,
    pub counts: Counts,
}

/// The census over a day-sorted contribution log: each day's deltas are
/// summed in the signed range, the running counts stay in the unsigned
/// range, and any excursion fails the whole census.
pub open spec fn spec_agg(
    log: Seq<Bump>,
    day: int,
    delta: Counts,
    totals: Counts,
    out: Seq<AggV>,
) -> Option<Seq<AggV>>
    decreases log.len(),
{
    if log.len() == 0 {
        let t = spec_counts_add(totals, delta);
        if spec_counts_ok_u64(t) {
            Option::Some(out.push(AggV { date: day, counts: t }))
        } else {
            Option::None
        }
    } else if log[0].day as int == day {
        let d2 = spec_counts_bump(delta, log[0].category, log[0].by as int);
        if spec_counts_ok_i64(d2) {
            spec_agg(log.subrange(1, log.len() as int), day, d2, totals, out)
        } else {
            Option::None
        }
    } else {
        let t = spec_counts_add(totals, delta);
        if spec_counts_ok_u64(t) {
            spec_agg(
                log.subrange(1, log.len() as int),
                log[0].day as int,
                spec_counts_bump(spec_counts_zero(), log[0].category, log[0].by as int),
                t,
                out.push(AggV { date: day, counts: t }),
            )
        } else {
            Option::None
        }
    }
}

/// The census of a day-sorted contribution log.
pub open spec fn spec_aggregate(log: Seq<Bump>) -> Option<Seq<AggV>> {
    if log.len() == 0 {
        Option::Some(Seq::empty())
    } else {
        spec_agg(
            log.subrange(1, log.len() as int),
            log[0].day as int,
            spec_counts_bump(spec_counts_zero(), log[0].category, log[0].by as int),
            spec_counts_zero(),
            Seq::empty(),
        )
    }
}

/// A proposal's timestamps all lie in the calendar range.
pub open spec fn spec_proposal_ts_ok(p: ProposalV) -> bool {
    &&& dates::spec_ts_ok(p.created_at)
    &&& match p.closed_at {
        Option::Some(c) => dates::spec_ts_ok(c as int),
        Option::None => true,
    }
    &&& forall|j: int|
        0 <= j < p.events.len() ==> dates::spec_ts_ok(rfc_common::spec_event_at(
            #[trigger] p.events[j],
        ))
}

/// One rendered census day.
#[derive(Clone, Copy, Debug, PartialEq, Eq, Structural)]
pub struct Aggregate {
    pub date: i64,
    pub created: u64,
    pub on_hold: u64,
    pub accepted: u64,
    pub implemented: u64,
    pub closed: u64,
}

impl View for Aggregate {
    type V = AggV;

    open spec fn view(&self) -> AggV {
        AggV {
            date: self.date as int,
            counts: Counts {
                created: self.created as int,
                on_hold: self.on_hold as int,
                accepted: self.accepted as int,
                implemented: self.implemented as int,
                closed: self.closed as int,
            },
        }
    }
}

/// A closed proposal paired with how long it was open, the key its listing
/// is sorted by.
pub struct ClosedProposal {
    pub duration: i64,
    pub proposal: Proposal,
}

impl Keyed for ClosedProposal {
    open spec fn spec_key(&self) -> int {
        self.duration as int
    }

    fn key(&self) -> (r: i64) {
        self.duration
    }
}

/// Whether a proposal is still open.
pub open spec fn spec_is_open(p: Proposal) -> bool {
    p.closed_at is None
}

/// The closed proposals wrapped with their open durations, in order.
pub open spec fn spec_closed_wrapped(ps: Seq<Proposal>) -> Seq<ClosedProposal> {
    ps.filter(|p: Proposal| !spec_is_open(p)).map_values(
        |p: Proposal| (ClosedProposal {
            duration: (match p.closed_at {
                Option::Some(c) => (c - p.created_at) as i64,
                Option::None => 0,
            }),
            proposal: p,
        }),
    )
}

/// The closed proposals' `(created, closed)` ranges, in fetch order, which
/// the completion histogram is computed over.
pub open spec fn spec_closed_ranges(ps: Seq<Proposal>) -> Seq<(i64, i64)> {
    ps.filter(|p: Proposal| !spec_is_open(p)).map_values(
        |p: Proposal| (
            p.created_at,
            match p.closed_at {
                Option::Some(c) => c,
                Option::None => 0i64,
            },
        ),
    )
}

/// The dashboard's data: the census, the completion histogram of closed
/// proposals, and the open and closed proposals — open ones in fetch order,
/// closed ones from longest open to shortest.
pub struct Data {
    pub agg: Vec<Aggregate>,
    pub completed_hist: Vec<rfc_common::Bucket>,
    pub completed_stats: rfc_common::HistogramStats,
    pub open_proposals: Vec<Proposal>,
    pub closed_proposals: Vec<Proposal>,
}

/// A day's delta while it is being summed.
#[derive(Clone, Copy)]
struct DeltaCounts {
    created: i64,
    on_hold: i64,
    accepted: i64,
    implemented: i64,
    closed: i64,
}

impl View for DeltaCounts {
    type V = Counts;

    closed spec fn view(&self) -> Counts {
        Counts {
            created: self.created as int,
            on_hold: self.on_hold as int,
            accepted: self.accepted as int,
            implemented: self.implemented as int,
            closed: self.closed as int,
        }
    }
}

/// The running census while it is being summed.
#[derive(Clone, Copy)]
struct TotalCounts {
    created: u64,
    on_hold: u64,
    accepted: u64,
    implemented: u64,
    closed: u64,
}

impl View for TotalCounts {
    type V = Counts;

    closed spec fn view(&self) -> Counts {
        Counts {
            created: self.created as int,
            on_hold: self.on_hold as int,
            accepted: self.accepted as int,
            implemented: self.implemented as int,
            closed: self.closed as int,
        }
    }
}

/// Appends the two bumps of one state transition.
fn push_transition(bumps: &mut Vec<Bump>, at: i64, dec: Category, inc: Category)
    requires
        dates::spec_ts_ok(at as int),
    ensures
        final(bumps)@ == spec_transition(old(bumps)@, at, dec, inc),
{
    let d = dates::day_of(at);
    bumps.push(Bump { day: d, category: dec, by: -1 });
    bumps.push(Bump { day: d, category: inc, by: 1 });
    proof {
        assert(bumps@ =~= spec_transition(old(bumps)@, at, dec, inc));
    }
}

/// One category of a delta changed by `by`, if the sum stays in range.
fn delta_bump(d: DeltaCounts, cat: Category, by: i64) -> (r: Option<DeltaCounts>)
    ensures
        match r {
            Option::Some(d2) => spec_counts_ok_i64(spec_counts_bump(d@, cat, by as int)) && d2@
                == spec_counts_bump(d@, cat, by as int),
            Option::None => !spec_counts_ok_i64(spec_counts_bump(d@, cat, by as int)),
        },
{
    match cat {
        Category::Created => match d.created.checked_add(by) {
            Some(v) => Some(DeltaCounts { created: v, ..d }),
            None => None,
        },
        Category::OnHold => match d.on_hold.checked_add(by) {
            Some(v) => Some(DeltaCounts { on_hold: v, ..d }),
            None => None,
        },
        Category::Accepted => match d.accepted.checked_add(by) {
            Some(v) => Some(DeltaCounts { accepted: v, ..d }),
            None => None,
        },
        Category::Implemented => match d.implemented.checked_add(by) {
            Some(v) => Some(DeltaCounts { implemented: v, ..d }),
            None => None,
        },
        Category::Closed => match d.closed.checked_add(by) {
            Some(v) => Some(DeltaCounts { closed: v, ..d }),
            None => None,
        },
    }
}

/// The running census with one day's delta added, if every category stays
/// in range.
fn totals_add(t: TotalCounts, d: DeltaCounts) -> (r: Option<TotalCounts>)
    ensures
        match r {
            Option::Some(t2) => spec_counts_ok_u64(spec_counts_add(t@, d@)) && t2@
                == spec_counts_add(t@, d@),
            Option::None => !spec_counts_ok_u64(spec_counts_add(t@, d@)),
        },
{
    let created = t.created.checked_add_signed(d.created);
    let on_hold = t.on_hold.checked_add_signed(d.on_hold);
    let accepted = t.accepted.checked_add_signed(d.accepted);
    let implemented = t.implemented.checked_add_signed(d.implemented);
    let closed = t.closed.checked_add_signed(d.closed);
    match (created, on_hold, accepted, implemented, closed) {
        (Some(a), Some(b), Some(c), Some(e), Some(f)) => Some(
            TotalCounts { created: a, on_hold: b, accepted: c, implemented: e, closed: f },
        ),
        _ => None,
    }
}

/// All categories at zero.
fn delta_zero() -> (r: DeltaCounts)
    ensures
        r@ == spec_counts_zero(),
{
    DeltaCounts { created: 0, on_hold: 0, accepted: 0, implemented: 0, closed: 0 }
}

impl Data {
    /// Reduces the fetched proposals to the dashboard's data.  `None` is
    /// returned exactly when the census would leave the machine's integer
    /// ranges, which no realistic proposal history does.
    pub fn new(proposals: Vec<Proposal>) -> (r: Option<Data>)
        requires
            forall|i: int|
                0 <= i < proposals@.len() ==> spec_proposal_ts_ok(
                    (#[trigger] proposals@[i])@,
                ),
        ensures
            ({
                let views = proposals@.map_values(|p: Proposal| p@);
                let log = sorting::spec_sort_by_key(spec_bumps_from(Seq::empty(), views));
                match r {
                    Option::Some(d) => {
                        &&& Option::Some(d.agg@.map_values(|a: Aggregate| a@)) == spec_aggregate(
                            log,
                        )
                        &&& match rfc_common::spec_histogram(spec_closed_ranges(proposals@)) {
                            Option::Some(pair) => d.completed_hist@ == pair.0
                                && d.completed_stats.median == pair.1,
                            Option::None => false,
                        }
                        &&& d.open_proposals@ == proposals@.filter(
                            |p: Proposal| spec_is_open(p),
                        )
                        &&& d.closed_proposals@ == sorting::spec_reverse(
                            sorting::spec_sort_by_key(spec_closed_wrapped(proposals@)),
                        ).map_values(|c: ClosedProposal| c.proposal)
                    },
                    Option::None => spec_aggregate(log) is None || rfc_common::spec_histogram(
                        spec_closed_ranges(proposals@),
                    ) is None,
                }
            }),
    {
        let ghost all_props = proposals@;
        let ghost views = proposals@.map_values(|p: Proposal| p@);

        // Every census contribution, in proposal and event order.
        let mut bumps: Vec<Bump> = Vec::new();
        let n = proposals.len();
        proof {
            assert(views.subrange(0, n as int) =~= views);
            assert(spec_bumps_from(bumps@, views.subrange(0, n as int)) == spec_bumps_from(
                Seq::empty(),
                views,
            ));
        }
        let mut i: usize = 0;
        while i < n
            invariant
                n == proposals@.len(),
                proposals@ == all_props,
                views == all_props.map_values(|p: Proposal| p@),
                forall|k: int|
                    0 <= k < all_props.len() ==> spec_proposal_ts_ok((#[trigger] all_props[k])@),
                i <= n,
                spec_bumps_from(bumps@, views.subrange(i as int, n as int)) == spec_bumps_from(
                    Seq::empty(),
                    views,
                ),
            decreases n - i,
        {
            let ghost rem = views.subrange(i as int, n as int);
            let ghost log0 = bumps@;
            proof {
                assert(rem[0] == views[i as int]);
                assert(views[i as int] == all_props[i as int]@);
                assert(rem.subrange(1, rem.len() as int) =~= views.subrange(i + 1, n as int));
            }
            let created_day = dates::day_of(proposals[i].created_at);
            bumps.push(Bump { day: created_day, category: Category::Created, by: 1 });
            let ghost log1 = bumps@;
            proof {
                assert(log1 =~= log0 + seq![
                    (Bump {
                        day: dates::spec_day_of(views[i as int].created_at) as i64,
                        category: Category::Created,
                        by: 1i64,
                    }),
                ]);
            }
            let mut st = ProposalState::Created;
            let closed_at = proposals[i].closed_at;
            let m = proposals[i].label_events.len();
            let ghost events = proposals@[i as int].label_events@;
            proof {
                assert(events == views[i as int].events);
                assert(events.subrange(0, m as int) =~= events);
            }
            let mut j: usize = 0;
            while j < m
                invariant
                    n == proposals@.len(),
                    proposals@ == all_props,
                    i < n,
                    m == events.len(),
                    events == all_props[i as int]@.events,
                    closed_at == all_props[i as int]@.closed_at,
                    spec_proposal_ts_ok(all_props[i as int]@),
                    j <= m,
                    spec_fold_events(closed_at, st, bumps@, events.subrange(j as int, m as int))
                        == spec_fold_events(closed_at, ProposalState::Created, log1, events),
                decreases m - j,
            {
                let ghost erem = events.subrange(j as int, m as int);
                proof {
                    assert(erem[0] == events[j as int]);
                    assert(erem.subrange(1, erem.len() as int) =~= events.subrange(
                        j + 1,
                        m as int,
                    ));
                }
                let ghost st0 = st;
                let ghost logj = bumps@;
                let e = &proposals[i].label_events[j];
                let (is_applied, at, label) = match e {
                    LabelEvent::Applied { at, label } => (true, *at, *label),
                    LabelEvent::Removed { at, label } => (false, *at, *label),
                };
                proof {
                    assert(dates::spec_ts_ok(rfc_common::spec_event_at(events[j as int])));
                }
                let ignored = match closed_at {
                    Some(c) => c <= at,
                    None => false,
                };
                if !ignored {
                    if is_applied {
                        match (st, label) {
                            (_, Label::Proposal) => {},
                            (ProposalState::OnHold, Label::ProposalHold) => {},
                            (ProposalState::Accepted, Label::ProposalAccepted) => {},
                            (ProposalState::Created, Label::ProposalHold) => {
                                st = ProposalState::OnHold;
                                push_transition(&mut bumps, at, Category::Created, Category::OnHold);
                            },
                            (ProposalState::Accepted, Label::ProposalHold) => {
                                st = ProposalState::OnHold;
                                push_transition(
                                    &mut bumps,
                                    at,
                                    Category::Accepted,
                                    Category::OnHold,
                                );
                            },
                            (ProposalState::Created, Label::ProposalAccepted) => {
                                st = ProposalState::Accepted;
                                push_transition(
                                    &mut bumps,
                                    at,
                                    Category::Created,
                                    Category::Accepted,
                                );
                            },
                            (ProposalState::OnHold, Label::ProposalAccepted) => {
                                st = ProposalState::Accepted;
                                push_transition(
                                    &mut bumps,
                                    at,
                                    Category::OnHold,
                                    Category::Accepted,
                                );
                            },
                        }
                    } else {
                        match (st, label) {
                            (_, Label::Proposal) => {},
                            (ProposalState::Created, Label::ProposalHold) => {},
                            (ProposalState::Accepted, Label::ProposalHold) => {},
                            (ProposalState::Created, Label::ProposalAccepted) => {},
                            (ProposalState::OnHold, Label::ProposalAccepted) => {},
                            (ProposalState::OnHold, Label::ProposalHold) => {
                                st = ProposalState::Created;
                                push_transition(&mut bumps, at, Category::OnHold, Category::Created);
                            },
                            (ProposalState::Accepted, Label::ProposalAccepted) => {
                                st = ProposalState::Created;
                                push_transition(
                                    &mut bumps,
                                    at,
                                    Category::Accepted,
                                    Category::Created,
                                );
                            },
                        }
                    }
                }
                proof {
                    assert((st, bumps@) == spec_apply_event(closed_at, st0, logj, events[j as int]));
                }
                j = j + 1;
            }
            match closed_at {
                None => {},
                Some(c) => {
                    match st {
                        ProposalState::Created => push_transition(
                            &mut bumps,
                            c,
                            Category::Created,
                            Category::Closed,
                        ),
                        ProposalState::OnHold => push_transition(
                            &mut bumps,
                            c,
                            Category::OnHold,
                            Category::Closed,
                        ),
                        ProposalState::Accepted => push_transition(
                            &mut bumps,
                            c,
                            Category::Accepted,
                            Category::Implemented,
                        ),
                    }
                },
            }
            proof {
                assert(bumps@ == spec_apply_proposal(log0, views[i as int]));
            }
            i = i + 1;
        }
        proof {
            assert(views.subrange(n as int, n as int) =~= Seq::<ProposalV>::empty());
            assert(bumps@ == spec_bumps_from(Seq::empty(), views));
        }

        // Day-sorted, the contributions become the census.
        let sorted = sorting::sort_by_key_stable(bumps);
        let ghost log = sorted@;
        let mut agg: Vec<Aggregate> = Vec::new();
        if sorted.len() > 0 {
            let sn = sorted.len();
            let mut day = sorted[0].day;
            let mut delta = match delta_bump(delta_zero(), sorted[0].category, sorted[0].by) {
                Some(d) => d,
                None => vstd::pervasive::unreached(),
            };
            let mut totals = TotalCounts {
                created: 0,
                on_hold: 0,
                accepted: 0,
                implemented: 0,
                closed: 0,
            };
            proof {
                assert(log.subrange(1, sn as int) =~= log.subrange(1, log.len() as int));
                assert(agg@.map_values(|a: Aggregate| a@) =~= Seq::<AggV>::empty());
            }
            let mut k: usize = 1;
            while k < sn
                invariant
                    sn == sorted@.len(),
                    sorted@ == log,
                    log == sorting::spec_sort_by_key(
                        spec_bumps_from(Seq::empty(), proposals@.map_values(|p: Proposal| p@)),
                    ),
                    1 <= k <= sn,
                    spec_agg(
                        log.subrange(k as int, sn as int),
                        day as int,
                        delta@,
                        totals@,
                        agg@.map_values(|a: Aggregate| a@),
                    ) == spec_aggregate(log),
                decreases sn - k,
            {
                let ghost lrem = log.subrange(k as int, sn as int);
                proof {
                    assert(lrem[0] == log[k as int]);
                    assert(lrem.subrange(1, lrem.len() as int) =~= log.subrange(
                        k + 1,
                        sn as int,
                    ));
                }
                let b = sorted[k];
                if b.day == day {
                    match delta_bump(delta, b.category, b.by) {
                        Some(d2) => {
                            delta = d2;
                        },
                        None => {
                            return None;
                        },
                    }
                } else {
                    match totals_add(totals, delta) {
                        None => {
                            return None;
                        },
                        Some(t) => {
                            let ghost aggs0 = agg@.map_values(|a: Aggregate| a@);
                            agg.push(
                                Aggregate {
                                    date: day,
                                    created: t.created,
                                    on_hold: t.on_hold,
                                    accepted: t.accepted,
                                    implemented: t.implemented,
                                    closed: t.closed,
                                },
                            );
                            proof {
                                assert(agg@.map_values(|a: Aggregate| a@) =~= aggs0.push(
                                    (AggV { date: day as int, counts: t@ }),
                                ));
                            }
                            totals = t;
                            day = b.day;
                            delta = match delta_bump(delta_zero(), b.category, b.by) {
                                Some(d) => d,
                                None => vstd::pervasive::unreached(),
                            };
                        },
                    }
                }
                k = k + 1;
            }
            match totals_add(totals, delta) {
                None => {
                    proof {
                        assert(log.subrange(sn as int, sn as int).len() == 0);
                    }
                    return None;
                },
                Some(t) => {
                    let ghost aggs0 = agg@.map_values(|a: Aggregate| a@);
                    agg.push(
                        Aggregate {
                            date: day,
                            created: t.created,
                            on_hold: t.on_hold,
                            accepted: t.accepted,
                            implemented: t.implemented,
                            closed: t.closed,
                        },
                    );
                    proof {
                        assert(log.subrange(sn as int, sn as int).len() == 0);
                        assert(agg@.map_values(|a: Aggregate| a@) =~= aggs0.push(
                            (AggV { date: day as int, counts: t@ }),
                        ));
                    }
                },
            }
        } else {
            proof {
                assert(agg@.map_values(|a: Aggregate| a@) =~= Seq::<AggV>::empty());
            }
        }

        // The open and closed listings.
        let mut work = proposals;
        let mut open_proposals: Vec<Proposal> = Vec::new();
        let mut closed_w: Vec<ClosedProposal> = Vec::new();
        let mut ranges: Vec<(i64, i64)> = Vec::new();
        let ghost mut taken: int = 0;
        proof {
            assert(all_props.subrange(0, 0) =~= Seq::<Proposal>::empty());
            reveal(Seq::filter);
            assert(open_proposals@ =~= all_props.subrange(0, 0).filter(
                |p: Proposal| spec_is_open(p),
            ));
            assert(closed_w@ =~= spec_closed_wrapped(all_props.subrange(0, 0)));
            assert(ranges@ =~= spec_closed_ranges(all_props.subrange(0, 0)));
        }
        while work.len() > 0
            invariant
                0 <= taken <= all_props.len(),
                work@ == all_props.subrange(taken, all_props.len() as int),
                forall|kk: int|
                    0 <= kk < all_props.len() ==> spec_proposal_ts_ok((#[trigger] all_props[kk])@),
                open_proposals@ == all_props.subrange(0, taken).filter(
                    |p: Proposal| spec_is_open(p),
                ),
                closed_w@ == spec_closed_wrapped(all_props.subrange(0, taken)),
                ranges@ == spec_closed_ranges(all_props.subrange(0, taken)),
                forall|kk: int|
                    0 <= kk < ranges@.len() ==> dates::spec_ts_ok(
                        (#[trigger] ranges@[kk]).0 as int,
                    ) && dates::spec_ts_ok(ranges@[kk].1 as int),
            decreases work@.len(),
        {
            let p = work.remove(0);
            proof {
                assert(p == all_props[taken]);
                assert(work@ =~= all_props.subrange(taken + 1, all_props.len() as int));
                assert(all_props.subrange(0, taken + 1) =~= all_props.subrange(0, taken).push(
                    all_props[taken],
                ));
                sorting::lemma_filter_push(
                    all_props.subrange(0, taken),
                    |q: Proposal| spec_is_open(q),
                    all_props[taken],
                );
                sorting::lemma_filter_push(
                    all_props.subrange(0, taken),
                    |q: Proposal| !spec_is_open(q),
                    all_props[taken],
                );
            }
            match p.closed_at {
                None => {
                    open_proposals.push(p);
                },
                Some(c) => {
                    let duration = c - p.created_at;
                    let ghost before = closed_w@;
                    ranges.push((p.created_at, c));
                    closed_w.push(ClosedProposal { duration, proposal: p });
                    proof {
                        assert(closed_w@ =~= spec_closed_wrapped(all_props.subrange(0, taken + 1)));
                        assert(ranges@ =~= spec_closed_ranges(all_props.subrange(0, taken + 1)));
                    }
                },
            }
            proof {
                taken = taken + 1;
            }
        }
        proof {
            assert(all_props.subrange(0, all_props.len() as int) =~= all_props);
            assert(taken == all_props.len());
        }
        let histogram = match rfc_common::completion_months_histogram(&ranges) {
            Some(h) => h,
            None => {
                return None;
            },
        };
        let sorted_closed = sorting::sort_by_key_stable(closed_w);
        let reversed = sorting::reverse_vec(sorted_closed);
        let ghost rev_view = reversed@;
        let mut closed_proposals: Vec<Proposal> = Vec::new();
        let mut rest = reversed;
        proof {
            assert(rev_view.subrange(0, 0).map_values(|c: ClosedProposal| c.proposal) =~= Seq::<
                Proposal,
            >::empty());
        }
        while rest.len() > 0
            invariant
                closed_proposals@.len() + rest@.len() == rev_view.len(),
                rest@ == rev_view.subrange(
                    rev_view.len() - rest@.len(),
                    rev_view.len() as int,
                ),
                closed_proposals@ == rev_view.subrange(
                    0,
                    rev_view.len() - rest@.len(),
                ).map_values(|c: ClosedProposal| c.proposal),
            decreases rest@.len(),
        {
            let ghost done = rev_view.len() - rest@.len();
            let c = rest.remove(0);
            proof {
                assert(c == rev_view[done]);
                assert(rest@ =~= rev_view.subrange(done + 1, rev_view.len() as int));
            }
            closed_proposals.push(c.proposal);
            proof {
                assert(closed_proposals@ =~= rev_view.subrange(0, done + 1).map_values(
                    |cc: ClosedProposal| cc.proposal,
                ));
            }
        }
        proof {
            assert(rev_view.subrange(0, rev_view.len() as int) =~= rev_view);
        }
        Some(
            Data {
                agg,
                completed_hist: histogram.0,
                completed_stats: histogram.1,
                open_proposals,
                closed_proposals,
            },
        )
    }
}

} // verus!
