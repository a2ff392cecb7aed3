//! The RFC-document dashboard's data reduction: each fetched document
//! contributes per-day deltas — drafted on its creation day, expired or
//! published on its end day — and the deltas accumulate into a day-by-day
//! census, together with the open and closed document listings and the
//! completion histogram.  Revision days appear in the census even when
//! nothing changes on them, so a draft's history renders gaplessly.

use vstd::prelude::*;

use crate::dates;
use crate::rfc_common;
use crate::sorting;
use crate::sorting::Keyed;
use crate::text;

verus! {

/// One document: its names, the RFC number when published, its creation
/// and revision times, and when it expires or was closed.
pub struct Document {
    pub name: String,
    pub title: String,
    pub rfc: Option<u32>,
    pub created_at: i64,
    pub revisions: Vec<i64>,
    pub expires_at: Option<i64>,
    pub closed_at: Option<i64>,
}

/// The revision history a fetched document carries: the publication time
/// of each revision, oldest first.
pub struct DocInfo {
    pub name: String,
    pub title: String,
    pub rev_history: Vec<i64>,
}

impl Document {
    /// A document from its fetched record: the first revision is its
    /// creation; for a published RFC the last revision is its closing, and
    /// the revisions in between are kept; a draft keeps all later
    /// revisions and its expiry.
    pub fn new(rfc: Option<u32>, info: DocInfo, expires_at: Option<i64>) -> (r: Option<Document>)
        requires
            info.rev_history@.len() >= 1,
            rfc is Some ==> info.rev_history@.len() >= 2,
        ensures
            match r {
                Option::Some(d) => {
                    &&& d.name@ == info.name@
                    &&& d.title@ == info.title@
                    &&& d.rfc == rfc
                    &&& d.created_at == info.rev_history@[0]
                    &&& d.expires_at == expires_at
                    &&& match rfc {
                        Option::Some(_) => d.closed_at == Option::Some(
                            info.rev_history@.last(),
                        ) && d.revisions@ == info.rev_history@.subrange(
                            1,
                            info.rev_history@.len() - 1,
                        ),
                        Option::None => d.closed_at is None && d.revisions@
                            == info.rev_history@.subrange(1, info.rev_history@.len() as int),
                    }
                },
                Option::None => false,
            },
    {
        let ghost history = info.rev_history@;
        let mut rev_history = info.rev_history;
        let created_at = rev_history.remove(0);
        proof {
            assert(rev_history@ =~= history.subrange(1, history.len() as int));
        }
        let closed_at = match rfc {
            Some(_) => {
                let last = rev_history.pop();
                match last {
                    Some(at) => {
                        proof {
                            assert(rev_history@ =~= history.subrange(1, history.len() - 1));
                        }
                        Some(at)
                    },
                    None => vstd::pervasive::unreached(),
                }
            },
            None => None,
        };
        Some(
            Document {
                name: info.name,
                title: info.title,
                rfc,
                created_at,
                revisions: rev_history,
                expires_at,
                closed_at,
            },
        )
    }
}

/// The draft states whose documents the dashboard ignores, because a later
/// document replaced them or they were published.
pub open spec fn spec_state_superseded(s: Seq<char>) -> bool {
    ||| s == "/api/v1/doc/state/3/"@
    ||| s == "/api/v1/doc/state/4/"@
    ||| s == "/api/v1/doc/state/7/"@
    ||| s == "/api/v1/doc/state/53/"@
    ||| s == "/api/v1/doc/state/65/"@
    ||| s == "/api/v1/doc/state/74/"@
    ||| s == "/api/v1/doc/state/147/"@
    ||| s == "/api/v1/doc/state/148/"@
    ||| s == "/api/v1/doc/state/149/"@
    ||| s == "/api/v1/doc/state/170/"@
    ||| s == "/api/v1/doc/state/173/"@
    ||| s == "/api/v1/doc/state/176/"@
    ||| s == "/api/v1/doc/state/177/"@
}

/// Whether any of a draft's states marks it superseded, as
/// [`spec_state_superseded`] defines the marks.
pub fn draft_superseded(states: &Vec<String>) -> (r: bool)
    ensures
        r == exists|i: int|
            0 <= i < states@.len() && spec_state_superseded((#[trigger] states@[i])@),
{
    let n = states.len();
    let mut i: usize = 0;
    while i < n
        invariant
            n == states@.len(),
            i <= n,
            forall|k: int| 0 <= k < i ==> !spec_state_superseded((#[trigger] states@[k])@),
        decreases n - i,
    {
        let s = states[i].as_str();
        if text::str_eq(s, "/api/v1/doc/state/3/") || text::str_eq(s, "/api/v1/doc/state/4/")
            || text::str_eq(s, "/api/v1/doc/state/7/") || text::str_eq(s, "/api/v1/doc/state/53/")
            || text::str_eq(s, "/api/v1/doc/state/65/") || text::str_eq(
            s,
            "/api/v1/doc/state/74/",
        ) || text::str_eq(s, "/api/v1/doc/state/147/") || text::str_eq(
            s,
            "/api/v1/doc/state/148/",
        ) || text::str_eq(s, "/api/v1/doc/state/149/") || text::str_eq(
            s,
            "/api/v1/doc/state/170/",
        ) || text::str_eq(s, "/api/v1/doc/state/173/") || text::str_eq(
            s,
            "/api/v1/doc/state/176/",
        ) || text::str_eq(s, "/api/v1/doc/state/177/") {
            return true;
        }
        i = i + 1;
    }
    false
}

/// One working group of the document directory.
pub struct Group {
    pub id: u64,
    pub acronym: String,
    pub name: String,
    pub description: String,
    pub kind: String,
    pub state: String,
}

/// The abstract value of a group.
pub struct GroupV {
    pub id: int,
    pub acronym: Seq<char>,
    pub name: Seq<char>,
    pub description: Seq<char>,
    pub kind: Seq<char>,
    pub state: Seq<char>,
}

impl View for Group {
    type V = GroupV;

    open spec fn view(&self) -> GroupV {
        GroupV {
            id: self.id as int,
            acronym: self.acronym@,
            name: self.name@,
            description: self.description@,
            kind: self.kind@,
            state: self.state@,
        }
    }
}

/// Whether a group is active.
pub open spec fn spec_group_active(g: GroupV) -> bool {
    g.state == "/api/v1/name/groupstatename/active/"@
}

/// A sorted group sequence with `e` inserted after groups of equal or
/// earlier acronym: the insertion step of the stable listing order.
pub open spec fn spec_insert_grp(s: Seq<GroupV>, e: GroupV) -> Seq<GroupV>
    decreases s.len(),
{
    if s.len() == 0 {
        seq![e]
    } else if crate::social::spec_str_le(s.last().acronym, e.acronym) {
        s.push(e)
    } else {
        spec_insert_grp(s.drop_last(), e).push(s.last())
    }
}

/// The stable sort of groups by acronym.
pub open spec fn spec_sort_grps(s: Seq<GroupV>) -> Seq<GroupV>
    decreases s.len(),
{
    if s.len() == 0 {
        Seq::empty()
    } else {
        spec_insert_grp(spec_sort_grps(s.drop_last()), s.last())
    }
}

/// Sorted by acronym, non-decreasing.
pub open spec fn spec_grps_sorted(s: Seq<GroupV>) -> bool {
    forall|i: int, j: int|
        0 <= i <= j < s.len() ==> crate::social::spec_str_le(s[i].acronym, s[j].acronym)
}

/// Inserting at the position the scan finds is what [`spec_insert_grp`]
/// computes.
proof fn lemma_insert_grp_at(s: Seq<GroupV>, e: GroupV, p: int)
    requires
        spec_grps_sorted(s),
        0 <= p <= s.len(),
        forall|i: int|
            0 <= i < p ==> crate::social::spec_str_le((#[trigger] s[i]).acronym, e.acronym),
        forall|i: int|
            p <= i < s.len() ==> !crate::social::spec_str_le((#[trigger] s[i]).acronym, e.acronym),
    ensures
        spec_insert_grp(s, e) =~= s.subrange(0, p) + seq![e] + s.subrange(p, s.len() as int),
    decreases s.len(),
{
    if s.len() == 0 {
    } else if crate::social::spec_str_le(s.last().acronym, e.acronym) {
        if p < s.len() {
            crate::social::lemma_str_le_trans(s[p].acronym, s.last().acronym, e.acronym);
        }
        assert(p == s.len());
    } else {
        lemma_insert_grp_at(s.drop_last(), e, p);
    }
}

/// Sorts groups by acronym with a stable insertion sort, as
/// [`spec_sort_grps`] defines it.
fn sort_groups(v: Vec<Group>) -> (r: Vec<Group>)
    ensures
        r@.map_values(|g: Group| g@) == spec_sort_grps(v@.map_values(|g: Group| g@)),
{
    let ghost input = v@.map_values(|g: Group| g@);
    let mut rest = v;
    let mut out: Vec<Group> = Vec::new();
    let ghost mut taken: int = 0;
    proof {
        assert(input.subrange(0, 0) =~= Seq::<GroupV>::empty());
        assert(out@.map_values(|g: Group| g@) =~= spec_sort_grps(input.subrange(0, 0)));
        assert(input.subrange(0, input.len() as int) =~= input);
    }
    while rest.len() > 0
        invariant
            0 <= taken <= input.len(),
            rest@.map_values(|g: Group| g@) == input.subrange(taken, input.len() as int),
            out@.map_values(|g: Group| g@) == spec_sort_grps(input.subrange(0, taken)),
            spec_grps_sorted(out@.map_values(|g: Group| g@)),
        decreases rest@.len(),
    {
        let ghost before_rest = rest@;
        let item = rest.remove(0);
        proof {
            assert(item == before_rest[0]);
            assert(rest@ =~= before_rest.subrange(1, before_rest.len() as int));
            assert(rest@.map_values(|g: Group| g@) =~= before_rest.map_values(
                |g: Group| g@,
            ).subrange(1, before_rest.len() as int));
            assert(item@ == before_rest.map_values(|g: Group| g@)[0]);
            assert(before_rest.map_values(|g: Group| g@).len() == before_rest.len());
            assert(input.len() - taken == before_rest.len());
            assert(input.subrange(taken, input.len() as int)[0] == input[taken]);
            assert(item@ == input[taken]);
            assert(rest@.map_values(|g: Group| g@) =~= input.subrange(
                taken + 1,
                input.len() as int,
            ));
        }
        let ghost prior = out@.map_values(|g: Group| g@);
        let mut p: usize = 0;
        while p < out.len() && group_acronym_le(&out, p, &item)
            invariant
                p <= out@.len(),
                prior == out@.map_values(|g: Group| g@),
                forall|k: int|
                    0 <= k < p ==> crate::social::spec_str_le(
                        (#[trigger] prior[k]).acronym,
                        item@.acronym,
                    ),
                item@ == input[taken],
                spec_grps_sorted(prior),
            decreases out@.len() - p,
        {
            p = p + 1;
        }
        proof {
            assert(forall|k: int|
                p <= k < prior.len() ==> !crate::social::spec_str_le(
                    (#[trigger] prior[k]).acronym,
                    item@.acronym,
                )) by {
                assert forall|k: int| p <= k < prior.len() implies !crate::social::spec_str_le(
                    (#[trigger] prior[k]).acronym,
                    item@.acronym,
                ) by {
                    if p < prior.len() && crate::social::spec_str_le(
                        prior[k].acronym,
                        item@.acronym,
                    ) {
                        assert(crate::social::spec_str_le(
                            prior[p as int].acronym,
                            prior[k].acronym,
                        ));
                        crate::social::lemma_str_le_trans(
                            prior[p as int].acronym,
                            prior[k].acronym,
                            item@.acronym,
                        );
                    }
                }
            }
            lemma_insert_grp_at(prior, item@, p as int);
        }
        out.insert(p, item);
        proof {
            assert(out@.map_values(|g: Group| g@) =~= prior.subrange(0, p as int) + seq![
                input[taken],
            ] + prior.subrange(p as int, prior.len() as int));
            assert(input.subrange(0, taken + 1).drop_last() =~= input.subrange(0, taken));
            assert(input.subrange(0, taken + 1).last() == input[taken]);
            assert(out@.map_values(|g: Group| g@) == spec_insert_grp(prior, input[taken]));
            assert(spec_grps_sorted(out@.map_values(|g: Group| g@))) by {
                let cur = out@.map_values(|g: Group| g@);
                assert(forall|k: int|
                    0 <= k < cur.len() ==> (#[trigger] cur[k]).acronym == (if k < p {
                        prior[k].acronym
                    } else if k == p {
                        input[taken].acronym
                    } else {
                        prior[k - 1].acronym
                    }));
                assert forall|x: int, y: int|
                    0 <= x <= y < cur.len() implies crate::social::spec_str_le(
                    cur[x].acronym,
                    cur[y].acronym,
                ) by {
                    if x == y {
                        crate::social::lemma_str_le_refl(cur[x].acronym);
                    } else if x == p && y > p {
                        assert(!crate::social::spec_str_le(
                            prior[y - 1].acronym,
                            input[taken].acronym,
                        ));
                        crate::social::lemma_str_le_total(
                            prior[y - 1].acronym,
                            input[taken].acronym,
                        );
                    } else if x < p && y > p {
                        assert(crate::social::spec_str_le(prior[x].acronym, prior[y - 1].acronym));
                    }
                }
            }
            taken = taken + 1;
        }
    }
    proof {
        assert(taken == input.len());
    }
    out
}

/// Whether the group at `p` orders at or before `item` by acronym.
fn group_acronym_le(v: &Vec<Group>, p: usize, item: &Group) -> (r: bool)
    requires
        p < v@.len(),
    ensures
        r == crate::social::spec_str_le(
            v@.map_values(|g: Group| g@)[p as int].acronym,
            item@.acronym,
        ),
{
    crate::social::str_le(v[p].acronym.as_str(), item.acronym.as_str())
}

/// The directory's group listings: all groups in acronym order, the active
/// ones and the inactive ones apart.
pub fn split_groups(groups: Vec<Group>) -> (r: (Vec<Group>, Vec<Group>))
    ensures
        ({
            let sorted = spec_sort_grps(groups@.map_values(|g: Group| g@));
            &&& r.0@.map_values(|g: Group| g@) == sorted.filter(|g: GroupV| spec_group_active(g))
            &&& r.1@.map_values(|g: Group| g@) == sorted.filter(
                |g: GroupV| !spec_group_active(g),
            )
        }),
{
    let sorted = sort_groups(groups);
    let ghost all = sorted@.map_values(|g: Group| g@);
    let mut active: Vec<Group> = Vec::new();
    let mut inactive: Vec<Group> = Vec::new();
    let mut rest = sorted;
    let ghost mut taken: int = 0;
    proof {
        reveal(Seq::filter);
        assert(all.subrange(0, 0) =~= Seq::<GroupV>::empty());
        assert(active@.map_values(|g: Group| g@) =~= all.subrange(0, 0).filter(
            |g: GroupV| spec_group_active(g),
        ));
        assert(inactive@.map_values(|g: Group| g@) =~= all.subrange(0, 0).filter(
            |g: GroupV| !spec_group_active(g),
        ));
        assert(all.subrange(0, all.len() as int) =~= all);
    }
    while rest.len() > 0
        invariant
            0 <= taken <= all.len(),
            rest@.map_values(|g: Group| g@) == all.subrange(taken, all.len() as int),
            active@.map_values(|g: Group| g@) == all.subrange(0, taken).filter(
                |g: GroupV| spec_group_active(g),
            ),
            inactive@.map_values(|g: Group| g@) == all.subrange(0, taken).filter(
                |g: GroupV| !spec_group_active(g),
            ),
        decreases rest@.len(),
    {
        let ghost before_rest = rest@;
        let g = rest.remove(0);
        proof {
            assert(g == before_rest[0]);
            assert(rest@ =~= before_rest.subrange(1, before_rest.len() as int));
            assert(rest@.map_values(|gg: Group| gg@) =~= before_rest.map_values(
                |gg: Group| gg@,
            ).subrange(1, before_rest.len() as int));
            assert(g@ == before_rest.map_values(|gg: Group| gg@)[0]);
            assert(before_rest.map_values(|gg: Group| gg@).len() == before_rest.len());
            assert(all.len() - taken == before_rest.len());
            assert(all.subrange(taken, all.len() as int)[0] == all[taken]);
            assert(g@ == all[taken]);
            assert(rest@.map_values(|gg: Group| gg@) =~= all.subrange(taken + 1, all.len() as int));
            assert(all.subrange(0, taken + 1) =~= all.subrange(0, taken).push(all[taken]));
            sorting::lemma_filter_push(
                all.subrange(0, taken),
                |gg: GroupV| spec_group_active(gg),
                all[taken],
            );
            sorting::lemma_filter_push(
                all.subrange(0, taken),
                |gg: GroupV| !spec_group_active(gg),
                all[taken],
            );
        }
        if text::str_eq(g.state.as_str(), "/api/v1/name/groupstatename/active/") {
            active.push(g);
            proof {
                assert(active@.map_values(|gg: Group| gg@) =~= all.subrange(0, taken + 1).filter(
                    |gg: GroupV| spec_group_active(gg),
                ));
            }
        } else {
            inactive.push(g);
            proof {
                assert(inactive@.map_values(|gg: Group| gg@) =~= all.subrange(0, taken + 1).filter(
                    |gg: GroupV| !spec_group_active(gg),
                ));
            }
        }
        proof {
            taken = taken + 1;
        }
    }
    (active, inactive)
}

/// The three census categories.
#[derive(Clone, Copy, Debug, PartialEq, Eq, Structural)]
pub enum Category {
    Drafted,
    Expired,
    Published,
}

/// One census contribution: on `day`, `category` changes by `by` (possibly
/// by nothing, which still renders the day).
#[derive(Clone, Copy, Debug, PartialEq, Eq, Structural)]
pub struct Bump {
    pub day: i64,
    pub category: Category,
    pub by: i64,
}

impl Keyed for Bump {
    open spec fn spec_key(&self) -> int {
        self.day as int
    }

    fn key(&self) -> (r: i64) {
        self.day
    }
}

/// Counts per category, unbounded.
pub struct Counts {
    pub drafted: int,
    pub expired: int,
    pub published: int,
}

/// All categories at zero.
pub open spec fn spec_counts_zero() -> Counts {
    Counts { drafted: 0, expired: 0, published: 0 }
}

/// One category changed by `by`.
pub open spec fn spec_counts_bump(c: Counts, cat: Category, by: int) -> Counts {
    match cat {
        Category::Drafted => Counts { drafted: c.drafted + by, ..c },
        Category::Expired => Counts { expired: c.expired + by, ..c },
        Category::Published => Counts { published: c.published + by, ..c },
    }
}

/// Categorywise sum.
pub open spec fn spec_counts_add(a: Counts, b: Counts) -> Counts {
    Counts {
        drafted: a.drafted + b.drafted,
        expired: a.expired + b.expired,
        published: a.published + b.published,
    }
}

/// Every category within the signed range a day's delta is summed in.
pub open spec fn spec_counts_ok_i64(c: Counts) -> bool {
    &&& i64::MIN <= c.drafted <= i64::MAX
    &&& i64::MIN <= c.expired <= i64::MAX
    &&& i64::MIN <= c.published <= i64::MAX
}

/// Every category within the unsigned range a running census is held in.
pub open spec fn spec_counts_ok_u64(c: Counts) -> bool {
    &&& 0 <= c.drafted <= u64::MAX
    &&& 0 <= c.expired <= u64::MAX
    &&& 0 <= c.published <= u64::MAX
}

/// The closing contribution of a document that did not expire: on its
/// closing day the drafted count moves to published.
pub open spec fn spec_closed_bumps(log1: Seq<Bump>, closed_at: Option<i64>) -> Seq<Bump> {
    match closed_at {
        Option::Some(at) => log1 + seq![
            (Bump {
                day: dates::spec_day_of(at as int) as i64,
                category: Category::Drafted,
                by: -1i64,
            }),
            (Bump {
                day: dates::spec_day_of(at as int) as i64,
                category: Category::Published,
                by: 1i64,
            }),
        ],
        Option::None => log1,
    }
}

/// Every census contribution of one document: drafted on its creation day,
/// each revision day rendered unchanged, and expiry before `now` or
/// closing moving the count on — an expiry wins over a closing.
pub open spec fn spec_apply_doc(log: Seq<Bump>, d: Document, now: int) -> Seq<Bump> {
    let log1 = log + seq![
        (Bump {
            day: dates::spec_day_of(d.created_at as int) as i64,
            category: Category::Drafted,
            by: 1i64,
        }),
    ] + d.revisions@.map_values(
        |at: i64| (Bump {
            day: dates::spec_day_of(at as int) as i64,
            category: Category::Drafted,
            by: 0i64,
        }),
    );
    match d.expires_at {
        Option::Some(eat) => {
            if eat as int <= now {
                log1 + seq![
                    (Bump {
                        day: dates::spec_day_of(eat as int) as i64,
                        category: Category::Drafted,
                        by: -1i64,
                    }),
                    (Bump {
                        day: dates::spec_day_of(eat as int) as i64,
                        category: Category::Expired,
                        by: 1i64,
                    }),
                ]
            } else {
                spec_closed_bumps(log1, d.closed_at)
            }
        },
        Option::None => spec_closed_bumps(log1, d.closed_at),
    }
}

/// The census contributions of a run of documents, in order.
pub open spec fn spec_bumps_from(log: Seq<Bump>, ds: Seq<Document>, now: int) -> Seq<Bump>
    decreases ds.len(),
{
    if ds.len() == 0 {
        log
    } else {
        spec_bumps_from(spec_apply_doc(log, ds[0], now), ds.subrange(1, ds.len() as int), now)
    }
}

/// One day of the census.
pub struct AggV {
    pub date: int,
    pub counts: Counts,
}

/// The census over a day-sorted contribution log, as for the other
/// dashboards: day deltas summed in the signed range, running counts in
/// the unsigned range, any excursion failing the census.
pub open spec fn spec_agg(
    log: Seq<Bump>,
    day: int,
    delta: Counts,
    totals: Counts,
    out: Seq<AggV>,
) -> Option<Seq<AggV>>
    decreases log.len(),
{
    if log.len() == 0 {
        let t = spec_counts_add(totals, delta);
        if spec_counts_ok_u64(t) {
            Option::Some(out.push(AggV { date: day, counts: t }))
        } else {
            Option::None
        }
    } else if log[0].day as int == day {
        let d2 = spec_counts_bump(delta, log[0].category, log[0].by as int);
        if spec_counts_ok_i64(d2) {
            spec_agg(log.subrange(1, log.len() as int), day, d2, totals, out)
        } else {
            Option::None
        }
    } else {
        let t = spec_counts_add(totals, delta);
        if spec_counts_ok_u64(t) {
            spec_agg(
                log.subrange(1, log.len() as int),
                log[0].day as int,
                spec_counts_bump(spec_counts_zero(), log[0].category, log[0].by as int),
                t,
                out.push(AggV { date: day, counts: t }),
            )
        } else {
            Option::None
        }
    }
}

/// The census of a day-sorted contribution log.
pub open spec fn spec_aggregate(log: Seq<Bump>) -> Option<Seq<AggV>> {
    if log.len() == 0 {
        Option::Some(Seq::empty())
    } else {
        spec_agg(
            log.subrange(1, log.len() as int),
            log[0].day as int,
            spec_counts_bump(spec_counts_zero(), log[0].category, log[0].by as int),
            spec_counts_zero(),
            Seq::empty(),
        )
    }
}

/// A document's timestamps all lie in the calendar range.
pub open spec fn spec_doc_ts_ok(d: Document) -> bool {
    &&& dates::spec_ts_ok(d.created_at as int)
    &&& match d.closed_at {
        Option::Some(c) => dates::spec_ts_ok(c as int),
        Option::None => true,
    }
    &&& match d.expires_at {
        Option::Some(c) => dates::spec_ts_ok(c as int),
        Option::None => true,
    }
    &&& forall|j: int|
        0 <= j < d.revisions@.len() ==> dates::spec_ts_ok((#[trigger] d.revisions@[j]) as int)
}

/// One rendered census day.
#[derive(Clone, Copy, Debug, PartialEq, Eq, Structural)]
pub struct Aggregate {
    pub date: i64,
    pub draft: u64,
    pub expired: u64,
    pub published: u64,
}

impl View for Aggregate {
    type V = AggV;

    open spec fn view(&self) -> AggV {
        AggV {
            date: self.date as int,
            counts: Counts {
                drafted: self.draft as int,
                expired: self.expired as int,
                published: self.published as int,
            },
        }
    }
}

/// Whether a document is still open at `now`: not closed, and not yet
/// expired.
pub open spec fn spec_doc_open(d: Document, now: int) -> bool {
    d.closed_at is None && match d.expires_at {
        Option::Some(at) => at > now,
        Option::None => true,
    }
}

/// A document paired with the sort key of one of the listings.
pub struct KeyedDoc {
    pub weight: i64,
    pub doc: Document,
}

impl Keyed for KeyedDoc {
    open spec fn spec_key(&self) -> int {
        self.weight as int
    }

    fn key(&self) -> (r: i64) {
        self.weight
    }
}

/// The open documents wrapped with their ages at `now`, in order.
pub open spec fn spec_open_wrapped(ds: Seq<Document>, now: int) -> Seq<KeyedDoc> {
    ds.filter(|d: Document| spec_doc_open(d, now)).map_values(
        |d: Document| (KeyedDoc { weight: (now - d.created_at) as i64, doc: d }),
    )
}

/// Whether a document was closed.
pub open spec fn spec_doc_closed(d: Document) -> bool {
    d.closed_at is Some
}

/// The closed documents wrapped with their open durations, in order.
pub open spec fn spec_closed_wrapped(ds: Seq<Document>) -> Seq<KeyedDoc> {
    ds.filter(|d: Document| spec_doc_closed(d)).map_values(
        |d: Document| (KeyedDoc {
            weight: (match d.closed_at {
                Option::Some(c) => (c - d.created_at) as i64,
                Option::None => 0i64,
            }),
            doc: d,
        }),
    )
}

/// The closed documents' `(created, closed)` ranges, in fetch order.
pub open spec fn spec_closed_ranges(ds: Seq<Document>) -> Seq<(i64, i64)> {
    ds.filter(|d: Document| spec_doc_closed(d)).map_values(
        |d: Document| (
            d.created_at,
            match d.closed_at {
                Option::Some(c) => c,
                Option::None => 0i64,
            },
        ),
    )
}

/// The dashboard's data: the census, the completion histogram of published
/// documents, and the open and closed listings, each from longest open to
/// shortest.
pub struct Data {
    pub agg: Vec<Aggregate>,
    pub completed_hist: Vec<rfc_common::Bucket>,
    pub completed_stats: rfc_common::HistogramStats,
    pub open_docs: Vec<Document>,
    pub closed_docs: Vec<Document>,
}

/// A day's delta while it is being summed.
#[derive(Clone, Copy)]
struct DeltaCounts {
    drafted: i64,
    expired: i64,
    published: i64,
}

impl View for DeltaCounts {
    type V = Counts;

    closed spec fn view(&self) -> Counts {
        Counts {
            drafted: self.drafted as int,
            expired: self.expired as int,
            published: self.published as int,
        }
    }
}

/// The running census while it is being summed.
#[derive(Clone, Copy)]
struct TotalCounts {
    drafted: u64,
    expired: u64,
    published: u64,
}

impl View for TotalCounts {
    type V = Counts;

    closed spec fn view(&self) -> Counts {
        Counts {
            drafted: self.drafted as int,
            expired: self.expired as int,
            published: self.published as int,
        }
    }
}

/// One category of a delta changed by `by`, if the sum stays in range.
fn delta_bump(d: DeltaCounts, cat: Category, by: i64) -> (r: Option<DeltaCounts>)
    ensures
        match r {
            Option::Some(d2) => spec_counts_ok_i64(spec_counts_bump(d@, cat, by as int)) && d2@
                == spec_counts_bump(d@, cat, by as int),
            Option::None => !spec_counts_ok_i64(spec_counts_bump(d@, cat, by as int)),
        },
{
    match cat {
        Category::Drafted => match d.drafted.checked_add(by) {
            Some(v) => Some(DeltaCounts { drafted: v, ..d }),
            None => None,
        },
        Category::Expired => match d.expired.checked_add(by) {
            Some(v) => Some(DeltaCounts { expired: v, ..d }),
            None => None,
        },
        Category::Published => match d.published.checked_add(by) {
            Some(v) => Some(DeltaCounts { published: v, ..d }),
            None => None,
        },
    }
}

/// The running census with one day's delta added, if every category stays
/// in range.
fn totals_add(t: TotalCounts, d: DeltaCounts) -> (r: Option<TotalCounts>)
    ensures
        match r {
            Option::Some(t2) => spec_counts_ok_u64(spec_counts_add(t@, d@)) && t2@
                == spec_counts_add(t@, d@),
            Option::None => !spec_counts_ok_u64(spec_counts_add(t@, d@)),
        },
{
    let drafted = t.drafted.checked_add_signed(d.drafted);
    let expired = t.expired.checked_add_signed(d.expired);
    let published = t.published.checked_add_signed(d.published);
    match (drafted, expired, published) {
        (Some(a), Some(b), Some(c)) => Some(TotalCounts { drafted: a, expired: b, published: c }),
        _ => None,
    }
}

impl Data {
    /// Reduces the fetched documents, as of `now`, to the dashboard's
    /// data.  `None` is returned exactly when the census would leave the
    /// machine's integer ranges or a completion span cannot be computed,
    /// which no realistic document history brings about.
    pub fn new(documents: Vec<Document>, now: i64) -> (r: Option<Data>)
        requires
            dates::spec_ts_ok(now as int),
            forall|i: int|
                0 <= i < documents@.len() ==> spec_doc_ts_ok(#[trigger] documents@[i]),
        ensures
            ({
                let log = sorting::spec_sort_by_key(
                    spec_bumps_from(Seq::empty(), documents@, now as int),
                );
                match r {
                    Option::Some(d) => {
                        &&& Option::Some(d.agg@.map_values(|a: Aggregate| a@)) == spec_aggregate(
                            log,
                        )
                        &&& match rfc_common::spec_histogram(spec_closed_ranges(documents@)) {
                            Option::Some(pair) => d.completed_hist@ == pair.0
                                && d.completed_stats.median == pair.1,
                            Option::None => false,
                        }
                        &&& d.open_docs@ == sorting::spec_reverse(
                            sorting::spec_sort_by_key(spec_open_wrapped(documents@, now as int)),
                        ).map_values(|c: KeyedDoc| c.doc)
                        &&& d.closed_docs@ == sorting::spec_reverse(
                            sorting::spec_sort_by_key(spec_closed_wrapped(documents@)),
                        ).map_values(|c: KeyedDoc| c.doc)
                    },
                    Option::None => spec_aggregate(log) is None || rfc_common::spec_histogram(
                        spec_closed_ranges(documents@),
                    ) is None,
                }
            }),
    {
        let ghost all_docs = documents@;

        // Every census contribution, in document order.
        let mut bumps: Vec<Bump> = Vec::new();
        let n = documents.len();
        proof {
            assert(all_docs.subrange(0, n as int) =~= all_docs);
            assert(spec_bumps_from(bumps@, all_docs.subrange(0, n as int), now as int)
                == spec_bumps_from(Seq::empty(), all_docs, now as int));
        }
        let mut i: usize = 0;
        while i < n
            invariant
                n == documents@.len(),
                documents@ == all_docs,
                dates::spec_ts_ok(now as int),
                forall|k: int|
                    0 <= k < all_docs.len() ==> spec_doc_ts_ok(#[trigger] all_docs[k]),
                i <= n,
                spec_bumps_from(bumps@, all_docs.subrange(i as int, n as int), now as int)
                    == spec_bumps_from(Seq::empty(), all_docs, now as int),
            decreases n - i,
        {
            let ghost rem = all_docs.subrange(i as int, n as int);
            let ghost log0 = bumps@;
            proof {
                assert(rem[0] == all_docs[i as int]);
                assert(rem.subrange(1, rem.len() as int) =~= all_docs.subrange(i + 1, n as int));
            }
            let d = &documents[i];
            let created_day = dates::day_of(d.created_at);
            bumps.push(Bump { day: created_day, category: Category::Drafted, by: 1 });
            let m = d.revisions.len();
            let ghost log1 = log0 + seq![
                (Bump {
                    day: dates::spec_day_of(d.created_at as int) as i64,
                    category: Category::Drafted,
                    by: 1i64,
                }),
            ] + d.revisions@.map_values(
                |at: i64| (Bump {
                    day: dates::spec_day_of(at as int) as i64,
                    category: Category::Drafted,
                    by: 0i64,
                }),
            );
            let mut j: usize = 0;
            while j < m
                invariant
                    n == documents@.len(),
                    documents@ == all_docs,
                    i < n,
                    m == documents@[i as int].revisions@.len(),
                    spec_doc_ts_ok(all_docs[i as int]),
                    j <= m,
                    bumps@ =~= log0 + seq![
                        (Bump {
                            day: dates::spec_day_of(
                                documents@[i as int].created_at as int,
                            ) as i64,
                            category: Category::Drafted,
                            by: 1i64,
                        }),
                    ] + documents@[i as int].revisions@.subrange(0, j as int).map_values(
                        |at: i64| (Bump {
                            day: dates::spec_day_of(at as int) as i64,
                            category: Category::Drafted,
                            by: 0i64,
                        }),
                    ),
                decreases m - j,
            {
                let ghost before = bumps@;
                let at = documents[i].revisions[j];
                let rev_day = dates::day_of(at);
                bumps.push(Bump { day: rev_day, category: Category::Drafted, by: 0 });
                proof {
                    let revs = documents@[i as int].revisions@;
                    assert(revs.subrange(0, j + 1) =~= revs.subrange(0, j as int).push(
                        revs[j as int],
                    ));
                    assert(revs.subrange(0, j + 1).map_values(
                        |at2: i64| (Bump {
                            day: dates::spec_day_of(at2 as int) as i64,
                            category: Category::Drafted,
                            by: 0i64,
                        }),
                    ) =~= revs.subrange(0, j as int).map_values(
                        |at2: i64| (Bump {
                            day: dates::spec_day_of(at2 as int) as i64,
                            category: Category::Drafted,
                            by: 0i64,
                        }),
                    ).push(
                        (Bump {
                            day: dates::spec_day_of(revs[j as int] as int) as i64,
                            category: Category::Drafted,
                            by: 0i64,
                        }),
                    ));
                }
                j = j + 1;
            }
            proof {
                let revs = documents@[i as int].revisions@;
                assert(revs.subrange(0, m as int) =~= revs);
                assert(bumps@ == log1);
            }
            let ended = match d.expires_at {
                Some(eat) => {
                    if eat <= now {
                        let eday = dates::day_of(eat);
                        bumps.push(Bump { day: eday, category: Category::Drafted, by: -1 });
                        bumps.push(Bump { day: eday, category: Category::Expired, by: 1 });
                        true
                    } else {
                        false
                    }
                },
                None => false,
            };
            if !ended {
                match d.closed_at {
                    Some(cat) => {
                        let cday = dates::day_of(cat);
                        bumps.push(Bump { day: cday, category: Category::Drafted, by: -1 });
                        bumps.push(Bump { day: cday, category: Category::Published, by: 1 });
                    },
                    None => {},
                }
            }
            proof {
                assert(bumps@ =~= spec_apply_doc(log0, all_docs[i as int], now as int));
            }
            i = i + 1;
        }
        proof {
            assert(all_docs.subrange(n as int, n as int) =~= Seq::<Document>::empty());
            assert(bumps@ == spec_bumps_from(Seq::empty(), all_docs, now as int));
        }

        // Day-sorted, the contributions become the census.
        let sorted = sorting::sort_by_key_stable(bumps);
        let ghost log = sorted@;
        let mut agg: Vec<Aggregate> = Vec::new();
        if sorted.len() > 0 {
            let sn = sorted.len();
            let mut day = sorted[0].day;
            let mut delta = match delta_bump(
                DeltaCounts { drafted: 0, expired: 0, published: 0 },
                sorted[0].category,
                sorted[0].by,
            ) {
                Some(d) => d,
                None => vstd::pervasive::unreached(),
            };
            let mut totals = TotalCounts { drafted: 0, expired: 0, published: 0 };
            proof {
                assert(log.subrange(1, sn as int) =~= log.subrange(1, log.len() as int));
                assert(agg@.map_values(|a: Aggregate| a@) =~= Seq::<AggV>::empty());
            }
            let mut k: usize = 1;
            while k < sn
                invariant
                    sn == sorted@.len(),
                    sorted@ == log,
                    log == sorting::spec_sort_by_key(
                        spec_bumps_from(Seq::empty(), documents@, now as int),
                    ),
                    1 <= k <= sn,
                    spec_agg(
                        log.subrange(k as int, sn as int),
                        day as int,
                        delta@,
                        totals@,
                        agg@.map_values(|a: Aggregate| a@),
                    ) == spec_aggregate(log),
                decreases sn - k,
            {
                let ghost lrem = log.subrange(k as int, sn as int);
                proof {
                    assert(lrem[0] == log[k as int]);
                    assert(lrem.subrange(1, lrem.len() as int) =~= log.subrange(
                        k + 1,
                        sn as int,
                    ));
                }
                let b = sorted[k];
                if b.day == day {
                    match delta_bump(delta, b.category, b.by) {
                        Some(d2) => {
                            delta = d2;
                        },
                        None => {
                            return None;
                        },
                    }
                } else {
                    match totals_add(totals, delta) {
                        None => {
                            return None;
                        },
                        Some(t) => {
                            let ghost aggs0 = agg@.map_values(|a: Aggregate| a@);
                            agg.push(
                                Aggregate {
                                    date: day,
                                    draft: t.drafted,
                                    expired: t.expired,
                                    published: t.published,
                                },
                            );
                            proof {
                                assert(agg@.map_values(|a: Aggregate| a@) =~= aggs0.push(
                                    (AggV { date: day as int, counts: t@ }),
                                ));
                            }
                            totals = t;
                            day = b.day;
                            delta = match delta_bump(
                                DeltaCounts { drafted: 0, expired: 0, published: 0 },
                                b.category,
                                b.by,
                            ) {
                                Some(d) => d,
                                None => vstd::pervasive::unreached(),
                            };
                        },
                    }
                }
                k = k + 1;
            }
            match totals_add(totals, delta) {
                None => {
                    proof {
                        assert(log.subrange(sn as int, sn as int).len() == 0);
                    }
                    return None;
                },
                Some(t) => {
                    let ghost aggs0 = agg@.map_values(|a: Aggregate| a@);
                    agg.push(
                        Aggregate {
                            date: day,
                            draft: t.drafted,
                            expired: t.expired,
                            published: t.published,
                        },
                    );
                    proof {
                        assert(log.subrange(sn as int, sn as int).len() == 0);
                        assert(agg@.map_values(|a: Aggregate| a@) =~= aggs0.push(
                            (AggV { date: day as int, counts: t@ }),
                        ));
                    }
                },
            }
        } else {
            proof {
                assert(agg@.map_values(|a: Aggregate| a@) =~= Seq::<AggV>::empty());
            }
        }

        // The open and closed listings, and the completion ranges.
        let mut work = documents;
        let mut open_w: Vec<KeyedDoc> = Vec::new();
        let mut closed_w: Vec<KeyedDoc> = Vec::new();
        let mut ranges: Vec<(i64, i64)> = Vec::new();
        let ghost mut taken: int = 0;
        proof {
            assert(all_docs.subrange(0, 0) =~= Seq::<Document>::empty());
            reveal(Seq::filter);
            assert(open_w@ =~= spec_open_wrapped(all_docs.subrange(0, 0), now as int));
            assert(closed_w@ =~= spec_closed_wrapped(all_docs.subrange(0, 0)));
            assert(ranges@ =~= spec_closed_ranges(all_docs.subrange(0, 0)));
        }
        while work.len() > 0
            invariant
                0 <= taken <= all_docs.len(),
                work@ == all_docs.subrange(taken, all_docs.len() as int),
                dates::spec_ts_ok(now as int),
                forall|kk: int|
                    0 <= kk < all_docs.len() ==> spec_doc_ts_ok(#[trigger] all_docs[kk]),
                open_w@ == spec_open_wrapped(all_docs.subrange(0, taken), now as int),
                closed_w@ == spec_closed_wrapped(all_docs.subrange(0, taken)),
                ranges@ == spec_closed_ranges(all_docs.subrange(0, taken)),
                forall|kk: int|
                    0 <= kk < ranges@.len() ==> dates::spec_ts_ok(
                        (#[trigger] ranges@[kk]).0 as int,
                    ) && dates::spec_ts_ok(ranges@[kk].1 as int),
            decreases work@.len(),
        {
            let d = work.remove(0);
            proof {
                assert(d == all_docs[taken]);
                assert(work@ =~= all_docs.subrange(taken + 1, all_docs.len() as int));
                assert(all_docs.subrange(0, taken + 1) =~= all_docs.subrange(0, taken).push(
                    all_docs[taken],
                ));
                sorting::lemma_filter_push(
                    all_docs.subrange(0, taken),
                    |q: Document| spec_doc_open(q, now as int),
                    all_docs[taken],
                );
                sorting::lemma_filter_push(
                    all_docs.subrange(0, taken),
                    |q: Document| spec_doc_closed(q),
                    all_docs[taken],
                );
            }
            let closed = match d.closed_at {
                Some(c) => Some(c),
                None => None,
            };
            match closed {
                Some(c) => {
                    let duration = c - d.created_at;
                    ranges.push((d.created_at, c));
                    closed_w.push(KeyedDoc { weight: duration, doc: d });
                    proof {
                        assert(closed_w@ =~= spec_closed_wrapped(all_docs.subrange(0, taken + 1)));
                        assert(ranges@ =~= spec_closed_ranges(all_docs.subrange(0, taken + 1)));
                        assert(open_w@ =~= spec_open_wrapped(
                            all_docs.subrange(0, taken + 1),
                            now as int,
                        ));
                    }
                },
                None => {
                    let still_open = match d.expires_at {
                        Some(at) => at > now,
                        None => true,
                    };
                    if still_open {
                        let age = now - d.created_at;
                        open_w.push(KeyedDoc { weight: age, doc: d });
                        proof {
                            assert(open_w@ =~= spec_open_wrapped(
                                all_docs.subrange(0, taken + 1),
                                now as int,
                            ));
                        }
                    }
                    proof {
                        assert(closed_w@ =~= spec_closed_wrapped(all_docs.subrange(0, taken + 1)));
                        assert(ranges@ =~= spec_closed_ranges(all_docs.subrange(0, taken + 1)));
                        assert(open_w@ =~= spec_open_wrapped(
                            all_docs.subrange(0, taken + 1),
                            now as int,
                        ));
                    }
                },
            }
            proof {
                taken = taken + 1;
            }
        }
        proof {
            assert(all_docs.subrange(0, all_docs.len() as int) =~= all_docs);
            assert(taken == all_docs.len());
        }
        let histogram = match rfc_common::completion_months_histogram(&ranges) {
            Some(h) => h,
            None => {
                return None;
            },
        };
        let open_docs = unwrap_docs(sorting::reverse_vec(sorting::sort_by_key_stable(open_w)));
        let closed_docs = unwrap_docs(sorting::reverse_vec(sorting::sort_by_key_stable(closed_w)));
        Some(
            Data {
                agg,
                completed_hist: histogram.0,
                completed_stats: histogram.1,
                open_docs,
                closed_docs,
            },
        )
    }
}

/// The documents of a keyed list, in order.
fn unwrap_docs(v: Vec<KeyedDoc>) -> (r: Vec<Document>)
    ensures
        r@ == v@.map_values(|c: KeyedDoc| c.doc),
{
    let ghost input = v@;
    let mut rest = v;
    let mut out: Vec<Document> = Vec::new();
    proof {
        assert(input.subrange(0, 0).map_values(|c: KeyedDoc| c.doc) =~= Seq::<Document>::empty());
    }
    while rest.len() > 0
        invariant
            out@.len() + rest@.len() == input.len(),
            rest@ == input.subrange(input.len() - rest@.len(), input.len() as int),
            out@ == input.subrange(0, input.len() - rest@.len()).map_values(
                |c: KeyedDoc| c.doc,
            ),
        decreases rest@.len(),
    {
        let ghost done = input.len() - rest@.len();
        let c = rest.remove(0);
        proof {
            assert(c == input[done]);
            assert(rest@ =~= input.subrange(done + 1, input.len() as int));
        }
        out.push(c.doc);
        proof {
            assert(out@ =~= input.subrange(0, done + 1).map_values(|cc: KeyedDoc| cc.doc));
        }
    }
    proof {
        assert(input.subrange(0, input.len() as int) =~= input);
    }
    out
}

} // verus!
