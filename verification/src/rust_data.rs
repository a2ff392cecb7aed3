//! The tracking-issue dashboard's data reduction: each RFC tracking issue
//! walks a small state machine driven by its label events, every transition
//! contributes a per-day delta, and the deltas accumulate into a day-by-day
//! census of issues per state, together with the open and closed listings.
//!
//! The census arithmetic is checked: on inputs whose counts would leave the
//! machine's integer ranges the reduction reports failure instead of a
//! result.

use vstd::prelude::*;

use crate::dates;
use crate::rfc_common;
use crate::rfc_common::BodiedIssueNode;
use crate::rfc_common::LabelEvent;
use crate::rfc_common::LabelParse;
use crate::sorting;
use crate::sorting::Keyed;
use crate::text;

verus! {

/// The tracking labels the dashboard reads.
#[derive(Clone, Copy, Debug, PartialEq, Eq, Structural)]
pub enum Label {
    RfcApproved,
    RfcImplemented,
}

impl LabelParse for Label {
    open spec fn spec_parse(s: Seq<char>) -> Option<Label> {
        if s == "B-RFC-approved"@ {
            Option::Some(Label::RfcApproved)
        } else if s == "B-RFC-implemented"@ {
            Option::Some(Label::RfcImplemented)
        } else {
            Option::None
        }
    }

    fn parse(s: &str) -> (r: Option<Label>) {
        if text::str_eq(s, "B-RFC-approved") {
            Some(Label::RfcApproved)
        } else if text::str_eq(s, "B-RFC-implemented") {
            Some(Label::RfcImplemented)
        } else {
            None
        }
    }
}

/// One tracking issue: its issue data, the RFC it tracks, and its
/// time-ordered label events.
pub struct TrackingIssue {
    pub number: i64,
    pub title: String,
    pub rfc: u32,
    pub created_at: i64,
    pub closed_at: Option<i64>,
    pub label_events: Vec<LabelEvent<Label>>,
}

/// The abstract value of a tracking issue.
pub struct TrackingIssueV {
    pub number: int,
    pub title: Seq<char>,
    pub rfc: int,
    pub created_at: int,
    pub closed_at: Option<i64>,
    pub events: Seq<LabelEvent<Label>>,
}

impl View for TrackingIssue {
    type V = TrackingIssueV;

    open spec fn view(&self) -> TrackingIssueV {
        TrackingIssueV {
            number: self.number as int,
            title: self.title@,
            rfc: self.rfc as int,
            created_at: self.created_at as int,
            closed_at: self.closed_at,
            events: self.label_events@,
        }
    }
}

impl TrackingIssue {
    /// A tracking issue from its fetched data: ignored issues and issues
    /// with no recognizable RFC reference are dropped; otherwise the fields
    /// carry over, the RFC number is read out of the body or title, and the
    /// timeline becomes the sorted label-event list.
    pub fn new(issue: BodiedIssueNode) -> (r: Option<TrackingIssue>)
        requires
            (match spec_rfc_of(issue.number as int, issue.body@, issue.title@) {
                Option::Some(v) => v <= u32::MAX,
                Option::None => true,
            }),
        ensures
            match r {
                Option::Some(p) => {
                    &&& !spec_issue_ignored(issue.number as int)
                    &&& spec_rfc_of(issue.number as int, issue.body@, issue.title@)
                        == Option::Some(p.rfc as int)
                    &&& p.number == issue.number
                    &&& p.title@ == issue.title@
                    &&& p.created_at == issue.created_at
                    &&& p.closed_at == issue.closed_at
                    &&& p.label_events@ == rfc_common::spec_sort_events(
                        rfc_common::spec_events::<Label>(
                            rfc_common::spec_timeline_edges(&issue.timeline_items),
                        ),
                    )
                },
                Option::None => spec_issue_ignored(issue.number as int) || spec_rfc_of(
                    issue.number as int,
                    issue.body@,
                    issue.title@,
                ) is None,
            },
    {
        if issue.number == 14812 {
            return None;
        }
        let rfc = match rfc_number_for(issue.number, issue.body.as_str(), issue.title.as_str()) {
            Some(v) => v,
            None => {
                return None;
            },
        };
        let label_events = rfc_common::label_events_for::<Label>(issue.timeline_items);
        Some(
            TrackingIssue {
                number: issue.number,
                title: issue.title,
                rfc,
                created_at: issue.created_at,
                closed_at: issue.closed_at,
                label_events,
            },
        )
    }
}

/// The listing order of tracking issues: by RFC number, then creation
/// time, then closing time, a missing closing time first.
pub open spec fn spec_issue_le(a: TrackingIssueV, b: TrackingIssueV) -> bool {
    if a.rfc != b.rfc {
        a.rfc < b.rfc
    } else if a.created_at != b.created_at {
        a.created_at < b.created_at
    } else {
        spec_opt_le(a.closed_at, b.closed_at)
    }
}

/// The order on optional times: absent before present, present by value.
pub open spec fn spec_opt_le(a: Option<i64>, b: Option<i64>) -> bool {
    match (a, b) {
        (Option::None, _) => true,
        (Option::Some(_), Option::None) => false,
        (Option::Some(x), Option::Some(y)) => x <= y,
    }
}

/// Whether `a` lists at or before `b`, as [`spec_issue_le`] defines it.
fn issue_le(a: &TrackingIssue, b: &TrackingIssue) -> (r: bool)
    ensures
        r == spec_issue_le(a@, b@),
{
    if a.rfc != b.rfc {
        a.rfc < b.rfc
    } else if a.created_at != b.created_at {
        a.created_at < b.created_at
    } else {
        match (&a.closed_at, &b.closed_at) {
            (None, _) => true,
            (Some(_), None) => false,
            (Some(x), Some(y)) => *x <= *y,
        }
    }
}

/// A sorted issue sequence with `e` inserted after issues listing at or
/// before it: the insertion step of the stable listing order.
pub open spec fn spec_insert_issue(s: Seq<TrackingIssueV>, e: TrackingIssueV) -> Seq<
    TrackingIssueV,
>
    decreases s.len(),
{
    if s.len() == 0 {
        seq![e]
    } else if spec_issue_le(s.last(), e) {
        s.push(e)
    } else {
        spec_insert_issue(s.drop_last(), e).push(s.last())
    }
}

/// The stable sort of tracking issues into listing order.
pub open spec fn spec_sort_issues(s: Seq<TrackingIssueV>) -> Seq<TrackingIssueV>
    decreases s.len(),
{
    if s.len() == 0 {
        Seq::empty()
    } else {
        spec_insert_issue(spec_sort_issues(s.drop_last()), s.last())
    }
}

/// In listing order, non-decreasing.
pub open spec fn spec_issues_sorted(s: Seq<TrackingIssueV>) -> bool {
    forall|i: int, j: int| 0 <= i <= j < s.len() ==> spec_issue_le(s[i], s[j])
}

/// The listing order is total.
proof fn lemma_issue_le_total(a: TrackingIssueV, b: TrackingIssueV)
    ensures
        spec_issue_le(a, b) || spec_issue_le(b, a),
{
}

/// The listing order is transitive.
proof fn lemma_issue_le_trans(a: TrackingIssueV, b: TrackingIssueV, c: TrackingIssueV)
    requires
        spec_issue_le(a, b),
        spec_issue_le(b, c),
    ensures
        spec_issue_le(a, c),
{
}

/// Inserting at the position the scan finds is what [`spec_insert_issue`]
/// computes.
proof fn lemma_insert_issue_at(s: Seq<TrackingIssueV>, e: TrackingIssueV, p: int)
    requires
        spec_issues_sorted(s),
        0 <= p <= s.len(),
        forall|i: int| 0 <= i < p ==> spec_issue_le(#[trigger] s[i], e),
        forall|i: int| p <= i < s.len() ==> !spec_issue_le(#[trigger] s[i], e),
    ensures
        spec_insert_issue(s, e) =~= s.subrange(0, p) + seq![e] + s.subrange(p, s.len() as int),
    decreases s.len(),
{
    if s.len() == 0 {
    } else if spec_issue_le(s.last(), e) {
        if p < s.len() {
            lemma_issue_le_trans(s[p], s.last(), e);
        }
        assert(p == s.len());
    } else {
        lemma_insert_issue_at(s.drop_last(), e, p);
    }
}

/// The fetched tracking issues in listing order, as the dashboard shows
/// them.
pub fn sort_tracking_issues(v: Vec<TrackingIssue>) -> (r: Vec<TrackingIssue>)
    ensures
        r@.map_values(|t: TrackingIssue| t@) == spec_sort_issues(
            v@.map_values(|t: TrackingIssue| t@),
        ),
{
    let ghost input = v@.map_values(|t: TrackingIssue| t@);
    let mut rest = v;
    let mut out: Vec<TrackingIssue> = Vec::new();
    let ghost mut taken: int = 0;
    proof {
        assert(input.subrange(0, 0) =~= Seq::<TrackingIssueV>::empty());
        assert(out@.map_values(|t: TrackingIssue| t@) =~= spec_sort_issues(
            input.subrange(0, 0),
        ));
        assert(input.subrange(0, input.len() as int) =~= input);
    }
    while rest.len() > 0
        invariant
            0 <= taken <= input.len(),
            rest@.map_values(|t: TrackingIssue| t@) == input.subrange(taken, input.len() as int),
            out@.map_values(|t: TrackingIssue| t@) == spec_sort_issues(input.subrange(0, taken)),
            spec_issues_sorted(out@.map_values(|t: TrackingIssue| t@)),
        decreases rest@.len(),
    {
        let ghost before_rest = rest@;
        let item = rest.remove(0);
        proof {
            assert(item == before_rest[0]);
            assert(rest@ =~= before_rest.subrange(1, before_rest.len() as int));
            assert(rest@.map_values(|t: TrackingIssue| t@) =~= before_rest.map_values(
                |t: TrackingIssue| t@,
            ).subrange(1, before_rest.len() as int));
            assert(item@ == before_rest.map_values(|t: TrackingIssue| t@)[0]);
            assert(before_rest.map_values(|t: TrackingIssue| t@).len() == before_rest.len());
            assert(input.len() - taken == before_rest.len());
            assert(input.subrange(taken, input.len() as int)[0] == input[taken]);
            assert(item@ == input[taken]);
            assert(rest@.map_values(|t: TrackingIssue| t@) =~= input.subrange(
                taken + 1,
                input.len() as int,
            ));
        }
        let ghost prior = out@.map_values(|t: TrackingIssue| t@);
        let mut p: usize = 0;
        while p < out.len() && issue_le_at(&out, p, &item)
            invariant
                p <= out@.len(),
                prior == out@.map_values(|t: TrackingIssue| t@),
                forall|k: int| 0 <= k < p ==> spec_issue_le(#[trigger] prior[k], item@),
                item@ == input[taken],
                spec_issues_sorted(prior),
            decreases out@.len() - p,
        {
            p = p + 1;
        }
        proof {
            assert(forall|k: int|
                p <= k < prior.len() ==> !spec_issue_le(#[trigger] prior[k], item@)) by {
                assert forall|k: int| p <= k < prior.len() implies !spec_issue_le(
                    #[trigger] prior[k],
                    item@,
                ) by {
                    if p < prior.len() && spec_issue_le(prior[k], item@) {
                        assert(spec_issue_le(prior[p as int], prior[k]));
                        lemma_issue_le_trans(prior[p as int], prior[k], item@);
                    }
                }
            }
            lemma_insert_issue_at(prior, item@, p as int);
        }
        out.insert(p, item);
        proof {
            assert(out@.map_values(|t: TrackingIssue| t@) =~= prior.subrange(0, p as int) + seq![
                input[taken],
            ] + prior.subrange(p as int, prior.len() as int));
            assert(input.subrange(0, taken + 1).drop_last() =~= input.subrange(0, taken));
            assert(input.subrange(0, taken + 1).last() == input[taken]);
            assert(out@.map_values(|t: TrackingIssue| t@) == spec_insert_issue(
                prior,
                input[taken],
            ));
            assert(spec_issues_sorted(out@.map_values(|t: TrackingIssue| t@))) by {
                let cur = out@.map_values(|t: TrackingIssue| t@);
                assert(forall|k: int|
                    0 <= k < cur.len() ==> #[trigger] cur[k] == (if k < p {
                        prior[k]
                    } else if k == p {
                        input[taken]
                    } else {
                        prior[k - 1]
                    }));
                assert forall|x: int, y: int| 0 <= x <= y < cur.len() implies spec_issue_le(
                    cur[x],
                    cur[y],
                ) by {
                    if x == p && y > p {
                        assert(!spec_issue_le(prior[y - 1], input[taken]));
                        lemma_issue_le_total(prior[y - 1], input[taken]);
                    } else if x < p && y > p {
                        assert(spec_issue_le(prior[x], prior[y - 1]));
                    }
                }
            }
            taken = taken + 1;
        }
    }
    proof {
        assert(taken == input.len());
    }
    out
}

/// Whether the issue at `p` lists at or before `item`.
fn issue_le_at(v: &Vec<TrackingIssue>, p: usize, item: &TrackingIssue) -> (r: bool)
    requires
        p < v@.len(),
    ensures
        r == spec_issue_le(v@.map_values(|t: TrackingIssue| t@)[p as int], item@),
{
    issue_le(&v[p], item)
}

/// Tracking issues that look like RFC tracking issues but are ignored, for
/// instance as duplicates.
pub open spec fn spec_issue_ignored(number: int) -> bool {
    number == 14812
}

/// The manual mapping of tracking issues to RFCs, for issues whose RFC
/// number cannot be read out of their text.
pub open spec fn spec_rfc_for_issue(number: int) -> Option<int> {
    if number == 16461 {
        Option::Some(47int)
    } else if number == 17841 {
        Option::Some(195int)
    } else if number == 19794 {
        Option::Some(439int)
    } else if number == 19795 {
        Option::Some(439int)
    } else if number == 23086 {
        Option::Some(1023int)
    } else if number == 23416 {
        Option::Some(803int)
    } else if number == 23533 {
        Option::Some(940int)
    } else if number == 44752 {
        Option::Some(2115int)
    } else if number == 55913 {
        Option::Some(911int)
    } else if number == 91399 {
        Option::Some(3173int)
    } else {
        Option::None
    }
}

/// The manual issue-to-RFC mapping, as [`spec_rfc_for_issue`] defines it.
fn rfc_for_issue(number: i64) -> (r: Option<u32>)
    ensures
        match r {
            Option::Some(v) => spec_rfc_for_issue(number as int) == Option::Some(v as int),
            Option::None => spec_rfc_for_issue(number as int) is None,
        },
{
    if number == 16461 {
        Some(47)
    } else if number == 17841 {
        Some(195)
    } else if number == 19794 {
        Some(439)
    } else if number == 19795 {
        Some(439)
    } else if number == 23086 {
        Some(1023)
    } else if number == 23416 {
        Some(803)
    } else if number == 23533 {
        Some(940)
    } else if number == 44752 {
        Some(2115)
    } else if number == 55913 {
        Some(911)
    } else if number == 91399 {
        Some(3173)
    } else {
        None
    }
}

/// The value of the digit run starting at `i`.
pub open spec fn spec_digits_at(s: Seq<char>, i: int) -> int {
    text::spec_digits_value(s.subrange(i, text::spec_digit_run_end(s, i)))
}

/// The RFC number of the leftmost repository reference in `s` at or after
/// `from`: the repository name followed by a pull path or an issue mark and
/// at least one digit.
pub open spec fn spec_scan_pull(s: Seq<char>, from: int) -> Option<int>
    decreases s.len() + 1 - from,
{
    let i0 = text::spec_find_t(s, "rust-lang/rfcs"@, from);
    let i = if from <= i0 < s.len() {
        i0
    } else {
        s.len() as int
    };
    if i == s.len() {
        Option::None
    } else {
        let p = i + "rust-lang/rfcs"@.len();
        if text::spec_tmatch(s, p, "/pull/"@) && p + "/pull/"@.len() < s.len()
            && text::spec_is_digit(s[p + "/pull/"@.len()]) {
            Option::Some(spec_digits_at(s, p + "/pull/"@.len()))
        } else if p < s.len() && s[p] == '#' && p + 1 < s.len() && text::spec_is_digit(
            s[p + 1],
        ) {
            Option::Some(spec_digits_at(s, p + 1))
        } else {
            spec_scan_pull(s, i + 1)
        }
    }
}

/// The RFC number of the leftmost occurrence of the template `t` followed
/// by digits and a dash, at or after `from`.  A dot in the template matches
/// any character.
pub open spec fn spec_scan_dashed(s: Seq<char>, t: Seq<char>, from: int) -> Option<int>
    decreases s.len() + 1 - from,
{
    let i0 = text::spec_find_t(s, t, from);
    let i = if from <= i0 < s.len() {
        i0
    } else {
        s.len() as int
    };
    if i == s.len() {
        Option::None
    } else {
        let p = i + t.len();
        let e = text::spec_digit_run_end(s, p);
        if e > p && e < s.len() && s[e] == '-' {
            Option::Some(text::spec_digits_value(s.subrange(p, e)))
        } else {
            spec_scan_dashed(s, t, i + 1)
        }
    }
}

/// The RFC number a title announces at position `i`: the words "Tracking
/// issue fo", an optional "r", then " RFC ", an optional "#" or "PR ", then
/// digits.
pub open spec fn spec_title_digits_at(s: Seq<char>, i: int) -> Option<int> {
    if text::spec_tmatch(s, i, "Tracking "@) && i + 9 < s.len() && (s[i + 9] == 'i' || s[i + 9]
        == 'I') && text::spec_tmatch(s, i + 10, "ssue fo"@) {
        let p = i + 17;
        let q = if p < s.len() && s[p] == 'r' && text::spec_tmatch(s, p + 1, " RFC "@) {
            p + 6
        } else if text::spec_tmatch(s, p, " RFC "@) {
            p + 5
        } else {
            -1
        };
        if q < 0 {
            Option::None
        } else {
            let r = if q < s.len() && s[q] == '#' {
                q + 1
            } else if text::spec_tmatch(s, q, "PR "@) {
                q + 3
            } else {
                q
            };
            if r < s.len() && text::spec_is_digit(s[r]) {
                Option::Some(spec_digits_at(s, r))
            } else {
                Option::None
            }
        }
    } else {
        Option::None
    }
}

/// The RFC number of the leftmost title announcement at or after `from`.
pub open spec fn spec_scan_title(s: Seq<char>, from: int) -> Option<int>
    decreases s.len() + 1 - from,
{
    let i0 = text::spec_find_t(s, "Tracking "@, from);
    let i = if from <= i0 < s.len() {
        i0
    } else {
        s.len() as int
    };
    if i == s.len() {
        Option::None
    } else {
        match spec_title_digits_at(s, i) {
            Option::Some(v) => Option::Some(v),
            Option::None => spec_scan_title(s, i + 1),
        }
    }
}

/// The RFC a tracking issue tracks: the manual mapping first, then the
/// first pull or issue reference in the body, then the first source or
/// rendered text reference in the body, then the title announcement.
pub open spec fn spec_rfc_of(number: int, body: Seq<char>, title: Seq<char>) -> Option<int> {
    match spec_rfc_for_issue(number) {
        Option::Some(v) => Option::Some(v),
        Option::None => match spec_scan_pull(body, 0) {
            Option::Some(v) => Option::Some(v),
            Option::None => match spec_scan_dashed(body, "rust-lang/rfcs/blob/master/text/"@, 0) {
                Option::Some(v) => Option::Some(v),
                Option::None => match spec_scan_dashed(body, "rust-lang.github.io/rfcs/"@, 0) {
                    Option::Some(v) => Option::Some(v),
                    Option::None => spec_scan_title(title, 0),
                },
            },
        },
    }
}

/// `spec_find_t` stays within bounds, matches where it lands, and skips no
/// earlier match.
proof fn lemma_find_t_props(s: Seq<char>, t: Seq<char>, from: int)
    requires
        0 <= from <= s.len(),
    ensures
        from <= text::spec_find_t(s, t, from) <= s.len(),
        text::spec_find_t(s, t, from) < s.len() ==> text::spec_tmatch(
            s,
            text::spec_find_t(s, t, from),
            t,
        ),
    decreases s.len() + 1 - from,
{
    if from + t.len() <= s.len() && !text::spec_tmatch(s, from, t) {
        lemma_find_t_props(s, t, from + 1);
    }
}

/// The digit run at `start` within the scanned text, as a pair of indices.
struct DigitRun {
    start: usize,
    end: usize,
}

/// Finds the body's leftmost pull or issue reference, as
/// [`spec_scan_pull`] defines it, handing back the digit run.
fn scan_pull(s: &str, n: usize) -> (r: Option<DigitRun>)
    requires
        n == s@.len(),
    ensures
        match r {
            Option::Some(run) => {
                &&& run.start <= run.end <= n
                &&& run.end as int == text::spec_digit_run_end(s@, run.start as int)
                &&& forall|k: int|
                    run.start <= k < run.end ==> text::spec_is_digit(#[trigger] s@[k])
                &&& spec_scan_pull(s@, 0) == Option::Some(
                    text::spec_digits_value(s@.subrange(run.start as int, run.end as int)),
                )
            },
            Option::None => spec_scan_pull(s@, 0) is None,
        },
{
    let tlen = "rust-lang/rfcs".unicode_len();
    let mut from: usize = 0;
    while from <= n
        invariant
            n == s@.len(),
            tlen == "rust-lang/rfcs"@.len(),
            from <= n + 1,
            spec_scan_pull(s@, 0) == spec_scan_pull(s@, from as int),
        decreases n + 1 - from,
    {
        let i = text::find_template(s, n, "rust-lang/rfcs", tlen, from);
        proof {
            lemma_find_t_props(s@, "rust-lang/rfcs"@, from as int);
        }
        if i == n {
            return None;
        }
        let p = i + tlen;
        let plen = "/pull/".unicode_len();
        if text::tmatch_at(s, n, p, "/pull/", plen) && p + plen < n && is_digit_at(s, n, p + plen) {
            let start = p + plen;
            let end = text::digit_run_end(s, n, start);
            proof {
                lemma_run_digits(s@, start as int);
            }
            return Some(DigitRun { start, end });
        }
        if p < n && s.get_char(p) == '#' && p + 1 < n && is_digit_at(s, n, p + 1) {
            let start = p + 1;
            let end = text::digit_run_end(s, n, start);
            proof {
                lemma_run_digits(s@, start as int);
            }
            return Some(DigitRun { start, end });
        }
        from = i + 1;
    }
    proof {
        assert(spec_scan_pull(s@, n + 1) is None);
    }
    None
}

/// Finds the body's leftmost dashed reference after the template, as
/// [`spec_scan_dashed`] defines it.
fn scan_dashed(s: &str, n: usize, t: &str, tlen: usize) -> (r: Option<DigitRun>)
    requires
        n == s@.len(),
        tlen == t@.len(),
    ensures
        match r {
            Option::Some(run) => {
                &&& run.start <= run.end <= n
                &&& run.end as int == text::spec_digit_run_end(s@, run.start as int)
                &&& forall|k: int|
                    run.start <= k < run.end ==> text::spec_is_digit(#[trigger] s@[k])
                &&& spec_scan_dashed(s@, t@, 0) == Option::Some(
                    text::spec_digits_value(s@.subrange(run.start as int, run.end as int)),
                )
            },
            Option::None => spec_scan_dashed(s@, t@, 0) is None,
        },
{
    let mut from: usize = 0;
    while from <= n
        invariant
            n == s@.len(),
            tlen == t@.len(),
            from <= n + 1,
            spec_scan_dashed(s@, t@, 0) == spec_scan_dashed(s@, t@, from as int),
        decreases n + 1 - from,
    {
        let i = text::find_template(s, n, t, tlen, from);
        proof {
            lemma_find_t_props(s@, t@, from as int);
        }
        if i == n {
            return None;
        }
        let p = i + tlen;
        let e = text::digit_run_end(s, n, p);
        if e > p && e < n && s.get_char(e) == '-' {
            proof {
                lemma_run_digits(s@, p as int);
            }
            return Some(DigitRun { start: p, end: e });
        }
        from = i + 1;
    }
    proof {
        assert(spec_scan_dashed(s@, t@, n + 1) is None);
    }
    None
}

/// Finds the title's leftmost announcement, as [`spec_scan_title`] defines
/// it.
fn scan_title(s: &str, n: usize) -> (r: Option<DigitRun>)
    requires
        n == s@.len(),
    ensures
        match r {
            Option::Some(run) => {
                &&& run.start <= run.end <= n
                &&& run.end as int == text::spec_digit_run_end(s@, run.start as int)
                &&& forall|k: int|
                    run.start <= k < run.end ==> text::spec_is_digit(#[trigger] s@[k])
                &&& spec_scan_title(s@, 0) == Option::Some(
                    text::spec_digits_value(s@.subrange(run.start as int, run.end as int)),
                )
            },
            Option::None => spec_scan_title(s@, 0) is None,
        },
{
    let tlen = "Tracking ".unicode_len();
    let mut from: usize = 0;
    while from <= n
        invariant
            n == s@.len(),
            tlen == "Tracking "@.len(),
            from <= n + 1,
            spec_scan_title(s@, 0) == spec_scan_title(s@, from as int),
        decreases n + 1 - from,
    {
        let i = text::find_template(s, n, "Tracking ", tlen, from);
        proof {
            lemma_find_t_props(s@, "Tracking "@, from as int);
        }
        if i == n {
            return None;
        }
        match title_digits_at(s, n, i) {
            Some(run) => {
                proof {
                    lemma_run_digits(s@, run.start as int);
                }
                return Some(run);
            },
            None => {},
        }
        from = i + 1;
    }
    proof {
        assert(spec_scan_title(s@, n + 1) is None);
    }
    None
}

/// Tries the title announcement at one position, as
/// [`spec_title_digits_at`] defines it.
fn title_digits_at(s: &str, n: usize, i: usize) -> (r: Option<DigitRun>)
    requires
        n == s@.len(),
        i <= n,
    ensures
        match r {
            Option::Some(run) => {
                &&& run.start <= run.end <= n
                &&& run.end as int == text::spec_digit_run_end(s@, run.start as int)
                &&& spec_title_digits_at(s@, i as int) == Option::Some(
                    text::spec_digits_value(s@.subrange(run.start as int, run.end as int)),
                )
            },
            Option::None => spec_title_digits_at(s@, i as int) is None,
        },
{
    proof {
        reveal_strlit("Tracking ");
        reveal_strlit("ssue fo");
        reveal_strlit(" RFC ");
        reveal_strlit("PR ");
    }
    let l9 = "Tracking ".unicode_len();
    let l7 = "ssue fo".unicode_len();
    let l5 = " RFC ".unicode_len();
    let l3 = "PR ".unicode_len();
    if !(text::tmatch_at(s, n, i, "Tracking ", l9) && i + 9 < n && (s.get_char(i + 9) == 'i'
        || s.get_char(i + 9) == 'I') && text::tmatch_at(s, n, i + 10, "ssue fo", l7)) {
        return None;
    }
    let p = i + 17;
    let q: usize = if p < n && s.get_char(p) == 'r' && text::tmatch_at(s, n, p + 1, " RFC ", l5) {
        p + 6
    } else if text::tmatch_at(s, n, p, " RFC ", l5) {
        p + 5
    } else {
        return None;
    };
    let r: usize = if q < n && s.get_char(q) == '#' {
        q + 1
    } else if text::tmatch_at(s, n, q, "PR ", l3) {
        q + 3
    } else {
        q
    };
    if r < n && is_digit_at(s, n, r) {
        let end = text::digit_run_end(s, n, r);
        Some(DigitRun { start: r, end })
    } else {
        None
    }
}

/// Whether the character at `i` is a decimal digit.
fn is_digit_at(s: &str, n: usize, i: usize) -> (r: bool)
    requires
        n == s@.len(),
        i < n,
    ensures
        r == text::spec_is_digit(s@[i as int]),
{
    let c = s.get_char(i) as u32;
    48 <= c && c <= 57
}

/// Every character of a digit run is a digit.
proof fn lemma_run_digits(s: Seq<char>, from: int)
    requires
        0 <= from <= s.len(),
    ensures
        forall|k: int|
            from <= k < text::spec_digit_run_end(s, from) ==> text::spec_is_digit(
                #[trigger] s[k],
            ),
        from <= text::spec_digit_run_end(s, from) <= s.len(),
    decreases s.len() - from,
{
    if from < s.len() && text::spec_is_digit(s[from]) {
        lemma_run_digits(s, from + 1);
    }
}

/// The RFC a tracking issue tracks, as [`spec_rfc_of`] defines it.  The
/// reference numbers in real issue text fit in `u32`, which the caller
/// vouches for.
pub fn rfc_number_for(number: i64, body: &str, title: &str) -> (r: Option<u32>)
    requires
        (match spec_rfc_of(number as int, body@, title@) {
            Option::Some(v) => v <= u32::MAX,
            Option::None => true,
        }),
    ensures
        match r {
            Option::Some(v) => spec_rfc_of(number as int, body@, title@) == Option::Some(
                v as int,
            ),
            Option::None => spec_rfc_of(number as int, body@, title@) is None,
        },
{
    match rfc_for_issue(number) {
        Some(v) => {
            return Some(v);
        },
        None => {},
    }
    let n = body.unicode_len();
    match scan_pull(body, n) {
        Some(run) => {
            return Some(text::digits_u32(body, n, run.start, run.end));
        },
        None => {},
    }
    let t1 = "rust-lang/rfcs/blob/master/text/";
    match scan_dashed(body, n, t1, t1.unicode_len()) {
        Some(run) => {
            return Some(text::digits_u32(body, n, run.start, run.end));
        },
        None => {},
    }
    let t2 = "rust-lang.github.io/rfcs/";
    match scan_dashed(body, n, t2, t2.unicode_len()) {
        Some(run) => {
            return Some(text::digits_u32(body, n, run.start, run.end));
        },
        None => {},
    }
    let tn = title.unicode_len();
    match scan_title(title, tn) {
        Some(run) => {
            return Some(text::digits_u32(title, tn, run.start, run.end));
        },
        None => {},
    }
    None
}

/// The states a tracking issue moves through while open.
#[derive(Clone, Copy, Debug, PartialEq, Eq, Structural)]
pub enum IssueState {
    Created,
    Approved,
    Implemented,
}

/// The four census categories a day's counts cover.
#[derive(Clone, Copy, Debug, PartialEq, Eq, Structural)]
pub enum Category {
    Created,
    Approved,
    Implemented,
    Closed,
}

/// One census contribution: on `day`, `category` changes by `by`.
#[derive(Clone, Copy, Debug, PartialEq, Eq, Structural)]
pub struct Bump {
    pub day: i64,
    pub category: Category,
    pub by: i64,
}

impl Keyed for Bump {
    open spec fn spec_key(&self) -> int {
        self.day as int
    }

    fn key(&self) -> (r: i64) {
        self.day
    }
}

/// Counts per category, unbounded.
pub struct Counts {
    pub created: int,
    pub approved: int,
    pub implemented: int,
    pub closed: int,
}

/// All categories at zero.
pub open spec fn spec_counts_zero() -> Counts {
    Counts { created: 0, approved: 0, implemented: 0, closed: 0 }
}

/// One category changed by `by`.
pub open spec fn spec_counts_bump(c: Counts, cat: Category, by: int) -> Counts {
    match cat {
        Category::Created => Counts { created: c.created + by, ..c },
        Category::Approved => Counts { approved: c.approved + by, ..c },
        Category::Implemented => Counts { implemented: c.implemented + by, ..c },
        Category::Closed => Counts { closed: c.closed + by, ..c },
    }
}

/// Categorywise sum.
pub open spec fn spec_counts_add(a: Counts, b: Counts) -> Counts {
    Counts {
        created: a.created + b.created,
        approved: a.approved + b.approved,
        implemented: a.implemented + b.implemented,
        closed: a.closed + b.closed,
    }
}

/// Every category within the signed range a day's delta is summed in.
pub open spec fn spec_counts_ok_i64(c: Counts) -> bool {
    &&& i64::MIN <= c.created <= i64::MAX
    &&& i64::MIN <= c.approved <= i64::MAX
    &&& i64::MIN <= c.implemented <= i64::MAX
    &&& i64::MIN <= c.closed <= i64::MAX
}

/// Every category within the unsigned range a running census is held in.
pub open spec fn spec_counts_ok_u64(c: Counts) -> bool {
    &&& 0 <= c.created <= u64::MAX
    &&& 0 <= c.approved <= u64::MAX
    &&& 0 <= c.implemented <= u64::MAX
    &&& 0 <= c.closed <= u64::MAX
}

/// Two census bumps on the day of `at`: `dec` down by one, `inc` up by one.
pub open spec fn spec_transition(log: Seq<Bump>, at: i64, dec: Category, inc: Category) -> Seq<
    Bump,
> {
    log + seq![
        (Bump { day: dates::spec_day_of(at as int) as i64, category: dec, by: -1i64 }),
        (Bump { day: dates::spec_day_of(at as int) as i64, category: inc, by: 1i64 }),
    ]
}

/// The effect of one label event on an open proposal: events at or after
/// the closing time are ignored, as are events that do not change state.
pub open spec fn spec_apply_event(
    closed_at: Option<i64>,
    st: IssueState,
    log: Seq<Bump>,
    e: LabelEvent<Label>,
) -> (IssueState, Seq<Bump>) {
    let ignored = match (closed_at, e) {
        (Option::Some(c), LabelEvent::Applied { at, .. }) => c <= at,
        (Option::Some(c), LabelEvent::Removed { at, .. }) => c <= at,
        _ => false,
    };
    if ignored {
        (st, log)
    } else {
        match e {
            LabelEvent::Applied { at, label } => match (st, label) {
                (IssueState::Approved, Label::RfcApproved) => (st, log),
                (IssueState::Implemented, Label::RfcImplemented) => (st, log),
                (IssueState::Created, Label::RfcApproved) => (
                    IssueState::Approved,
                    spec_transition(log, at, Category::Created, Category::Approved),
                ),
                (IssueState::Implemented, Label::RfcApproved) => (
                    IssueState::Approved,
                    spec_transition(log, at, Category::Implemented, Category::Approved),
                ),
                (IssueState::Created, Label::RfcImplemented) => (
                    IssueState::Implemented,
                    spec_transition(log, at, Category::Created, Category::Implemented),
                ),
                (IssueState::Approved, Label::RfcImplemented) => (
                    IssueState::Implemented,
                    spec_transition(log, at, Category::Approved, Category::Implemented),
                ),
            },
            LabelEvent::Removed { at, label } => match (st, label) {
                (IssueState::Created, Label::RfcApproved) => (st, log),
                (IssueState::Implemented, Label::RfcApproved) => (st, log),
                (IssueState::Created, Label::RfcImplemented) => (st, log),
                (IssueState::Approved, Label::RfcImplemented) => (st, log),
                (IssueState::Approved, Label::RfcApproved) => (
                    IssueState::Created,
                    spec_transition(log, at, Category::Approved, Category::Created),
                ),
                (IssueState::Implemented, Label::RfcImplemented) => (
                    IssueState::Created,
                    spec_transition(log, at, Category::Implemented, Category::Created),
                ),
            },
        }
    }
}

/// The state and log after a run of label events.
pub open spec fn spec_fold_events(
    closed_at: Option<i64>,
    st: IssueState,
    log: Seq<Bump>,
    events: Seq<LabelEvent<Label>>,
) -> (IssueState, Seq<Bump>)
    decreases events.len(),
{
    if events.len() == 0 {
        (st, log)
    } else {
        let step = spec_apply_event(closed_at, st, log, events[0]);
        spec_fold_events(closed_at, step.0, step.1, events.subrange(1, events.len() as int))
    }
}

/// Every census contribution of one tracking issue: created on its creation
/// day, state changes as its events say, and on its closing day the state's
/// count moves to closed.
pub open spec fn spec_apply_proposal(log: Seq<Bump>, p: TrackingIssueV) -> Seq<Bump> {
    let log1 = log + seq![
        (Bump {
            day: dates::spec_day_of(p.created_at) as i64,
            category: Category::Created,
            by: 1i64,
        }),
    ];
    let folded = spec_fold_events(p.closed_at, IssueState::Created, log1, p.events);
    match p.closed_at {
        Option::None => folded.1,
        Option::Some(c) => match folded.0 {
            IssueState::Created => spec_transition(
                folded.1,
                c,
                Category::Created,
                Category::Closed,
            ),
            IssueState::Approved => spec_transition(
                folded.1,
                c,
                Category::Approved,
                Category::Closed,
            ),
            IssueState::Implemented => spec_transition(
                folded.1,
                c,
                Category::Implemented,
                Category::Closed,
            ),
        },
    }
}

/// The census contributions of a run of tracking issues, in order.
pub open spec fn spec_bumps_from(log: Seq<Bump>, ps: Seq<TrackingIssueV>) -> Seq<Bump>
    decreases ps.len(),
{
    if ps.len() == 0 {
        log
    } else {
        spec_bumps_from(spec_apply_proposal(log, ps[0]), ps.subrange(1, ps.len() as int))
    }
}

/// One day of the census: the date and the running counts on it.
pub struct AggV {
    pub date: int,
    pub counts: Counts,
}

/// The census over a day-sorted contribution log: each day's deltas are
/// summed in the signed range, the running counts stay in the unsigned
/// range, and any excursion fails the whole census.
pub open spec fn spec_agg(
    log: Seq<Bump>,
    day: int,
    delta: Counts,
    totals: Counts,
    out: Seq<AggV>,
) -> Option<Seq<AggV>>
    decreases log.len(),
{
    if log.len() == 0 {
        let t = spec_counts_add(totals, delta);
        if spec_counts_ok_u64(t) {
            Option::Some(out.push(AggV { date: day, counts: t }))
        } else {
            Option::None
        }
    } else if log[0].day as int == day {
        let d2 = spec_counts_bump(delta, log[0].category, log[0].by as int);
        if spec_counts_ok_i64(d2) {
            spec_agg(log.subrange(1, log.len() as int), day, d2, totals, out)
        } else {
            Option::None
        }
    } else {
        let t = spec_counts_add(totals, delta);
        if spec_counts_ok_u64(t) {
            spec_agg(
                log.subrange(1, log.len() as int),
                log[0].day as int,
                spec_counts_bump(spec_counts_zero(), log[0].category, log[0].by as int),
                t,
                out.push(AggV { date: day, counts: t }),
            )
        } else {
            Option::None
        }
    }
}

/// The census of a day-sorted contribution log.
pub open spec fn spec_aggregate(log: Seq<Bump>) -> Option<Seq<AggV>> {
    if log.len() == 0 {
        Option::Some(Seq::empty())
    } else {
        spec_agg(
            log.subrange(1, log.len() as int),
            log[0].day as int,
            spec_counts_bump(spec_counts_zero(), log[0].category, log[0].by as int),
            spec_counts_zero(),
            Seq::empty(),
        )
    }
}

/// A tracking issue's timestamps all lie in the calendar range.
pub open spec fn spec_issue_ts_ok(p: TrackingIssueV) -> bool {
    &&& dates::spec_ts_ok(p.created_at)
    &&& match p.closed_at {
        Option::Some(c) => dates::spec_ts_ok(c as int),
        Option::None => true,
    }
    &&& forall|j: int|
        0 <= j < p.events.len() ==> dates::spec_ts_ok(rfc_common::spec_event_at(
            #[trigger] p.events[j],
        ))
}

/// One rendered census day.
#[derive(Clone, Copy, Debug, PartialEq, Eq, Structural)]
pub struct Aggregate {
    pub date: i64,
    pub created: u64,
    pub approved: u64,
    pub implemented: u64,
    pub closed: u64,
}

impl View for Aggregate {
    type V = AggV;

    open spec fn view(&self) -> AggV {
        AggV {
            date: self.date as int,
            counts: Counts {
                created: self.created as int,
                approved: self.approved as int,
                implemented: self.implemented as int,
                closed: self.closed as int,
            },
        }
    }
}

/// A closed tracking issue paired with how long it was open, the key its
/// listing is sorted by.
pub struct ClosedIssue {
    pub duration: i64,
    pub issue: TrackingIssue,
}

impl Keyed for ClosedIssue {
    open spec fn spec_key(&self) -> int {
        self.duration as int
    }

    fn key(&self) -> (r: i64) {
        self.duration
    }
}

/// Whether a tracking issue is still open.
pub open spec fn spec_is_open(p: TrackingIssue) -> bool {
    p.closed_at is None
}

/// The closed issues wrapped with their open durations, in order.
pub open spec fn spec_closed_wrapped(ps: Seq<TrackingIssue>) -> Seq<ClosedIssue> {
    ps.filter(|p: TrackingIssue| !spec_is_open(p)).map_values(
        |p: TrackingIssue| (ClosedIssue {
            duration: (match p.closed_at {
                Option::Some(c) => (c - p.created_at) as i64,
                Option::None => 0,
            }),
            issue: p,
        }),
    )
}

/// The dashboard's data: the census, and the open and closed issues — open
/// ones in fetch order, closed ones from longest open to shortest.
pub struct Data {
    pub agg: Vec<Aggregate>,
    pub open_issues: Vec<TrackingIssue>,
    pub closed_issues: Vec<TrackingIssue>,
}

/// A day's delta while it is being summed.
#[derive(Clone, Copy)]
struct DeltaCounts {
    created: i64,
    approved: i64,
    implemented: i64,
    closed: i64,
}

impl View for DeltaCounts {
    type V = Counts;

    closed spec fn view(&self) -> Counts {
        Counts {
            created: self.created as int,
            approved: self.approved as int,
            implemented: self.implemented as int,
            closed: self.closed as int,
        }
    }
}

/// The running census while it is being summed.
#[derive(Clone, Copy)]
struct TotalCounts {
    created: u64,
    approved: u64,
    implemented: u64,
    closed: u64,
}

impl View for TotalCounts {
    type V = Counts;

    closed spec fn view(&self) -> Counts {
        Counts {
            created: self.created as int,
            approved: self.approved as int,
            implemented: self.implemented as int,
            closed: self.closed as int,
        }
    }
}

/// Appends the two bumps of one state transition.
fn push_transition(bumps: &mut Vec<Bump>, at: i64, dec: Category, inc: Category)
    requires
        dates::spec_ts_ok(at as int),
    ensures
        final(bumps)@ == spec_transition(old(bumps)@, at, dec, inc),
{
    let d = dates::day_of(at);
    bumps.push(Bump { day: d, category: dec, by: -1 });
    bumps.push(Bump { day: d, category: inc, by: 1 });
    proof {
        assert(bumps@ =~= spec_transition(old(bumps)@, at, dec, inc));
    }
}

/// One category of a delta changed by `by`, if the sum stays in range.
fn delta_bump(d: DeltaCounts, cat: Category, by: i64) -> (r: Option<DeltaCounts>)
    ensures
        match r {
            Option::Some(d2) => spec_counts_ok_i64(spec_counts_bump(d@, cat, by as int)) && d2@
                == spec_counts_bump(d@, cat, by as int),
            Option::None => !spec_counts_ok_i64(spec_counts_bump(d@, cat, by as int)),
        },
{
    match cat {
        Category::Created => match d.created.checked_add(by) {
            Some(v) => Some(DeltaCounts { created: v, ..d }),
            None => None,
        },
        Category::Approved => match d.approved.checked_add(by) {
            Some(v) => Some(DeltaCounts { approved: v, ..d }),
            None => None,
        },
        Category::Implemented => match d.implemented.checked_add(by) {
            Some(v) => Some(DeltaCounts { implemented: v, ..d }),
            None => None,
        },
        Category::Closed => match d.closed.checked_add(by) {
            Some(v) => Some(DeltaCounts { closed: v, ..d }),
            None => None,
        },
    }
}

/// The running census with one day's delta added, if every category stays
/// in range.
fn totals_add(t: TotalCounts, d: DeltaCounts) -> (r: Option<TotalCounts>)
    ensures
        match r {
            Option::Some(t2) => spec_counts_ok_u64(spec_counts_add(t@, d@)) && t2@
                == spec_counts_add(t@, d@),
            Option::None => !spec_counts_ok_u64(spec_counts_add(t@, d@)),
        },
{
    let created = t.created.checked_add_signed(d.created);
    let approved = t.approved.checked_add_signed(d.approved);
    let implemented = t.implemented.checked_add_signed(d.implemented);
    let closed = t.closed.checked_add_signed(d.closed);
    match (created, approved, implemented, closed) {
        (Some(a), Some(b), Some(e), Some(f)) => Some(
            TotalCounts { created: a, approved: b, implemented: e, closed: f },
        ),
        _ => None,
    }
}

/// All categories at zero.
fn delta_zero() -> (r: DeltaCounts)
    ensures
        r@ == spec_counts_zero(),
{
    DeltaCounts { created: 0, approved: 0, implemented: 0, closed: 0 }
}

impl Data {
    /// Reduces the fetched tracking issues to the dashboard's data.  `None`
    /// is returned exactly when the census would leave the machine's integer
    /// ranges, which no realistic issue history does.
    pub fn new(proposals: Vec<TrackingIssue>) -> (r: Option<Data>)
        requires
            forall|i: int|
                0 <= i < proposals@.len() ==> spec_issue_ts_ok(
                    (#[trigger] proposals@[i])@,
                ),
        ensures
            ({
                let views = proposals@.map_values(|p: TrackingIssue| p@);
                let log = sorting::spec_sort_by_key(spec_bumps_from(Seq::empty(), views));
                match r {
                    Option::Some(d) => {
                        &&& Option::Some(d.agg@.map_values(|a: Aggregate| a@)) == spec_aggregate(
                            log,
                        )
                        &&& d.open_issues@ == proposals@.filter(
                            |p: TrackingIssue| spec_is_open(p),
                        )
                        &&& d.closed_issues@ == sorting::spec_reverse(
                            sorting::spec_sort_by_key(spec_closed_wrapped(proposals@)),
                        ).map_values(|c: ClosedIssue| c.issue)
                    },
                    Option::None => spec_aggregate(log) is None,
                }
            }),
    {
        let ghost all_props = proposals@;
        let ghost views = proposals@.map_values(|p: TrackingIssue| p@);

        // Every census contribution, in proposal and event order.
        let mut bumps: Vec<Bump> = Vec::new();
        let n = proposals.len();
        proof {
            assert(views.subrange(0, n as int) =~= views);
            assert(spec_bumps_from(bumps@, views.subrange(0, n as int)) == spec_bumps_from(
                Seq::empty(),
                views,
            ));
        }
        let mut i: usize = 0;
        while i < n
            invariant
                n == proposals@.len(),
                proposals@ == all_props,
                views == all_props.map_values(|p: TrackingIssue| p@),
                forall|k: int|
                    0 <= k < all_props.len() ==> spec_issue_ts_ok((#[trigger] all_props[k])@),
                i <= n,
                spec_bumps_from(bumps@, views.subrange(i as int, n as int)) == spec_bumps_from(
                    Seq::empty(),
                    views,
                ),
            decreases n - i,
        {
            let ghost rem = views.subrange(i as int, n as int);
            let ghost log0 = bumps@;
            proof {
                assert(rem[0] == views[i as int]);
                assert(views[i as int] == all_props[i as int]@);
                assert(rem.subrange(1, rem.len() as int) =~= views.subrange(i + 1, n as int));
            }
            let created_day = dates::day_of(proposals[i].created_at);
            bumps.push(Bump { day: created_day, category: Category::Created, by: 1 });
            let ghost log1 = bumps@;
            proof {
                assert(log1 =~= log0 + seq![
                    (Bump {
                        day: dates::spec_day_of(views[i as int].created_at) as i64,
                        category: Category::Created,
                        by: 1i64,
                    }),
                ]);
            }
            let mut st = IssueState::Created;
            let closed_at = proposals[i].closed_at;
            let m = proposals[i].label_events.len();
            let ghost events = proposals@[i as int].label_events@;
            proof {
                assert(events == views[i as int].events);
                assert(events.subrange(0, m as int) =~= events);
            }
            let mut j: usize = 0;
            while j < m
                invariant
                    n == proposals@.len(),
                    proposals@ == all_props,
                    i < n,
                    m == events.len(),
                    events == all_props[i as int]@.events,
                    closed_at == all_props[i as int]@.closed_at,
                    spec_issue_ts_ok(all_props[i as int]@),
                    j <= m,
                    spec_fold_events(closed_at, st, bumps@, events.subrange(j as int, m as int))
                        == spec_fold_events(closed_at, IssueState::Created, log1, events),
                decreases m - j,
            {
                let ghost erem = events.subrange(j as int, m as int);
                proof {
                    assert(erem[0] == events[j as int]);
                    assert(erem.subrange(1, erem.len() as int) =~= events.subrange(
                        j + 1,
                        m as int,
                    ));
                }
                let ghost st0 = st;
                let ghost logj = bumps@;
                let e = &proposals[i].label_events[j];
                let (is_applied, at, label) = match e {
                    LabelEvent::Applied { at, label } => (true, *at, *label),
                    LabelEvent::Removed { at, label } => (false, *at, *label),
                };
                proof {
                    assert(dates::spec_ts_ok(rfc_common::spec_event_at(events[j as int])));
                }
                let ignored = match closed_at {
                    Some(c) => c <= at,
                    None => false,
                };
                if !ignored {
                    if is_applied {
                        match (st, label) {
                            (IssueState::Approved, Label::RfcApproved) => {},
                            (IssueState::Implemented, Label::RfcImplemented) => {},
                            (IssueState::Created, Label::RfcApproved) => {
                                st = IssueState::Approved;
                                push_transition(
                                    &mut bumps,
                                    at,
                                    Category::Created,
                                    Category::Approved,
                                );
                            },
                            (IssueState::Implemented, Label::RfcApproved) => {
                                st = IssueState::Approved;
                                push_transition(
                                    &mut bumps,
                                    at,
                                    Category::Implemented,
                                    Category::Approved,
                                );
                            },
                            (IssueState::Created, Label::RfcImplemented) => {
                                st = IssueState::Implemented;
                                push_transition(
                                    &mut bumps,
                                    at,
                                    Category::Created,
                                    Category::Implemented,
                                );
                            },
                            (IssueState::Approved, Label::RfcImplemented) => {
                                st = IssueState::Implemented;
                                push_transition(
                                    &mut bumps,
                                    at,
                                    Category::Approved,
                                    Category::Implemented,
                                );
                            },
                        }
                    } else {
                        match (st, label) {
                            (IssueState::Created, Label::RfcApproved) => {},
                            (IssueState::Implemented, Label::RfcApproved) => {},
                            (IssueState::Created, Label::RfcImplemented) => {},
                            (IssueState::Approved, Label::RfcImplemented) => {},
                            (IssueState::Approved, Label::RfcApproved) => {
                                st = IssueState::Created;
                                push_transition(
                                    &mut bumps,
                                    at,
                                    Category::Approved,
                                    Category::Created,
                                );
                            },
                            (IssueState::Implemented, Label::RfcImplemented) => {
                                st = IssueState::Created;
                                push_transition(
                                    &mut bumps,
                                    at,
                                    Category::Implemented,
                                    Category::Created,
                                );
                            },
                        }
                    }
                }
                proof {
                    assert((st, bumps@) == spec_apply_event(closed_at, st0, logj, events[j as int]));
                }
                j = j + 1;
            }
            match closed_at {
                None => {},
                Some(c) => {
                    match st {
                        IssueState::Created => push_transition(
                            &mut bumps,
                            c,
                            Category::Created,
                            Category::Closed,
                        ),
                        IssueState::Approved => push_transition(
                            &mut bumps,
                            c,
                            Category::Approved,
                            Category::Closed,
                        ),
                        IssueState::Implemented => push_transition(
                            &mut bumps,
                            c,
                            Category::Implemented,
                            Category::Closed,
                        ),
                    }
                },
            }
            proof {
                assert(bumps@ == spec_apply_proposal(log0, views[i as int]));
            }
            i = i + 1;
        }
        proof {
            assert(views.subrange(n as int, n as int) =~= Seq::<TrackingIssueV>::empty());
            assert(bumps@ == spec_bumps_from(Seq::empty(), views));
        }

        // Day-sorted, the contributions become the census.
        let sorted = sorting::sort_by_key_stable(bumps);
        let ghost log = sorted@;
        let mut agg: Vec<Aggregate> = Vec::new();
        if sorted.len() > 0 {
            let sn = sorted.len();
            let mut day = sorted[0].day;
            let mut delta = match delta_bump(delta_zero(), sorted[0].category, sorted[0].by) {
                Some(d) => d,
                None => vstd::pervasive::unreached(),
            };
            let mut totals = TotalCounts { created: 0, approved: 0, implemented: 0, closed: 0 };
            proof {
                assert(log.subrange(1, sn as int) =~= log.subrange(1, log.len() as int));
                assert(agg@.map_values(|a: Aggregate| a@) =~= Seq::<AggV>::empty());
            }
            let mut k: usize = 1;
            while k < sn
                invariant
                    sn == sorted@.len(),
                    sorted@ == log,
                    log == sorting::spec_sort_by_key(
                        spec_bumps_from(Seq::empty(), proposals@.map_values(|p: TrackingIssue| p@)),
                    ),
                    1 <= k <= sn,
                    spec_agg(
                        log.subrange(k as int, sn as int),
                        day as int,
                        delta@,
                        totals@,
                        agg@.map_values(|a: Aggregate| a@),
                    ) == spec_aggregate(log),
                decreases sn - k,
            {
                let ghost lrem = log.subrange(k as int, sn as int);
                proof {
                    assert(lrem[0] == log[k as int]);
                    assert(lrem.subrange(1, lrem.len() as int) =~= log.subrange(
                        k + 1,
                        sn as int,
                    ));
                }
                let b = sorted[k];
                if b.day == day {
                    match delta_bump(delta, b.category, b.by) {
                        Some(d2) => {
                            delta = d2;
                        },
                        None => {
                            return None;
                        },
                    }
                } else {
                    match totals_add(totals, delta) {
                        None => {
                            return None;
                        },
                        Some(t) => {
                            let ghost aggs0 = agg@.map_values(|a: Aggregate| a@);
                            agg.push(
                                Aggregate {
                                    date: day,
                                    created: t.created,
                                    approved: t.approved,
                                    implemented: t.implemented,
                                    closed: t.closed,
                                },
                            );
                            proof {
                                assert(agg@.map_values(|a: Aggregate| a@) =~= aggs0.push(
                                    (AggV { date: day as int, counts: t@ }),
                                ));
                            }
                            totals = t;
                            day = b.day;
                            delta = match delta_bump(delta_zero(), b.category, b.by) {
                                Some(d) => d,
                                None => vstd::pervasive::unreached(),
                            };
                        },
                    }
                }
                k = k + 1;
            }
            match totals_add(totals, delta) {
                None => {
                    proof {
                        assert(log.subrange(sn as int, sn as int).len() == 0);
                    }
                    return None;
                },
                Some(t) => {
                    let ghost aggs0 = agg@.map_values(|a: Aggregate| a@);
                    agg.push(
                        Aggregate {
                            date: day,
                            created: t.created,
                            approved: t.approved,
                            implemented: t.implemented,
                            closed: t.closed,
                        },
                    );
                    proof {
                        assert(log.subrange(sn as int, sn as int).len() == 0);
                        assert(agg@.map_values(|a: Aggregate| a@) =~= aggs0.push(
                            (AggV { date: day as int, counts: t@ }),
                        ));
                    }
                },
            }
        } else {
            proof {
                assert(agg@.map_values(|a: Aggregate| a@) =~= Seq::<AggV>::empty());
            }
        }

        // The open and closed listings.
        let mut work = proposals;
        let mut open_issues: Vec<TrackingIssue> = Vec::new();
        let mut closed_w: Vec<ClosedIssue> = Vec::new();
        let ghost mut taken: int = 0;
        proof {
            assert(all_props.subrange(0, 0) =~= Seq::<TrackingIssue>::empty());
            reveal(Seq::filter);
            assert(open_issues@ =~= all_props.subrange(0, 0).filter(
                |p: TrackingIssue| spec_is_open(p),
            ));
            assert(closed_w@ =~= spec_closed_wrapped(all_props.subrange(0, 0)));
        }
        while work.len() > 0
            invariant
                0 <= taken <= all_props.len(),
                work@ == all_props.subrange(taken, all_props.len() as int),
                forall|kk: int|
                    0 <= kk < all_props.len() ==> spec_issue_ts_ok((#[trigger] all_props[kk])@),
                open_issues@ == all_props.subrange(0, taken).filter(
                    |p: TrackingIssue| spec_is_open(p),
                ),
                closed_w@ == spec_closed_wrapped(all_props.subrange(0, taken)),
            decreases work@.len(),
        {
            let p = work.remove(0);
            proof {
                assert(p == all_props[taken]);
                assert(work@ =~= all_props.subrange(taken + 1, all_props.len() as int));
                assert(all_props.subrange(0, taken + 1) =~= all_props.subrange(0, taken).push(
                    all_props[taken],
                ));
                sorting::lemma_filter_push(
                    all_props.subrange(0, taken),
                    |q: TrackingIssue| spec_is_open(q),
                    all_props[taken],
                );
                sorting::lemma_filter_push(
                    all_props.subrange(0, taken),
                    |q: TrackingIssue| !spec_is_open(q),
                    all_props[taken],
                );
            }
            match p.closed_at {
                None => {
                    open_issues.push(p);
                },
                Some(c) => {
                    let duration = c - p.created_at;
                    let ghost before = closed_w@;
                    closed_w.push(ClosedIssue { duration, issue: p });
                    proof {
                        assert(closed_w@ =~= spec_closed_wrapped(all_props.subrange(0, taken + 1)));
                    }
                },
            }
            proof {
                taken = taken + 1;
            }
        }
        proof {
            assert(all_props.subrange(0, all_props.len() as int) =~= all_props);
            assert(taken == all_props.len());
        }
        let sorted_closed = sorting::sort_by_key_stable(closed_w);
        let reversed = sorting::reverse_vec(sorted_closed);
        let ghost rev_view = reversed@;
        let mut closed_issues: Vec<TrackingIssue> = Vec::new();
        let mut rest = reversed;
        proof {
            assert(rev_view.subrange(0, 0).map_values(|c: ClosedIssue| c.issue) =~= Seq::<
                TrackingIssue,
            >::empty());
        }
        while rest.len() > 0
            invariant
                closed_issues@.len() + rest@.len() == rev_view.len(),
                rest@ == rev_view.subrange(
                    rev_view.len() - rest@.len(),
                    rev_view.len() as int,
                ),
                closed_issues@ == rev_view.subrange(
                    0,
                    rev_view.len() - rest@.len(),
                ).map_values(|c: ClosedIssue| c.issue),
            decreases rest@.len(),
        {
            let ghost done = rev_view.len() - rest@.len();
            let c = rest.remove(0);
            proof {
                assert(c == rev_view[done]);
                assert(rest@ =~= rev_view.subrange(done + 1, rev_view.len() as int));
            }
            closed_issues.push(c.issue);
            proof {
                assert(closed_issues@ =~= rev_view.subrange(0, done + 1).map_values(
                    |cc: ClosedIssue| cc.issue,
                ));
            }
        }
        proof {
            assert(rev_view.subrange(0, rev_view.len() as int) =~= rev_view);
        }
        Some(Data { agg, open_issues, closed_issues })
    }
}

} // verus!
