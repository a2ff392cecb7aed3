//! Tests of the dashboard reductions: roadmap classification, label-event
//! extraction, the proposal and tracking-issue state machines, and the
//! completion histogram.

use str4d_site::dates;
use str4d_site::github::IssueEdge;
use str4d_site::github::IssueConnection;
use str4d_site::github::IssuePageInfo;
use str4d_site::github::Repository;
use str4d_site::github::PaginatedQuery;
use str4d_site::util::HostAction;
use str4d_site::github::ResponseData;
use str4d_site::go_data;
use str4d_site::ietf_data;
use str4d_site::rfc_common;
use str4d_site::rfc_common::completion_months_histogram;
use str4d_site::rfc_common::label_events_for;
use str4d_site::rfc_common::LabelEvent;
use str4d_site::rfc_common::TimelineEdge;
use str4d_site::rfc_common::TimelineEvent;
use str4d_site::rfc_common::TimelineItems;
use str4d_site::roadmap;
use str4d_site::roadmap::build_roadmap;
use str4d_site::rust_data;
use str4d_site::sorting::sort_by_key_stable;

const DAY: i64 = 86400;

fn timeline(events: Vec<TimelineEvent>) -> TimelineItems {
    TimelineItems {
        edges: Some(
            events
                .into_iter()
                .map(|e| Some(TimelineEdge { node: Some(e) }))
                .collect(),
        ),
    }
}

fn go_proposal(
    number: i64,
    created_at: i64,
    closed_at: Option<i64>,
    events: Vec<TimelineEvent>,
) -> go_data::Proposal {
    go_data::Proposal::new(rfc_common::IssueNode {
        number,
        title: format!("proposal {number}"),
        created_at,
        closed_at,
        timeline_items: timeline(events),
    })
    .unwrap()
}

#[test]
fn label_events_are_parsed_and_sorted_by_time() {
    let items = timeline(vec![
        TimelineEvent::Labeled {
            at: 50,
            label: "Proposal-Accepted".to_owned(),
        },
        TimelineEvent::Labeled {
            at: 10,
            label: "Proposal".to_owned(),
        },
        TimelineEvent::Unlabeled {
            at: 30,
            label: "Proposal-Accepted".to_owned(),
        },
        TimelineEvent::Labeled {
            at: 20,
            label: "SomethingElse".to_owned(),
        },
        TimelineEvent::Other,
    ]);
    let events: Vec<LabelEvent<go_data::Label>> = label_events_for(items);
    assert_eq!(events.len(), 3);
    match &events[0] {
        LabelEvent::Applied { at, label } => {
            assert_eq!(*at, 10);
            assert_eq!(*label, go_data::Label::Proposal);
        }
        _ => panic!("expected an application at 10"),
    }
    match &events[1] {
        LabelEvent::Removed { at, label } => {
            assert_eq!(*at, 30);
            assert_eq!(*label, go_data::Label::ProposalAccepted);
        }
        _ => panic!("expected a removal at 30"),
    }
    match &events[2] {
        LabelEvent::Applied { at, .. } => assert_eq!(*at, 50),
        _ => panic!("expected an application at 50"),
    }
}

#[test]
fn go_census_walks_created_accepted_implemented() {
    let p = go_proposal(
        1,
        0,
        Some(5 * DAY),
        vec![TimelineEvent::Labeled {
            at: 2 * DAY,
            label: "Proposal-Accepted".to_owned(),
        }],
    );
    let data = go_data::Data::new(vec![p]).unwrap();
    assert_eq!(data.agg.len(), 3);
    assert_eq!(
        data.agg[0],
        go_data::Aggregate {
            date: 0,
            created: 1,
            on_hold: 0,
            accepted: 0,
            implemented: 0,
            closed: 0,
        }
    );
    assert_eq!(
        data.agg[1],
        go_data::Aggregate {
            date: 2,
            created: 0,
            on_hold: 0,
            accepted: 1,
            implemented: 0,
            closed: 0,
        }
    );
    assert_eq!(
        data.agg[2],
        go_data::Aggregate {
            date: 5,
            created: 0,
            on_hold: 0,
            accepted: 0,
            implemented: 1,
            closed: 0,
        }
    );
    assert_eq!(data.open_proposals.len(), 0);
    assert_eq!(data.closed_proposals.len(), 1);
    // The one completion took under half a month.
    assert_eq!(data.completed_hist.len(), 1);
    assert_eq!(data.completed_hist[0].label, 0);
    assert_eq!(data.completed_hist[0].count, 1);
    assert_eq!(data.completed_stats.median, 0);
}

#[test]
fn go_census_ignores_events_after_closing_and_keeps_open_ones() {
    let open = go_proposal(7, DAY, None, vec![]);
    let closed = go_proposal(
        8,
        0,
        Some(DAY),
        vec![TimelineEvent::Labeled {
            at: 3 * DAY,
            label: "Proposal-Hold".to_owned(),
        }],
    );
    let data = go_data::Data::new(vec![open, closed]).unwrap();
    // The hold label lands after closing, so the proposal closes from the
    // created state.
    assert_eq!(
        data.agg.last().unwrap(),
        &go_data::Aggregate {
            date: 1,
            created: 1,
            on_hold: 0,
            accepted: 0,
            implemented: 0,
            closed: 1,
        }
    );
    assert_eq!(data.open_proposals.len(), 1);
    assert_eq!(data.open_proposals[0].number, 7);
    assert_eq!(data.closed_proposals.len(), 1);
    assert_eq!(data.closed_proposals[0].number, 8);
}

#[test]
fn go_closed_proposals_sort_longest_open_first() {
    let quick = go_proposal(1, 0, Some(DAY), vec![]);
    let slow = go_proposal(2, 0, Some(10 * DAY), vec![]);
    let data = go_data::Data::new(vec![quick, slow]).unwrap();
    assert_eq!(data.closed_proposals[0].number, 2);
    assert_eq!(data.closed_proposals[1].number, 1);
}

#[test]
fn proposals_sort_by_number() {
    let a = go_proposal(5, 0, None, vec![]);
    let b = go_proposal(2, 0, None, vec![]);
    let c = go_proposal(9, 0, None, vec![]);
    let sorted = go_data::sort_proposals_by_number(vec![a, b, c]);
    let numbers: Vec<i64> = sorted.iter().map(|p| p.number).collect();
    assert_eq!(numbers, vec![2, 5, 9]);
}

#[test]
fn rust_census_closes_from_the_implemented_state() {
    let issue = rust_data::TrackingIssue::new(rfc_common::BodiedIssueNode {
            number: 11,
            title: "tracking".to_owned(),
            body: "rust-lang/rfcs#42".to_owned(),
            created_at: 0,
            closed_at: Some(4 * DAY),
            timeline_items: timeline(vec![
                TimelineEvent::Labeled {
                    at: DAY,
                    label: "B-RFC-approved".to_owned(),
                },
                TimelineEvent::Labeled {
                    at: 2 * DAY,
                    label: "B-RFC-implemented".to_owned(),
                },
            ]),
    })
    .unwrap();
    assert_eq!(issue.rfc, 42);
    let data = rust_data::Data::new(vec![issue]).unwrap();
    assert_eq!(data.agg.len(), 4);
    assert_eq!(
        data.agg[1],
        rust_data::Aggregate {
            date: 1,
            created: 0,
            approved: 1,
            implemented: 0,
            closed: 0,
        }
    );
    assert_eq!(
        data.agg[3],
        rust_data::Aggregate {
            date: 4,
            created: 0,
            approved: 0,
            implemented: 0,
            closed: 1,
        }
    );
    assert_eq!(data.closed_issues.len(), 1);
}

#[test]
fn rfc_numbers_come_from_references_in_order() {
    // A pull reference, scanned past an occurrence that continues neither
    // as a pull path nor as an issue mark.
    assert_eq!(
        rust_data::rfc_number_for(
            1,
            "see rust-lang/rfcs/blob/x and rust-lang/rfcs/pull/2094 too",
            ""
        ),
        Some(2094)
    );
    assert_eq!(rust_data::rfc_number_for(1, "fixes rust-lang/rfcs#3173.", ""), Some(3173));
    // The pull scan is tried before the source-text scan, and wins even on
    // a later position.
    assert_eq!(
        rust_data::rfc_number_for(
            1,
            "rust-lang/rfcs/blob/master/text/1111-x then rust-lang/rfcs#222",
            ""
        ),
        Some(222)
    );
    assert_eq!(
        rust_data::rfc_number_for(
            1,
            "https://github.com/rust-lang/rfcs/blob/master/text/2093-infer-outlives.md",
            ""
        ),
        Some(2093)
    );
    // The dots of the rendered-book host match any character.
    assert_eq!(
        rust_data::rfc_number_for(1, "https://rust-lang.github.io/rfcs/2094-nll.html", ""),
        Some(2094)
    );
    assert_eq!(rust_data::rfc_number_for(1, "", "Tracking issue for RFC 2115"), Some(2115));
    assert_eq!(rust_data::rfc_number_for(1, "", "Tracking Issue for RFC #1023"), Some(1023));
    assert_eq!(rust_data::rfc_number_for(1, "", "Tracking issue fo RFC PR 195"), Some(195));
    assert_eq!(rust_data::rfc_number_for(1, "no reference here", "nor here"), None);
    // The manual mapping takes precedence over anything in the text.
    assert_eq!(rust_data::rfc_number_for(16461, "rust-lang/rfcs#999", ""), Some(47));
}

#[test]
fn ignored_and_unidentified_tracking_issues_are_dropped() {
    let bare = |number: i64, body: &str| rfc_common::BodiedIssueNode {
        number,
        title: "untitled".to_owned(),
        body: body.to_owned(),
        created_at: 0,
        closed_at: None,
        timeline_items: TimelineItems { edges: None },
    };
    assert!(rust_data::TrackingIssue::new(bare(14812, "rust-lang/rfcs#1")).is_none());
    assert!(rust_data::TrackingIssue::new(bare(5, "nothing")).is_none());
    assert!(rust_data::TrackingIssue::new(bare(5, "rust-lang/rfcs#7")).is_some());
}

#[test]
fn documents_split_their_revision_history() {
    let published = ietf_data::Document::new(
        Some(9999),
        ietf_data::DocInfo {
            name: "rfc9999".to_owned(),
            title: "a protocol".to_owned(),
            rev_history: vec![10, 20, 30],
        },
        None,
    )
    .unwrap();
    assert_eq!(published.created_at, 10);
    assert_eq!(published.revisions, vec![20]);
    assert_eq!(published.closed_at, Some(30));

    let draft = ietf_data::Document::new(
        None,
        ietf_data::DocInfo {
            name: "draft-x".to_owned(),
            title: "an idea".to_owned(),
            rev_history: vec![10, 20],
        },
        Some(99),
    )
    .unwrap();
    assert_eq!(draft.created_at, 10);
    assert_eq!(draft.revisions, vec![20]);
    assert_eq!(draft.closed_at, None);
    assert_eq!(draft.expires_at, Some(99));
}

#[test]
fn superseded_drafts_are_recognized_by_state() {
    assert!(!ietf_data::draft_superseded(&vec!["/api/v1/doc/state/1/".to_owned()]));
    assert!(ietf_data::draft_superseded(&vec![
        "/api/v1/doc/state/1/".to_owned(),
        "/api/v1/doc/state/4/".to_owned(),
    ]));
    assert!(!ietf_data::draft_superseded(&vec![]));
}

#[test]
fn ietf_census_tracks_drafts_expiries_and_publications() {
    let doc = |created: i64, revisions: Vec<i64>, expires: Option<i64>, closed: Option<i64>| {
        ietf_data::Document {
            name: "d".to_owned(),
            title: "t".to_owned(),
            rfc: closed.map(|_| 1),
            created_at: created,
            revisions,
            expires_at: expires,
            closed_at: closed,
        }
    };
    let published = doc(0, vec![DAY], None, Some(2 * DAY));
    let expired = doc(DAY, vec![], Some(3 * DAY), None);
    let open = doc(2 * DAY, vec![], Some(100 * DAY), None);
    let data = ietf_data::Data::new(vec![published, expired, open], 5 * DAY).unwrap();
    assert_eq!(
        data.agg,
        vec![
            ietf_data::Aggregate { date: 0, draft: 1, expired: 0, published: 0 },
            ietf_data::Aggregate { date: 1, draft: 2, expired: 0, published: 0 },
            ietf_data::Aggregate { date: 2, draft: 2, expired: 0, published: 1 },
            ietf_data::Aggregate { date: 3, draft: 1, expired: 1, published: 1 },
        ]
    );
    assert_eq!(data.open_docs.len(), 1);
    assert_eq!(data.open_docs[0].created_at, 2 * DAY);
    assert_eq!(data.closed_docs.len(), 1);
    assert_eq!(data.closed_docs[0].created_at, 0);
    assert_eq!(data.completed_hist.len(), 1);
    assert_eq!(data.completed_hist[0].count, 1);
    assert_eq!(data.completed_stats.median, 0);
}

#[test]
fn histogram_counts_month_spans_and_fills_gaps() {
    // 95 days is three months and five days; 5 days rounds down.
    let ranges = vec![(0, 95 * DAY)];
    let (buckets, stats) = completion_months_histogram(&ranges).unwrap();
    assert_eq!(buckets.len(), 4);
    for (i, b) in buckets.iter().enumerate() {
        assert_eq!(b.label as usize, i);
    }
    assert_eq!(buckets[3].count, 1);
    assert_eq!(buckets[0].count, 0);
    assert_eq!(stats.median, 2);
}

#[test]
fn histogram_of_nothing_is_empty() {
    let (buckets, stats) = completion_months_histogram(&vec![]).unwrap();
    assert!(buckets.is_empty());
    assert_eq!(stats.median, 0);
}

#[test]
fn month_spans_round_at_two_weeks() {
    // 45 days: one month and 14 days — not past two weeks, so one month.
    assert_eq!(dates::months_open(0, 45 * DAY), Some(1));
    // 50 days: one month and 19 days rounds up.
    assert_eq!(dates::months_open(0, 50 * DAY), Some(2));
    assert_eq!(dates::months_open(0, 0), Some(0));
}

#[test]
fn day_numbers_floor_towards_minus_infinity() {
    assert_eq!(dates::day_of(0), 0);
    assert_eq!(dates::day_of(86399), 0);
    assert_eq!(dates::day_of(86400), 1);
    assert_eq!(dates::day_of(-1), -1);
    assert_eq!(dates::day_of(-86400), -1);
    assert_eq!(dates::day_of(-86401), -2);
}

#[test]
fn stable_sort_keeps_equal_keys_in_order() {
    let bumps = vec![
        go_data::Bump {
            day: 3,
            category: go_data::Category::Created,
            by: 1,
        },
        go_data::Bump {
            day: 1,
            category: go_data::Category::Closed,
            by: 1,
        },
        go_data::Bump {
            day: 3,
            category: go_data::Category::OnHold,
            by: -1,
        },
    ];
    let sorted = sort_by_key_stable(bumps);
    assert_eq!(sorted[0].day, 1);
    assert_eq!(sorted[1].day, 3);
    assert_eq!(sorted[1].category, go_data::Category::Created);
    assert_eq!(sorted[2].category, go_data::Category::OnHold);
}

fn roadmap_issue(
    number: i64,
    login: Option<&str>,
    labels: Vec<&str>,
) -> Option<IssueEdge<roadmap::SocialAppIssue>> {
    Some(IssueEdge {
        node: Some(roadmap::SocialAppIssue {
            number,
            title: format!("issue {number}"),
            author: login.map(|l| roadmap::SocialAppAuthor {
                login: l.to_owned(),
            }),
            labels: Some(roadmap::SocialAppLabelConnection {
                edges: Some(
                    labels
                        .into_iter()
                        .map(|name| {
                            Some(roadmap::SocialAppLabelsEdge {
                                node: Some(roadmap::SocialAppLabelNode {
                                    name: name.to_owned(),
                                }),
                            })
                        })
                        .collect(),
                ),
            }),
        }),
    })
}

#[test]
fn roadmap_classifies_by_first_label_and_author() {
    let data: ResponseData<roadmap::SocialAppIssue> = ResponseData {
        repository: Some(Repository {
            issues: IssueConnection {
                page_info: IssuePageInfo {
                    end_cursor: None,
                    has_next_page: false,
                },
                edges: Some(vec![
                    roadmap_issue(1, Some("pfrazee"), vec!["x:planned"]),
                    roadmap_issue(2, Some("somebody"), vec!["other", "x:discussing"]),
                    roadmap_issue(3, None, vec!["x:putting-this-off"]),
                    roadmap_issue(4, Some("mozzius"), vec!["nothing-recognized"]),
                    None,
                ]),
            },
        }),
    };
    let roadmap = build_roadmap(data);
    assert_eq!(roadmap.planned.devs.len(), 1);
    assert_eq!(roadmap.planned.devs[0].title(), "issue 1");
    assert_eq!(
        roadmap.planned.devs[0].uri(),
        "https://github.com/bluesky-social/social-app/issues/1"
    );
    assert_eq!(roadmap.discussing.community.len(), 1);
    assert_eq!(roadmap.putting_off.community.len(), 1);
    assert_eq!(roadmap.on_roadmap.devs.len(), 0);
    assert_eq!(roadmap.on_roadmap.community.len(), 0);
}

#[test]
fn roadmap_labels_and_authors_parse() {
    let edge = Some(roadmap::SocialAppLabelsEdge {
        node: Some(roadmap::SocialAppLabelNode {
            name: "x:on-the-roadmap".to_owned(),
        }),
    });
    assert_eq!(roadmap::Label::parse(&edge), Some(roadmap::Label::OnTheRoadmap));
    assert_eq!(roadmap::Label::parse(&None), None);
    let dev = Some(roadmap::SocialAppAuthor {
        login: "haileyok".to_owned(),
    });
    assert_eq!(roadmap::Author::parse(&dev), roadmap::Author::Devs);
    assert_eq!(roadmap::Author::parse(&None), roadmap::Author::Community);
}

#[test]
fn pages_merge_edges_and_keep_the_first_cursor() {
    let page = |cursor: Option<&str>, more: bool, numbers: Vec<i64>| -> ResponseData<roadmap::SocialAppIssue> {
        ResponseData {
            repository: Some(Repository {
                issues: IssueConnection {
                    page_info: IssuePageInfo {
                        end_cursor: cursor.map(|c| c.to_owned()),
                        has_next_page: more,
                    },
                    edges: Some(
                        numbers
                            .into_iter()
                            .map(|n| roadmap_issue(n, None, vec![]))
                            .collect(),
                    ),
                },
            }),
        }
    };
    let mut acc = page(Some("c1"), true, vec![1, 2]);
    let second = page(Some("c2"), false, vec![3]);

    let info = roadmap::SocialAppQuery::page_info(&second);
    assert_eq!(info.end_cursor.as_deref(), Some("c2"));
    assert!(!info.has_next_page);

    let vars = roadmap::SocialAppQuery::with_after(
        &roadmap::SocialAppVariables { after: None },
        Some("c1".to_owned()),
    );
    assert_eq!(vars.after.as_deref(), Some("c1"));

    roadmap::SocialAppQuery::merge_page(&mut acc, second);
    let repo = acc.repository.as_ref().unwrap();
    let edges = repo.issues.edges.as_ref().unwrap();
    let numbers: Vec<i64> = edges
        .iter()
        .map(|e| e.as_ref().unwrap().node.as_ref().unwrap().number)
        .collect();
    assert_eq!(numbers, vec![1, 2, 3]);
    // Merging leaves the accumulated cursor state alone.
    assert_eq!(repo.issues.page_info.end_cursor.as_deref(), Some("c1"));
}

#[test]
fn tracking_issues_list_by_rfc_then_age() {
    let bare = |number: i64, rfc: u32, created: i64, closed: Option<i64>| {
        let mut issue = rust_data::TrackingIssue::new(rfc_common::BodiedIssueNode {
            number,
            title: "t".to_owned(),
            body: format!("rust-lang/rfcs#{rfc}"),
            created_at: created,
            closed_at: closed,
            timeline_items: TimelineItems { edges: None },
        })
        .unwrap();
        issue.closed_at = closed;
        issue
    };
    let sorted = rust_data::sort_tracking_issues(vec![
        bare(1, 20, 5, None),
        bare(2, 10, 9, Some(11)),
        bare(3, 10, 9, None),
        bare(4, 10, 2, None),
    ]);
    let order: Vec<i64> = sorted.iter().map(|t| t.number).collect();
    assert_eq!(order, vec![4, 3, 2, 1]);
}

#[test]
fn group_listings_sort_by_acronym_and_split_by_state() {
    let group = |acronym: &str, active: bool| ietf_data::Group {
        id: 1,
        acronym: acronym.to_owned(),
        name: acronym.to_owned(),
        description: "".to_owned(),
        kind: "wg".to_owned(),
        state: if active {
            "/api/v1/name/groupstatename/active/".to_owned()
        } else {
            "/api/v1/name/groupstatename/conclude/".to_owned()
        },
    };
    let (active, inactive) = ietf_data::split_groups(vec![
        group("tls", true),
        group("cfrg", true),
        group("ipsec", false),
        group("acme", true),
    ]);
    let names: Vec<&str> = active.iter().map(|g| g.acronym.as_str()).collect();
    assert_eq!(names, vec!["acme", "cfrg", "tls"]);
    assert_eq!(inactive.len(), 1);
    assert_eq!(inactive[0].acronym, "ipsec");
}

#[test]
fn host_aliases_redirect_to_their_host() {
    let mut table = str4d_site::util::HostTable::new();
    table.add(
        "atp.fyi".to_owned(),
        vec!["www.atp.fyi".to_owned(), "atp.example".to_owned()],
        3,
    );
    match table.lookup("atp.fyi") {
        Some(HostAction::Serve { slot }) => assert_eq!(slot, 3),
        _ => panic!("expected the host to be served"),
    }
    for alias in ["www.atp.fyi", "atp.example"] {
        match table.lookup(alias) {
            Some(HostAction::RedirectTo { host }) => assert_eq!(host, "atp.fyi"),
            _ => panic!("expected an alias redirect"),
        }
    }
}
