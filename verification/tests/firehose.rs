//! Tests of the rate tracker, its availability wrapper, and the metric
//! exposition parser.

use str4d_site::exposition::metric_index;
use str4d_site::firehose::FirehoseCount;
use str4d_site::firehose::FirehoseMonitor;
use str4d_site::firehose::MetricsTracker;
use str4d_site::firehose::METRIC_COUNT;

fn snapshot(total: u64, bluesky: u64) -> FirehoseCount {
    let mut s = FirehoseCount::zero();
    s.set_value(0, total);
    s.set_value(5, bluesky);
    s
}

#[test]
fn zero_snapshot_is_all_zero() {
    let s = FirehoseCount::zero();
    for i in 0..METRIC_COUNT {
        assert_eq!(s.value(i), 0);
    }
    assert_eq!(s.total(), 0);
}

#[test]
fn delta_is_elementwise_difference() {
    let s1 = snapshot(1000, 990);
    let s2 = snapshot(1100, 1080);
    let d = s2.delta_from(&s1);
    assert_eq!(d.value(0), 100);
    assert_eq!(d.value(5), 90);
    assert_eq!(d.value(1), 0);
}

#[test]
fn delta_wraps_when_a_single_metric_goes_backwards() {
    let mut s1 = FirehoseCount::zero();
    s1.set_value(5, 10);
    let s2 = FirehoseCount::zero();
    let d = s2.delta_from(&s1);
    assert_eq!(d.value(5), u64::MAX - 9);
}

#[test]
fn first_accumulate_records_the_delta() {
    // Delta correctness: after initialization and one monotone snapshot,
    // the single window entry is the elementwise difference.
    let mut tracker = MetricsTracker::init(snapshot(1000, 990));
    tracker.accumulate(60, snapshot(1100, 1080));
    let (rate, duration) = tracker.average_per_min();
    assert_eq!(rate.samples(), 1);
    assert_eq!(rate.sum(0), 100);
    assert_eq!(rate.sum(5), 90);
    assert_eq!(duration, 0);
}

#[test]
fn reset_skips_the_delta_but_moves_the_baseline() {
    // Reset skip: a shrinking total leaves the window alone, and the next
    // delta is computed against the new baseline.
    let mut tracker = MetricsTracker::init(snapshot(1000, 990));
    tracker.accumulate(60, snapshot(50, 45));
    let (rate, _) = tracker.average_per_min();
    assert_eq!(rate.samples(), 0);
    tracker.accumulate(120, snapshot(80, 70));
    let (rate, _) = tracker.average_per_min();
    assert_eq!(rate.samples(), 1);
    assert_eq!(rate.sum(0), 30);
    assert_eq!(rate.sum(5), 25);
}

#[test]
fn entries_older_than_a_day_are_evicted() {
    // Window eviction: an entry more than 24 hours older than the latest
    // poll is dropped; newer ones stay.
    let mut tracker = MetricsTracker::init(snapshot(0, 0));
    tracker.accumulate(60, snapshot(10, 5));
    tracker.accumulate(3600, snapshot(30, 20));
    let (rate, duration) = tracker.average_per_min();
    assert_eq!(rate.samples(), 2);
    assert_eq!(duration, 3600 - 60);
    // 86500 - 60 > 86400 evicts the first entry; the second survives since
    // 86500 - 3600 is within the day.
    tracker.accumulate(86500, snapshot(31, 21));
    let (rate, duration) = tracker.average_per_min();
    assert_eq!(rate.samples(), 2);
    assert_eq!(rate.sum(0), (30 - 10) + 1);
    assert_eq!(duration, 86500 - 3600);
}

#[test]
fn average_is_the_exact_mean_numerator_and_denominator() {
    // The mean of the window deltas is reported as the exact sum and count,
    // independent of wall-clock spacing.
    let mut tracker = MetricsTracker::init(snapshot(0, 0));
    tracker.accumulate(10, snapshot(7, 1));
    tracker.accumulate(5000, snapshot(10, 2));
    tracker.accumulate(5100, snapshot(22, 5));
    let (rate, duration) = tracker.average_per_min();
    assert_eq!(rate.samples(), 3);
    assert_eq!(rate.sum(0), 22);
    assert_eq!(rate.sum(5), 5);
    assert_eq!(duration, 5090);
}

#[test]
fn duration_covers_oldest_to_newest() {
    let mut tracker = MetricsTracker::init(snapshot(0, 0));
    let (_, duration) = tracker.average_per_min();
    assert_eq!(duration, 0);
    tracker.accumulate(60, snapshot(1, 0));
    let (_, duration) = tracker.average_per_min();
    assert_eq!(duration, 0);
    tracker.accumulate(180, snapshot(2, 0));
    let (_, duration) = tracker.average_per_min();
    assert_eq!(duration, 120);
}

#[test]
fn scenario_with_reset_in_the_middle() {
    // Initialize with {total: 1000, bluesky: 990}; accumulate a monotone
    // snapshot, then a reset, then a recovery.
    let mut monitor = FirehoseMonitor::new();
    monitor.first_snapshot(snapshot(1000, 990));
    monitor.accumulate(60, snapshot(1100, 1080));
    let (rate, duration) = monitor.average_rates_per_min().unwrap();
    assert_eq!(rate.samples(), 1);
    assert_eq!(rate.sum(0), 100);
    assert_eq!(rate.sum(5), 90);
    assert_eq!(duration, 0);

    monitor.accumulate(120, snapshot(50, 45));
    let (rate, _) = monitor.average_rates_per_min().unwrap();
    assert_eq!(rate.samples(), 1);

    monitor.accumulate(180, snapshot(80, 70));
    let (rate, duration) = monitor.average_rates_per_min().unwrap();
    assert_eq!(rate.samples(), 2);
    // The mean per metric is sum / samples: 130/2 = 65, 115/2 = 57.5.
    assert_eq!(rate.sum(0), 130);
    assert_eq!(rate.sum(5), 115);
    assert_eq!(duration, 120);
}

#[test]
fn rates_unavailable_until_first_snapshot() {
    // Uninitialized state: queries report nothing before the first
    // successful fetch, and availability is permanent afterwards.
    let mut monitor = FirehoseMonitor::new();
    assert!(monitor.average_rates_per_min().is_none());
    monitor.accumulate(60, snapshot(10, 5));
    assert!(monitor.average_rates_per_min().is_none());
    monitor.first_snapshot(snapshot(10, 5));
    assert!(monitor.average_rates_per_min().is_some());
    monitor.first_snapshot(snapshot(99, 99));
    let (rate, _) = monitor.average_rates_per_min().unwrap();
    assert_eq!(rate.samples(), 0);
    monitor.accumulate(60, snapshot(11, 6));
    let (rate, _) = monitor.average_rates_per_min().unwrap();
    assert_eq!(rate.samples(), 1);
    assert_eq!(rate.sum(0), 1);
    assert_eq!(rate.sum(5), 1);
}

#[test]
fn metric_names_map_to_their_indices() {
    assert_eq!(metric_index("atproto_firehose_ops_total"), Some(0));
    assert_eq!(metric_index("atproto_firehose_ops_2048"), Some(1));
    assert_eq!(metric_index("atproto_firehose_ops_bluesky"), Some(5));
    assert_eq!(metric_index("atproto_firehose_ops_yoten"), Some(39));
    assert_eq!(metric_index("atproto_firehose_ops_unknown"), None);
    assert_eq!(metric_index(""), None);
}

#[test]
fn parse_reads_name_value_lines() {
    let body = "atproto_firehose_ops_total 100\natproto_firehose_ops_bluesky 90\n";
    let counts = FirehoseCount::from_str(body);
    assert_eq!(counts.value(0), 100);
    assert_eq!(counts.value(5), 90);
    assert_eq!(counts.value(1), 0);
}

#[test]
fn parse_skips_malformed_and_unknown_lines() {
    let body = "atproto_firehose_ops_total 100\n\
                unknown_metric 55\n\
                lonelyline\n\
                atproto_firehose_ops_bluesky notanumber\n\
                atproto_firehose_ops_2048 12 extra\n\
                atproto_firehose_ops_grain 99999999999999999999\n";
    let counts = FirehoseCount::from_str(body);
    assert_eq!(counts.value(0), 100);
    assert_eq!(counts.value(5), 0);
    assert_eq!(counts.value(1), 0);
    assert_eq!(counts.value(15), 0);
}

#[test]
fn parse_later_lines_win_and_plus_signs_are_accepted() {
    let body = "atproto_firehose_ops_total 1\natproto_firehose_ops_total +7";
    let counts = FirehoseCount::from_str(body);
    assert_eq!(counts.value(0), 7);
}

#[test]
fn parse_handles_carriage_returns_and_empty_input() {
    let counts = FirehoseCount::from_str("atproto_firehose_ops_total 4\r\n");
    assert_eq!(counts.value(0), 4);
    let counts = FirehoseCount::from_str("");
    assert_eq!(counts.value(0), 0);
}

#[test]
fn groups_list_observed_applications_busiest_first() {
    let mut tracker = MetricsTracker::init(snapshot(0, 0));
    let mut s = snapshot(100, 90);
    s.set_value(1, 3);
    tracker.accumulate(60, s);
    let (rate, _) = tracker.average_per_min();
    let groups = rate.groups();
    // The aggregate total has no row of its own; only observed groups stay.
    assert_eq!(groups.len(), 2);
    assert_eq!(groups[0].info.title, "Bluesky");
    assert_eq!(groups[0].info.uri, "https://bsky.app/");
    assert_eq!(groups[0].sum, 90);
    assert_eq!(groups[1].info.title, "2048 game");
    assert_eq!(groups[1].sum, 3);
    assert!(groups[0].subgroups.is_empty());
}

#[test]
fn newest_timestamp_tracks_the_window() {
    let mut monitor = FirehoseMonitor::new();
    assert_eq!(monitor.newest_timestamp(), None);
    monitor.first_snapshot(snapshot(0, 0));
    assert_eq!(monitor.newest_timestamp(), None);
    monitor.accumulate(60, snapshot(1, 0));
    assert_eq!(monitor.newest_timestamp(), Some(60));
    monitor.accumulate(180, snapshot(2, 0));
    assert_eq!(monitor.newest_timestamp(), Some(180));
    // A reset poll adds no entry; the newest retained timestamp stays.
    monitor.accumulate(240, snapshot(1, 0));
    assert_eq!(monitor.newest_timestamp(), Some(180));
}
