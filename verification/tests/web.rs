//! Tests of the web-facing helpers: host dispatch, request accounting,
//! duration wording, URL building, text utilities, post rendering, and the
//! GraphQL response bookkeeping.

use str4d_site::atproto;
use str4d_site::atproto::Post;
use str4d_site::atproto::PostImage;
use str4d_site::atproto::XrpcError;
use str4d_site::github::GraphQlError;
use str4d_site::github::GraphQlResponse;
use str4d_site::github::merge_errors;
use str4d_site::network::add_host;
use str4d_site::network::Feed;
use str4d_site::network::Labeler;
use str4d_site::network::Relay;
use str4d_site::social::User;
use str4d_site::text;
use str4d_site::util;
use str4d_site::util::HostAction;
use str4d_site::util::HostTable;

#[test]
fn decimal_rendering() {
    assert_eq!(text::u64_to_string(0), "0");
    assert_eq!(text::u64_to_string(7), "7");
    assert_eq!(text::u64_to_string(120034), "120034");
    assert_eq!(text::u64_to_string(u64::MAX), "18446744073709551615");
    assert_eq!(text::i64_to_string(-45), "-45");
    assert_eq!(text::i64_to_string(i64::MIN), "-9223372036854775808");
}

#[test]
fn suffix_and_replacement() {
    assert!(text::ends_with("relay1.us-east.bsky.network", ".bsky.network"));
    assert!(!text::ends_with("relay.cerulea.blue", ".bsky.network"));
    assert!(!text::ends_with("a", "long-suffix"));
    assert_eq!(text::replace("abcabc", "b", "xy"), "axycaxyc");
    assert_eq!(text::replace("no match", "zz", "-"), "no match");
    assert_eq!(
        text::replace("img/avatar/x", "img/avatar", "img/avatar_thumbnail"),
        "img/avatar_thumbnail/x"
    );
}

#[test]
fn host_table_dispatches_and_shadows() {
    let mut table = HostTable::new();
    table.handle("atp.fyi".to_owned(), 0);
    table.redirect_temporary("www.atp.fyi".to_owned(), "atp.fyi".to_owned());
    table.handle("siso.dev".to_owned(), 1);
    match table.lookup("atp.fyi") {
        Some(HostAction::Serve { slot }) => assert_eq!(slot, 0),
        _ => panic!("expected a served host"),
    }
    match table.lookup("www.atp.fyi") {
        Some(HostAction::RedirectTo { host }) => assert_eq!(host, "atp.fyi"),
        _ => panic!("expected a redirect"),
    }
    assert!(table.lookup("nowhere.example").is_none());
    table.handle("atp.fyi".to_owned(), 5);
    match table.lookup("atp.fyi") {
        Some(HostAction::Serve { slot }) => assert_eq!(slot, 5),
        _ => panic!("expected the newer registration to win"),
    }
}

#[test]
fn redirect_and_handler_names() {
    assert_eq!(
        util::redirect_target("atp.fyi", "/roadmap?x=1"),
        "https://atp.fyi/roadmap?x=1"
    );
    assert_eq!(
        util::handler_name(Some("atp.fyi"), Some("/roadmap")),
        "atp.fyi/roadmap"
    );
    assert_eq!(util::handler_name(None, None), "/");
    assert_eq!(
        util::request_host(Some("a.example".to_owned()), Some("b.example".to_owned())),
        Some("a.example".to_owned())
    );
    assert_eq!(
        util::request_host(None, Some("b.example".to_owned())),
        Some("b.example".to_owned())
    );
}

#[test]
fn only_successes_and_redirects_are_counted() {
    assert!(util::should_record_request(200));
    assert!(util::should_record_request(307));
    assert!(!util::should_record_request(404));
    assert!(!util::should_record_request(500));
    assert!(!util::should_record_request(199));
}

#[test]
fn durations_read_as_the_page_shows_them() {
    assert_eq!(util::fmtduration(0), "0 minutes");
    assert_eq!(util::fmtduration(60), "minute");
    assert_eq!(util::fmtduration(120), "2 minutes");
    assert_eq!(util::fmtduration(29 * 60), "29 minutes");
    // From thirty minutes of total runtime on, the count of hours rounds up.
    assert_eq!(util::fmtduration(30 * 60), "30 minutes");
    assert_eq!(util::fmtduration(3600), "2 hours");
    assert_eq!(util::fmtduration(86400), "25 hours");
}

#[test]
fn xrpc_urls_and_statuses() {
    assert_eq!(
        atproto::query_url("com.atproto.repo.listRecords"),
        "https://bsky.social/xrpc/com.atproto.repo.listRecords"
    );
    assert_eq!(atproto::classify_status(204), Ok(()));
    assert_eq!(atproto::classify_status(401), Err(XrpcError::AuthRequired));
    assert_eq!(atproto::classify_status(403), Err(XrpcError::Forbidden));
    assert_eq!(atproto::classify_status(404), Err(XrpcError::XrpcNotSupported));
    assert_eq!(atproto::classify_status(101), Err(XrpcError::XrpcNotSupported));
    assert_eq!(atproto::classify_status(302), Err(XrpcError::XrpcNotSupported));
    assert_eq!(atproto::classify_status(413), Err(XrpcError::PayloadTooLarge));
    assert_eq!(atproto::classify_status(429), Err(XrpcError::RateLimitExceeded));
    assert_eq!(atproto::classify_status(418), Err(XrpcError::InvalidRequest));
    assert_eq!(atproto::classify_status(501), Err(XrpcError::MethodNotImplemented));
    assert_eq!(atproto::classify_status(502), Err(XrpcError::UpstreamRequestFailed));
    assert_eq!(atproto::classify_status(503), Err(XrpcError::NotEnoughResources));
    assert_eq!(atproto::classify_status(504), Err(XrpcError::UpstreamRequestTimeout));
    assert_eq!(atproto::classify_status(550), Err(XrpcError::InternalServerError));
}

#[test]
fn posts_render_paragraphs_images_and_age() {
    let post = Post {
        text: "first\n\nsecond\nline".to_owned(),
        images: vec![PostImage {
            alt: "a cat".to_owned(),
            link: "bafy123".to_owned(),
        }],
        created_at: 0,
    };
    assert_eq!(post.formatted_text(), "<p>first</p><p>second<br>line</p>");
    let images = post.images();
    assert_eq!(images.len(), 1);
    assert_eq!(
        images[0].0,
        "https://bsky.social/xrpc/com.atproto.sync.getBlob?did=did:plc:mzwculbn44rdeouyzjp4y6gx&cid=bafy123"
    );
    assert_eq!(images[0].1, "a cat");
    // The age is rendered by the clock handed in, not the machine's.
    assert_eq!(post.ago(3600), "1 hour ago");
}

#[test]
fn users_point_at_profiles_with_thumbnail_avatars() {
    let user = User::new(
        "Ada",
        "did:plc:abc",
        Some("https://cdn/img/avatar/plain/xyz".to_owned()),
    );
    assert_eq!(user.name, "Ada");
    assert_eq!(user.profile, "https://bsky.app/profile/did:plc:abc");
    assert_eq!(
        user.avatar.as_deref(),
        Some("https://cdn/img/avatar_thumbnail/plain/xyz")
    );
    let bare = User::new("Bob", "did:plc:b", None);
    assert!(bare.avatar.is_none());
}

#[test]
fn relays_know_their_operator() {
    let r = Relay::new(
        "Bluesky Relay US East".to_owned(),
        "US".to_owned(),
        "relay1.us-east.bsky.network".to_owned(),
    );
    assert!(r.bsky_operated);
    let r = Relay::new(
        "Cerulea Relay EU".to_owned(),
        "EU".to_owned(),
        "relay.cerulea.blue".to_owned(),
    );
    assert!(!r.bsky_operated);
}

#[test]
fn graphql_payloads_and_errors() {
    let ok: GraphQlResponse<u32> = GraphQlResponse {
        data: Some(7),
        errors: None,
    };
    assert_eq!(ok.into_data().unwrap(), 7);

    let failed: GraphQlResponse<u32> = GraphQlResponse {
        data: None,
        errors: Some(vec![GraphQlError {
            message: "broken".to_owned(),
        }]),
    };
    let errs = failed.into_data().unwrap_err();
    assert_eq!(errs.len(), 1);
    assert_eq!(errs[0].message, "broken");

    let silent: GraphQlResponse<u32> = GraphQlResponse {
        data: None,
        errors: None,
    };
    assert!(silent.into_data().unwrap_err().is_empty());
}

#[test]
fn page_errors_merge_in_order() {
    let e = |m: &str| GraphQlError {
        message: m.to_owned(),
    };
    let mut acc = None;
    merge_errors(&mut acc, None);
    assert!(acc.is_none());
    merge_errors(&mut acc, Some(vec![e("one")]));
    merge_errors(&mut acc, Some(vec![e("two"), e("three")]));
    merge_errors(&mut acc, None);
    let msgs: Vec<String> = acc
        .unwrap()
        .into_iter()
        .map(|g| g.message)
        .collect();
    assert_eq!(msgs, vec!["one", "two", "three"]);
}

#[test]
fn author_roll_joins_profiles_and_sorts_by_name() {
    let authors = vec![
        ("Zoe".to_owned(), "did:z".to_owned()),
        ("Ann".to_owned(), "did:a".to_owned()),
        ("Bob".to_owned(), "did:b".to_owned()),
    ];
    let profiles = vec![
        ("did:a".to_owned(), Some("cdn/img/avatar/1".to_owned())),
        ("did:z".to_owned(), None),
        ("did:a".to_owned(), Some("cdn/img/avatar/2".to_owned())),
    ];
    let users = str4d_site::social::assemble_authors(&authors, profiles);
    let names: Vec<&str> = users.iter().map(|u| u.name.as_str()).collect();
    assert_eq!(names, vec!["Ann", "Bob", "Zoe"]);
    // The later response for a repeated identifier wins.
    assert_eq!(users[0].avatar.as_deref(), Some("cdn/img/avatar_thumbnail/2"));
    assert!(users[1].avatar.is_none());
    assert!(users[2].avatar.is_none());
}

#[test]
fn a_profile_is_consumed_by_its_first_author() {
    let authors = vec![
        ("First".to_owned(), "did:d".to_owned()),
        ("Second".to_owned(), "did:d".to_owned()),
    ];
    let profiles = vec![("did:d".to_owned(), Some("a img/avatar b".to_owned()))];
    let users = str4d_site::social::assemble_authors(&authors, profiles);
    assert_eq!(users[0].name, "First");
    assert_eq!(users[0].avatar.as_deref(), Some("a img/avatar_thumbnail b"));
    assert!(users[1].avatar.is_none());
}

#[test]
fn clone_requests_forward_their_parameters() {
    let params = vec![
        ("service".to_owned(), "git-upload-pack".to_owned()),
        ("v".to_owned(), "2".to_owned()),
    ];
    assert_eq!(
        util::clone_refs_url("str4d/rage", &params),
        "https://github.com/str4d/rage.git/info/refs?service=git-upload-pack&v=2"
    );
    assert_eq!(
        util::clone_refs_url("str4d/rage", &vec![]),
        "https://github.com/str4d/rage.git/info/refs"
    );
}

#[test]
fn labeler_rows_follow_the_service_rules() {
    // A labeler without labels is dropped, unless the main operator runs it.
    assert!(Labeler::from_service("mod.example.com".to_owned(), None, false, 5).is_none());
    let regional =
        Labeler::from_service("mod.bsky.app".to_owned(), None, false, 5).unwrap();
    assert!(regional.bsky_operated);
    assert_eq!(regional.name, "mod.bsky.app");
    // An invalid handle is dropped; a blank display name falls back to the
    // handle.
    assert!(
        Labeler::from_service("handle.invalid".to_owned(), Some("X".to_owned()), true, 1)
            .is_none()
    );
    let blank = Labeler::from_service(
        "mod.example.com".to_owned(),
        Some("  \t ".to_owned()),
        true,
        9,
    )
    .unwrap();
    assert_eq!(blank.name, "mod.example.com");
    assert_eq!(blank.likes, 9);
    assert!(!blank.bsky_operated);
    let named = Labeler::from_service(
        "mod.example.com".to_owned(),
        Some("Moderation".to_owned()),
        true,
        2,
    )
    .unwrap();
    assert_eq!(named.name, "Moderation");
}

#[test]
fn feed_rows_default_their_likes() {
    let f = Feed::from_service("What's Hot".to_owned(), None, "feeds.bsky.app");
    assert_eq!(f.likes, 0);
    assert!(f.bsky_operated);
    let f = Feed::from_service("Cats".to_owned(), Some(12), "cats.example.com");
    assert_eq!(f.likes, 12);
    assert!(!f.bsky_operated);
}

#[test]
fn host_reports_merge_counts_and_relays() {
    let mut pdss = Vec::new();
    add_host(&mut pdss, "pds.a.example".to_owned(), 5, 0);
    add_host(&mut pdss, "pds.a.example".to_owned(), 3, 1);
    add_host(&mut pdss, "pds.a.example".to_owned(), 4, 0);
    add_host(&mut pdss, "pds.b.example".to_owned(), 7, 1);
    assert_eq!(pdss.len(), 2);
    assert_eq!(pdss[0].hostname, "pds.a.example");
    assert_eq!(pdss[0].account_count, 5);
    assert_eq!(pdss[0].relays, vec![0, 1]);
    assert_eq!(pdss[1].hostname, "pds.b.example");
    assert_eq!(pdss[1].account_count, 7);
    assert_eq!(pdss[1].relays, vec![1]);
}
