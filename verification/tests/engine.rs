use wino::date::{normalize, ArticleDate, DateError, Timestamp};
use wino::parser::{AtomDoc, AtomEntry, RssDoc};
use wino::state::Feed;
use wino::table::Table;
use wino::parser::{parse, rss_identity, ParseError, RssItem};
use wino::reducer::{apply, Action, Effect, AUTO_RELOAD_MILLIS};
use wino::state::State;

const ATOM_DOC: &str = "<feed><title>A</title><entry><id>1</id><title>T1</title>\
<published>2020-01-01T00:00:00Z</published><link href=\"http://x/1\"/></entry></feed>";

const RSS_DOC: &str = "<rss version=\"2.0\"><channel><title>R</title>\
<item><title>I1</title><link>http://y/9</link>\
<pubDate>Tue, 01 Jan 2019 10:00:00 +0200</pubDate></item></channel></rss>";

fn fetched(state: State, url: &str, body: &str, now: i64) -> State {
    assert!(state.wf_check());
    let (next, _) = apply(
        state,
        Action::Fetched(url.to_string(), body.to_string()),
        now,
    );
    next
}

#[test]
fn normalize_rfc3339_exact() {
    let t = normalize("2020-01-01T00:00:00Z").unwrap();
    assert_eq!(t, Timestamp { secs: 1577836800, offset_secs: 0 });
}

#[test]
fn normalize_rfc3339_keeps_offset() {
    let t = normalize("2020-01-01T00:00:00+05:30").unwrap();
    assert_eq!(t.secs, 1577836800 - 5 * 3600 - 30 * 60);
    assert_eq!(t.offset_secs, 5 * 3600 + 30 * 60);
}

#[test]
fn normalize_rfc2822_fallback() {
    let t = normalize("Tue, 01 Jan 2019 10:00:00 +0200").unwrap();
    assert_eq!(t, Timestamp { secs: 1546329600, offset_secs: 7200 });
}

#[test]
fn normalize_rejects_garbage() {
    assert_eq!(normalize("not a date"), Err(DateError::Unparseable));
    assert_eq!(normalize(""), Err(DateError::Unparseable));
}

#[test]
fn atom_format_dispatch() {
    let parsed = parse(ATOM_DOC).unwrap();
    assert_eq!(parsed.title, "A");
    assert_eq!(parsed.article_map.len(), 1);
    let article = parsed.article_map.get(&"1".to_string()).unwrap();
    assert_eq!(article.title, "T1");
    assert_eq!(article.url, "http://x/1");
    assert_eq!(
        article.date,
        ArticleDate::At(Timestamp { secs: 1577836800, offset_secs: 0 })
    );
}

#[test]
fn rss_fallback_identity() {
    let item = RssItem {
        guid: None,
        title: Some("I1".to_string()),
        link: Some("http://y/9".to_string()),
        pub_date: None,
        dc_date: None,
    };
    assert_eq!(rss_identity(&item), "http://y/9");

    let parsed = parse(RSS_DOC).unwrap();
    assert_eq!(parsed.title, "R");
    let article = parsed.article_map.get(&"http://y/9".to_string()).unwrap();
    assert_eq!(article.title, "I1");
    assert_eq!(
        article.date,
        ArticleDate::At(Timestamp { secs: 1546329600, offset_secs: 7200 })
    );
}

#[test]
fn rss_guid_wins_over_link() {
    let item = RssItem {
        guid: Some("g-7".to_string()),
        title: None,
        link: Some("http://y/9".to_string()),
        pub_date: None,
        dc_date: None,
    };
    assert_eq!(rss_identity(&item), "g-7");
}

#[test]
fn unparseable_date_containment() {
    let doc = "<rss version=\"2.0\"><channel><title>R</title>\
<item><guid>a</guid><title>Ok</title><pubDate>Tue, 01 Jan 2019 10:00:00 +0200</pubDate></item>\
<item><guid>b</guid><title>Bad</title><pubDate>the day before yesterday</pubDate></item>\
</channel></rss>";
    let parsed = parse(doc).unwrap();
    assert_eq!(parsed.article_map.len(), 2);
    let good = parsed.article_map.get(&"a".to_string()).unwrap();
    let bad = parsed.article_map.get(&"b".to_string()).unwrap();
    assert!(matches!(good.date, ArticleDate::At(_)));
    assert_eq!(bad.date, ArticleDate::Unknown);
    assert_eq!(bad.title, "Bad");
}

#[test]
fn unrecognized_document() {
    let r = parse("just some plain text, certainly not xml");
    assert_eq!(r, Err(ParseError::UnrecognizedFormat));
}

#[test]
fn failed_fetch_leaves_state_unchanged() {
    let s0 = fetched(State::new(), "http://x", ATOM_DOC, 5);
    let before = s0.clone();
    let (s1, effects) = apply(
        s0,
        Action::Fetched("http://x".to_string(), "% not a feed %".to_string()),
        99,
    );
    assert_eq!(s1, before);
    assert_eq!(effects.len(), 1);
    assert!(matches!(&effects[0], Effect::SurfaceParseFailure(u) if u == "http://x"));
}

#[test]
fn missing_title_and_link_become_empty() {
    let doc = "<rss version=\"2.0\"><channel><title>R</title>\
<item><guid>only-guid</guid></item></channel></rss>";
    let parsed = parse(doc).unwrap();
    let a = parsed.article_map.get(&"only-guid".to_string()).unwrap();
    assert_eq!(a.title, "");
    assert_eq!(a.url, "");
    assert_eq!(a.date, ArticleDate::Unknown);
}

#[test]
fn dublin_core_date_is_consulted_when_pub_date_absent() {
    let doc = "<rss version=\"2.0\" xmlns:dc=\"http://purl.org/dc/elements/1.1/\">\
<channel><title>R</title><item><guid>x</guid>\
<dc:date>2020-01-01T00:00:00Z</dc:date></item></channel></rss>";
    let parsed = parse(doc).unwrap();
    let a = parsed.article_map.get(&"x".to_string()).unwrap();
    assert_eq!(
        a.date,
        ArticleDate::At(Timestamp { secs: 1577836800, offset_secs: 0 })
    );
}

#[test]
fn duplicate_ids_collapse_to_last_seen() {
    let doc = "<feed><title>A</title>\
<entry><id>1</id><title>First</title></entry>\
<entry><id>1</id><title>Second</title></entry></feed>";
    let parsed = parse(doc).unwrap();
    assert_eq!(parsed.article_map.len(), 1);
    let a = parsed.article_map.get(&"1".to_string()).unwrap();
    assert_eq!(a.title, "Second");
}

#[test]
fn merge_creates_feed_visible_with_stamp() {
    let s = fetched(State::new(), "http://x", ATOM_DOC, 42);
    let feed = s.feed_map.get(&"http://x".to_string()).unwrap();
    assert_eq!(feed.title, "A");
    assert_eq!(feed.url, "http://x");
    assert!(feed.visible);
    assert_eq!(feed.updated, 42);
    assert_eq!(feed.article_map.len(), 1);
}

#[test]
fn dedup_idempotence() {
    let s1 = fetched(State::new(), "http://x", ATOM_DOC, 7);
    let s2 = fetched(s1.clone(), "http://x", ATOM_DOC, 7);
    assert_eq!(s1, s2);
    assert_eq!(s1.serialize(), s2.serialize());
}

#[test]
fn article_monotonic_union() {
    let two = "<feed><title>A</title>\
<entry><id>1</id><title>T1</title></entry>\
<entry><id>2</id><title>T2</title></entry></feed>";
    let one = "<feed><title>A</title>\
<entry><id>2</id><title>T2 updated</title></entry></feed>";
    let s1 = fetched(State::new(), "http://x", two, 1);
    let s2 = fetched(s1, "http://x", one, 2);
    let feed = s2.feed_map.get(&"http://x".to_string()).unwrap();
    assert_eq!(feed.article_map.len(), 2);
    assert_eq!(feed.article_map.get(&"1".to_string()).unwrap().title, "T1");
    assert_eq!(
        feed.article_map.get(&"2".to_string()).unwrap().title,
        "T2 updated"
    );
}

#[test]
fn visibility_preserved_across_merge() {
    let s0 = fetched(State::new(), "http://x", ATOM_DOC, 1);
    let (s1, _) = apply(s0, Action::ToggleFeedVisible("http://x".to_string()), 2);
    assert!(!s1.feed_map.get(&"http://x".to_string()).unwrap().visible);
    let s2 = fetched(s1, "http://x", ATOM_DOC, 3);
    assert!(!s2.feed_map.get(&"http://x".to_string()).unwrap().visible);
    let (s3, _) = apply(s2, Action::ToggleFeedVisible("http://x".to_string()), 4);
    assert!(s3.feed_map.get(&"http://x".to_string()).unwrap().visible);
}

#[test]
fn toggle_absent_feed_is_noop() {
    let s0 = State::new();
    let (s1, effects) = apply(s0.clone(), Action::ToggleFeedVisible("http://nowhere".to_string()), 1);
    assert_eq!(s1, s0);
    assert!(effects.is_empty());
}

#[test]
fn remove_feed_discards_and_is_idempotent() {
    let s0 = fetched(State::new(), "http://x", ATOM_DOC, 1);
    let (s1, e1) = apply(s0, Action::RemoveFeed("http://x".to_string()), 2);
    assert!(s1.feed_map.get(&"http://x".to_string()).is_none());
    assert!(matches!(&e1[0], Effect::RemovePermission(u) if u == "http://x"));
    assert!(matches!(e1[1], Effect::Persist));
    let (s2, e2) = apply(s1.clone(), Action::RemoveFeed("http://x".to_string()), 3);
    assert_eq!(s2, s1);
    assert_eq!(e2.len(), 1);
}

#[test]
fn round_trip_serialization() {
    let s0 = fetched(State::new(), "http://x", ATOM_DOC, 9);
    let s1 = fetched(s0, "http://y", RSS_DOC, 10);
    let (s2, _) = apply(s1, Action::UpdateNewFeedUrl("http://pending".to_string()), 11);
    let bytes = s2.serialize();
    let back = State::deserialize(&bytes).unwrap();
    assert_eq!(back, s2);
    assert_eq!(back.serialize(), bytes);
    assert_eq!(back.new_feed_url, "http://pending");
    assert_eq!(back.feed_map.len(), 2);
}

#[test]
fn round_trip_empty_state() {
    let s = State::new();
    let bytes = s.serialize();
    let back = State::deserialize(&bytes).unwrap();
    assert_eq!(back, s);
}

#[test]
fn deserialize_rejects_junk() {
    assert!(State::deserialize(&vec![]).is_none());
    assert!(State::deserialize(&vec![0xffu8; 7]).is_none());
    let mut good = fetched(State::new(), "http://x", ATOM_DOC, 1).serialize();
    good.pop();
    assert!(State::deserialize(&good).is_none());
}

#[test]
fn deserialize_rejects_trailing_bytes() {
    let mut bytes = State::new().serialize();
    bytes.push(0);
    assert!(State::deserialize(&bytes).is_none());
}

#[test]
fn update_new_feed_url_persists_only_on_change() {
    let (s1, e1) = apply(State::new(), Action::UpdateNewFeedUrl("u".to_string()), 1);
    assert_eq!(e1.len(), 1);
    assert!(matches!(e1[0], Effect::Persist));
    let (_, e2) = apply(s1, Action::UpdateNewFeedUrl("u".to_string()), 2);
    assert!(e2.is_empty());
}

#[test]
fn add_feed_takes_pending_url() {
    let (s1, _) = apply(State::new(), Action::UpdateNewFeedUrl("http://x".to_string()), 1);
    let (s2, effects) = apply(s1, Action::AddFeed, 2);
    assert_eq!(s2.new_feed_url, "");
    assert!(matches!(&effects[0], Effect::RequestPermission(u) if u == "http://x"));
    assert!(matches!(effects[1], Effect::Persist));
}

#[test]
fn fetch_emits_get_and_clears_input() {
    let (s1, _) = apply(State::new(), Action::UpdateNewFeedUrl("http://x".to_string()), 1);
    let (s2, effects) = apply(s1, Action::Fetch("http://x".to_string()), 2);
    assert_eq!(s2.new_feed_url, "");
    assert!(matches!(&effects[0], Effect::FetchUrl(u) if u == "http://x"));
}

#[test]
fn reload_fetches_every_feed() {
    let s0 = fetched(State::new(), "http://x", ATOM_DOC, 1);
    let s1 = fetched(s0, "http://y", RSS_DOC, 2);
    let (s2, effects) = apply(s1.clone(), Action::Reload, 3);
    assert_eq!(s2, s1);
    assert_eq!(effects.len(), 2);
    let mut urls: Vec<String> = effects
        .iter()
        .map(|e| match e {
            Effect::FetchUrl(u) => u.clone(),
            other => panic!("unexpected effect {:?}", other),
        })
        .collect();
    urls.sort();
    assert_eq!(urls, vec!["http://x".to_string(), "http://y".to_string()]);
}

#[test]
fn auto_reload_schedules_both_timers() {
    let (_, effects) = apply(State::new(), Action::AutoReload, 1);
    assert_eq!(effects.len(), 2);
    assert!(matches!(effects[0], Effect::ScheduleAutoReload(m) if m == AUTO_RELOAD_MILLIS));
    assert!(matches!(effects[1], Effect::ScheduleReload(0)));
}

#[test]
fn export_emits_encoded_snapshot() {
    let s0 = fetched(State::new(), "http://x", ATOM_DOC, 1);
    let expected = s0.serialize();
    let (_, effects) = apply(s0, Action::Export, 2);
    assert_eq!(effects.len(), 1);
    match &effects[0] {
        Effect::ExportBytes(b) => assert_eq!(b, &expected),
        other => panic!("unexpected effect {:?}", other),
    }
}

#[test]
fn import_replaces_state_wholesale() {
    let snapshot = fetched(State::new(), "http://x", ATOM_DOC, 1);
    let bytes = snapshot.serialize();
    let restored = State::deserialize(&bytes).unwrap();
    assert!(restored.wf_check());
    let other = fetched(State::new(), "http://y", RSS_DOC, 2);
    let (s1, effects) = apply(other, Action::Import(restored), 3);
    assert_eq!(s1, snapshot);
    assert!(matches!(effects[0], Effect::Persist));
}

#[test]
fn empty_action_does_nothing() {
    let s0 = fetched(State::new(), "http://x", ATOM_DOC, 1);
    let (s1, effects) = apply(s0.clone(), Action::Empty, 2);
    assert_eq!(s1, s0);
    assert!(effects.is_empty());
}

#[test]
fn empty_state_has_exact_encoding() {
    let s = State::new();
    assert_eq!(s.serialize(), vec![0u8; 16]);
    assert_eq!(State::deserialize(&vec![0u8; 16]), Some(s));
}

#[test]
fn deserialize_rejects_surrogate_character() {
    let mut bytes: Vec<u8> = vec![1, 0, 0, 0, 0, 0, 0, 0];
    bytes.extend_from_slice(&[0x00, 0xd8, 0x00, 0x00]);
    bytes.extend_from_slice(&[0u8; 8]);
    assert!(State::deserialize(&bytes).is_none());
}

#[test]
fn wf_check_detects_duplicate_source_urls() {
    let feed = |url: &str| Feed {
        title: "t".to_string(),
        url: url.to_string(),
        article_map: Table::new(),
        updated: 0,
        visible: true,
    };
    let bad = State {
        new_feed_url: String::new(),
        feed_map: Table {
            entries: vec![
                ("u".to_string(), feed("u")),
                ("u".to_string(), feed("u")),
            ],
        },
    };
    assert!(!bad.wf_check());
    let bytes = bad.serialize();
    assert!(State::deserialize(&bytes).is_none());
}

#[test]
fn deserialize_rejects_feed_under_foreign_url() {
    let bad = State {
        new_feed_url: String::new(),
        feed_map: Table {
            entries: vec![(
                "a".to_string(),
                Feed {
                    title: "t".to_string(),
                    url: "b".to_string(),
                    article_map: Table::new(),
                    updated: 0,
                    visible: true,
                },
            )],
        },
    };
    assert!(!bad.wf_check());
    let bytes = bad.serialize();
    assert!(State::deserialize(&bytes).is_none());
}

#[test]
fn feed_from_atom_builds_fresh_feed() {
    let doc = AtomDoc {
        title: "A".to_string(),
        entries: vec![AtomEntry {
            id: "1".to_string(),
            title: "T1".to_string(),
            link: Some("http://x/1".to_string()),
            published: Some("2020-01-01T00:00:00Z".to_string()),
        }],
    };
    let feed = Feed::from_atom("http://x".to_string(), &doc, 13);
    assert_eq!(feed.title, "A");
    assert_eq!(feed.url, "http://x");
    assert_eq!(feed.updated, 13);
    assert!(feed.visible);
    let a = feed.article_map.get(&"1".to_string()).unwrap();
    assert_eq!(a.url, "http://x/1");
}

#[test]
fn feed_from_rss_builds_fresh_feed() {
    let doc = RssDoc {
        title: "R".to_string(),
        items: vec![RssItem {
            guid: None,
            title: Some("I1".to_string()),
            link: Some("http://y/9".to_string()),
            pub_date: Some("Tue, 01 Jan 2019 10:00:00 +0200".to_string()),
            dc_date: None,
        }],
    };
    let feed = Feed::from_rss("http://y".to_string(), &doc, 21);
    assert_eq!(feed.title, "R");
    assert_eq!(feed.url, "http://y");
    assert_eq!(feed.updated, 21);
    let a = feed.article_map.get(&"http://y/9".to_string()).unwrap();
    assert_eq!(a.title, "I1");
}

#[test]
fn removed_feed_recreated_starts_visible() {
    let s0 = fetched(State::new(), "http://x", ATOM_DOC, 1);
    let (s1, _) = apply(s0, Action::ToggleFeedVisible("http://x".to_string()), 2);
    assert!(!s1.feed_map.get(&"http://x".to_string()).unwrap().visible);
    let (s2, _) = apply(s1, Action::RemoveFeed("http://x".to_string()), 3);
    assert!(s2.feed_map.get(&"http://x".to_string()).is_none());
    let s3 = fetched(s2, "http://x", ATOM_DOC, 4);
    assert!(s3.feed_map.get(&"http://x".to_string()).unwrap().visible);
}

#[test]
fn unknown_dates_show_last() {
    let known = ArticleDate::At(Timestamp { secs: 10, offset_secs: 0 });
    let newer = ArticleDate::At(Timestamp { secs: 20, offset_secs: 3600 });
    let unknown = ArticleDate::Unknown;
    assert!(newer.shows_before(&known));
    assert!(!known.shows_before(&newer));
    assert!(known.shows_before(&unknown));
    assert!(!unknown.shows_before(&known));
    assert!(!unknown.shows_before(&unknown));
}
