use trace::events::{
    collect_sender_ids, messages_to_json, messages_to_txt, EventDetails, EventKind, EventRecord,
    ExportError, MessageContent, SenderDirectory,
};
use trace::export::{
    format_export_filename, normalize_formats, parse_format_specifier, plan_room_exports,
    ExportOutputFormat,
};
use trace::fetch::{HistoryFetcher, PageOutcome, DEFAULT_HARD_CAP};
use trace::rooms::RoomWithCachedInfo;
use trace::user::{add_at_to_user_id_if_applicable, sender_label, user_id_to_crypto_store_path};

fn room(id: &str, name: Option<&str>, canonical_alias: Option<&str>) -> RoomWithCachedInfo {
    RoomWithCachedInfo {
        id: String::from(id),
        name: name.map(String::from),
        canonical_alias: canonical_alias.map(String::from),
        alt_aliases: Vec::new(),
    }
}

fn text_event(timestamp_millis: i64, sender: &str, body: &str) -> EventRecord {
    EventRecord {
        json: Some(String::from("{}")),
        parsed: Some(EventDetails {
            timestamp_millis,
            sender: String::from(sender),
            kind: EventKind::Message {
                content: MessageContent::Text { body: String::from(body) },
            },
        }),
    }
}

fn undeserializable_event() -> EventRecord {
    EventRecord { json: None, parsed: None }
}

#[test]
fn fetcher_stops_exactly_on_empty_page_with_total_2003() {
    let mut fetcher = HistoryFetcher::new(DEFAULT_HARD_CAP);
    for page_size in [1000usize, 1000, 3] {
        let mut page = Vec::new();
        for k in 0..page_size {
            page.push(text_event(k as i64, "@a:example.com", "m"));
        }
        assert!(matches!(fetcher.ingest_page(page), PageOutcome::Continue));
    }
    assert!(matches!(fetcher.ingest_page(Vec::new()), PageOutcome::EndOfTimeline));
    assert_eq!(fetcher.events.len(), 2003);
    assert_eq!(fetcher.total_seen, 2003);
}

#[test]
fn fetcher_discards_page_that_passes_the_cap() {
    let mut fetcher = HistoryFetcher::new(5);
    let first: Vec<EventRecord> = (0..3).map(|k| text_event(k, "@a:example.com", "m")).collect();
    assert!(matches!(fetcher.ingest_page(first), PageOutcome::Continue));
    let second: Vec<EventRecord> = (0..3).map(|k| text_event(k, "@a:example.com", "m")).collect();
    assert!(matches!(fetcher.ingest_page(second), PageOutcome::CapExceeded));
    assert_eq!(fetcher.events.len(), 3);
    assert_eq!(fetcher.total_seen, 6);
}

#[test]
fn empty_room_list_plans_zero_exports() {
    let catalog = vec![room("!a:example.com", Some("General"), None)];
    let identifiers: Vec<String> = Vec::new();
    let plan = plan_room_exports(&catalog, &identifiers);
    assert_eq!(plan.len(), 0);
}

#[test]
fn one_bad_identifier_does_not_disturb_the_batch() {
    let catalog = vec![room("!a:example.com", Some("General"), None)];
    let identifiers = vec![String::from("Missing"), String::from("General")];
    let plan = plan_room_exports(&catalog, &identifiers);
    assert_eq!(plan.len(), 2);
    assert!(plan[0].is_err());
    assert_eq!(*plan[1].as_ref().unwrap(), 0);
}

#[test]
fn txt_export_renders_skip_placeholder_for_undeserializable_event() {
    let events = vec![undeserializable_event()];
    let directory = SenderDirectory::new();
    let rendered = messages_to_txt(&events, &directory);
    assert_eq!(rendered, "[Message skipped due to deserialization failure]\n");
}

#[test]
fn json_export_of_undeserializable_event_fails_whole_export() {
    let events = vec![text_event(0, "@a:example.com", "ok"), undeserializable_event()];
    match messages_to_json(&events) {
        Err(ExportError::DeserializationFailure) => {}
        _ => panic!("expected DeserializationFailure"),
    }
}

#[test]
fn json_export_lists_native_forms_in_arrival_order() {
    let events = vec![
        EventRecord { json: Some(String::from("{\"a\":1}")), parsed: None },
        EventRecord { json: Some(String::from("{\"b\":2}")), parsed: None },
    ];
    let rendered = messages_to_json(&events).unwrap();
    assert_eq!(rendered, "[\n{\"a\":1},\n{\"b\":2}\n]");
}

#[test]
fn json_export_of_no_events_is_an_empty_list() {
    let events: Vec<EventRecord> = Vec::new();
    assert_eq!(messages_to_json(&events).unwrap(), "[]");
}

#[test]
fn txt_export_prefixes_timestamp_and_sender() {
    let events = vec![text_event(0, "@u:example.com", "hi")];
    let directory = SenderDirectory::new();
    let rendered = messages_to_txt(&events, &directory);
    assert_eq!(rendered, "[1970-01-01T00:00:00.000Z] @u:example.com: hi\n");
}

#[test]
fn txt_export_uses_resolved_display_name_and_kind_markup() {
    let mut directory = SenderDirectory::new();
    directory.insert(String::from("@u:example.com"), Some(String::from("Uma")));
    let events = vec![
        EventRecord {
            json: Some(String::from("{}")),
            parsed: Some(EventDetails {
                timestamp_millis: 947638923004,
                sender: String::from("@u:example.com"),
                kind: EventKind::Message {
                    content: MessageContent::Emote { body: String::from("waves") },
                },
            }),
        },
        EventRecord {
            json: Some(String::from("{}")),
            parsed: Some(EventDetails {
                timestamp_millis: 947638923004,
                sender: String::from("@u:example.com"),
                kind: EventKind::Message {
                    content: MessageContent::Location {
                        geo_uri: String::from("geo:1,2"),
                        body: String::from("here"),
                    },
                },
            }),
        },
        EventRecord {
            json: Some(String::from("{}")),
            parsed: Some(EventDetails {
                timestamp_millis: 947638923004,
                sender: String::from("@u:example.com"),
                kind: EventKind::RedactedMessage,
            }),
        },
    ];
    let rendered = messages_to_txt(&events, &directory);
    let expected = "[2000-01-12T01:02:03.004Z] Uma (@u:example.com): *waves*\n\
        [2000-01-12T01:02:03.004Z] Uma (@u:example.com): [Location; geo URI: geo:1,2; textual representation: here]\n\
        [2000-01-12T01:02:03.004Z] Uma (@u:example.com): [Redacted message]\n";
    assert_eq!(rendered, expected);
}

#[test]
fn verification_request_names_its_recipient() {
    let mut directory = SenderDirectory::new();
    directory.insert(String::from("@v:example.com"), Some(String::from("Vera")));
    let events = vec![EventRecord {
        json: Some(String::from("{}")),
        parsed: Some(EventDetails {
            timestamp_millis: 0,
            sender: String::from("@u:example.com"),
            kind: EventKind::Message {
                content: MessageContent::VerificationRequest { to: String::from("@v:example.com") },
            },
        }),
    }];
    let rendered = messages_to_txt(&events, &directory);
    assert_eq!(
        rendered,
        "[1970-01-01T00:00:00.000Z] @u:example.com: [Verification request sent to Vera (@v:example.com)]\n"
    );
}

#[test]
fn collect_sender_ids_deduplicates_and_includes_verification_targets() {
    let events = vec![
        text_event(0, "@a:example.com", "one"),
        text_event(1, "@a:example.com", "two"),
        EventRecord {
            json: None,
            parsed: Some(EventDetails {
                timestamp_millis: 2,
                sender: String::from("@b:example.com"),
                kind: EventKind::Message {
                    content: MessageContent::VerificationRequest {
                        to: String::from("@c:example.com"),
                    },
                },
            }),
        },
        undeserializable_event(),
    ];
    let ids = collect_sender_ids(&events);
    assert_eq!(ids, vec!["@a:example.com", "@b:example.com", "@c:example.com"]);
}

#[test]
fn filename_with_name_and_alias_carries_all_disambiguators() {
    let info = room("!xyz:example.com", Some("Team"), Some("#team:example.com"));
    assert_eq!(format_export_filename(&info), "Team [team, xyz, example.com]");
}

#[test]
fn filename_without_alias_uses_id_parts() {
    let info = room("!xyz:example.com", Some("Team"), None);
    assert_eq!(format_export_filename(&info), "Team [xyz, example.com]");
}

#[test]
fn filename_with_alias_only_leads_with_its_local_part() {
    let info = room("!xyz:example.com", None, Some("#team:example.com"));
    assert_eq!(format_export_filename(&info), "team [xyz, example.com]");
}

#[test]
fn filename_with_neither_leads_with_id_local_part() {
    let info = room("!xyz:example.com", None, None);
    assert_eq!(format_export_filename(&info), "xyz [example.com]");
}

#[test]
fn format_specifiers_parse_case_insensitively() {
    assert!(matches!(parse_format_specifier("json"), Some(ExportOutputFormat::Json)));
    assert!(matches!(parse_format_specifier("JSON"), Some(ExportOutputFormat::Json)));
    assert!(matches!(parse_format_specifier(".json"), Some(ExportOutputFormat::Json)));
    assert!(matches!(parse_format_specifier("Txt"), Some(ExportOutputFormat::Txt)));
    assert!(matches!(parse_format_specifier(".TXT"), Some(ExportOutputFormat::Txt)));
    assert!(parse_format_specifier("pdf").is_none());
}

#[test]
fn unspecified_formats_default_to_json_and_duplicates_collapse() {
    let none: Vec<ExportOutputFormat> = Vec::new();
    let sel = normalize_formats(&none);
    assert!(sel.json && !sel.txt);
    let dup = vec![ExportOutputFormat::Txt, ExportOutputFormat::Txt];
    let sel = normalize_formats(&dup);
    assert!(!sel.json && sel.txt);
    let both = vec![ExportOutputFormat::Json, ExportOutputFormat::Txt, ExportOutputFormat::Json];
    let sel = normalize_formats(&both);
    assert!(sel.json && sel.txt);
}

#[test]
fn user_id_normalization_adds_at_only_when_missing() {
    assert_eq!(add_at_to_user_id_if_applicable("alice:example.com"), "@alice:example.com");
    assert_eq!(add_at_to_user_id_if_applicable("@alice:example.com"), "@alice:example.com");
    assert_eq!(add_at_to_user_id_if_applicable(""), "@");
}

#[test]
fn crypto_store_path_puts_server_outermost() {
    let components = user_id_to_crypto_store_path("@alice:example.com");
    assert_eq!(components, vec!["example.com", "alice"]);
    let bare = user_id_to_crypto_store_path("alice");
    assert_eq!(bare, vec!["alice"]);
}

#[test]
fn sender_label_wraps_display_name_when_present() {
    let with_name = sender_label("@u:example.com", &Some(String::from("Uma")));
    assert_eq!(with_name, "Uma (@u:example.com)");
    let bare = sender_label("@u:example.com", &None);
    assert_eq!(bare, "@u:example.com");
}
