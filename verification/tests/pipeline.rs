use chrono::TimeZone;
use tab_sessions::decode::decode_export;
use tab_sessions::encode::encode_export;
use tab_sessions::model::{DecodeError, Export, Session, Tab, Window};
use tab_sessions::normalize::normalize;
use tab_sessions::process;

fn tab(title: &str, url: &str, index: u64) -> Tab {
    Tab { title: title.to_string(), url: url.to_string(), index }
}

fn session(name: &str, date: &str, tabs: Vec<Tab>) -> Session {
    Session {
        name: name.to_string(),
        date: date.to_string(),
        windows: vec![Window { tabs }],
    }
}

fn assert_export_eq(a: &Export, b: &Export) {
    assert_eq!(a.sessions.len(), b.sessions.len());
    for (sa, sb) in a.sessions.iter().zip(b.sessions.iter()) {
        assert_eq!(sa.name, sb.name);
        assert_eq!(sa.date, sb.date);
        assert_eq!(sa.windows.len(), sb.windows.len());
        for (wa, wb) in sa.windows.iter().zip(sb.windows.iter()) {
            assert_eq!(wa.tabs.len(), wb.tabs.len());
            for (ta, tb) in wa.tabs.iter().zip(wb.tabs.iter()) {
                assert_eq!(ta.title, tb.title);
                assert_eq!(ta.url, tb.url);
                assert_eq!(ta.index, tb.index);
            }
        }
    }
}

const TWO_SESSIONS: &str = r#"{
  "sessions": [
    {
      "name": "older",
      "date": 1700000000000,
      "windows": [ { "tabs": [ { "title": "a", "url": "http://a", "index": 0 } ] } ]
    },
    {
      "name": "newer",
      "date": 1800000000000,
      "windows": [ { "tabs": [ { "title": "b", "url": "http://b", "index": 0 } ] } ]
    }
  ]
}"#;

#[test]
fn later_session_comes_first() {
    let out = process(TWO_SESSIONS).unwrap();
    let v: serde_json::Value = serde_json::from_str(&out).unwrap();
    let sessions = v["sessions"].as_array().unwrap();
    assert_eq!(sessions.len(), 2);
    assert_eq!(sessions[0]["name"].as_str().unwrap(), "newer");
    assert_eq!(sessions[1]["name"].as_str().unwrap(), "older");
}

#[test]
fn tabs_reorder_and_index_dropped() {
    let input = r#"{
      "sessions": [
        {
          "name": "s",
          "date": 1700000000000,
          "windows": [ { "tabs": [
            { "title": "third", "url": "http://2", "index": 2 },
            { "title": "first", "url": "http://0", "index": 0 },
            { "title": "second", "url": "http://1", "index": 1 }
          ] } ]
        }
      ]
    }"#;
    let out = process(input).unwrap();
    assert!(!out.contains("index"));
    let v: serde_json::Value = serde_json::from_str(&out).unwrap();
    let tabs = v["sessions"][0]["windows"][0]["tabs"].as_array().unwrap();
    assert_eq!(tabs.len(), 3);
    assert_eq!(tabs[0]["title"].as_str().unwrap(), "first");
    assert_eq!(tabs[1]["title"].as_str().unwrap(), "second");
    assert_eq!(tabs[2]["title"].as_str().unwrap(), "third");
    for t in tabs {
        assert!(t.get("index").is_none());
        assert_eq!(t.as_object().unwrap().len(), 2);
    }
}

#[test]
fn rejects_non_list_sessions() {
    let r = process(r#"{"sessions": "not-a-list"}"#);
    assert_eq!(r.unwrap_err(), DecodeError::MalformedDocument);
}

#[test]
fn empty_sessions_round_trips() {
    let out = process(r#"{"sessions": []}"#).unwrap();
    assert_eq!(out, "{\n  \"sessions\": []\n}");
}

#[test]
fn date_rendering_matches_chrono() {
    let out = process(TWO_SESSIONS).unwrap();
    let v: serde_json::Value = serde_json::from_str(&out).unwrap();
    let expected_newer = chrono::Utc
        .timestamp_opt(1800000000, 0)
        .unwrap()
        .with_timezone(&chrono_tz::US::Eastern)
        .to_string();
    let expected_older = chrono::Utc
        .timestamp_opt(1700000000, 0)
        .unwrap()
        .with_timezone(&chrono_tz::US::Eastern)
        .to_string();
    assert_eq!(v["sessions"][0]["date"].as_str().unwrap(), expected_newer);
    assert_eq!(v["sessions"][1]["date"].as_str().unwrap(), expected_older);
}

#[test]
fn date_rendering_is_fixed_text() {
    let out = process(TWO_SESSIONS).unwrap();
    let v: serde_json::Value = serde_json::from_str(&out).unwrap();
    assert_eq!(
        v["sessions"][1]["date"].as_str().unwrap(),
        "2023-11-14 17:13:20 EST"
    );
}

#[test]
fn process_is_deterministic() {
    let a = process(TWO_SESSIONS).unwrap();
    let b = process(TWO_SESSIONS).unwrap();
    assert_eq!(a, b);
}

#[test]
fn normalize_is_idempotent() {
    let e = Export {
        sessions: vec![
            session("a", "2023-01-01 00:00:00 EST", vec![tab("t2", "u2", 2), tab("t0", "u0", 0)]),
            session("b", "2024-01-01 00:00:00 EST", vec![tab("x", "y", 1)]),
        ],
    };
    let e2 = Export {
        sessions: vec![
            session("a", "2023-01-01 00:00:00 EST", vec![tab("t2", "u2", 2), tab("t0", "u0", 0)]),
            session("b", "2024-01-01 00:00:00 EST", vec![tab("x", "y", 1)]),
        ],
    };
    let once = normalize(e);
    let twice = normalize(normalize(e2));
    assert_export_eq(&once, &twice);
}

#[test]
fn equal_dates_keep_order() {
    let input = r#"{
      "sessions": [
        { "name": "first-in", "date": 1700000000000, "windows": [] },
        { "name": "second-in", "date": 1700000000000, "windows": [] }
      ]
    }"#;
    let out = process(input).unwrap();
    let v: serde_json::Value = serde_json::from_str(&out).unwrap();
    let sessions = v["sessions"].as_array().unwrap();
    assert_eq!(sessions[0]["name"].as_str().unwrap(), "first-in");
    assert_eq!(sessions[1]["name"].as_str().unwrap(), "second-in");
}

#[test]
fn equal_indexes_keep_order() {
    let input = r#"{
      "sessions": [
        { "name": "s", "date": 1700000000000, "windows": [ { "tabs": [
          { "title": "one", "url": "u1", "index": 5 },
          { "title": "two", "url": "u2", "index": 5 },
          { "title": "zero", "url": "u0", "index": 0 }
        ] } ] }
      ]
    }"#;
    let out = process(input).unwrap();
    let v: serde_json::Value = serde_json::from_str(&out).unwrap();
    let tabs = v["sessions"][0]["windows"][0]["tabs"].as_array().unwrap();
    assert_eq!(tabs[0]["title"].as_str().unwrap(), "zero");
    assert_eq!(tabs[1]["title"].as_str().unwrap(), "one");
    assert_eq!(tabs[2]["title"].as_str().unwrap(), "two");
}

#[test]
fn round_trip_preserves_fields() {
    let out = process(TWO_SESSIONS).unwrap();
    let v: serde_json::Value = serde_json::from_str(&out).unwrap();
    let sessions = v["sessions"].as_array().unwrap();
    let titles: Vec<&str> = sessions
        .iter()
        .flat_map(|s| s["windows"].as_array().unwrap())
        .flat_map(|w| w["tabs"].as_array().unwrap())
        .map(|t| t["title"].as_str().unwrap())
        .collect();
    assert_eq!(titles, vec!["b", "a"]);
    let urls: Vec<&str> = sessions
        .iter()
        .flat_map(|s| s["windows"].as_array().unwrap())
        .flat_map(|w| w["tabs"].as_array().unwrap())
        .map(|t| t["url"].as_str().unwrap())
        .collect();
    assert_eq!(urls, vec!["http://b", "http://a"]);
}

#[test]
fn output_format_is_pretty_printed() {
    let out = process(TWO_SESSIONS).unwrap();
    let expected = "{\n  \"sessions\": [\n    {\n      \"name\": \"newer\",\n      \"date\": \"2027-01-15 03:00:00 EST\",\n      \"windows\": [\n        {\n          \"tabs\": [\n            {\n              \"title\": \"b\",\n              \"url\": \"http://b\"\n            }\n          ]\n        }\n      ]\n    },\n    {\n      \"name\": \"older\",\n      \"date\": \"2023-11-14 17:13:20 EST\",\n      \"windows\": [\n        {\n          \"tabs\": [\n            {\n              \"title\": \"a\",\n              \"url\": \"http://a\"\n            }\n          ]\n        }\n      ]\n    }\n  ]\n}";
    assert_eq!(out, expected);
}

#[test]
fn escapes_round_trip() {
    let input = "{\"sessions\": [ { \"name\": \"quote \\\" slash \\\\ newline \\n unicode \\u0041 pair \\ud83d\\ude00\", \"date\": 1700000000000, \"windows\": [] } ] }";
    let e = decode_export(input).unwrap();
    assert_eq!(e.sessions[0].name, "quote \" slash \\ newline \n unicode A pair \u{1F600}");
    let out = encode_export(&e);
    let v: serde_json::Value = serde_json::from_str(&out).unwrap();
    assert_eq!(
        v["sessions"][0]["name"].as_str().unwrap(),
        "quote \" slash \\ newline \n unicode A pair \u{1F600}"
    );
}

#[test]
fn invalid_timestamp_reported() {
    let too_far = r#"{"sessions": [ { "name": "s", "date": 99999999999999999, "windows": [] } ] }"#;
    assert_eq!(process(too_far).unwrap_err(), DecodeError::InvalidTimestamp);
    let overflow = r#"{"sessions": [ { "name": "s", "date": 99999999999999999999999, "windows": [] } ] }"#;
    assert_eq!(process(overflow).unwrap_err(), DecodeError::InvalidTimestamp);
}

#[test]
fn missing_field_rejected() {
    let no_date = r#"{"sessions": [ { "name": "s", "windows": [] } ] }"#;
    assert_eq!(process(no_date).unwrap_err(), DecodeError::MalformedDocument);
    let no_title = r#"{"sessions": [ { "name": "s", "date": 1, "windows": [ { "tabs": [ { "url": "u", "index": 0 } ] } ] } ] }"#;
    assert_eq!(process(no_title).unwrap_err(), DecodeError::MalformedDocument);
    let float_date = r#"{"sessions": [ { "name": "s", "date": 1.5, "windows": [] } ] }"#;
    assert_eq!(process(float_date).unwrap_err(), DecodeError::MalformedDocument);
}

#[test]
fn trailing_garbage_rejected() {
    assert_eq!(
        process(r#"{"sessions": []} extra"#).unwrap_err(),
        DecodeError::MalformedDocument
    );
    assert_eq!(process(r#"not json"#).unwrap_err(), DecodeError::MalformedDocument);
}

#[test]
fn unknown_fields_ignored() {
    let input = r#"{
      "extra": { "nested": [1, 2.5, true, null, "x"] },
      "sessions": [
        { "name": "s", "date": 1700000000000, "tag": -3.2e8,
          "windows": [ { "color": "blue", "tabs": [
            { "title": "t", "url": "u", "index": 0, "pinned": false }
          ] } ] }
      ]
    }"#;
    let out = process(input).unwrap();
    let v: serde_json::Value = serde_json::from_str(&out).unwrap();
    assert_eq!(v["sessions"][0]["name"].as_str().unwrap(), "s");
    assert!(v["sessions"][0].get("tag").is_none());
}

#[test]
fn control_characters_escaped_in_output() {
    let input = "{\"sessions\": [ { \"name\": \"ctl\\u0001end\", \"date\": 1700000000000, \"windows\": [] } ] }";
    let out = process(input).unwrap();
    assert!(out.contains("ctl\\u0001end"));
    let v: serde_json::Value = serde_json::from_str(&out).unwrap();
    assert_eq!(v["sessions"][0]["name"].as_str().unwrap(), "ctl\u{1}end");
}

#[test]
fn duplicate_field_rejected() {
    let twice = r#"{"sessions": [ { "name": "s", "date": 1, "date": 2, "windows": [] } ] }"#;
    assert_eq!(process(twice).unwrap_err(), DecodeError::MalformedDocument);
}

#[test]
fn raw_control_character_rejected() {
    let input = "{\"sessions\": [ { \"name\": \"a\u{1}b\", \"date\": 1700000000000, \"windows\": [] } ] }";
    assert_eq!(process(input).unwrap_err(), DecodeError::MalformedDocument);
    let tab_inside = "{\"sessions\": [ { \"name\": \"a\tb\", \"date\": 1700000000000, \"windows\": [] } ] }";
    assert_eq!(process(tab_inside).unwrap_err(), DecodeError::MalformedDocument);
}

#[test]
fn malformed_skipped_number_rejected() {
    for bad in ["--1", "1e+", "1.2.3", "01", "1.", "+5", "-"] {
        let input = format!("{{\"sessions\": [], \"extra\": {}}}", bad);
        assert_eq!(
            process(&input).unwrap_err(),
            DecodeError::MalformedDocument,
            "accepted {}",
            bad
        );
    }
}
