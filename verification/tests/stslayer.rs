use stslayer::config::{Config, ConfigError, Interval, Section};
use stslayer::controller::{StatusController, StatusError};
use stslayer::generator::StatusGenerator;
use stslayer::json::{block_to_json, header_to_json, status_to_json};
use stslayer::listener::{EventListener, ListenerError};
use stslayer::protocol::{Block, Header, Markup, MinWidth, Status};
use stslayer::runner::{trim_ascii_end, SectionRunner};

fn section(name: &str, command: &str, interval: Interval) -> Section {
    Section {
        name: name.to_string(),
        command: command.to_string(),
        interval,
    }
}

fn config(sections: Vec<Section>) -> Config {
    Config {
        min_interval: Config::default_min_interval(),
        sections,
    }
}

#[test]
fn header_line_is_exact() {
    let h = Header::new();
    assert_eq!(h.version, 1);
    assert!(!h.click_events);
    // On Linux the continuation and stop signals are 18 and 19.
    assert_eq!(
        header_to_json(&h),
        r#"{"version":1,"click_events":false,"cont_signal":18,"stop_signal":19}"#
    );
}

#[test]
fn block_json_is_exact() {
    let b = Block::new("test full text 1", "test name 1", "test instance 1");
    assert_eq!(
        block_to_json(&b),
        r#"{"full_text":"test full text 1","min_width":"test full text 1","name":"test name 1","instance":"test instance 1","urgent":false,"separator":true,"markup":"none"}"#
    );
}

#[test]
fn block_json_with_optional_fields() {
    let b = Block {
        full_text: "cpu 42%".to_string(),
        short_text: Some("42%".to_string()),
        color: Some("#ff0000".to_string()),
        background: None,
        border: None,
        border_top: Some(2),
        border_bottom: None,
        border_left: None,
        border_right: None,
        min_width: MinWidth::Pixels(120),
        align: Some(stslayer::protocol::Align::Center),
        name: "command".to_string(),
        instance: "cpu".to_string(),
        urgent: true,
        separator: false,
        separator_block_width: Some(9),
        markup: Markup::Pango,
    };
    assert_eq!(
        block_to_json(&b),
        r##"{"full_text":"cpu 42%","short_text":"42%","color":"#ff0000","border_top":2,"min_width":120,"align":"center","name":"command","instance":"cpu","urgent":true,"separator":false,"separator_block_width":9,"markup":"pango"}"##
    );
}

#[test]
fn string_escaping_round_trips_through_serde_json() {
    let nasty = "a\"b\\c\nd\te\u{1f}é [,]{}";
    let b = Block::new(nasty, "command", "nasty");
    let status = Status { blocks: vec![b] };
    let line = status_to_json(&status);
    let v: serde_json::Value = serde_json::from_str(&line).unwrap();
    let arr = v.as_array().unwrap();
    assert_eq!(arr.len(), 1);
    let obj = arr[0].as_object().unwrap();
    assert_eq!(obj.get("full_text").unwrap().as_str().unwrap(), nasty);
    assert_eq!(obj.get("min_width").unwrap().as_str().unwrap(), nasty);
}

#[test]
fn snapshot_round_trip_preserves_order_and_field_sets() {
    let blocks = vec![
        Block::new("Linux", "command", "kernel release"),
        Block::new("2024-01-01 00:00:00", "command", "date and time"),
        Block::new("", "command", "empty output"),
    ];
    let status = Status { blocks };
    let line = status_to_json(&status);
    let v: serde_json::Value = serde_json::from_str(&line).unwrap();
    let arr = v.as_array().unwrap();
    assert_eq!(arr.len(), 3);
    let expected_instances = ["kernel release", "date and time", "empty output"];
    let expected_texts = ["Linux", "2024-01-01 00:00:00", ""];
    for (i, obj) in arr.iter().enumerate() {
        let obj = obj.as_object().unwrap();
        // Exactly the fields of a plain block, nothing else.
        let mut keys: Vec<&str> = obj.keys().map(|k| k.as_str()).collect();
        keys.sort();
        assert_eq!(
            keys,
            vec!["full_text", "instance", "markup", "min_width", "name", "separator", "urgent"]
        );
        assert_eq!(obj.get("full_text").unwrap().as_str().unwrap(), expected_texts[i]);
        assert_eq!(obj.get("name").unwrap().as_str().unwrap(), "command");
        assert_eq!(obj.get("instance").unwrap().as_str().unwrap(), expected_instances[i]);
        assert_eq!(obj.get("urgent").unwrap().as_bool().unwrap(), false);
        assert_eq!(obj.get("separator").unwrap().as_bool().unwrap(), true);
        assert_eq!(obj.get("markup").unwrap().as_str().unwrap(), "none");
    }
}

#[test]
fn first_snapshot_is_ordered_regardless_of_arrival() {
    let cfg = config(vec![
        section("first", "echo 1", Interval::Seconds(1)),
        section("second", "echo 2", Interval::Seconds(1)),
        section("third", "echo 3", Interval::Seconds(1)),
    ]);
    let mut ctrl = StatusController::new(cfg).unwrap();
    // Sections report in reverse order; nothing is emitted until all did.
    let r3 = ctrl.on_block(Block::new("3", "command", "third"), 0).unwrap();
    assert!(r3.is_none());
    let r2 = ctrl.on_block(Block::new("2", "command", "second"), 0).unwrap();
    assert!(r2.is_none());
    let line = ctrl
        .on_block(Block::new("1", "command", "first"), 0)
        .unwrap()
        .expect("barrier completion must emit");
    assert!(line.ends_with(','));
    let v: serde_json::Value = serde_json::from_str(line.trim_end_matches(',')).unwrap();
    let arr = v.as_array().unwrap();
    assert_eq!(arr.len(), 3);
    let instances: Vec<&str> = arr
        .iter()
        .map(|o| o.as_object().unwrap().get("instance").unwrap().as_str().unwrap())
        .collect();
    assert_eq!(instances, vec!["first", "second", "third"]);
}

#[test]
fn emissions_respect_the_minimum_interval() {
    let cfg = config(vec![
        section("a", "echo a", Interval::Seconds(1)),
        section("b", "echo b", Interval::Seconds(1)),
    ]);
    let mut ctrl = StatusController::new(cfg).unwrap();
    assert!(ctrl.on_block(Block::new("a0", "command", "a"), 1000).unwrap().is_none());
    // The barrier emission itself is mandatory and immediate.
    assert!(ctrl.on_block(Block::new("b0", "command", "b"), 1000).unwrap().is_some());
    // 50 ms later: inside the 100 ms minimum interval, retained silently.
    assert!(ctrl.on_block(Block::new("a1", "command", "a"), 1050).unwrap().is_none());
    // Exactly 100 ms later: still not strictly more than the interval.
    assert!(ctrl.on_block(Block::new("a2", "command", "a"), 1100).unwrap().is_none());
    // 101 ms after the last emission: the limiter opens, and the emitted
    // snapshot holds the latest retained state.
    let line = ctrl.on_block(Block::new("a3", "command", "a"), 1101).unwrap().unwrap();
    assert!(line.contains("a3"));
    assert!(!line.contains("a1"));
}

#[test]
fn update_for_unknown_identity_is_rejected() {
    let cfg = config(vec![section("known", "echo", Interval::Seconds(1))]);
    let mut ctrl = StatusController::new(cfg).unwrap();
    let r = ctrl.on_block(Block::new("x", "command", "unknown"), 0);
    assert!(matches!(r, Err(StatusError::IdentityNotFound(_))));
}

#[test]
fn empty_section_list_is_rejected() {
    let cfg = config(vec![]);
    assert!(matches!(StatusController::new(cfg), Err(ConfigError::EmptySections)));
}

#[test]
fn duplicate_section_names_are_rejected() {
    let cfg = config(vec![
        section("same", "echo 1", Interval::Seconds(1)),
        section("other", "echo 2", Interval::Seconds(1)),
        section("same", "echo 3", Interval::Seconds(1)),
    ]);
    match StatusController::new(cfg) {
        Err(ConfigError::DuplicateSectionName(n)) => assert_eq!(n, "same"),
        other => panic!("expected a duplicate-name rejection, got {:?}", other.map(|_| ())),
    }
}

#[test]
fn header_line_of_controller_opens_the_array() {
    let cfg = config(vec![section("s", "echo", Interval::Seconds(1))]);
    let ctrl = StatusController::new(cfg).unwrap();
    assert_eq!(
        ctrl.header_line(),
        "{\"version\":1,\"click_events\":false,\"cont_signal\":18,\"stop_signal\":19}\n["
    );
}

#[test]
fn unchanged_output_publishes_nothing() {
    let mut runner = SectionRunner::new(section("s", "uname -r", Interval::Seconds(1)));
    let first = runner.observe(true, "Linux\n", "").unwrap();
    assert!(first.is_some());
    let second = runner.observe(true, "Linux\n", "").unwrap();
    assert!(second.is_none());
    let third = runner.observe(true, "Linux 6.1\n", "").unwrap();
    assert_eq!(third.unwrap().full_text, "Linux 6.1");
}

#[test]
fn oneshot_section_publishes_once_and_freezes() {
    let mut oneshot = SectionRunner::new(section("once", "uname -r", Interval::Oneshot));
    let b = oneshot.observe(true, "Linux\n", "").unwrap().expect("first cycle publishes");
    assert_eq!(b.full_text, "Linux");
    assert_eq!(b.instance, "once");
    // The runner terminated: no further cycle is scheduled.
    assert_eq!(oneshot.next_delay_ms(3), None);

    let mut periodic = SectionRunner::new(section("clock", "date", Interval::Seconds(2)));
    periodic.observe(true, "12:00\n", "").unwrap();
    // The periodic section keeps running: period minus elapsed time.
    assert_eq!(periodic.next_delay_ms(300), Some(1700));
    // A cycle that overran its period sleeps zero, never negative.
    assert_eq!(periodic.next_delay_ms(5000), Some(0));
}

#[test]
fn failing_command_is_fatal_to_the_runner() {
    let mut runner = SectionRunner::new(section("s", "false", Interval::Seconds(1)));
    let err = runner.observe(false, "", "boom\n").unwrap_err();
    assert_eq!(err.command, "false");
    assert_eq!(err.stderr, "boom\n");
    // The runner terminated; the process is expected to follow.
    assert_eq!(runner.next_delay_ms(0), None);
}

#[test]
fn trim_removes_trailing_ascii_whitespace() {
    assert_eq!(trim_ascii_end("Linux\n"), "Linux");
    assert_eq!(trim_ascii_end("a \t\r\n"), "a");
    assert_eq!(trim_ascii_end(""), "");
    assert_eq!(trim_ascii_end(" \t\n"), "");
    assert_eq!(trim_ascii_end("  inner space kept \n"), "  inner space kept");
    assert_eq!(trim_ascii_end("é\u{c}"), "é");
}

#[test]
fn interval_keyword_is_case_insensitive() {
    assert_eq!(Interval::from_keyword("oneshot"), Ok(Interval::Oneshot));
    assert_eq!(Interval::from_keyword("OneShot"), Ok(Interval::Oneshot));
    assert_eq!(Interval::from_keyword("ONESHOT"), Ok(Interval::Oneshot));
    assert_eq!(Interval::from_keyword("never"), Err(ConfigError::InvalidInterval));
    assert_eq!(Interval::from_keyword(""), Err(ConfigError::InvalidInterval));
    assert_eq!(Interval::from_keyword("oneshots"), Err(ConfigError::InvalidInterval));
}

#[test]
fn intervals_below_one_second_are_rejected() {
    assert_eq!(Interval::from_secs(0), Err(ConfigError::IntervalTooSmall));
    assert_eq!(Interval::from_secs(1), Ok(Interval::Seconds(1)));
    assert_eq!(Interval::from_secs(60), Ok(Interval::Seconds(60)));
}

#[test]
fn min_interval_below_the_floor_is_rejected() {
    assert_eq!(stslayer::config::check_min_interval(99), Err(ConfigError::MinIntervalTooSmall));
    assert_eq!(stslayer::config::check_min_interval(100), Ok(100));
    assert_eq!(Config::default_min_interval(), 100);
    assert_eq!(Interval::default(), Interval::Seconds(1));
}

#[test]
fn generator_emits_header_then_command_snapshots() {
    let mut generator = StatusGenerator::new(config(vec![
        section("first section", "uname -r", Interval::Seconds(1)),
        section("second section", "date \"+%Y-%m-%d %H:%M:%S\"", Interval::Seconds(1)),
    ]));
    let header = generator.next_line();
    assert_eq!(
        header,
        "{\"version\":1,\"click_events\":false,\"cont_signal\":18,\"stop_signal\":19}\n["
    );
    let status = generator.next_line();
    let v: serde_json::Value = serde_json::from_str(&status).unwrap();
    let arr = v.as_array().unwrap();
    assert_eq!(arr.len(), 2);
    assert_eq!(
        arr[0].as_object().unwrap().get("full_text").unwrap().as_str().unwrap(),
        "uname -r"
    );
    assert_eq!(
        arr[1].as_object().unwrap().get("instance").unwrap().as_str().unwrap(),
        "second section"
    );
}

#[test]
fn listener_requires_the_opening_bracket() {
    let mut listener = EventListener::new();
    let err = listener.on_line("{\"x\":1}");
    assert!(matches!(err, Err(ListenerError::BadOpening(_))));

    let mut listener = EventListener::new();
    assert!(listener.on_line("[").is_ok());
    assert!(listener.on_line("{\"name\":\"command\",\"button\":1}").is_ok());
    assert!(listener.on_line(",{\"name\":\"command\",\"button\":2}").is_ok());
    let bad = listener.on_line("not json at all");
    assert!(matches!(bad, Err(ListenerError::MalformedEvent(_))));
    let not_object = listener.on_line("[1,2,3]");
    assert!(matches!(not_object, Err(ListenerError::MalformedEvent(_))));
}

#[test]
fn two_section_stream_matches_the_protocol() {
    // Two periodic sections as a host would configure them; the command
    // outputs are what `uname -r` and `date` would print.
    let cfg = config(vec![
        section("A", "uname -r", Interval::Seconds(1)),
        section("B", "date \"+%Y-%m-%d %H:%M:%S\"", Interval::Seconds(1)),
    ]);
    let mut ctrl = StatusController::new(cfg).unwrap();
    let header = ctrl.header_line();
    let mut lines = header.split('\n');
    assert_eq!(
        lines.next().unwrap(),
        r#"{"version":1,"click_events":false,"cont_signal":18,"stop_signal":19}"#
    );
    assert_eq!(lines.next().unwrap(), "[");

    let mut a = SectionRunner::new(section("A", "uname -r", Interval::Seconds(1)));
    let mut b = SectionRunner::new(section("B", "date \"+%Y-%m-%d %H:%M:%S\"", Interval::Seconds(1)));
    let block_b = b.observe(true, "2024-06-01 10:20:30\n", "").unwrap().unwrap();
    let block_a = a.observe(true, "6.6.30\n", "").unwrap().unwrap();
    assert!(ctrl.on_block(block_b, 0).unwrap().is_none());
    let line = ctrl.on_block(block_a, 0).unwrap().unwrap();
    assert_eq!(
        line,
        r#"[{"full_text":"6.6.30","min_width":"6.6.30","name":"command","instance":"A","urgent":false,"separator":true,"markup":"none"},{"full_text":"2024-06-01 10:20:30","min_width":"2024-06-01 10:20:30","name":"command","instance":"B","urgent":false,"separator":true,"markup":"none"}],"#
    );
}

#[test]
fn oneshot_slot_stays_frozen_while_periodic_updates() {
    let cfg = config(vec![
        section("once", "uname -r", Interval::Oneshot),
        section("clock", "date", Interval::Seconds(1)),
    ]);
    let mut ctrl = StatusController::new(cfg).unwrap();
    assert!(ctrl.on_block(Block::new("Linux", "command", "once"), 0).unwrap().is_none());
    assert!(ctrl.on_block(Block::new("12:00", "command", "clock"), 0).unwrap().is_some());
    // Only the periodic section keeps reporting; the oneshot slot keeps
    // its first value in every later emission.
    let line = ctrl.on_block(Block::new("12:01", "command", "clock"), 200).unwrap().unwrap();
    assert!(line.contains(r#""instance":"once""#));
    assert!(line.contains(r#""full_text":"Linux""#));
    assert!(line.contains(r#""full_text":"12:01""#));
}

#[test]
fn sleep_period_saturates_instead_of_overflowing() {
    let huge = u64::MAX / 500;
    let mut runner = SectionRunner::new(section("s", "echo", Interval::Seconds(huge)));
    runner.observe(true, "x", "").unwrap();
    // `huge` seconds do not fit in a u64 of milliseconds: the period
    // saturates, and the elapsed time is still subtracted from it.
    assert_eq!(runner.next_delay_ms(0), Some(u64::MAX));
    assert_eq!(runner.next_delay_ms(1000), Some(u64::MAX - 1000));
}

#[test]
fn pixel_min_width_serializes_as_a_number() {
    let mut b = Block::new("text", "command", "s");
    b.min_width = MinWidth::Pixels(250);
    assert_eq!(
        block_to_json(&b),
        r#"{"full_text":"text","min_width":250,"name":"command","instance":"s","urgent":false,"separator":true,"markup":"none"}"#
    );
}
