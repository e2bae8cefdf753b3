use tvbox_wc::ipc::connection::{
    admits, after_failed_read, AfterFailure, Connection, Outgoing, ReadFailure, Sending, Verdict,
    Wrote, MAX_REQUESTS_PER_TURN, MAX_WRITES, READ_SIZE, STOPPED_READING,
};
use tvbox_wc::ipc::framing::holds_a_line;
use tvbox_wc::ipc::members::{entries, names, outline, repeated, Outline};
use tvbox_wc::ipc::payload;
use tvbox_wc::ipc::request::{decode, Decoded};
use tvbox_wc::ipc::{
    dispatch, handle_line, next_line, parse_line, place_target, reply, unterminated_too_long,
    Action, FocusOwner, Handled, HdrInfo, ModeInfo, OutputInfo, Parsed, Request, MAX_LINE,
};
use tvbox_wc::health::Health;
use tvbox_wc::json::{read, Json};
use tvbox_wc::stacking::{Names, Window};
use tvbox_wc::state::{Focus, PlaceKey, Rect};

#[test]
fn a_short_line_does_not_let_an_endless_one_through() {
    let mut buffer = b"{}\n".to_vec();
    buffer.extend(std::iter::repeat_n(b'x', MAX_LINE));
    assert!(!unterminated_too_long(&buffer));
    buffer.push(b'x');
    assert!(unterminated_too_long(&buffer));
}

#[test]
fn complete_lines_do_not_count_against_the_cap() {
    let mut buffer = Vec::new();
    for _ in 0..=(MAX_LINE / 4) {
        buffer.extend_from_slice(b"{}\n\n");
    }
    assert!(buffer.len() > MAX_LINE);
    assert!(!unterminated_too_long(&buffer));
}

#[test]
fn lines_come_out_one_by_one_and_the_rest_stays() {
    let mut buffer = b"one\n\ntwo\nthr".to_vec();
    assert!(holds_a_line(&buffer));
    assert_eq!(next_line(&mut buffer), Some(b"one".to_vec()));
    assert_eq!(next_line(&mut buffer), Some(b"".to_vec()));
    assert_eq!(next_line(&mut buffer), Some(b"two".to_vec()));
    assert_eq!(next_line(&mut buffer), None);
    assert_eq!(buffer, b"thr".to_vec());
    assert!(!holds_a_line(&buffer));
    buffer.extend_from_slice(b"ee\n");
    assert_eq!(next_line(&mut buffer), Some(b"three".to_vec()));
    assert_eq!(buffer, Vec::<u8>::new());
}

fn parsed(line: &str) -> Parsed {
    parse_line(line.as_bytes())
}

fn refused(line: &str) -> serde_json::Value {
    match parsed(line) {
        Parsed::Invalid(text) => serde_json::from_str(&text).unwrap(),
        other => panic!("{line}: {other:?}"),
    }
}

fn error_of(line: &str) -> (serde_json::Value, String) {
    let value = refused(line);
    (value["id"].clone(), value["error"].as_str().unwrap().to_owned())
}

#[test]
fn every_request_reads_as_what_it_says() {
    assert_eq!(
        parsed(r#"{"id":1,"request":"get_outputs","anything":[1,{}]}"#),
        Parsed::Request(Some(1), Request::GetOutputs)
    );
    assert_eq!(
        parsed(r#"{"request":"get_state"}"#),
        Parsed::Request(None, Request::GetState)
    );
    assert_eq!(
        parsed(r#"{"id":null,"request":"set_mode","output":"HDMI-A-1","w":1920,"h":1080}"#),
        Parsed::Request(
            None,
            Request::SetMode { output: "HDMI-A-1".to_owned(), w: 1920, h: 1080, refresh: None }
        )
    );
    assert_eq!(
        parsed(r#"{"id":2,"request":"set_mode","output":"X","w":-1,"h":2147483647,"refresh":59940}"#),
        Parsed::Request(
            Some(2),
            Request::SetMode {
                output: "X".to_owned(),
                w: -1,
                h: 2147483647,
                refresh: Some(59940)
            }
        )
    );
    assert_eq!(
        parsed(r#"{"id":5,"request":"place_window","app_id":"mpv","x":10,"y":-10,"w":640,"h":360}"#),
        Parsed::Request(
            Some(5),
            Request::PlaceWindow {
                app_id: Some("mpv".to_owned()),
                title: None,
                x: Some(10),
                y: Some(-10),
                w: Some(640),
                h: Some(360)
            }
        )
    );
    assert_eq!(
        parsed(r#"{"id":7,"request":"type_text","text":"héllo\nworld","select_all":true}"#),
        Parsed::Request(
            Some(7),
            Request::TypeText { text: "héllo\nworld".to_owned(), select_all: true }
        )
    );
    assert_eq!(
        parsed(r#"{"id":7,"request":"type_text","text":""}"#),
        Parsed::Request(Some(7), Request::TypeText { text: String::new(), select_all: false })
    );
    assert_eq!(
        parsed(r#"{"id":8,"request":"screenshot","path":"/s.png"}"#),
        Parsed::Request(Some(8), Request::Screenshot { path: "/s.png".to_owned() })
    );
    assert_eq!(
        parsed(r#"{"id":9,"request":"set_focus","owner":"app","app":"player"}"#),
        Parsed::Request(
            Some(9),
            Request::SetFocus { owner: FocusOwner::App, app: Some("player".to_owned()) }
        )
    );
    assert_eq!(
        parsed(r#"{"id":18446744073709551615,"request":"set_hdr","output":"X","on":false}"#),
        Parsed::Request(
            Some(u64::MAX),
            Request::SetHdr { output: "X".to_owned(), on: false }
        )
    );
}

#[test]
fn a_request_may_go_by_its_number_and_an_owner_by_an_object() {
    assert_eq!(parsed(r#"{"request":0}"#), Parsed::Request(None, Request::GetOutputs));
    assert_eq!(parsed(r#"{"request":2}"#), Parsed::Request(None, Request::GetState));
    assert_eq!(
        parsed(r#"{"request":6,"owner":{"launcher":null}}"#),
        Parsed::Request(
            None,
            Request::SetFocus { owner: FocusOwner::Launcher, app: None }
        )
    );
    assert_eq!(
        parsed(r#"{"request":"set_focus","owner":{"app":{}}}"#),
        Parsed::Request(None, Request::SetFocus { owner: FocusOwner::App, app: None })
    );
    assert_eq!(
        error_of(r#"{"request":"set_focus","owner":{"app":{},"launcher":null}}"#).1,
        "invalid field `owner`"
    );
    assert_eq!(error_of(r#"{"id":1,"request":8}"#).1, "invalid field `request`");
}

#[test]
fn a_request_that_is_not_ours_is_refused_with_its_id() {
    let (id, error) = error_of(r#"{"id":3,"request":"nonsense"}"#);
    assert_eq!(id, serde_json::Value::from(3));
    assert_eq!(error, "unknown request");
}

#[test]
fn a_line_that_cannot_be_read_is_refused_without_an_id() {
    let null = serde_json::Value::Null;
    for (line, error) in [
        (r#"[1]"#, "a request must be an object"),
        (r#"{"id":1}"#, "missing field `request`"),
        (r#"{"id":1,"request":null}"#, "invalid field `request`"),
        (r#"{"id":-1,"request":"get_state"}"#, "invalid field `id`"),
        (r#"{"id":1.5,"request":"nonsense"}"#, "invalid field `id`"),
        (r#"{"id":1,"request":"set_mode","w":1,"h":1}"#, "missing field `output`"),
        (r#"{"id":1,"request":"set_mode","output":1,"w":1,"h":1}"#, "invalid field `output`"),
        (r#"{"id":1,"request":"set_mode","output":"X","w":2147483648,"h":1}"#, "invalid field `w`"),
        (r#"{"id":1,"request":"set_mode","output":"X","w":1,"h":1.0}"#, "invalid field `h`"),
        (r#"{"id":1,"request":"type_text","text":"a","select_all":null}"#, "invalid field `select_all`"),
        (r#"{"id":1,"request":"set_focus","owner":"nobody"}"#, "invalid field `owner`"),
        (r#"{"id":1,"request":"set_hdr","output":"X"}"#, "missing field `on`"),
        (r#"{"id":1,"request":"place_window","x":"1"}"#, "invalid field `x`"),
    ] {
        let (id, text) = error_of(line);
        assert_eq!(id, null, "{line}");
        assert_eq!(text, error, "{line}");
    }
    let (id, text) = error_of("{nonsense");
    assert_eq!(id, null);
    assert_eq!(
        text,
        serde_json::from_str::<serde_json::Value>("{nonsense").unwrap_err().to_string()
    );
}

#[test]
fn a_value_decodes_without_going_through_a_line() {
    let json = read(br#"{"id":4,"request":"get_state"}"#).unwrap();
    let listing = |names: &[&str]| Outline {
        names: names.iter().map(|name| name.to_string()).collect(),
        within: names.iter().map(|_| Vec::new()).collect(),
    };
    assert_eq!(
        decode(&json, &listing(&["id", "request"])),
        Decoded::Request(Some(4), Request::GetState)
    );
    assert_eq!(
        decode(&Json::Null, &listing(&[])),
        Decoded::Refused(None, "a request must be an object".to_owned())
    );
    assert_eq!(
        decode(&json, &listing(&["id", "request", "id"])),
        Decoded::Refused(None, "duplicate field `id`".to_owned())
    );
}

#[test]
fn the_names_of_an_object_are_listed_as_they_stand() {
    let text = r#" {"a": {"b": 1, "c": ["d", "e"]}, "\u0061" : "x,\"y\":[", "":[{"f":2}] , "g":3} "#;
    assert!(read(text.as_bytes()).is_ok(), "{text}");
    assert_eq!(names(text.as_bytes()), vec!["a", "a", "", "g"]);
    assert_eq!(names(b"{}"), Vec::<String>::new());
    assert!(repeated(&names(text.as_bytes()), "a"));
    assert!(!repeated(&names(text.as_bytes()), "g"));
    assert!(!repeated(&names(text.as_bytes()), "b"));
}

#[test]
fn what_stands_behind_a_name_is_listed_too() {
    let text = r#"{"a": {"b": 1, "c": {"d": 2}, "b": "}"}, "e":[{"f":1}], "g" : "{\"h\":1}", "i":{}}"#;
    let outline = outline(text.as_bytes());
    assert_eq!(outline.names, vec!["a", "e", "g", "i"]);
    assert_eq!(
        outline.within,
        vec![vec!["b", "c", "b"], vec![], vec![], vec![]]
    );
    assert_eq!(entries(&outline, "a"), 3);
    assert_eq!(entries(&outline, "e"), 0);
    assert_eq!(entries(&outline, "z"), 0);
}

#[test]
fn an_owner_is_given_once() {
    let focus = |line: &str| parsed(line);
    assert_eq!(
        focus(r#"{"id":1,"request":"set_focus","owner":{"app":null},"app":"plex"}"#),
        Parsed::Request(
            Some(1),
            Request::SetFocus {
                owner: FocusOwner::App,
                app: Some("plex".to_owned())
            }
        )
    );
    for owner in [
        r#"{"app":null,"app":null}"#,
        r#"{"launcher":{},"launcher":{}}"#,
        r#"{"app":null,"launcher":null}"#,
        "{}",
    ] {
        let (id, text) = error_of(&format!(
            "{{\"id\":1,\"request\":\"set_focus\",\"owner\":{owner}}}"
        ));
        assert_eq!(id, serde_json::Value::Null, "{owner}");
        assert_eq!(text, "invalid field `owner`", "{owner}");
    }
}

#[test]
fn a_field_that_is_given_twice_is_refused() {
    let null = serde_json::Value::Null;
    for (line, name) in [
        (r#"{"id":1,"id":1,"request":"get_state"}"#, "id"),
        (r#"{"id":1,"\u0069d":2,"request":"get_state"}"#, "id"),
        (r#"{"id":1,"request":"get_state","request":"get_state"}"#, "request"),
        (r#"{"id":1,"request":"set_mode","output":"X","w":1,"h":1,"w":2}"#, "w"),
        (r#"{"id":1,"request":"type_text","text":"a","text":"b"}"#, "text"),
        (r#"{"id":1,"request":4,"text":"a","text":"b"}"#, "text"),
    ] {
        let (id, text) = error_of(line);
        assert_eq!(id, null, "{line}");
        assert_eq!(text, format!("duplicate field `{name}`"), "{line}");
    }
    // What no request reads may be there as often as it likes, and so may another
    // request's fields.
    assert_eq!(
        parsed(r#"{"id":1,"request":"get_state","x":1,"x":2,"why":{"id":1,"id":2}}"#),
        Parsed::Request(Some(1), Request::GetState)
    );
}

#[test]
fn a_reply_is_one_line_and_reads_back() {
    assert_eq!(reply(Some(2), Ok(Json::Null)), r#"{"id":2,"ok":null}"#);
    assert_eq!(
        reply(None, Err("a \"quoted\"\nline".to_owned())),
        r#"{"id":null,"error":"a \"quoted\"\nline"}"#
    );
    assert_eq!(
        reply(Some(u64::MAX), Ok(payload::keys(3))),
        r#"{"id":18446744073709551615,"ok":{"keys":3}}"#
    );
}

#[test]
fn outputs_are_reported_with_their_modes() {
    let mode = ModeInfo { w: 1360, h: 768, refresh: 60015, preferred: true };
    let outputs = vec![OutputInfo {
        name: "HDMIA-1".to_owned(),
        current: Some(mode),
        modes: vec![mode, ModeInfo { w: 640, h: 480, refresh: 59940, preferred: false }],
        connected: true,
        hdr: HdrInfo { supported: true, on: false },
    }];
    assert_eq!(
        reply(Some(1), Ok(payload::outputs(&outputs))),
        concat_text(&[
            r#"{"id":1,"ok":{"outputs":[{"name":"HDMIA-1","#,
            r#""current":{"w":1360,"h":768,"refresh":60015,"preferred":true},"#,
            r#""modes":[{"w":1360,"h":768,"refresh":60015,"preferred":true},"#,
            r#"{"w":640,"h":480,"refresh":59940,"preferred":false}],"#,
            r#""connected":true,"hdr":{"supported":true,"on":false}}]}}"#,
        ])
    );
    assert_eq!(
        reply(Some(1), Ok(payload::outputs(&vec![]))),
        r#"{"id":1,"ok":{"outputs":[]}}"#
    );
}

fn concat_text(parts: &[&str]) -> String {
    let mut text = String::new();
    for part in parts {
        text.push_str(part);
    }
    text
}

#[test]
fn the_state_is_reported_back_to_front() {
    let windows = vec![
        Window {
            app_id: Some("tvbox-shell".to_owned()),
            title: Some("Home".to_owned()),
            w: 10,
            h: 10,
        },
        Window { app_id: None, title: None, w: 0, h: 0 },
    ];
    let names = Names::resolve(None, None);
    let state = payload::state(
        &Focus::App("plex".to_owned()),
        true,
        &windows,
        &names,
        Some(0),
        "1.2.3",
        &Health::default(),
    );
    let text = reply(Some(4), Ok(state));
    let value: serde_json::Value = serde_json::from_str(&text).unwrap();
    let ok = &value["ok"];
    assert_eq!(ok["focus"]["app"], serde_json::Value::from("plex"));
    assert_eq!(ok["idle_inhibited"], serde_json::Value::from(true));
    assert_eq!(ok["version"], serde_json::Value::from("1.2.3"));
    assert_eq!(ok["windows"][0]["app_id"], serde_json::Value::Null);
    assert_eq!(ok["windows"][0]["mapped"], serde_json::Value::from(false));
    assert_eq!(ok["windows"][0]["keyboard"], serde_json::Value::from(false));
    assert_eq!(ok["windows"][1]["app_id"], serde_json::Value::from("tvbox-shell"));
    assert_eq!(ok["windows"][1]["title"], serde_json::Value::from("Home"));
    assert_eq!(ok["windows"][1]["mapped"], serde_json::Value::from(true));
    assert_eq!(ok["windows"][1]["keyboard"], serde_json::Value::from(true));
    assert_eq!(ok["health"]["frames_queued"], serde_json::Value::from(0));
    assert_eq!(ok["health"]["last_error"], serde_json::Value::Null);
    assert_eq!(ok["health"]["last_frame"], serde_json::Value::Null);

    let launcher = payload::state(&Focus::Launcher, false, &vec![], &names, None, "", &Health::default());
    let value: serde_json::Value = serde_json::from_str(&reply(None, Ok(launcher))).unwrap();
    assert_eq!(value["ok"]["focus"], serde_json::Value::from("launcher"));
    assert_eq!(value["ok"]["windows"], serde_json::Value::Array(vec![]));
}

#[test]
fn a_screenshot_is_answered_with_its_path_and_size() {
    assert_eq!(
        reply(Some(8), Ok(payload::screenshot("/s.png", 1920, 1080))),
        r#"{"id":8,"ok":{"path":"/s.png","w":1920,"h":1080}}"#
    );
}

#[test]
fn a_placement_that_does_not_hold_together_is_refused() {
    let shell = "tvbox-shell";
    assert_eq!(
        place_target(shell, Some(shell.to_owned()), None, None, None, None, None),
        Err("the shell's windows are placed by title, not by app id".to_owned())
    );
    assert_eq!(
        place_target(shell, None, None, None, None, None, None),
        Err("name the windows by app_id or by title, not both and not neither".to_owned())
    );
    assert_eq!(
        place_target(shell, None, Some("note".to_owned()), Some(1), Some(2), Some(3), None),
        Err("a rectangle needs x, y, w and h, and a positive size".to_owned())
    );
    assert_eq!(
        place_target(shell, None, Some("note".to_owned()), Some(-1), Some(2), Some(3), Some(4)),
        Ok((PlaceKey::Title("note".to_owned()), Some(Rect { x: -1, y: 2, w: 3, h: 4 })))
    );
}

#[test]
fn each_request_leads_to_its_action() {
    let shell = "tvbox-shell";
    let act = |line: &str| match handle_line(line.as_bytes(), shell) {
        Handled::Act(id, action) => (id, action),
        Handled::Answer(answer) => panic!("{line}: {answer}"),
    };
    assert_eq!(act(r#"{"id":1,"request":"get_outputs"}"#), (Some(1), Action::ReportOutputs));
    assert_eq!(act(r#"{"request":"get_state"}"#), (None, Action::ReportState));
    assert_eq!(
        act(r#"{"id":2,"request":"set_focus","owner":"app"}"#).1,
        Action::SetFocus { focus: Focus::App(String::new()) }
    );
    assert_eq!(
        act(r#"{"id":2,"request":"set_focus","owner":"launcher","app":"x"}"#).1,
        Action::SetFocus { focus: Focus::Launcher }
    );
    assert_eq!(
        act(r#"{"id":2,"request":"place_window","app_id":"mpv"}"#).1,
        Action::Place { key: PlaceKey::AppId("mpv".to_owned()), rect: None }
    );
    assert_eq!(
        act(r#"{"id":2,"request":"set_hdr","output":"X","on":true}"#).1,
        Action::SetHdr { output: "X".to_owned(), on: true }
    );
    assert_eq!(
        act(r#"{"id":2,"request":"type_text","text":"a"}"#).1,
        Action::Type { text: "a".to_owned(), select_all: false }
    );
    assert_eq!(
        act(r#"{"id":2,"request":"screenshot","path":"/p"}"#).1,
        Action::Capture { path: "/p".to_owned() }
    );
    assert_eq!(
        dispatch(
            Request::SetMode { output: "X".to_owned(), w: 1, h: 2, refresh: Some(3) },
            shell
        ),
        Ok(Action::SetMode { output: "X".to_owned(), w: 1, h: 2, refresh: Some(3) })
    );
}

#[test]
fn what_leads_to_no_action_is_answered_at_once() {
    let shell = "tvbox-shell";
    assert_eq!(handle_line(b"  ", shell), Handled::Answer(String::new()));
    assert_eq!(
        handle_line(br#"{"id":3,"request":"nonsense"}"#, shell),
        Handled::Answer(r#"{"id":3,"error":"unknown request"}"#.to_owned())
    );
    assert_eq!(
        handle_line(br#"{"id":4,"request":"place_window","app_id":"tvbox-shell"}"#, shell),
        Handled::Answer(
            r#"{"id":4,"error":"the shell's windows are placed by title, not by app id"}"#
                .to_owned()
        )
    );
}

#[test]
fn only_our_own_user_is_let_in() {
    assert!(admits(Some(1000), 1000));
    assert!(!admits(Some(0), 1000));
    assert!(!admits(None, 1000));
}

#[test]
fn a_turn_reads_answers_and_keeps_the_rest() {
    let mut connection = Connection::new();
    connection.begin_turn();
    assert!(connection.wants_read());
    connection.received(b"one\ntwo\nthr");
    assert_eq!(connection.next_request(), Some(b"one".to_vec()));
    assert_eq!(connection.next_request(), Some(b"two".to_vec()));
    assert_eq!(connection.next_request(), None);
    assert_eq!(connection.end_turn(), Verdict::Keep);
    connection.begin_turn();
    connection.received(b"");
    assert!(!connection.wants_read());
    assert_eq!(connection.end_turn(), Verdict::Closed);
}

#[test]
fn a_peer_that_floods_is_answered_a_bounded_number_of_times_a_turn() {
    let mut connection = Connection::new();
    connection.begin_turn();
    let lines = b"\n".repeat(100);
    connection.received(&lines);
    connection.received(b"");
    let mut answered = 0;
    while connection.next_request().is_some() {
        answered += 1;
    }
    assert_eq!(answered, MAX_REQUESTS_PER_TURN);
    // There are requests left, so even a peer that hung up stays for another turn.
    assert_eq!(connection.end_turn(), Verdict::Keep);
    connection.begin_turn();
    connection.received(b"");
    while connection.next_request().is_some() {
        answered += 1;
    }
    assert_eq!(answered, 100);
    assert_eq!(connection.end_turn(), Verdict::Closed);
}

#[test]
fn a_line_without_an_end_fills_the_buffer_only_so_far() {
    let mut connection = Connection::new();
    connection.begin_turn();
    let chunk = vec![b'x'; READ_SIZE];
    let mut reads = 0;
    while connection.wants_read() {
        connection.received(&chunk);
        reads += 1;
    }
    assert_eq!(reads, MAX_LINE / READ_SIZE + 1);
    assert_eq!(connection.end_turn(), Verdict::Overlong);
}

#[test]
fn a_failed_read_is_answered_by_its_kind() {
    assert_eq!(after_failed_read(ReadFailure::WouldBlock), AfterFailure::Answer);
    assert_eq!(after_failed_read(ReadFailure::Interrupted), AfterFailure::Retry);
    assert_eq!(after_failed_read(ReadFailure::Other), AfterFailure::Remove);
}

#[test]
fn a_reply_is_sent_with_a_line_feed_behind_it() {
    assert!(Outgoing::start("").is_none());
    let mut outgoing = Outgoing::start("é").unwrap();
    assert_eq!(outgoing.pending(), "é\n".as_bytes());
    assert_eq!(outgoing.after_write(Wrote::Bytes(1)), Sending::Again);
    assert_eq!(outgoing.pending().len(), 2);
    assert_eq!(outgoing.after_write(Wrote::Interrupted), Sending::Again);
    assert_eq!(outgoing.after_write(Wrote::WouldBlock), Sending::Yield);
    assert_eq!(outgoing.after_write(Wrote::Bytes(2)), Sending::Done);
}

#[test]
fn a_peer_that_stops_reading_is_given_up_on() {
    let mut outgoing = Outgoing::start("ok").unwrap();
    for _ in 1..MAX_WRITES {
        assert_eq!(outgoing.after_write(Wrote::WouldBlock), Sending::Yield);
    }
    assert_eq!(outgoing.after_write(Wrote::WouldBlock), Sending::Stuck);
    let mut outgoing = Outgoing::start("ok").unwrap();
    assert_eq!(outgoing.after_write(Wrote::Bytes(0)), Sending::Stuck);
    let mut outgoing = Outgoing::start("ok").unwrap();
    assert_eq!(outgoing.after_write(Wrote::Failed), Sending::Failed);
    assert_eq!(STOPPED_READING, "the client stopped reading");
}
