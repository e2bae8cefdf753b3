use tvbox_wc::fuzz::{check_line, control_stream};
use tvbox_wc::ipc::{self, Parsed};

fn check_replies(replies: &[String]) {
    for reply in replies {
        check_reply(reply);
    }
}

fn check_reply(reply: &str) {
    assert!(!reply.contains('\n'), "a reply must be one line: {reply:?}");
    let value: serde_json::Value = serde_json::from_str(reply).expect("a reply must be JSON");
    assert!(value.is_object(), "a reply must be an object: {reply:?}");
}

/// Requests the shell really sends, as the seeds for mutation.
const SEEDS: &[&str] = &[
    r#"{"id":1,"request":"get_outputs"}"#,
    r#"{"id":2,"request":"set_mode","output":"HDMI-A-1","w":1920,"h":1080}"#,
    r#"{"id":3,"request":"set_mode","output":"HDMI-A-1","w":1920,"h":1080,"refresh":59940}"#,
    r#"{"id":4,"request":"get_state"}"#,
    r#"{"id":5,"request":"place_window","app_id":"mpv","x":10,"y":10,"w":640,"h":360}"#,
    r#"{"id":6,"request":"place_window","title":"overlay"}"#,
    r#"{"id":7,"request":"type_text","text":"héllo\nworld","select_all":true}"#,
    r#"{"id":8,"request":"screenshot","path":"/run/user/1000/s.png"}"#,
    r#"{"id":9,"request":"set_focus","owner":"app","app":"player"}"#,
    r#"{"id":10,"request":"set_hdr","output":"HDMI-A-1","on":true}"#,
];

/// A small deterministic generator, so a failure reproduces from its seed.
struct XorShift(u64);

impl XorShift {
    fn next(&mut self) -> u64 {
        let mut x = self.0;
        x ^= x << 13;
        x ^= x >> 7;
        x ^= x << 17;
        self.0 = x;
        x
    }

    fn below(&mut self, n: usize) -> usize {
        (self.next() % n as u64) as usize
    }
}

fn mutate(rng: &mut XorShift, seed: &[u8]) -> Vec<u8> {
    let mut out = seed.to_vec();
    for _ in 0..=rng.below(4) {
        match rng.below(6) {
            // Flip a byte.
            0 if !out.is_empty() => {
                let at = rng.below(out.len());
                out[at] = rng.next() as u8;
            }
            // Cut it short.
            1 if !out.is_empty() => out.truncate(rng.below(out.len())),
            // Splice in another request.
            2 => {
                let other = SEEDS[rng.below(SEEDS.len())].as_bytes();
                let at = rng.below(out.len() + 1);
                out.splice(at..at, other.iter().copied());
            }
            // Swap a number for one that does not fit.
            3 => {
                let text = String::from_utf8_lossy(&out).into_owned();
                out = text
                    .replacen("1920", "99999999999999999999", 1)
                    .replacen("1080", "-2147483649", 1)
                    .into_bytes();
            }
            // Deep nesting.
            4 => {
                let depth = rng.below(4096);
                let at = rng.below(out.len() + 1);
                out.splice(at..at, std::iter::repeat_n(b'[', depth));
            }
            // A newline or a NUL somewhere.
            _ => {
                let at = rng.below(out.len() + 1);
                out.insert(at, if rng.below(2) == 0 { b'\n' } else { 0 });
            }
        }
    }
    out
}

#[test]
fn the_shells_requests_decode() {
    for seed in SEEDS {
        assert!(
            matches!(ipc::parse_line(seed.as_bytes()), Parsed::Request(..)),
            "{seed}"
        );
        check_replies(&check_line(seed.as_bytes()));
    }
}

#[test]
fn garbage_on_the_socket_never_panics() {
    let mut rng = XorShift(0x9e37_79b9_7f4a_7c15);
    for _ in 0..5_000 {
        let input = if rng.below(4) == 0 {
            (0..rng.below(512)).map(|_| rng.next() as u8).collect()
        } else {
            let seed = SEEDS[rng.below(SEEDS.len())].as_bytes();
            let mut line = mutate(&mut rng, seed);
            line.push(b'\n');
            line
        };
        check_replies(&control_stream(&input));
    }
}

#[test]
fn an_endless_line_is_cut_off_and_the_stream_recovers() {
    let mut input = vec![63u8]; // 64-byte reads
    input.extend(std::iter::repeat_n(b'x', ipc::MAX_LINE + 10));
    input.push(b'\n');
    input.extend_from_slice(SEEDS[0].as_bytes());
    input.push(b'\n');
    let replies = control_stream(&input);
    check_replies(&replies);
    let last = replies.last().unwrap();
    assert!(last.contains("refused"));
}


#[test]
fn a_rectangle_needs_a_positive_size() {
    let shell = "tvbox-shell";
    assert!(
        ipc::place_target(shell, Some("mpv".into()), None, Some(0), Some(0), Some(0), Some(5))
            .is_err()
    );
    assert!(
        ipc::place_target(shell, Some("mpv".into()), None, Some(0), None, Some(1), Some(1)).is_err()
    );
    assert!(
        ipc::place_target(shell, Some("mpv".into()), Some("t".into()), None, None, None, None)
            .is_err()
    );
    assert!(ipc::place_target(shell, None, None, None, None, None, None).is_err());
    assert!(
        ipc::place_target(shell, Some("mpv".into()), None, None, None, None, None)
            .unwrap()
            .1
            .is_none()
    );
}

#[test]
fn a_request_is_answered_in_both_ways() {
    let replies = check_line(br#"{"id":7,"request":"get_state"}"#);
    assert_eq!(replies.len(), 2);
    assert_eq!(replies[0], r#"{"id":7,"ok":null}"#);
    let refusal: serde_json::Value = serde_json::from_str(&replies[1]).unwrap();
    assert_eq!(refusal["id"], serde_json::Value::from(7));
    assert_eq!(
        refusal["error"],
        serde_json::Value::from("refused: \u{0}\n\"quoted\"")
    );
}

#[test]
fn a_blank_line_gets_no_reply() {
    assert_eq!(check_line(b"").len(), 0);
    assert_eq!(check_line(b" \t\r\x0c").len(), 0);
    assert_eq!(check_line(b"\x0b").len(), 1);
}

#[test]
fn the_size_of_reads_makes_no_difference() {
    let line = br#"{"id":1,"request":"get_outputs"}"#;
    for size in [0u8, 1, 5, 31, 63] {
        let mut input = vec![size];
        input.push(b'\n');
        input.extend_from_slice(line);
        input.push(b'\n');
        let replies = control_stream(&input);
        assert_eq!(replies.last().unwrap().contains("refused"), true, "{size}");
        assert_eq!(replies[replies.len() - 2], r#"{"id":1,"ok":null}"#);
    }
    assert_eq!(control_stream(b"").len(), 0);
}
