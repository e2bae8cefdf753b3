use tvbox_wc::session::{
    exit_code, split_command, stop_group, Act, Session, Stage, GRACE, POLL, SIGKILL, SIGTERM,
};

#[test]
fn a_session_that_goes_is_not_killed() {
    let session = Session { pid: 321 };
    let mut stopping = session.stop();
    assert_eq!(stopping.grace, 3000);
    assert_eq!(stopping.next_act(), Act::Signal { target: -321, signal: SIGTERM });
    stopping.advance(true, 0);
    assert_eq!(stopping.next_act(), Act::Signal { target: -321, signal: 0 });
    stopping.advance(true, 0);
    assert_eq!(stopping.next_act(), Act::Sleep { ms: POLL });
    stopping.advance(true, 50);
    assert_eq!(stopping.next_act(), Act::Signal { target: -321, signal: 0 });
    stopping.advance(false, 50);
    assert_eq!(stopping.next_act(), Act::Done);
}

#[test]
fn a_session_that_stays_is_killed_when_its_time_is_up() {
    let mut stopping = stop_group(321, 300);
    stopping.advance(true, 0);
    let mut elapsed = 0;
    let mut probes = 0;
    while stopping.stage != Stage::Killing {
        if stopping.stage == Stage::Probing {
            probes += 1;
        }
        if stopping.stage == Stage::Waiting {
            elapsed += POLL;
        }
        stopping.advance(true, elapsed);
    }
    assert_eq!(elapsed, 300);
    assert_eq!(probes, 6);
    assert_eq!(stopping.next_act(), Act::Signal { target: -321, signal: SIGKILL });
    stopping.advance(true, elapsed);
    assert_eq!(stopping.next_act(), Act::Done);
    stopping.advance(true, elapsed);
    assert_eq!(stopping.next_act(), Act::Done);
}

#[test]
fn a_session_that_is_gone_already_is_left_alone() {
    let mut stopping = stop_group(321, GRACE);
    stopping.advance(false, 0);
    assert_eq!(stopping.next_act(), Act::Done);
}

#[test]
fn a_command_is_a_program_and_its_arguments() {
    let (program, arguments) =
        split_command(vec!["sh".to_owned(), "-c".to_owned(), "true".to_owned()]);
    assert_eq!(program, "sh");
    assert_eq!(arguments, vec!["-c".to_owned(), "true".to_owned()]);
    assert_eq!(split_command(vec!["sh".to_owned()]).1, Vec::<String>::new());
}

#[test]
fn a_session_without_an_exit_code_has_minus_one() {
    assert_eq!(exit_code(Some(3)), 3);
    assert_eq!(exit_code(None), -1);
}
