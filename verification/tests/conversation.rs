//! Whole requests against a scripted receiver, on a clock of their own.
use couch_denon::{
    Attempt, Client, Command, Decibels, Dial, Error, Fault, FaultKind, Reading, Reply, Settings,
    State, Step, Turn, FRESH, TIMEOUT,
};
use std::collections::VecDeque;

const MILLISECOND: u64 = 1_000_000;

enum Answer {
    Bytes(String),
    Silence,
    Close,
}

/// A receiver that answers each expected request in order, and what it was
/// actually asked.
struct Receiver {
    script: VecDeque<(&'static str, Answer)>,
    asked: Vec<String>,
    sent_at: Vec<u64>,
    pending: VecDeque<u8>,
    closed: bool,
    chunk: usize,
    now: u64,
}

fn receiver(script: Vec<(&'static str, &'static str)>) -> Receiver {
    answering(
        script
            .into_iter()
            .map(|(request, response)| (request, Answer::Bytes(response.to_string())))
            .collect(),
    )
}

fn answering(script: Vec<(&'static str, Answer)>) -> Receiver {
    Receiver {
        script: script.into(),
        asked: Vec::new(),
        sent_at: Vec::new(),
        pending: VecDeque::new(),
        closed: false,
        chunk: 512,
        now: 100_000 * MILLISECOND,
    }
}

fn quiet() -> Fault {
    Fault {
        kind: FaultKind::WouldBlock,
        os_code: Some(11),
    }
}

impl Receiver {
    fn client(&self) -> Client {
        Client::new(self.now)
    }

    fn push(&mut self, bytes: &str) {
        self.pending.extend(bytes.bytes());
    }

    fn hear(&mut self, bytes: &[u8]) {
        let (end, line) = bytes.split_last().unwrap();
        assert_eq!(*end, b'\r');
        assert!(!line.contains(&b'\r'));
        let line = String::from_utf8(line.to_vec()).unwrap();
        if self.script.front().is_some_and(|(expected, _)| *expected == line) {
            match self.script.pop_front().unwrap().1 {
                Answer::Bytes(bytes) => self.push(&bytes),
                Answer::Silence => {}
                Answer::Close => self.closed = true,
            }
            self.asked.push(line);
        } else {
            self.asked.push(format!("UNEXPECTED {line}"));
        }
        self.sent_at.push(self.now);
    }

    /// Performs the steps of a request until it is over.
    fn drive(&mut self, client: &mut Client, mut step: Step) -> Result<Reply, Error> {
        loop {
            step = match step {
                Step::Receive { listening, wait } => {
                    assert!(wait > 0);
                    if !self.pending.is_empty() {
                        let n = self.chunk.min(self.pending.len());
                        let bytes: Vec<u8> = self.pending.drain(..n).collect();
                        client.received(listening, &bytes, self.now)
                    } else if self.closed {
                        client.received(listening, &[], self.now)
                    } else {
                        self.now += wait;
                        client.read_failed(listening, quiet(), self.now)
                    }
                }
                Step::Send {
                    sending,
                    pause,
                    bytes,
                } => {
                    self.now += pause;
                    self.hear(&bytes);
                    client.sent(sending, self.now)
                }
                Step::Done(reply) => return Ok(reply),
                Step::Failed(error) => return Err(error),
            };
        }
    }

    fn status(&mut self, client: &mut Client) -> Result<State, Error> {
        let step = client.status(self.now);
        match self.drive(client, step)? {
            Reply::State(state) => Ok(state),
            _ => panic!("a status is answered with a state"),
        }
    }

    fn command(&mut self, client: &mut Client, command: Command) -> Result<State, Error> {
        let step = client.command(command, self.now);
        match self.drive(client, step)? {
            Reply::State(state) => Ok(state),
            _ => panic!("a command is answered with a state"),
        }
    }

    fn sources(&mut self, client: &mut Client) -> Result<Vec<(String, String)>, Error> {
        let step = client.sources(self.now);
        match self.drive(client, step)? {
            Reply::Sources(sources) => Ok(sources),
            _ => panic!("inputs are answered with inputs"),
        }
    }

    fn next_event(&mut self, client: &mut Client, wait: u64) -> Result<Option<State>, Error> {
        let step = client.next_event(wait, self.now);
        match self.drive(client, step)? {
            Reply::Event(event) => Ok(event),
            _ => panic!("an event is answered with an event"),
        }
    }
}

fn number(state: &State) -> Option<f32> {
    state.volume_db.map(|db| f32::from_bits(db.to_f32_bits()))
}

fn volume_db(db: f32) -> Command {
    Command::VolumeDb(Decibels::from_f32_bits(db.to_bits()).unwrap())
}

#[test]
fn fragmented_push_frames_do_not_confuse_status_queries() {
    let mut avr = receiver(vec![
        ("ZM?", "MVMAX 91\rMV455\rZMON\r"),
        ("MU?", "MUOFF\r"),
        ("SI?", "SIBD\r"),
    ]);
    avr.chunk = 2;
    let mut client = avr.client();
    let s = avr.status(&mut client).unwrap();
    assert_eq!(s.input.as_deref(), Some("BD"));
    assert_eq!(number(&s), Some(-34.5));
    assert_eq!(s.on, Some(true));
    assert_eq!(avr.asked, ["ZM?", "MU?", "SI?"]);
}

#[test]
fn status_asks_only_for_what_it_has_not_seen_lately() {
    let mut avr = receiver(vec![
        ("ZM?", "ZMON\r"),
        ("MV?", "MV455\r"),
        ("MU?", "MUOFF\r"),
        ("SI?", "SIBD\r"),
        // A volume step ends by observing the volume...
        ("MVUP", ""),
        ("MV?", "MV46\r"),
        // ...then only a value that went stale is asked for again.
        ("MU?", "MUON\r"),
    ]);
    let mut client = avr.client();
    assert_eq!(number(&avr.status(&mut client).unwrap()), Some(-34.5));
    // Everything was just observed: a second status asks nothing at all.
    assert_eq!(
        avr.status(&mut client).unwrap().input.as_deref(),
        Some("BD")
    );
    assert_eq!(
        number(&avr.command(&mut client, Command::VolumeUp).unwrap()),
        Some(-34.0)
    );
    assert_eq!(number(&avr.status(&mut client).unwrap()), Some(-34.0));
    // Age one value out; the others stay current.
    client.observed[2] = Some(avr.now - FRESH - MILLISECOND);
    assert_eq!(avr.status(&mut client).unwrap().muted, Some(true));
    assert_eq!(
        avr.asked,
        ["ZM?", "MV?", "MU?", "SI?", "MVUP", "MV?", "MU?"]
    );
}

#[test]
fn a_change_made_at_the_receiver_is_current_without_a_question() {
    let mut avr = receiver(vec![
        ("ZM?", "ZMON\r"),
        ("MV?", "MV455\r"),
        ("MU?", "MUOFF\r"),
        // Someone turns the knob and changes the source on the receiver
        // itself: it reports both, unasked, right after the last answer.
        ("SI?", "SIBD\rMV50\rSITV\r"),
    ]);
    let mut client = avr.client();
    avr.status(&mut client).unwrap();
    avr.now += 30 * MILLISECOND;
    let state = avr.status(&mut client).unwrap();
    assert_eq!(number(&state), Some(-30.0));
    assert_eq!(state.input.as_deref(), Some("TV"));
    assert_eq!(avr.asked, ["ZM?", "MV?", "MU?", "SI?"]);
}

#[test]
fn a_new_connection_has_observed_nothing_and_a_short_window_asks_again() {
    let mut avr = receiver(vec![
        ("ZM?", "ZMON\r"),
        ("MV?", "MV455\r"),
        ("MU?", "MUOFF\r"),
        ("SI?", "SIBD\r"),
        ("ZM?", "ZMOFF\r"),
        ("MV?", "MV455\r"),
        ("MU?", "MUOFF\r"),
        ("SI?", "SIBD\r"),
    ]);
    let mut client = avr.client();
    assert!(client.observed.iter().all(Option::is_none));
    client.fresh = 0;
    assert_eq!(avr.status(&mut client).unwrap().on, Some(true));
    assert_eq!(avr.status(&mut client).unwrap().on, Some(false));
    assert_eq!(avr.asked.len(), 8);
}

#[test]
fn conformance() {
    let mut avr = receiver(vec![
        ("MUON", "MUON\r"),
        ("MU?", "MUON\r"),
        ("ZM?", "ZMON\r"),
        ("MV?", "MV455\r"),
        ("MU?", "MUON\r"),
        ("SI?", "SIBD\r"),
        ("SSFUN ?", "SSFUNBD Blu-ray\rSSFUN END\r"),
    ]);
    let mut client = avr.client();
    avr.command(&mut client, Command::Mute(true)).unwrap();
    // What follows comes on another connection, which has observed nothing.
    let mut client = avr.client();
    let status = avr.status(&mut client).unwrap();
    let inputs = avr.sources(&mut client).unwrap();
    assert_eq!(status.on, Some(true));
    assert_eq!(status.muted, Some(true));
    assert_eq!(status.input.as_deref(), Some("BD"));
    assert_eq!(inputs[0].0, "BD");
    assert_eq!(inputs, [("BD".to_string(), "Blu-ray".to_string())]);
    assert_eq!(
        avr.asked,
        ["MUON", "MU?", "ZM?", "MV?", "MU?", "SI?", "SSFUN ?"]
    );
}

#[test]
fn failure() {
    let mut avr = answering(vec![
        ("MUON", Answer::Silence),
        ("MU?", Answer::Bytes("X".repeat(1025) + "\r")),
    ]);
    let mut client = avr.client();
    assert_eq!(
        avr.command(&mut client, Command::Mute(true)),
        Err(Error::Protocol)
    );
    assert_eq!(avr.asked, ["MUON", "MU?"]);

    let mut avr = answering(vec![("MUON", Answer::Close)]);
    let mut client = avr.client();
    assert_eq!(
        avr.command(&mut client, Command::Mute(true)),
        Err(Error::Io(Fault {
            kind: FaultKind::UnexpectedEof,
            os_code: None
        }))
    );
    assert_eq!(avr.asked, ["MUON"]);
}

#[test]
fn timeout_no_retry() {
    let mut avr = answering(vec![
        ("MVUP", Answer::Silence),
        ("MV?", Answer::Silence),
        (
            "SSFUN ?",
            Answer::Bytes("SSFUNBD Blu-ray\rSSFUN END\r".to_string()),
        ),
    ]);
    let mut client = avr.client();
    let begun = avr.now;
    assert_eq!(
        avr.command(&mut client, Command::VolumeUp),
        Err(Error::Timeout)
    );
    assert!(avr.now - begun >= TIMEOUT);
    assert_eq!(avr.asked, ["MVUP", "MV?"]);
    let inputs = avr.sources(&mut client).unwrap();
    assert_eq!(inputs, [("BD".to_string(), "Blu-ray".to_string())]);
    assert_eq!(avr.asked, ["MVUP", "MV?", "SSFUN ?"]);
}

#[test]
fn native_and_packaged_measurements_match_including_minimum_and_spaced_sources() {
    for (wire, expected) in [("MV455\r", Some(-345)), ("MV00\r", None)] {
        let mut avr = receiver(vec![
            ("ZM?", "ZMON\r"),
            ("MV?", wire),
            ("MU?", "MUOFF\r"),
            ("SI?", "SIHD RADIO\r"),
        ]);
        let mut client = avr.client();
        let state = avr.status(&mut client).unwrap();
        assert_eq!(state.volume_db.map(|db| db.tenths), expected);
        assert_eq!(state.volume_minimum, expected.is_none());
        assert_eq!(state.input.as_deref(), Some("HD RADIO"));
        assert_eq!(avr.asked, ["ZM?", "MV?", "MU?", "SI?"]);
    }
}

#[test]
fn absolute_half_step_and_minimum_are_confirmed_once_and_spaced_binding_is_exact() {
    let mut avr = receiver(vec![
        ("MV455", "MV455\r"),
        ("MV?", "MV455\r"),
        ("MV00", "MV00\r"),
        ("MV?", "MV00\r"),
        ("SIHD RADIO", "SIHD RADIO\r"),
        ("SI?", "SIHD RADIO\r"),
    ]);
    let mut client = avr.client();
    for tenths in [-805, -344, 185] {
        assert_eq!(
            avr.command(&mut client, Command::VolumeDb(Decibels { tenths })),
            Err(Error::Invalid)
        );
    }
    assert!(avr.asked.is_empty());
    avr.command(&mut client, Command::VolumeDb(Decibels { tenths: -345 }))
        .unwrap();
    avr.command(&mut client, Command::VolumeDb(Decibels { tenths: -800 }))
        .unwrap();
    avr.command(&mut client, Command::Input("HD RADIO".into()))
        .unwrap();
    assert_eq!(
        avr.asked,
        ["MV455", "MV?", "MV00", "MV?", "SIHD RADIO", "SI?"]
    );
}

#[test]
fn typed_disconnect_malformed_confirmation_and_timeout_never_retry() {
    for (script, error, expected) in [
        (
            vec![("MV455", Answer::Close)],
            Error::Io(Fault {
                kind: FaultKind::UnexpectedEof,
                os_code: None,
            }),
            vec!["MV455"],
        ),
        (
            vec![
                ("MV455", Answer::Silence),
                ("MV?", Answer::Bytes("X".repeat(1025) + "\r")),
            ],
            Error::Protocol,
            vec!["MV455", "MV?"],
        ),
        (
            vec![("MV455", Answer::Silence), ("MV?", Answer::Silence)],
            Error::Timeout,
            vec!["MV455", "MV?"],
        ),
    ] {
        let mut avr = answering(script);
        let mut client = avr.client();
        assert_eq!(avr.command(&mut client, volume_db(-34.5)), Err(error));
        assert_eq!(avr.asked, expected);
    }
}

#[test]
fn a_value_that_is_not_the_one_asked_for_is_a_protocol_error() {
    for (command, line, question, answer) in [
        (Command::Power(true), "ZMON", "ZM?", "ZMOFF\r"),
        (Command::Mute(false), "MUOFF", "MU?", "MUON\r"),
        (volume_db(-34.5), "MV455", "MV?", "MV45\r"),
        (volume_db(-80.0), "MV00", "MV?", "MV005\r"),
        (Command::Input("BD".into()), "SIBD", "SI?", "SITV\r"),
    ] {
        let mut avr = receiver(vec![(line, ""), (question, answer)]);
        let mut client = avr.client();
        assert_eq!(avr.command(&mut client, command), Err(Error::Protocol));
        assert_eq!(avr.asked, [line, question]);
    }
}

#[test]
fn an_input_that_cannot_be_named_is_refused_before_anything_is_sent() {
    let mut avr = receiver(vec![]);
    let mut client = avr.client();
    for id in ["", "BD\rMV98", "bd"] {
        assert_eq!(
            avr.command(&mut client, Command::Input(id.into())),
            Err(Error::Invalid)
        );
    }
    assert!(avr.asked.is_empty());
}

#[test]
fn lines_are_paced_and_switching_on_leaves_the_receiver_a_second() {
    let mut avr = receiver(vec![
        ("ZMON", "ZMON\r"),
        ("ZM?", "ZMON\r"),
        ("MUON", "MUON\r"),
        ("MU?", "MUON\r"),
    ]);
    let mut client = avr.client();
    avr.command(&mut client, Command::Power(true)).unwrap();
    avr.command(&mut client, Command::Mute(true)).unwrap();
    let gaps: Vec<u64> = avr.sent_at.windows(2).map(|w| w[1] - w[0]).collect();
    assert_eq!(
        gaps,
        [1_000 * MILLISECOND, 50 * MILLISECOND, 50 * MILLISECOND]
    );
    // The first line waits for nothing but the receiver to be quiet.
    assert_eq!(avr.sent_at[0], 100_010 * MILLISECOND);
}

#[test]
fn an_event_is_the_next_report_or_nothing() {
    let mut avr = receiver(vec![]);
    let mut client = avr.client();
    assert_eq!(avr.next_event(&mut client, 100 * MILLISECOND), Ok(None));
    assert_eq!(avr.next_event(&mut client, 0), Ok(None));
    avr.push("MVMAX 98\rMV50\rZMON\r");
    let event = avr
        .next_event(&mut client, 100 * MILLISECOND)
        .unwrap()
        .unwrap();
    assert_eq!(number(&event), Some(-30.0));
    assert_eq!(event.on, None);
    // What came behind it is there without another read, and without any time.
    let event = avr.next_event(&mut client, 0).unwrap().unwrap();
    assert_eq!(event.on, Some(true));
    assert_eq!(client.observed[0], Some(avr.now));
    assert_eq!(client.observed[2], None);
    avr.closed = true;
    assert_eq!(
        avr.next_event(&mut client, 100 * MILLISECOND),
        Err(Error::Io(Fault {
            kind: FaultKind::UnexpectedEof,
            os_code: None
        }))
    );
    assert!(avr.asked.is_empty());
}

#[test]
fn a_read_that_breaks_ends_the_request() {
    let fault = Fault {
        kind: FaultKind::Other,
        os_code: Some(104),
    };
    let mut client = Client::new(0);
    match client.status(0) {
        Step::Receive { listening, wait } => {
            assert_eq!(wait, 10 * MILLISECOND);
            match client.read_failed(listening, fault, 5) {
                Step::Failed(error) => assert_eq!(error, Error::Io(fault)),
                _ => panic!("a broken connection ends the request"),
            }
        }
        _ => panic!("a status listens first"),
    }
}

#[test]
fn inputs_are_listed_up_to_a_hundred() {
    let list = |n: usize| {
        let mut lines = String::from("SSFUN\rZMON\rSSFUNbd lower\r");
        for i in 0..n {
            lines += &format!("SSFUNI{i} Name {i} \r");
        }
        lines + "SSFUN END\r"
    };
    let mut avr = answering(vec![("SSFUN ?", Answer::Bytes(list(100)))]);
    let mut client = avr.client();
    let inputs = avr.sources(&mut client).unwrap();
    assert_eq!(inputs.len(), 100);
    assert_eq!(inputs[99], ("I99".to_string(), "Name 99".to_string()));
    // A report in between counts as well.
    assert_eq!(client.state.on, Some(true));

    let mut avr = answering(vec![("SSFUN ?", Answer::Bytes(list(101)))]);
    let mut client = avr.client();
    assert_eq!(avr.sources(&mut client), Err(Error::Protocol));
    assert_eq!(avr.asked, ["SSFUN ?"]);
}

#[test]
fn a_value_is_current_until_the_window_is_over() {
    let mut client = Client::new(0);
    assert_eq!(client.fresh, FRESH);
    assert_eq!(client.note("MUON", 7), Some(couch_denon::Key::Mute));
    assert_eq!(client.note("MSSTEREO", 9), None);
    assert_eq!(client.observed, [None, None, Some(7), None]);
    assert!(client.current(couch_denon::Key::Mute, 7));
    assert!(client.current(couch_denon::Key::Mute, 6));
    assert!(client.current(couch_denon::Key::Mute, 7 + FRESH - 1));
    assert!(!client.current(couch_denon::Key::Mute, 7 + FRESH));
    assert!(!client.current(couch_denon::Key::Power, 7));
}

#[test]
fn a_write_that_fails_ends_the_request() {
    let client = Client::new(0);
    let broken = Fault {
        kind: FaultKind::Other,
        os_code: Some(32),
    };
    for (fault, expected) in [
        (broken, Error::Io(broken)),
        (quiet(), Error::Timeout),
    ] {
        match client.write_failed(fault) {
            Step::Failed(error) => assert_eq!(error, expected),
            _ => panic!("a failed write ends the request"),
        }
    }
}

#[test]
fn reports_in_between_do_not_disturb_a_command() {
    let mut avr = receiver(vec![
        ("MUON", "SITV\rZMON\r"),
        ("MU?", "MV50\rMVMAX 98\rMUON\rMUOFF\r"),
    ]);
    avr.chunk = 3;
    let mut client = avr.client();
    avr.push("MUOFF\rSIBD\r");
    let state = avr.command(&mut client, Command::Mute(true)).unwrap();
    assert_eq!(state.muted, Some(true));
    assert_eq!(state.on, Some(true));
    assert_eq!(state.input.as_deref(), Some("TV"));
    assert_eq!(number(&state), Some(-30.0));
    assert_eq!(avr.asked, ["MUON", "MU?"]);
    // What came behind the answer is there for the next request.
    let event = avr.next_event(&mut client, MILLISECOND).unwrap().unwrap();
    assert_eq!(event.muted, Some(false));
}

#[test]
fn a_list_holds_what_is_told_behind_its_question() {
    let mut avr = receiver(vec![(
        "SSFUN ?",
        "SSFUNTV Television\rSSFUNBD  Blu-ray \rMUON\rSSFUN END\rSSFUNCD Disc\r",
    )]);
    let mut client = avr.client();
    avr.push("SSFUNDVD Player\rSSFUN END\r");
    assert_eq!(
        avr.sources(&mut client).unwrap(),
        [
            ("TV".to_string(), "Television".to_string()),
            ("BD".to_string(), "Blu-ray".to_string()),
        ]
    );
    assert_eq!(client.state.muted, Some(true));
}

#[test]
fn a_line_is_read_whole_and_once_however_it_is_split() {
    let stream = "ZMON\r\r\nMV455\rSIHD RADIO\rMU".as_bytes();
    for size in 1..=stream.len() {
        let mut client = Client::new(0);
        let mut lines = Vec::new();
        for (i, piece) in stream.chunks(size).enumerate() {
            client.buffer.extend_from_slice(piece);
            // Every other question has no time left to wait.
            let now: u64 = if i % 2 == 0 { 4 } else { 9 };
            loop {
                match client.line(9, now) {
                    Reading::Line(line) => lines.push(line),
                    Reading::Wait(left) => {
                        assert_eq!((now, left), (4, 5));
                        break;
                    }
                    Reading::Failed(error) => {
                        assert_eq!((now, error), (9, Error::Timeout));
                        break;
                    }
                }
            }
        }
        assert_eq!(lines, ["ZMON", "MV455", "SIHD RADIO"]);
        assert_eq!(client.buffer, b"MU");
    }
    let mut client = Client::new(0);
    client.buffer = vec![0xff, b'\r'];
    assert!(matches!(
        client.line(9, 4),
        Reading::Failed(Error::Protocol)
    ));
}

#[test]
fn two_reads_at_two_times_come_to_the_same_as_one() {
    let read = |pieces: &[(&str, u64)]| {
        let mut client = Client::new(0);
        let mut step = client.status(0);
        for (bytes, now) in pieces {
            step = match step {
                Step::Receive { listening, .. } => {
                    client.received(listening, bytes.as_bytes(), *now)
                }
                _ => panic!("the receiver is heard out"),
            };
        }
        match step {
            Step::Receive { wait, .. } => (client, wait),
            _ => panic!("the receiver is heard out"),
        }
    };
    let (one, wait) = read(&[("ZMON\rMV455\rSI", 7)]);
    let (two, same) = read(&[("ZMON\rMV4", 3), ("55\rSI", 7)]);
    assert_eq!(wait, same);
    assert_eq!(one.state, two.state);
    assert_eq!(one.buffer, two.buffer);
    assert_eq!(one.observed, [Some(7), Some(7), None, None]);
    assert_eq!(two.observed, [Some(3), Some(7), None, None]);
}

#[test]
fn an_answered_status_succeeds_behind_other_lines() {
    let mut avr = receiver(vec![
        ("ZM?", "MSSTEREO\rSITV\rZMON\r"),
        ("MV?", "MVMAX 98\rMV00\r"),
        ("MU?", "SIBD\rMUON\r"),
    ]);
    let mut client = avr.client();
    client.fresh = 1_000 * MILLISECOND;
    // What was reported before is too old.
    client.note("ZMOFF", avr.now - 2_000 * MILLISECOND);
    let state = avr.status(&mut client).unwrap();
    assert_eq!(state.on, Some(true));
    assert!(state.volume_minimum);
    assert_eq!(state.muted, Some(true));
    assert_eq!(state.input.as_deref(), Some("BD"));
    assert_eq!(avr.asked, ["ZM?", "MV?", "MU?"]);
}

#[test]
fn events_come_one_by_one_and_in_order() {
    let mut avr = receiver(vec![]);
    avr.chunk = 5;
    let mut client = avr.client();
    avr.push("MV50\rMV505\rMSSTEREO\rMUON\rMV51\rMV");
    let mut volumes = Vec::new();
    while let Some(state) = avr.next_event(&mut client, MILLISECOND).unwrap() {
        volumes.push((number(&state), state.muted));
    }
    assert_eq!(
        volumes,
        [
            (Some(-30.0), None),
            (Some(-29.5), None),
            (Some(-29.5), Some(true)),
            (Some(-29.0), Some(true)),
        ]
    );
    // Half a line is kept.
    avr.push("52\r");
    let state = avr.next_event(&mut client, MILLISECOND).unwrap().unwrap();
    assert_eq!(number(&state), Some(-28.0));
}

fn dial(now: u64) -> Dial {
    let settings = Settings {
        host: "avr.local".into(),
        port: 23,
    };
    match Client::connect(&settings, now) {
        Ok(dial) => dial,
        Err(_) => panic!("the settings are fine"),
    }
}

/// The attempt of a turn, with its address and how long to try it.
fn attempt(turn: Turn) -> (Attempt, usize, u64) {
    match turn {
        Turn::Try { attempt, wait } => {
            let address = attempt.address;
            (attempt, address, wait)
        }
        _ => panic!("there is an address left to try"),
    }
}

fn failure_of(turn: Turn) -> Error {
    match turn {
        Turn::Failed(error) => error,
        _ => panic!("the dialling is over"),
    }
}

#[test]
fn addresses_are_tried_in_order_until_one_accepts() {
    let (first, address, wait) = attempt(dial(5).looked_up(Ok(3), 6));
    assert_eq!((address, wait), (0, TIMEOUT - 1));
    let (second, address, wait) = attempt(first.refused(105));
    assert_eq!((address, wait), (1, TIMEOUT - 100));
    match second.accepted(Ok(()), 205) {
        Turn::Connected { address, client } => {
            assert_eq!(address, 1);
            assert_eq!(client.send_after, 205);
            assert_eq!(client.state, State::default());
            assert!(client.observed.iter().all(Option::is_none));
        }
        _ => panic!("the second address has accepted"),
    }
}

#[test]
fn dialling_without_an_address_or_without_time_is_a_timeout() {
    assert_eq!(dial(5).deadline, 5 + TIMEOUT);
    assert_eq!(failure_of(dial(5).looked_up(Ok(0), 5)), Error::Timeout);
    assert_eq!(
        failure_of(dial(5).looked_up(Ok(2), 5 + TIMEOUT)),
        Error::Timeout
    );
    let (only, _, wait) = attempt(dial(5).looked_up(Ok(1), 4 + TIMEOUT));
    assert_eq!(wait, 1);
    assert_eq!(failure_of(only.refused(4 + TIMEOUT)), Error::Timeout);
    let (first, _, _) = attempt(dial(5).looked_up(Ok(2), 5));
    assert_eq!(failure_of(first.refused(5 + TIMEOUT)), Error::Timeout);
}

#[test]
fn dialling_fails_as_the_network_does() {
    let fault = Fault {
        kind: FaultKind::Other,
        os_code: None,
    };
    assert_eq!(
        failure_of(dial(5).looked_up(Err(fault), 5)),
        Error::Io(fault)
    );
    assert_eq!(
        failure_of(dial(5).looked_up(Err(quiet()), 5)),
        Error::Timeout
    );
    let (first, _, _) = attempt(dial(5).looked_up(Ok(2), 5));
    assert_eq!(failure_of(first.accepted(Err(fault), 6)), Error::Io(fault));
    let settings = Settings {
        host: "avr local".into(),
        port: 23,
    };
    assert!(matches!(Client::connect(&settings, 5), Err(Error::Invalid)));
}
