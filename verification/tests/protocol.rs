use couch_denon::{
    apply, next_line, source, token, volume, Command, Decibels, Error, Key, State,
};

fn level(db: f32) -> Result<Decibels, Error> {
    Decibels::from_f32_bits(db.to_bits())
}

fn number(db: Option<Decibels>) -> Option<f32> {
    db.map(|db| f32::from_bits(db.to_f32_bits()))
}

fn volume_f32(db: f32) -> Result<String, Error> {
    volume(level(db)?)
}

#[test]
fn volume_half_steps_and_extensions_are_unambiguous() {
    let mut s = State::default();
    assert_eq!(apply(&mut s, "MV455"), Some("MV"));
    assert_eq!(number(s.volume_db), Some(-34.5));
    assert_eq!(apply(&mut s, "MVMAX 91"), None);
    assert_eq!(number(s.volume_db), Some(-34.5));
    apply(&mut s, "MV00");
    assert!(s.volume_minimum);
    assert_eq!(number(s.volume_db), None);
    assert_eq!(volume_f32(-34.5).unwrap(), "MV455");
    assert_eq!(volume_f32(0.0).unwrap(), "MV80");
    for bad in [f32::NAN, 19.0, -81.0, 0.2] {
        assert!(volume_f32(bad).is_err());
    }
    assert!(Command::Input("BD\rMV98".into()).wire().is_err());
}

#[test]
fn a_single_precision_number_is_a_level_exactly_in_half_decibels_of_the_range() {
    for halves in -160i16..=36 {
        let db = f32::from(halves) * 0.5;
        let found = level(db).unwrap();
        assert_eq!(found.tenths, 5 * halves);
        assert_eq!(found.to_f32_bits(), db.to_bits());
    }
    assert_eq!(level(-0.0).unwrap().tenths, 0);
    for bad in [
        f32::NAN,
        f32::INFINITY,
        f32::NEG_INFINITY,
        f32::MIN_POSITIVE,
        f32::MAX,
        1e-40,
        0.25,
        18.5,
        -80.5,
        -34.4,
    ] {
        assert_eq!(level(bad), Err(Error::Invalid));
    }
    let mut bits = 0u32;
    while let Some(next) = bits.checked_add(9_973) {
        bits = next;
        let db = f32::from_bits(bits);
        let settable = db.is_finite()
            && (-80.0..=18.0).contains(&db)
            && (db * 2.0).fract() == 0.0;
        assert_eq!(level(db).is_ok(), settable, "{db}");
    }
}

#[test]
fn levels_outside_the_range_or_between_half_steps_are_invalid() {
    for tenths in [-805, -344, 185, i16::MIN, i16::MAX] {
        assert_eq!(volume(Decibels { tenths }), Err(Error::Invalid));
    }
    for (tenths, line) in [
        (-800, "MV00"),
        (-795, "MV005"),
        (-700, "MV10"),
        (-345, "MV455"),
        (0, "MV80"),
        (5, "MV805"),
        (180, "MV98"),
    ] {
        assert_eq!(volume(Decibels { tenths }).unwrap(), line);
    }
}

#[test]
fn every_absolute_command_is_confirmed_by_its_own_line() {
    let mut commands = vec![
        Command::Power(true),
        Command::Power(false),
        Command::Mute(true),
        Command::Mute(false),
        Command::Input("HD RADIO".into()),
        Command::Input("SAT/CBL".into()),
    ];
    for halves in -160i16..=36 {
        commands.push(Command::VolumeDb(Decibels { tenths: 5 * halves }));
    }
    for command in commands {
        let line = command.wire().unwrap();
        assert_eq!(&line[..2], command.key().prefix());
        assert!(line.bytes().all(|b| (32..127).contains(&b)));
        let mut state = State::default();
        assert!(!command.confirmed(&state));
        assert_eq!(apply(&mut state, &line), Some(command.key().prefix()));
        assert!(command.confirmed(&state), "{command:?}");
        let mut sent = line.clone().into_bytes();
        sent.push(b'\r');
        assert_eq!(next_line(&mut sent), Ok(Some(line)));
        assert!(sent.is_empty());
    }
    for (command, line) in [(Command::VolumeUp, "MVUP"), (Command::VolumeDown, "MVDOWN")] {
        assert_eq!(command.wire().unwrap(), line);
        assert!(command.confirmed(&State::default()));
    }
}

#[test]
fn a_command_is_not_confirmed_by_another_value() {
    let mut state = State::default();
    for line in ["ZMOFF", "MUON", "MV45", "SITV"] {
        assert!(apply(&mut state, line).is_some());
    }
    assert!(!Command::Power(true).confirmed(&state));
    assert!(!Command::Mute(false).confirmed(&state));
    assert!(!Command::VolumeDb(Decibels { tenths: -345 }).confirmed(&state));
    assert!(!Command::VolumeDb(Decibels { tenths: -800 }).confirmed(&state));
    assert!(!Command::Input("BD".into()).confirmed(&state));
    assert!(Command::VolumeDb(Decibels { tenths: -350 }).confirmed(&state));
    apply(&mut state, "MV000");
    assert!(Command::VolumeDb(Decibels { tenths: -800 }).confirmed(&state));
    assert!(!Command::VolumeDb(Decibels { tenths: -350 }).confirmed(&state));
}

#[test]
fn a_line_changes_only_the_value_that_it_reports() {
    let mut state = State::default();
    for (line, key) in [
        ("ZMON", Key::Power),
        ("MUOFF", Key::Mute),
        ("MV455", Key::Volume),
        ("SIHD RADIO", Key::Input),
    ] {
        assert_eq!(apply(&mut state, line), Some(key.prefix()));
    }
    let known = State {
        on: Some(true),
        muted: Some(false),
        volume_db: Some(Decibels { tenths: -345 }),
        volume_minimum: false,
        input: Some("HD RADIO".into()),
    };
    assert_eq!(state, known);
    for line in [
        "",
        "ZM",
        "ZMONX",
        "zmon",
        "MU",
        "MUMBLE",
        "MV",
        "MV4",
        "MV4555",
        "MV99",
        "MV981",
        "MV456",
        "MV4é",
        "MVMAX 98",
        "MVMAX98",
        "MSSTEREO",
        "CVFL 50",
        "SI",
        "SIbd",
        "SIABCDEFGHIJKLMNOPQRSTUVWXYZ",
        "SI\u{1}",
    ] {
        assert_eq!(apply(&mut state, line), None, "{line:?}");
        assert_eq!(state, known, "{line:?}");
        assert_eq!(state.clone(), known);
    }
    assert_eq!(apply(&mut state, "MV980"), Some("MV"));
    assert_eq!(state.volume_db, Some(Decibels { tenths: 180 }));
    assert_eq!(apply(&mut state, "MV98"), Some("MV"));
    assert_eq!(state.volume_db, Some(Decibels { tenths: 180 }));
}

#[test]
fn the_name_of_an_input_has_up_to_25_plain_characters() {
    for good in ["BD", "HD RADIO", "SAT/CBL", "A+B-C", "8K", " ", "ABCDEFGHIJKLMNOPQRSTUVWXY"] {
        assert!(token(good), "{good:?}");
    }
    for bad in ["", "bd", "BD\r", "BD\rMV98", "BÉ", "A_B", "ABCDEFGHIJKLMNOPQRSTUVWXYZ"] {
        assert!(!token(bad), "{bad:?}");
    }
}

#[test]
fn a_source_is_an_input_and_its_trimmed_name() {
    let told = |id: &str, name: &str| Some((id.to_string(), name.to_string()));
    assert_eq!(source("SSFUNBD Blu-ray"), told("BD", "Blu-ray"));
    assert_eq!(source("SSFUNSAT/CBL  My  Box \t"), told("SAT/CBL", "My  Box"));
    assert_eq!(source("SSFUNTV \u{3000}Fernsehgerät\u{a0}"), told("TV", "Fernsehgerät"));
    assert_eq!(source("SSFUNTV  "), told("TV", ""));
    for line in ["SSFUN END", "SSFUNBD", "SSFUNBD ", "SSFUNbd Blu-ray", "SSFU", "SSFUN", "MV455"] {
        assert_eq!(source(line), None, "{line:?}");
    }
}

#[test]
fn lines_are_taken_whole_and_empty_ones_passed_over() {
    let mut buffer = b"\r\n\rZMON\r\n\nMV4".to_vec();
    assert_eq!(next_line(&mut buffer), Ok(Some("ZMON".to_string())));
    assert_eq!(next_line(&mut buffer), Ok(None));
    assert_eq!(buffer, b"\n\nMV4");
    buffer.extend_from_slice(b"55\rX");
    assert_eq!(next_line(&mut buffer), Ok(Some("MV455".to_string())));
    assert_eq!(buffer, b"X");
    let mut name = "SSFUNTV Fernsehgerät\r".as_bytes().to_vec();
    assert_eq!(
        next_line(&mut name),
        Ok(Some("SSFUNTV Fernsehgerät".to_string()))
    );
}

#[test]
fn a_line_that_is_not_text_or_too_long_is_a_protocol_error() {
    let mut buffer = b"\xff\xfe\rZMON\r".to_vec();
    assert_eq!(next_line(&mut buffer), Err(Error::Protocol));
    assert_eq!(buffer, b"ZMON\r");

    let mut longest = vec![b'X'; 1024];
    assert_eq!(next_line(&mut longest), Ok(None));
    longest.push(b'\r');
    assert_eq!(next_line(&mut longest), Ok(Some("X".repeat(1024))));
    assert!(longest.is_empty());

    let mut open = vec![b'X'; 1025];
    assert_eq!(next_line(&mut open), Err(Error::Protocol));
    open.push(b'\r');
    assert_eq!(next_line(&mut open), Err(Error::Protocol));
    assert_eq!(open.len(), 1026);
}

#[test]
fn the_cut_of_the_bytes_does_not_change_the_lines() {
    let bytes = b"MVMAX 91\rMV455\r\nZMON\r\rSIBD\r";
    for cut in 0..=bytes.len() {
        let mut buffer = Vec::new();
        let mut lines = Vec::new();
        for part in [&bytes[..cut], &bytes[cut..]] {
            buffer.extend_from_slice(part);
            while let Ok(Some(line)) = next_line(&mut buffer) {
                lines.push(line);
            }
        }
        assert_eq!(lines, ["MVMAX 91", "MV455", "ZMON", "SIBD"]);
        assert!(buffer.is_empty());
    }
}
