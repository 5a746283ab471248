use couch_denon::{Error, Fault, FaultKind, Settings, DEFAULT_PORT};

fn settings(host: &str, port: u16) -> Settings {
    Settings {
        host: host.into(),
        port,
    }
}

fn fault(kind: FaultKind) -> Fault {
    Fault {
        kind,
        os_code: Some(28),
    }
}

#[test]
fn settings_validation_still_rejects_exactly_what_it_rejected_before() {
    for host in ["avr.local", "10.0.0.5", "a"] {
        assert!(Settings {
            host: host.into(),
            port: DEFAULT_PORT
        }
        .validate()
        .is_ok());
    }
    let long = "a".repeat(254);
    for (host, port) in [
        ("", 23),
        ("avr.local", 0),
        ("avr local", 23),
        ("user@avr.local", 23),
        ("avr.local/path", 23),
        ("avr\\local", 23),
        ("avr\n.local", 23),
        (long.as_str(), 23),
    ] {
        assert!(
            Settings {
                host: host.into(),
                port
            }
            .validate()
            .is_err(),
            "{host:?}:{port} must stay rejected"
        );
    }
}

#[test]
fn every_kind_of_white_space_and_nothing_else_is_refused_in_a_host() {
    for c in '\0'..=char::MAX {
        let refused = c.is_whitespace() || c == '/' || c == '@' || c == '\\';
        let host = format!("a{c}b");
        assert_eq!(
            settings(&host, 23).validate(),
            if refused { Err(Error::Invalid) } else { Ok(()) },
            "{c:?}"
        );
    }
}

#[test]
fn the_length_of_a_host_counts_in_bytes() {
    assert_eq!(settings(&"a".repeat(253), 1).validate(), Ok(()));
    assert_eq!(settings(&"é".repeat(126), 1).validate(), Ok(()));
    assert_eq!(settings(&"é".repeat(127), 1).validate(), Err(Error::Invalid));
}

#[test]
fn loading_parts_a_bad_file_from_one_that_cannot_be_read() {
    let loaded = Settings::load(Ok(settings("avr.local", 23))).unwrap();
    assert_eq!((loaded.host.as_str(), loaded.port), ("avr.local", 23));
    assert!(matches!(
        Settings::load(Ok(settings("avr.local", 0))),
        Err(Error::Invalid)
    ));
    assert!(matches!(
        Settings::load(Err(fault(FaultKind::InvalidData))),
        Err(Error::Invalid)
    ));
    for kind in [
        FaultKind::Other,
        FaultKind::TimedOut,
        FaultKind::WouldBlock,
        FaultKind::UnexpectedEof,
    ] {
        match Settings::load(Err(fault(kind))) {
            Err(error) => {
                assert_eq!(error, Error::Storage(fault(kind)));
                assert!(error
                    .message()
                    .starts_with("Cannot read or write the AVR connection settings"));
                assert!(!error.message().contains("Network"));
            }
            Ok(_) => panic!("an absent file has no settings"),
        }
    }
}

#[test]
fn a_rejected_save_writes_nothing() {
    let mut writes = 0;
    assert_eq!(
        settings("", 23).save(|_| {
            writes += 1;
            Ok(())
        }),
        Err(Error::Invalid)
    );
    assert_eq!(writes, 0);
    let mut saved = Vec::new();
    assert_eq!(
        settings("avr.local", 23).save(|s| {
            saved.push((s.host.clone(), s.port));
            Ok(())
        }),
        Ok(())
    );
    assert_eq!(saved, [("avr.local".to_string(), 23)]);
    assert_eq!(
        settings("avr.local", 23).save(|_| Err(fault(FaultKind::TimedOut))),
        Err(Error::Storage(fault(FaultKind::TimedOut)))
    );
}

#[test]
fn a_network_failure_is_a_timeout_or_a_broken_connection() {
    assert_eq!(Error::from(fault(FaultKind::TimedOut)), Error::Timeout);
    assert_eq!(Error::from(fault(FaultKind::WouldBlock)), Error::Timeout);
    for kind in [
        FaultKind::InvalidData,
        FaultKind::UnexpectedEof,
        FaultKind::Other,
    ] {
        assert_eq!(Error::from(fault(kind)), Error::Io(fault(kind)));
    }
    assert_eq!(
        Error::Io(fault(FaultKind::Other)).message(),
        "Cannot reach the AVR. Check its address and Network Control setting."
    );
    assert_eq!(Error::Invalid.message(), "Invalid AVR command or setting");
    assert_eq!(
        Error::Timeout.message(),
        "AVR did not confirm the request before the deadline"
    );
    assert_eq!(Error::Protocol.message(), "Invalid AVR response");
    assert_eq!(
        Error::Storage(fault(FaultKind::Other)).message(),
        "Cannot read or write the AVR connection settings"
    );
}
