use ubgp::cli::{parse, CliError, Command, HELP};
use ubgp::daemon::{buffer_event, priority, supervise, Course, Happening, Level, Worker};

fn args(values: &[&str]) -> Result<Command, CliError> {
    let values: Vec<Vec<u8>> = values.iter().map(|v| v.as_bytes().to_vec()).collect();
    parse(&values)
}

#[test]
fn defaults_and_aliases() {
    assert_eq!(
        args(&[]).unwrap(),
        Command::Run {
            path: "/etc/ubgp.toml".into(),
            daemon: false,
            debug: false,
            check: false
        }
    );
    for values in [&["-c", "custom.toml", "-d"][..], &["--daemon", "--config=custom.toml"][..]] {
        assert_eq!(
            args(values).unwrap(),
            Command::Run {
                path: "custom.toml".into(),
                daemon: true,
                debug: false,
                check: false
            }
        );
    }
    assert!(matches!(
        args(&["--daemon", "--debug"]).unwrap(),
        Command::Run { daemon: true, debug: true, .. }
    ));
    assert_eq!(args(&["--help"]).unwrap(), Command::Help);
    assert_eq!(args(&["--version"]).unwrap(), Command::Version);
}

#[test]
fn reject_missing_values_and_unknown_flags() {
    for values in [
        &["--config"][..],
        &["-c", "--daemon"][..],
        &["--config="][..],
        &["--bogus"][..],
    ] {
        assert!(args(values).is_err());
    }
}

#[test]
fn paths_need_not_be_utf8() {
    let path = b"config-\xff.toml".to_vec();
    assert_eq!(
        parse(&vec![b"-c".to_vec(), path.clone()]).unwrap(),
        Command::Run { path, daemon: false, debug: false, check: false }
    );
}

#[test]
fn errors_say_what_is_wrong_and_where() {
    assert_eq!(args(&["-c", ""]), Err(CliError::MissingPath));
    assert_eq!(args(&["--config="]), Err(CliError::MissingPath));
    assert_eq!(args(&["-d", "--bogus"]), Err(CliError::Unknown(1)));
    assert_eq!(args(&["--confi"]), Err(CliError::Unknown(0)));
    assert_eq!(args(&["-d", "-h", "--bogus"]), Ok(Command::Help));
    assert_eq!(args(&["-V", "--bogus"]), Ok(Command::Version));
    assert!(matches!(args(&["--check-config"]), Ok(Command::Run { check: true, .. })));
    assert_eq!(
        args(&["--config=-x", "-c", "y"]),
        Ok(Command::Run { path: b"y".to_vec(), daemon: false, debug: false, check: false })
    );
    assert!(HELP.starts_with("Usage: ubgp [OPTIONS]\n"));
}

#[test]
fn log_events_hold_no_nul() {
    let mut out = b"a".to_vec();
    buffer_event(&mut out, b"b\0c\0");
    assert_eq!(out, b"ab?c?");
    assert_eq!(
        [Level::Error, Level::Warn, Level::Info, Level::Debug, Level::Trace].map(priority),
        [3, 4, 6, 7, 7]
    );
}

#[test]
fn invalid_reloads_change_nothing() {
    assert_eq!(supervise(Happening::Reload(false)), Course::Continue);
    assert_eq!(supervise(Happening::Reload(true)), Course::Restart);
    assert_eq!(supervise(Happening::Terminate), Course::Stop);
    assert_eq!(supervise(Happening::KernelEnded), Course::Fail(Worker::Kernel));
    assert_eq!(supervise(Happening::BgpEnded), Course::Fail(Worker::Bgp));
    assert_eq!(supervise(Happening::ConsoleEnded), Course::Fail(Worker::Console));
    assert_eq!(Worker::Kernel.message(), "netlink worker stopped unexpectedly");
    assert_eq!(Worker::Bgp.message(), "BGP task stopped unexpectedly");
    assert_eq!(Worker::Console.message(), "management task stopped unexpectedly");
}
