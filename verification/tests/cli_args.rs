use r_boot::cli::args::{Args, Command};

fn args(v: &[&str]) -> Vec<String> {
    v.iter().map(|s| s.to_string()).collect()
}

#[test]
fn show_uses_the_default_esp() {
    let a = Args::parse(args(&["show"])).unwrap();
    assert_eq!(a.esp, "/boot");
    assert!(matches!(a.command, Command::Show));
}

#[test]
fn esp_option_and_set_default() {
    let a = Args::parse(args(&["-d", "/efi", "set-default", "nixos-default"])).unwrap();
    assert_eq!(a.esp, "/efi");
    match a.command {
        Command::SetDefault(id) => assert_eq!(id, "nixos-default"),
        other => panic!("unexpected {other:?}"),
    }
}

#[test]
fn set_timeout_parses_seconds_or_reports_the_parse_error() {
    let a = Args::parse(args(&["set-timeout", "+7"])).unwrap();
    assert!(matches!(a.command, Command::SetTimeout(7)));
    assert_eq!(
        Args::parse(args(&["set-timeout", "x"])).unwrap_err(),
        "set-timeout: invalid digit found in string"
    );
    assert_eq!(
        Args::parse(args(&["set-timeout", ""])).unwrap_err(),
        "set-timeout: cannot parse integer from empty string"
    );
    assert_eq!(
        Args::parse(args(&["set-timeout", "4294967296"])).unwrap_err(),
        "set-timeout: number too large to fit in target type"
    );
    assert_eq!(
        Args::parse(args(&["set-timeout"])).unwrap_err(),
        "set-timeout: missing <seconds> argument"
    );
}

#[test]
fn spinner_and_logo_values_are_checked() {
    assert!(matches!(
        Args::parse(args(&["set-spinner", "text"])).unwrap().command,
        Command::SetSpinner(ref m) if m == "text"
    ));
    assert_eq!(
        Args::parse(args(&["set-spinner", "fast"])).unwrap_err(),
        "set-spinner: mode must be off, text, or graphical"
    );
    assert!(matches!(Args::parse(args(&["set-logo", "off"])).unwrap().command, Command::SetLogo(false)));
    assert!(matches!(Args::parse(args(&["set-logo", "on"])).unwrap().command, Command::SetLogo(true)));
    assert_eq!(
        Args::parse(args(&["set-logo", "yes"])).unwrap_err(),
        "set-logo: value must be on or off"
    );
    assert_eq!(Args::parse(args(&["set-logo"])).unwrap_err(), "set-logo: missing <on|off>");
    assert_eq!(
        Args::parse(args(&["set-spinner"])).unwrap_err(),
        "set-spinner: missing <mode> argument"
    );
}

#[test]
fn remove_takes_an_optional_purge_flag() {
    match Args::parse(args(&["remove", "old"])).unwrap().command {
        Command::Remove { id, purge } => {
            assert_eq!(id, "old");
            assert!(!purge);
        }
        other => panic!("unexpected {other:?}"),
    }
    match Args::parse(args(&["remove", "old", "--purge"])).unwrap().command {
        Command::Remove { purge, .. } => assert!(purge),
        other => panic!("unexpected {other:?}"),
    }
    assert_eq!(
        Args::parse(args(&["remove", "old", "--force"])).unwrap_err(),
        "unrecognized argument: --force"
    );
    assert_eq!(Args::parse(args(&["remove"])).unwrap_err(), "remove: missing <id> argument");
}

#[test]
fn missing_or_unknown_arguments_are_errors() {
    assert_eq!(Args::parse(args(&[])).unwrap_err(), "a command is required");
    assert_eq!(Args::parse(args(&["-d"])).unwrap_err(), "-d: missing argument");
    assert_eq!(Args::parse(args(&["frobnicate"])).unwrap_err(), "unrecognized argument: frobnicate");
    assert_eq!(
        Args::parse(args(&["set-default"])).unwrap_err(),
        "set-default: missing <id> argument"
    );
}

#[test]
fn a_later_command_replaces_an_earlier_one() {
    let a = Args::parse(args(&["show", "set-logo", "on"])).unwrap();
    assert!(matches!(a.command, Command::SetLogo(true)));
}
