use r_boot::cli::config::{Config, Entry};

#[test]
fn round_trips_a_typical_config() {
    let contents = "\
# Generated file, all changes will be lost on nixos-rebuild!
default = \"nixos-default\"
timeout = 5
spinner = \"graphical\"

[[entries]]
id = \"nixos-default\"
title = \"NixOS (24.11, nixos-default)\"
kind = \"linux\"
linux = \"/boot/nixos/kernel\"
initrd = \"/boot/nixos/initrd\"
options = \"init=/nix/store/foo/init\"
";
    let config = Config::parse(contents);
    assert_eq!(config.default.as_deref(), Some("nixos-default"));
    assert_eq!(config.timeout, Some(5));
    assert_eq!(config.spinner.as_deref(), Some("graphical"));
    assert_eq!(config.entries.len(), 1);
    assert_eq!(config.entries[0].id, "nixos-default");
    assert_eq!(
        config.entries[0].linux.as_deref(),
        Some("/boot/nixos/kernel")
    );

    let reparsed = Config::parse(&config.render());
    assert_eq!(reparsed.default, config.default);
    assert_eq!(reparsed.timeout, config.timeout);
    assert_eq!(reparsed.spinner, config.spinner);
    assert_eq!(reparsed.entries.len(), config.entries.len());
}

#[test]
fn render_writes_settings_then_tables() {
    let config = Config {
        default: Some("a".to_string()),
        timeout: Some(3),
        spinner: Some("text".to_string()),
        logo: Some(false),
        entries: vec![Entry {
            id: "a".to_string(),
            title: Some("A".to_string()),
            kind: None,
            linux: Some("/k".to_string()),
            efi: None,
            initrd: vec!["/i1".to_string(), "/i2".to_string()],
            options: Some("quiet".to_string()),
        }],
    };
    assert_eq!(
        config.render(),
        "# Generated file, all changes will be lost on nixos-rebuild!\n\
default = \"a\"\n\
timeout = 3\n\
spinner = \"text\"\n\
logo = false\n\
\n[[entries]]\n\
id = \"a\"\n\
title = \"A\"\n\
linux = \"/k\"\n\
initrd = \"/i1\"\n\
initrd = \"/i2\"\n\
options = \"quiet\"\n"
    );
}

#[test]
fn render_then_parse_gives_back_every_field() {
    let config = Config {
        default: None,
        timeout: Some(0),
        spinner: None,
        logo: Some(true),
        entries: vec![
            Entry {
                id: "x".to_string(),
                title: None,
                kind: Some("efi".to_string()),
                linux: None,
                efi: Some("/EFI/x.efi".to_string()),
                initrd: vec![],
                options: None,
            },
            Entry {
                id: "y".to_string(),
                title: Some("Why".to_string()),
                kind: Some("linux".to_string()),
                linux: Some("/y".to_string()),
                efi: None,
                initrd: vec!["/yi".to_string()],
                options: Some("a b".to_string()),
            },
        ],
    };
    let back = Config::parse(&config.render());
    assert_eq!(back.default, None);
    assert_eq!(back.timeout, Some(0));
    assert_eq!(back.spinner, None);
    assert_eq!(back.logo, Some(true));
    assert_eq!(back.entries.len(), 2);
    assert_eq!(back.entries[0].id, "x");
    assert_eq!(back.entries[0].efi.as_deref(), Some("/EFI/x.efi"));
    assert_eq!(back.entries[0].kind.as_deref(), Some("efi"));
    assert_eq!(back.entries[1].title.as_deref(), Some("Why"));
    assert_eq!(back.entries[1].initrd, vec!["/yi".to_string()]);
    assert_eq!(back.entries[1].options.as_deref(), Some("a b"));
}

#[test]
fn parse_ignores_comments_and_bad_numbers() {
    let config = Config::parse("timeout = soon # later\n# default = \"no\"\nlogo = maybe\nspinner = off\n");
    assert_eq!(config.timeout, None);
    assert_eq!(config.default, None);
    assert_eq!(config.logo, None);
    assert_eq!(config.spinner.as_deref(), Some("off"));
}

#[test]
fn keys_before_the_first_table_are_settings_and_after_are_fields() {
    let config = Config::parse("[[entries]]\ndefault = \"inner\"\nid = \"e\"\n\r\n[[entries]]\nid=\"f\"\r\n");
    assert_eq!(config.default, None);
    assert_eq!(config.entries.len(), 2);
    assert_eq!(config.entries[0].id, "e");
    assert_eq!(config.entries[1].id, "f");
}

#[test]
fn default_config_is_empty() {
    let config = Config::default();
    assert!(config.default.is_none() && config.timeout.is_none() && config.entries.is_empty());
    let entry = Entry::default();
    assert_eq!(entry.id, "");
}
