use r_boot::cli::commands::{
    config_path, join, purge_files, remove, resolve_esp_path, set_default, set_logo, set_spinner,
    set_timeout, show_text,
};
use r_boot::cli::config::{Config, Entry};

fn entry(id: &str) -> Entry {
    Entry {
        id: id.to_string(),
        title: None,
        kind: None,
        linux: Some(format!("/boot/nixos/{id}-kernel")),
        efi: None,
        initrd: vec![format!("/boot/nixos/{id}-initrd")],
        options: None,
    }
}

fn config() -> Config {
    Config {
        default: Some("b".to_string()),
        timeout: Some(0),
        spinner: None,
        logo: None,
        entries: vec![entry("a"), entry("b")],
    }
}

#[test]
fn paths_join_like_the_standard_library() {
    assert_eq!(config_path("/boot"), "/boot/boot/r-boot.toml");
    assert_eq!(config_path("/efi/"), "/efi/boot/r-boot.toml");
    assert_eq!(join("", "x"), "x");
    assert_eq!(join("/a", "/abs"), "/abs");
    assert_eq!(resolve_esp_path("/boot", "/boot/nixos/kernel"), "/boot/boot/nixos/kernel");
    assert_eq!(resolve_esp_path("/efi", "///EFI/x.efi"), "/efi/EFI/x.efi");
    assert_eq!(resolve_esp_path("/efi", ""), "/efi/");
}

#[test]
fn set_default_needs_a_known_id() {
    let mut c = config();
    assert_eq!(set_default(&mut c, "a").unwrap(), "default entry set to \"a\"");
    assert_eq!(c.default.as_deref(), Some("a"));
    assert_eq!(
        set_default(&mut c, "zz").unwrap_err(),
        "no entry with id \"zz\" (known ids: a, b)"
    );
    assert_eq!(c.default.as_deref(), Some("a"));
}

#[test]
fn setters_change_one_setting_and_report_it() {
    let mut c = config();
    assert_eq!(set_timeout(&mut c, 12), "timeout set to 12s");
    assert_eq!(c.timeout, Some(12));
    assert_eq!(set_spinner(&mut c, "off"), "spinner set to off");
    assert_eq!(c.spinner.as_deref(), Some("off"));
    assert_eq!(set_logo(&mut c, false), "firmware logo disabled");
    assert_eq!(set_logo(&mut c, true), "firmware logo enabled");
    assert_eq!(c.logo, Some(true));
    assert_eq!(c.entries.len(), 2);
}

#[test]
fn removing_the_default_entry_clears_the_default() {
    let mut c = config();
    let removed = remove(&mut c, "b").unwrap();
    assert_eq!(removed.id, "b");
    assert_eq!(c.entries.len(), 1);
    assert_eq!(c.default, None);
    let mut c = config();
    remove(&mut c, "a").unwrap();
    assert_eq!(c.default.as_deref(), Some("b"));
    let mut empty = Config::default();
    assert_eq!(
        remove(&mut empty, "a").unwrap_err(),
        "no entry with id \"a\" (known ids: )"
    );
}

#[test]
fn purge_lists_initrds_then_kernel_then_image() {
    let mut e = entry("a");
    e.efi = Some("/EFI/a.efi".to_string());
    assert_eq!(
        purge_files(&e),
        vec![
            "/boot/nixos/a-initrd".to_string(),
            "/boot/nixos/a-kernel".to_string(),
            "/EFI/a.efi".to_string()
        ]
    );
}

#[test]
fn show_prints_settings_and_marks_the_default() {
    let mut c = config();
    c.entries[1].title = Some("Bee".to_string());
    assert_eq!(
        show_text("/boot/boot/r-boot.toml", &c),
        "config:   /boot/boot/r-boot.toml\n\
default:  b\n\
timeout:  0 (boots default immediately)\n\
spinner:  graphical\n\
logo:     on\n\
\n\
entries:\n\
\x20   a (a)\n\
\x20 * Bee (b)\n"
    );
    let empty = Config::default();
    assert_eq!(
        show_text("p", &empty),
        "config:   p\ndefault:  (unset, boots first entry)\ntimeout:  (unset, defaults to 5s)\nspinner:  graphical\nlogo:     on\n\nno boot entries found\n"
    );
    let mut t = Config::default();
    t.timeout = Some(9);
    t.logo = Some(false);
    assert!(show_text("p", &t).contains("timeout:  9s\n"));
    assert!(show_text("p", &t).contains("logo:     off\n"));
}
