use r_boot::chainload::{candidates, known, select_key as chain_key, ChainKey, FALLBACK_TITLE};
use r_boot::console::{listing, parse_command, resolve, LineEditor, LineEvent, ShellCommand};
use r_boot::menu::MenuKey;

#[test]
fn line_editor_types_erases_and_submits() {
    let mut editor = LineEditor::new();
    assert_eq!(editor.key(MenuKey::Char('\u{8}')), LineEvent::Ignored);
    assert_eq!(editor.key(MenuKey::Char('l')), LineEvent::Typed('l'));
    assert_eq!(editor.key(MenuKey::Char('x')), LineEvent::Typed('x'));
    assert_eq!(editor.key(MenuKey::Char('\u{8}')), LineEvent::Erased);
    assert_eq!(editor.key(MenuKey::Char('s')), LineEvent::Typed('s'));
    assert_eq!(editor.key(MenuKey::Char('\u{1}')), LineEvent::Ignored);
    assert_eq!(editor.key(MenuKey::Up), LineEvent::Ignored);
    assert_eq!(editor.line(), "ls");
    assert_eq!(editor.key(MenuKey::Char('\r')), LineEvent::Submit);
    assert_eq!(editor.key(MenuKey::Escape), LineEvent::Cancel);
    assert_eq!(editor.line(), "ls");
}

#[test]
fn commands_are_parsed_from_the_first_word() {
    assert!(matches!(parse_command("  ls  EFI\\BOOT "), Some(ShellCommand::Ls(a)) if a == "EFI\\BOOT"));
    assert!(matches!(parse_command("ls"), Some(ShellCommand::Ls(a)) if a.is_empty()));
    assert!(matches!(parse_command("cd .."), Some(ShellCommand::Cd(a)) if a == ".."));
    assert!(matches!(parse_command("quit"), Some(ShellCommand::Exit)));
    assert!(matches!(parse_command("exit now"), Some(ShellCommand::Exit)));
    assert!(matches!(parse_command("rm -rf x"), Some(ShellCommand::Unknown(c)) if c == "rm"));
    assert!(parse_command("   ").is_none());
}

#[test]
fn paths_resolve_against_the_working_directory() {
    // `uefi`'s `PathBuf::push` adds a separator even after the root one.
    assert_eq!(resolve("\\", "EFI/BOOT").as_deref(), Some("\\\\EFI\\BOOT"));
    assert_eq!(resolve("\\EFI", "BOOT").as_deref(), Some("\\EFI\\BOOT"));
    assert_eq!(resolve("\\EFI", "/loader/./entries/").as_deref(), Some("\\\\loader\\entries"));
    assert_eq!(resolve("\\", "..").as_deref(), Some("\\"));
    assert_eq!(resolve("\\EFI\\BOOT", "..").as_deref(), Some("EFI"));
    assert_eq!(resolve("\\EFI", ".").as_deref(), Some("\\EFI"));
    assert_eq!(resolve("\\", "bad\u{1F600}name"), None);
}

#[test]
fn listing_sorts_and_marks_directories() {
    let entries = vec![
        ("b.efi".to_string(), false),
        ("EFI".to_string(), true),
        ("a.conf".to_string(), false),
    ];
    assert_eq!(listing(&entries), vec!["EFI\\".to_string(), "a.conf".to_string(), "b.efi".to_string()]);
    assert_eq!(listing(&Vec::new()), vec!["(empty)".to_string()]);
}

#[test]
fn chainload_candidates_skip_own_fallback() {
    let all = known();
    assert_eq!(all.len(), 8);
    assert_eq!(all[0], ("\\EFI\\Microsoft\\Boot\\bootmgfw.efi", "Windows Boot Manager"));
    assert_eq!(all[7], ("\\EFI\\BOOT\\BOOTX64.EFI", FALLBACK_TITLE));
    let own = candidates(true);
    assert_eq!(own.len(), 7);
    assert!(own.iter().all(|(_, title)| *title != FALLBACK_TITLE));
    assert_eq!(candidates(false), all);
}

#[test]
fn chainload_keys() {
    assert_eq!(chain_key(0, 3, MenuKey::Up), ChainKey::Move(2));
    assert_eq!(chain_key(1, 3, MenuKey::Up), ChainKey::Move(0));
    assert_eq!(chain_key(2, 3, MenuKey::Down), ChainKey::Move(0));
    assert_eq!(chain_key(1, 3, MenuKey::Char('\r')), ChainKey::Choose(1));
    assert_eq!(chain_key(1, 3, MenuKey::Escape), ChainKey::Cancel);
    assert_eq!(chain_key(1, 3, MenuKey::Char('q')), ChainKey::Ignore);
    assert_eq!(chain_key(1, 3, MenuKey::Left), ChainKey::Ignore);
}
