use r_boot::menu::{
    configured_logo_visible, configured_spinner_mode, edit_key, entry_on_page, is_entry_file_name,
    key_value_of, move_selection, page_count, page_for, parse_grub_menuentry, persist_settings,
    shell_words, timer_tick, EditOutcome, KeyAction, Kind, Menu, MenuKey, RawEntry, SelectState,
    Settings, Start, Tick,
};
use r_boot::spinner::Mode;
use r_boot::splash::Image;

fn menu_with(ids: &[&str]) -> Menu {
    let mut text = String::new();
    for id in ids {
        text.push_str("[[entries]]\nid = \"");
        text.push_str(id);
        text.push_str("\"\nkernel = \"/k\"\n");
    }
    let mut menu = Menu::new();
    menu.parse_toml(&text);
    menu
}

#[test]
fn new_menu_has_defaults() {
    let menu = Menu::new();
    assert!(menu.entries.is_empty());
    assert_eq!(menu.timeout(), None);
    assert_eq!(menu.spinner_mode(), Mode::Graphical);
    assert!(menu.logo_visible());
}

#[test]
fn parse_toml_reads_settings_and_entries() {
    let text = "default = \"arch\"\ntimeout = 3 # seconds\nspinner = \"text\"\nlogo = false\n\n[[entries]]\nid = \"arch\"\ntitle = \"Arch Linux\"\nkernel = \"/vmlinuz\"\ninitrd = \"/initrd.img\"\ninitrd = \"/ucode.img\"\noptions = \"root=/dev/sda1 rw\"\nimage = \"nixos\"\n\n[[entries]]\nkind = \"limine\"\nkernel = \"/boot/kernel\"\n\n[[entries]]\ntitle = \"no kernel\"\n";
    let mut menu = Menu::new();
    menu.parse_toml(text);
    assert_eq!(menu.timeout(), Some(3));
    assert_eq!(menu.spinner_mode(), Mode::Text);
    assert!(!menu.logo_visible());
    assert_eq!(menu.entries.len(), 2);
    let first = &menu.entries[0];
    assert_eq!(first.id, "arch");
    assert_eq!(first.title, "Arch Linux");
    assert_eq!(first.kind, Kind::Linux);
    assert_eq!(first.kernel, "/vmlinuz");
    assert_eq!(first.initrds, vec!["/initrd.img".to_string(), "/ucode.img".to_string()]);
    assert_eq!(first.options.as_deref(), Some("root=/dev/sda1 rw"));
    assert_eq!(first.image, Some(Image::Nixos));
    let second = &menu.entries[1];
    assert_eq!(second.kind, Kind::Limine);
    assert_eq!(second.id, "/boot/kernel");
    assert_eq!(second.title, "/boot/kernel");
    assert_eq!(menu.default_index(), 0);
}

#[test]
fn parse_toml_skips_unknown_kind_and_unknown_image() {
    let text = "[[entries]]\nkind = \"bsd\"\nkernel = \"/a\"\n[[entries]]\nkernel = \"/b\"\nimage = \"windows\"\ntitle = \"B\"\n";
    let mut menu = Menu::new();
    menu.parse_toml(text);
    assert_eq!(menu.entries.len(), 1);
    assert_eq!(menu.entries[0].kernel, "/b");
    assert_eq!(menu.entries[0].id, "B");
    assert_eq!(menu.entries[0].image, None);
}

#[test]
fn parse_toml_keeps_settings_on_bad_values() {
    let mut menu = Menu::new();
    menu.parse_toml("timeout = soon\nspinner = \"fancy\"\nlogo = maybe\n");
    assert_eq!(menu.timeout(), None);
    assert_eq!(menu.spinner_mode(), Mode::Graphical);
    assert!(menu.logo_visible());
}

#[test]
fn efi_key_sets_kind_and_kernel() {
    let mut raw = RawEntry::new();
    raw.set("efi", "/EFI/shell.efi");
    assert_eq!(raw.kind.as_deref(), Some("efi"));
    assert_eq!(raw.kernel.as_deref(), Some("/EFI/shell.efi"));
    raw.set("unknown", "x");
    assert_eq!(raw.title, None);
    let mut menu = Menu::new();
    menu.push_entry(Some(raw));
    assert_eq!(menu.entries[0].kind, Kind::Efi);
}

#[test]
fn loader_config_does_not_override_earlier_settings() {
    let mut menu = Menu::new();
    menu.parse_toml("timeout = 7\n");
    menu.parse_loader_config("default   arch*\ntimeout 2\n# comment\n");
    assert_eq!(menu.timeout(), Some(7));
    let mut other = Menu::new();
    other.parse_loader_config("timeout 2\n");
    assert_eq!(other.timeout(), Some(2));
}

#[test]
fn systemd_entry_uses_file_name() {
    let mut menu = Menu::new();
    menu.load_systemd_entry(
        "arch.conf",
        "title   Arch Linux\nlinux   /vmlinuz-linux\ninitrd  /initramfs-linux.img\noptions root=UUID=1234 rw\n",
    );
    assert_eq!(menu.entries.len(), 1);
    let entry = &menu.entries[0];
    assert_eq!(entry.id, "arch");
    assert_eq!(entry.title, "Arch Linux");
    assert_eq!(entry.kernel, "/vmlinuz-linux");
    assert_eq!(entry.initrds, vec!["/initramfs-linux.img".to_string()]);
    assert_eq!(entry.options.as_deref(), Some("root=UUID=1234 rw"));
    assert!(is_entry_file_name("arch.conf"));
    assert!(!is_entry_file_name("arch.txt"));
}

#[test]
fn default_index_matches_title_id_and_prefix() {
    let mut menu = menu_with(&["alpha", "beta-1", "beta-2"]);
    assert_eq!(menu.default_index(), 0);
    menu.parse_loader_config("default beta-2\n");
    assert_eq!(menu.default_index(), 2);
    let mut prefixed = menu_with(&["alpha", "beta-1", "beta-2"]);
    prefixed.parse_loader_config("default beta*\n");
    assert_eq!(prefixed.default_index(), 1);
    let mut missing = menu_with(&["alpha"]);
    missing.parse_loader_config("default gamma\n");
    assert_eq!(missing.default_index(), 0);
}

#[test]
fn shell_words_handles_quotes_and_escapes() {
    assert_eq!(
        shell_words("'Arch Linux' --class arch {"),
        vec!["Arch Linux".to_string(), "--class".to_string(), "arch".to_string()]
    );
    assert_eq!(shell_words("a\\ b \"c d\";"), vec!["a b".to_string(), "c d".to_string()]);
    assert!(shell_words("  { ").is_empty());
}

#[test]
fn grub_menuentry_reads_title_and_id() {
    let raw = parse_grub_menuentry(" 'Ubuntu' --class ubuntu --id=ubuntu-id {").unwrap();
    assert_eq!(raw.title.as_deref(), Some("Ubuntu"));
    assert_eq!(raw.id.as_deref(), Some("ubuntu-id"));
    assert!(parse_grub_menuentry("  {").is_none());
}

#[test]
fn grub_config_reads_entries_and_settings() {
    let text = "set default=\"1\"\nset timeout=4\nmenuentry 'Ubuntu' --id=ubuntu {\n  linux /vmlinuz root=/dev/sda2 ro quiet\n  initrd /initrd.img /extra.img\n}\nmenuentry 'Rescue' {\n  linuxefi /vmlinuz-rescue\n}\n";
    let mut menu = Menu::new();
    menu.load_grub_config(text);
    assert_eq!(menu.timeout(), Some(4));
    assert_eq!(menu.entries.len(), 2);
    assert_eq!(menu.entries[0].id, "ubuntu");
    assert_eq!(menu.entries[0].title, "Ubuntu");
    assert_eq!(menu.entries[0].kernel, "/vmlinuz");
    assert_eq!(menu.entries[0].options.as_deref(), Some("root=/dev/sda2 ro quiet"));
    assert_eq!(
        menu.entries[0].initrds,
        vec!["/initrd.img".to_string(), "/extra.img".to_string()]
    );
    assert_eq!(menu.entries[1].title, "Rescue");
    assert_eq!(menu.entries[1].options.as_deref(), Some(""));
}

#[test]
fn pages_of_ten_entries() {
    assert_eq!(page_count(0), 0);
    assert_eq!(page_count(10), 1);
    assert_eq!(page_count(11), 2);
    assert_eq!(page_for(9), 0);
    assert_eq!(page_for(10), 1);
    assert_eq!(entry_on_page(3, 25, 2), 23);
    assert_eq!(entry_on_page(7, 25, 2), 24);
    assert_eq!(entry_on_page(17, 25, 0), 7);
}

#[test]
fn begin_select_honours_timeout() {
    assert!(Menu::new().begin_select().is_err());
    let mut menu = menu_with(&["a", "b"]);
    assert_eq!(
        menu.begin_select(),
        Ok(Start::Wait(SelectState { selected: 0, remaining: Some(5) }))
    );
    menu.parse_toml("timeout = 0\n");
    assert_eq!(menu.begin_select(), Ok(Start::Boot(0)));
}

#[test]
fn select_keys_move_and_wrap() {
    let menu = menu_with(&["a", "b", "c"]);
    let running = SelectState { selected: 0, remaining: Some(5) };
    let up = menu.select_key(running, MenuKey::Up);
    assert_eq!(up.state, SelectState { selected: 2, remaining: None });
    assert!(up.cancel_timer);
    assert_eq!(up.action, KeyAction::Marker { previous_row: 0, selected_row: 2 });
    let down = menu.select_key(SelectState { selected: 2, remaining: None }, MenuKey::Down);
    assert_eq!(down.state.selected, 0);
    assert!(!down.cancel_timer);
    let enter = menu.select_key(SelectState { selected: 1, remaining: None }, MenuKey::Char('\r'));
    assert_eq!(enter.action, KeyAction::Boot(1));
    let configure = menu.select_key(SelectState { selected: 1, remaining: None }, MenuKey::Char('C'));
    assert_eq!(configure.action, KeyAction::Configure);
    let other = menu.select_key(SelectState { selected: 1, remaining: None }, MenuKey::Char('x'));
    assert_eq!(other.action, KeyAction::Ignore);
}

#[test]
fn select_keys_change_pages() {
    let ids: Vec<String> = (0..25).map(|i| format!("e{i}")).collect();
    let refs: Vec<&str> = ids.iter().map(|s| s.as_str()).collect();
    let menu = menu_with(&refs);
    let right = menu.select_key(SelectState { selected: 13, remaining: None }, MenuKey::Right);
    assert_eq!(right.state.selected, 23);
    assert_eq!(right.action, KeyAction::Redraw);
    let again = menu.select_key(SelectState { selected: 23, remaining: None }, MenuKey::Right);
    assert_eq!(again.state.selected, 23);
    let left = menu.select_key(SelectState { selected: 3, remaining: None }, MenuKey::Left);
    assert_eq!(left.state.selected, 3);
    let down = menu.select_key(SelectState { selected: 9, remaining: None }, MenuKey::Down);
    assert_eq!(down.action, KeyAction::Redraw);
    assert_eq!(move_selection(12, 13), KeyAction::Marker { previous_row: 2, selected_row: 3 });
}

#[test]
fn countdown_ticks_to_boot() {
    assert_eq!(
        timer_tick(SelectState { selected: 1, remaining: Some(3) }),
        Tick::Continue(SelectState { selected: 1, remaining: Some(2) })
    );
    assert_eq!(timer_tick(SelectState { selected: 1, remaining: Some(1) }), Tick::Boot(1));
}

#[test]
fn configuration_restarts_countdown() {
    let menu = menu_with(&["a"]);
    let state = SelectState { selected: 0, remaining: None };
    assert_eq!(menu.after_configure(state, false), (state, false));
    assert_eq!(
        menu.after_configure(state, true),
        (SelectState { selected: 0, remaining: Some(5) }, true)
    );
}

#[test]
fn editor_changes_settings() {
    let mut menu = menu_with(&["a"]);
    let s = menu.begin_edit(0);
    assert_eq!(
        s,
        Settings {
            timeout: 5,
            spinner_mode: Mode::Graphical,
            logo_visible: true,
            image: None,
            selected: 0
        }
    );
    let EditOutcome::Continue(s) = edit_key(s, MenuKey::Left) else { panic!() };
    assert_eq!(s.timeout, 4);
    let EditOutcome::Continue(s) = edit_key(s, MenuKey::Down) else { panic!() };
    let EditOutcome::Continue(s) = edit_key(s, MenuKey::Right) else { panic!() };
    assert_eq!(s.spinner_mode, Mode::Off);
    let EditOutcome::Continue(s) = edit_key(s, MenuKey::Down) else { panic!() };
    let EditOutcome::Continue(s) = edit_key(s, MenuKey::Left) else { panic!() };
    assert!(!s.logo_visible);
    let EditOutcome::Continue(s) = edit_key(s, MenuKey::Down) else { panic!() };
    let EditOutcome::Continue(s) = edit_key(s, MenuKey::Right) else { panic!() };
    assert_eq!(s.image, Some(Image::Nixos));
    let EditOutcome::Continue(s) = edit_key(s, MenuKey::Down) else { panic!() };
    assert_eq!(s.selected, 0);
    assert_eq!(edit_key(s, MenuKey::Escape), EditOutcome::Cancel);
    assert_eq!(edit_key(s, MenuKey::Char('\r')), EditOutcome::Save(s));
    menu.apply_settings(&s, 0);
    assert_eq!(menu.timeout(), Some(4));
    assert_eq!(menu.spinner_mode(), Mode::Off);
    assert!(!menu.logo_visible());
    assert_eq!(menu.entries[0].image, Some(Image::Nixos));
}

#[test]
fn key_value_of_trims_and_strips_comments() {
    assert_eq!(
        key_value_of("  timeout = 5 # seconds"),
        Some(("timeout".to_string(), "5".to_string()))
    );
    assert_eq!(key_value_of("# only = comment"), None);
    assert_eq!(key_value_of("no equals"), None);
}

#[test]
fn persist_settings_rewrites_preferences_and_image() {
    let old = "# r-boot\ntimeout = 3\ndefault = \"arch\"\nspinner = \"off\"\n[[entries]]\nid = \"arch\"\nkernel = \"/vmlinuz\"\n[[entries]]\nid = \"other\"\nimage = \"linux\"\n";
    let updated = persist_settings(old, 9, Mode::Text, false, "arch", Some(Image::Nixos));
    assert_eq!(
        updated,
        "timeout = 9\nspinner = \"text\"\nlogo = false\n# r-boot\ndefault = \"arch\"\n[[entries]]\nid = \"arch\"\nimage = \"nixos\"\nkernel = \"/vmlinuz\"\n[[entries]]\nid = \"other\"\nimage = \"linux\"\n"
    );
    let cleared = persist_settings(&updated, 9, Mode::Text, false, "arch", None);
    assert!(!cleared.contains("nixos"));
    assert!(cleared.contains("image = \"linux\""));
}

#[test]
fn saved_preferences_are_read_back_early() {
    let saved = persist_settings("", 2, Mode::Off, false, "x", None);
    assert_eq!(configured_spinner_mode(&saved), Mode::Off);
    assert!(!configured_logo_visible(&saved));
    let mut menu = Menu::new();
    menu.parse_toml(&saved);
    assert_eq!(menu.timeout(), Some(2));
}

#[test]
fn early_reads_stop_at_first_entry() {
    let text = "[[entries]]\nspinner = \"off\"\nlogo = false\n";
    assert_eq!(configured_spinner_mode(text), Mode::Graphical);
    assert!(configured_logo_visible(text));
    assert!(configured_logo_visible("logo = nonsense\n"));
    assert_eq!(configured_spinner_mode("spinner = \"fancy\"\nspinner = \"text\"\n"), Mode::Text);
}
