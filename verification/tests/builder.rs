use r_boot::builder::args::Args;
use r_boot::builder::efi::{advance, begin, captured, file_name_of, Action, Stage};
use r_boot::builder::generations::{generation_number, older_generations, unreferenced};
use r_boot::builder::menu::{
    boot_options, clean_name, entry_text, kernels_dir_path, menu_header, trim_end_owned,
};
use r_boot::cli::config::Config;

fn args(v: &[&str]) -> Vec<String> {
    v.iter().map(|s| s.to_string()).collect()
}

#[test]
fn builder_arguments_need_all_required_options() {
    let a = Args::parse(args(&["-t", "5", "-c", "/run/current-system", "-d", "/boot", "-b", "/x.efi", "-g", "20", "-e"]))
        .unwrap();
    assert_eq!(a.timeout, 5);
    assert_eq!(a.default, "/run/current-system");
    assert_eq!(a.esp, "/boot");
    assert_eq!(a.binary, "/x.efi");
    assert_eq!(a.num_generations, 20);
    assert!(a.touch_efi_vars);
    assert_eq!(Args::parse(args(&[])).unwrap_err(), "-t <timeout> is required");
    assert_eq!(
        Args::parse(args(&["-t", "1"])).unwrap_err(),
        "-c <path-to-default-configuration> is required"
    );
    assert_eq!(
        Args::parse(args(&["-t", "1", "-c", "c"])).unwrap_err(),
        "-d <esp-mount-point> is required"
    );
    assert_eq!(
        Args::parse(args(&["-t", "1", "-c", "c", "-d", "d"])).unwrap_err(),
        "-b <r-boot-efi> is required"
    );
}

#[test]
fn builder_argument_errors() {
    assert_eq!(Args::parse(args(&["-t"])).unwrap_err(), "-t: missing argument");
    assert_eq!(Args::parse(args(&["-t", "-1"])).unwrap_err(), "invalid digit found in string");
    assert_eq!(Args::parse(args(&["-x"])).unwrap_err(), "unrecognized argument: -x");
    let a = Args::parse(args(&["-t", "0", "-c", "c", "-d", "d", "-b", "b"])).unwrap();
    assert_eq!(a.num_generations, 0);
    assert!(!a.touch_efi_vars);
}

#[test]
fn store_paths_become_flat_names() {
    assert_eq!(clean_name("/nix/store/abc-linux-6.6/bzImage"), "abc-linux-6.6-bzImage");
    assert_eq!(clean_name("/etc/kernel"), "-etc-kernel");
    assert_eq!(kernels_dir_path("abc"), "/boot/nixos/abc");
    assert_eq!(trim_end_owned("24.11 \n"), "24.11");
}

#[test]
fn generated_file_reads_back_as_its_entries() {
    let options = boot_options("/nix/store/sys", "quiet splash");
    assert_eq!(options, "init=/nix/store/sys/init quiet splash");
    let mut text = menu_header(7);
    text.push_str(&entry_text("nixos-default", "24.11", "/boot/nixos/k", "/boot/nixos/i", &options));
    text.push_str(&entry_text("nixos-generation-3", "24.05", "/boot/nixos/k3", "/boot/nixos/i3", "init=/x "));
    assert!(text.starts_with(
        "# Generated file, all changes will be lost on nixos-rebuild!\ndefault = \"nixos-default\"\ntimeout = 7\n\n[[entries]]\nid = \"nixos-default\"\ntitle = \"NixOS (24.11, nixos-default)\"\nkind = \"linux\"\n"
    ));
    let config = Config::parse(&text);
    assert_eq!(config.default.as_deref(), Some("nixos-default"));
    assert_eq!(config.timeout, Some(7));
    assert_eq!(config.entries.len(), 2);
    assert_eq!(config.entries[1].id, "nixos-generation-3");
    assert_eq!(config.entries[1].title.as_deref(), Some("NixOS (24.05, nixos-generation-3)"));
    assert_eq!(config.entries[0].initrd, vec!["/boot/nixos/i".to_string()]);
    assert_eq!(config.entries[0].options.as_deref(), Some("init=/nix/store/sys/init quiet splash"));
    assert_eq!(config.render(), text);
}

#[test]
fn generations_come_newest_first_and_are_capped() {
    assert_eq!(generation_number("system-42-link"), Some(42));
    assert_eq!(generation_number("system-link"), None);
    assert_eq!(generation_number("system-x-link"), None);
    assert_eq!(generation_number("other-1-link"), None);
    let gens = vec![
        (3u64, "/p/system-3-link".to_string()),
        (10, "/p/system-10-link".to_string()),
        (7, "/p/system-7-link".to_string()),
        (10, "/p/system-010-link".to_string()),
    ];
    let kept = older_generations(&gens, 2);
    assert_eq!(
        kept,
        vec![(10, "/p/system-010-link".to_string()), (7, "/p/system-7-link".to_string())]
    );
    assert_eq!(older_generations(&gens, 10).len(), 3);
    assert!(older_generations(&gens, 0).is_empty());
    assert!(older_generations(&Vec::new(), 5).is_empty());
}

#[test]
fn current_generation_takes_no_limit_slot() {
    let gens = vec![(4u64, "/p/system-4-link".to_string()), (5, "/p/system-5-link".to_string())];
    assert_eq!(older_generations(&gens, 1), vec![(4, "/p/system-4-link".to_string())]);
    assert!(older_generations(&vec![(5u64, "/p/system-5-link".to_string())], 3).is_empty());
}

#[test]
fn unreferenced_files_are_the_ones_not_copied() {
    let files = vec!["/b/nixos/a".to_string(), "/b/nixos/b".to_string(), "/b/nixos/c".to_string()];
    let copied = vec!["/b/nixos/c".to_string(), "/b/nixos/a".to_string()];
    assert_eq!(unreferenced(&files, &copied), vec!["/b/nixos/b".to_string()]);
}

#[test]
fn boot_entry_registration_steps() {
    let (stage, action) = begin();
    assert!(matches!(action, Action::Run { ref program, ref args } if program == "efibootmgr" && args.is_empty()));
    let (stage, action) = advance(stage, "/boot", Some("Boot0001* r-boot".to_string()));
    assert!(matches!(action, Action::Stop));
    let (stage, action) = advance(stage, "/boot", None);
    assert!(matches!(action, Action::Stop));
    let (stage, action) = advance(Stage::ListEntries, "/boot", Some("Boot0000* UEFI".to_string()));
    match &action {
        Action::Run { program, args } => {
            assert_eq!(program, "findmnt");
            assert_eq!(args, &vec!["-n", "-o", "SOURCE", "--target", "/boot"]);
        }
        other => panic!("unexpected {other:?}"),
    }
    let (stage, action) = advance(stage, "/boot", Some("/dev/nvme0n1p1".to_string()));
    match &action {
        Action::Run { program, args } => {
            assert_eq!(program, "lsblk");
            assert_eq!(args, &vec!["-no", "pkname", "/dev/nvme0n1p1"]);
        }
        other => panic!("unexpected {other:?}"),
    }
    let (stage, action) = advance(stage, "/boot", Some("nvme0n1\nother".to_string()));
    match &action {
        Action::Read(path) => assert_eq!(path, "/sys/class/block/nvme0n1p1/partition"),
        other => panic!("unexpected {other:?}"),
    }
    let (stage, action) = advance(stage, "/boot", Some(" 1\n".to_string()));
    match &action {
        Action::Run { program, args } => {
            assert_eq!(program, "efibootmgr");
            assert_eq!(
                args,
                &vec![
                    "--create", "--disk", "/dev/nvme0n1", "--part", "1", "--label", "r-boot",
                    "--loader", "\\EFI\\BOOT\\BOOTX64.EFI"
                ]
            );
        }
        other => panic!("unexpected {other:?}"),
    }
    let (_, action) = advance(stage, "/boot", Some(String::new()));
    assert!(matches!(action, Action::Stop));
}

#[test]
fn registration_stops_on_unusable_answers() {
    let (_, a) = advance(Stage::FindSource, "/boot", Some("/".to_string()));
    assert!(matches!(a, Action::Stop));
    let (_, a) = advance(
        Stage::FindDisk { source: "/dev/sda1".to_string(), part_name: "sda1".to_string() },
        "/boot",
        Some(String::new()),
    );
    assert!(matches!(a, Action::Stop));
    let (_, a) = advance(
        Stage::ReadPartition { disk: "sda".to_string(), part_name: "sda1".to_string() },
        "/boot",
        Some("  \n".to_string()),
    );
    assert!(matches!(a, Action::Stop));
}

#[test]
fn file_names_follow_path_rules() {
    assert_eq!(file_name_of("/dev/sda1").as_deref(), Some("sda1"));
    assert_eq!(file_name_of("/dev/sda1/").as_deref(), Some("sda1"));
    assert_eq!(file_name_of("/dev/.").as_deref(), Some("dev"));
    assert_eq!(file_name_of("/dev/.."), None);
    assert_eq!(file_name_of("/"), None);
    assert_eq!(file_name_of("."), None);
    assert_eq!(file_name_of(""), None);
    assert_eq!(captured("  out \n"), "out");
}
