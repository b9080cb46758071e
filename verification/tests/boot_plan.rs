use r_boot::boot::{
    entry_plan, fallback_step, BootPlan, FallbackAction, FallbackStage, INITRAMFS_PATH,
    KERNEL_ELF_PATH, VMLINUZ_PATH,
};
use r_boot::elf::{loaded_segment, require_segments, Segment};
use r_boot::limine::{response_words, Response};
use r_boot::menu::Menu;

fn menu() -> Menu {
    let mut menu = Menu::new();
    menu.parse_toml(
        "[[entries]]\nid = \"arch\"\nlinux = \"/vmlinuz\"\ninitrd = \"/ucode.img\"\ninitrd = \"/initrd.img\"\noptions = \"quiet\"\n\
         [[entries]]\nkind = \"limine\"\nkernel = \"/boot/kernel.elf\"\n\
         [[entries]]\nefi = \"/EFI/shell.efi\"\n",
    );
    menu
}

#[test]
fn entry_kind_picks_the_protocol() {
    let menu = menu();
    assert_eq!(menu.entry_count(), 3);
    match menu.boot_plan(0) {
        BootPlan::Linux { kernel, initrds, options } => {
            assert_eq!(kernel, "/vmlinuz");
            assert_eq!(initrds, vec!["/ucode.img".to_string(), "/initrd.img".to_string()]);
            assert_eq!(options.as_deref(), Some("quiet"));
        }
        other => panic!("unexpected plan {other:?}"),
    }
    assert!(matches!(menu.boot_plan(1), BootPlan::Limine { kernel } if kernel == "/boot/kernel.elf"));
    assert!(matches!(entry_plan(menu.entry_at(2)), BootPlan::Efi { image } if image == "/EFI/shell.efi"));
}

#[test]
fn fallback_prefers_linux_then_limine() {
    let (stage, action) = fallback_step(FallbackStage::Start, false);
    assert_eq!(action, FallbackAction::Read(VMLINUZ_PATH));
    assert_eq!(VMLINUZ_PATH, "\\boot\\vmlinuz");
    let (linux, read_initramfs) = fallback_step(stage, true);
    assert_eq!(read_initramfs, FallbackAction::Read(INITRAMFS_PATH));
    assert_eq!(fallback_step(linux, true), (FallbackStage::Done, FallbackAction::BootLinux));
    assert_eq!(
        fallback_step(linux, false),
        (FallbackStage::Done, FallbackAction::Fail("cannot read \\boot\\initramfs"))
    );
    let (limine, read_elf) = fallback_step(stage, false);
    assert_eq!(read_elf, FallbackAction::Read(KERNEL_ELF_PATH));
    assert_eq!(fallback_step(limine, true), (FallbackStage::Done, FallbackAction::BootLimine));
    assert_eq!(
        fallback_step(limine, false),
        (FallbackStage::Done, FallbackAction::Fail("cannot read \\boot\\kernel.elf"))
    );
}

#[test]
fn limine_response_layouts() {
    assert_eq!(response_words(Response::BaseRevision, 1, 2), None);
    assert_eq!(response_words(Response::BootloaderInfo, 1, 2), Some(vec![0, 1, 2]));
    assert_eq!(
        response_words(Response::FirmwareType { firmware_type: 2 }, 1, 2),
        Some(vec![0, 2])
    );
    assert_eq!(response_words(Response::Hhdm { offset: 9 }, 1, 2), Some(vec![0, 9]));
    assert_eq!(
        response_words(Response::ExecutableAddress { physical_base: 7, virtual_base: 8 }, 1, 2),
        Some(vec![0, 7, 8])
    );
}

#[test]
fn loaded_segments() {
    let segment = Segment {
        virtual_address: 0xffff_ffff_8000_0000,
        file_offset: 4096,
        file_size: 100,
        memory_size: 8192,
        flags: 5,
    };
    let loaded = loaded_segment(&segment, 0x20_0000);
    assert_eq!(loaded.physical_address, 0x20_0000);
    assert_eq!(loaded.length, 8192);
    assert_eq!(loaded.file_size, 100);
    assert_eq!(require_segments(&[]), Err("ELF has no PT_LOAD segments"));
    assert_eq!(require_segments(&[loaded]), Ok(()));
}
