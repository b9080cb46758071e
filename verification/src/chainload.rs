//! Handing off to another boot loader found on an attached volume: which
//! paths are looked for on which volume, and the choice between them. The
//! caller probes the volumes and starts the chosen image.

use vstd::prelude::*;
use crate::menu::MenuKey;

verus! {

/// Title of the firmware's fallback path, skipped on r-boot's own volume
/// (that is where r-boot itself is installed).
pub const FALLBACK_TITLE: &'static str = "Fallback bootloader";

/// The boot loaders looked for on every volume, as (path, title).
pub open spec fn known_spec() -> Seq<(&'static str, &'static str)> {
    seq![
        ("\\EFI\\Microsoft\\Boot\\bootmgfw.efi", "Windows Boot Manager"),
        ("\\EFI\\ubuntu\\shimx64.efi", "Ubuntu"),
        ("\\EFI\\ubuntu\\grubx64.efi", "Ubuntu (GRUB)"),
        ("\\EFI\\fedora\\shimx64.efi", "Fedora"),
        ("\\EFI\\debian\\shimx64.efi", "Debian"),
        ("\\EFI\\opensuse\\shimx64.efi", "openSUSE"),
        ("\\EFI\\systemd\\systemd-bootx64.efi", "systemd-boot"),
        ("\\EFI\\BOOT\\BOOTX64.EFI", "Fallback bootloader"),
    ]
}

/// The boot loaders looked for on every volume, as (path, title). Vendor
/// directories do not match the OS name and shim/GRUB naming varies, so
/// this is a fixed list.
pub fn known() -> (r: Vec<(&'static str, &'static str)>)
    ensures
        r@ == known_spec(),
{
    let mut r: Vec<(&'static str, &'static str)> = Vec::new();
    r.push(("\\EFI\\Microsoft\\Boot\\bootmgfw.efi", "Windows Boot Manager"));
    r.push(("\\EFI\\ubuntu\\shimx64.efi", "Ubuntu"));
    r.push(("\\EFI\\ubuntu\\grubx64.efi", "Ubuntu (GRUB)"));
    r.push(("\\EFI\\fedora\\shimx64.efi", "Fedora"));
    r.push(("\\EFI\\debian\\shimx64.efi", "Debian"));
    r.push(("\\EFI\\opensuse\\shimx64.efi", "openSUSE"));
    r.push(("\\EFI\\systemd\\systemd-bootx64.efi", "systemd-boot"));
    r.push(("\\EFI\\BOOT\\BOOTX64.EFI", "Fallback bootloader"));
    assert(r@ =~= known_spec());
    r
}

/// Whether a known path is probed on a volume: the fallback path is not
/// probed on r-boot's own volume.
pub open spec fn probed(title: &'static str, own_volume: bool) -> bool {
    !(title@ == FALLBACK_TITLE@ && own_volume)
}

/// The (path, title) pairs to probe on a volume, in order.
pub fn candidates(own_volume: bool) -> (r: Vec<(&'static str, &'static str)>)
    ensures
        r@ == known_spec().filter(|k: (&'static str, &'static str)| probed(k.1, own_volume)),
{
    let all = known();
    let mut r: Vec<(&'static str, &'static str)> = Vec::new();
    let mut i: usize = 0;
    assert(all@.take(0) =~= Seq::<(&'static str, &'static str)>::empty());
    while i < all.len()
        invariant
            i <= all@.len(),
            all@ == known_spec(),
            r@ == all@.take(i as int).filter(|k: (&'static str, &'static str)| probed(k.1, own_volume)),
        decreases all@.len() - i,
    {
        let (path, title) = all[i];
        proof {
            let t = all@.take(i + 1);
            assert(t.drop_last() =~= all@.take(i as int));
            assert(t.last() == all@[i as int]);
            reveal(Seq::filter);
        }
        if !(crate::text::text_is(title, FALLBACK_TITLE) && own_volume) {
            r.push((path, title));
        }
        i += 1;
    }
    assert(all@.take(i as int) =~= all@);
    r
}

/// What a key press does in the list of boot loaders.
#[derive(Clone, Copy, Debug, PartialEq, Eq, Structural)]
pub enum ChainKey {
    /// The selection moved; redraw.
    Move(usize),
    /// Hand off to this boot loader.
    Choose(usize),
    /// Go back to the menu.
    Cancel,
    /// Nothing changes.
    Ignore,
}

/// Handles a key in a list of `count` boot loaders: Up and Down wrap
/// around, Enter chooses, Escape cancels.
pub fn select_key(selected: usize, count: usize, key: MenuKey) -> (r: ChainKey)
    requires
        selected < count,
    ensures
        key == MenuKey::Up ==> r == ChainKey::Move(if selected == 0 {
            (count - 1) as usize
        } else {
            (selected - 1) as usize
        }),
        key == MenuKey::Down ==> r == ChainKey::Move(((selected + 1) % (count as int)) as usize),
        key == MenuKey::Char('\r') ==> r == ChainKey::Choose(selected),
        key == MenuKey::Escape ==> r == ChainKey::Cancel,
        key != MenuKey::Up && key != MenuKey::Down && key != MenuKey::Char('\r') && key
            != MenuKey::Escape ==> r == ChainKey::Ignore,
        r matches ChainKey::Move(s) ==> s < count,
{
    match key {
        MenuKey::Up => ChainKey::Move(
            if selected == 0 {
                count - 1
            } else {
                selected - 1
            },
        ),
        MenuKey::Down => ChainKey::Move((selected + 1) % count),
        MenuKey::Char(c) => if c == '\r' {
            ChainKey::Choose(selected)
        } else {
            ChainKey::Ignore
        },
        MenuKey::Escape => ChainKey::Cancel,
        _ => ChainKey::Ignore,
    }
}

} // verus!
