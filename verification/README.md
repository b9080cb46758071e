# r-boot

A UEFI boot loader for x86_64 (Limine protocol for higher-half ELF kernels,
Linux EFI handover for `vmlinuz`), with two host tools: `r-boot-cli`, which
edits the menu configuration `boot/r-boot.toml`, and `r-boot-conf-builder`,
which installs the loader on a NixOS EFI system partition and writes that
configuration from the system generations.

## Layout

- `src/` is the library, verified with Verus. Every public function states
  its result in its `ensures` over spec functions; properties that span
  several functions are public proof functions (`lemma_*`).
  - `text`, `bytes`: text and byte helpers and their models.
  - `cli`, `builder`: the logic of the two host tools.
  - `elf`, `paging`, `protocol`, `limine`, `linux`, `boot`: what the loader
    boots and how: ELF checks, page tables, the Limine request answers as a
    plan of writes, the Linux `boot_params` fields, the entry plan and the
    fixed-layout fallback.
  - `menu`, `spinner`, `splash`, `bgrt`, `secureboot`, `console`,
    `chainload`: the boot menu and its tools, as parsers, planners and state
    machines.
- `app/` is the unverified shell around it: the tools' `main`, file
  system and process I/O, and the firmware calls of the loader.
- `tests/` runs the library on concrete inputs.

Calls into outside crates (`uefi`, `cms`, `der`, `sha2`, `x509-parser`) stand
behind small `#[verifier::external_body]` wrappers whose contracts say what
the called function returns.
