//! The `r-boot.toml` text the configuration builder writes: a header, the
//! default and timeout, and one `[[entries]]` table per generation.

use vstd::prelude::*;
use crate::cli::commands::{join, join_path};
use crate::cli::config::{
    ConfigView, EntryView, entries_text, header, lemma_render_then_parse, opt_quoted, parse_config,
    plain, quoted, render_config, render_entry, entry_fields, initrd_lines, safe_config,
    safe_entry, settings_text, safe_value,
};
use crate::text::{chars_of, decimal, has_prefix, owned, push_char, push_decimal, push_str, string_of};

verus! {

/// The id of the entry for the current system configuration.
pub const DEFAULT_ID: &'static str = "nixos-default";

/// `path` without a leading `/nix/store/`, with `/` turned into `-`.
pub open spec fn clean_name_spec(path: Seq<char>) -> Seq<char> {
    let p = if has_prefix(path, "/nix/store/"@) {
        path.subrange(11, path.len() as int)
    } else {
        path
    };
    p.map_values(|c: char| if c == '/' {
        '-'
    } else {
        c
    })
}

/// Converts a Nix store path such as `/nix/store/<hash>-<name>/file` to
/// `<hash>-<name>-file`, the name its copy on the ESP gets.
pub fn clean_name(path: &str) -> (r: String)
    ensures
        r@ == clean_name_spec(path@),
{
    let v = chars_of(path);
    proof {
        reveal_strlit("/nix/store/");
    }
    assert(v@.subrange(0, v@.len() as int) == v@);
    let start: usize = if crate::text::range_starts_with(&v, 0, v.len(), "/nix/store/") {
        11
    } else {
        0
    };
    let ghost p = v@.subrange(start as int, v@.len() as int);
    let mut out = String::new();
    let mut i = start;
    while i < v.len()
        invariant
            start <= i <= v@.len(),
            p == v@.subrange(start as int, v@.len() as int),
            out@ == p.take(i - start).map_values(|c: char| if c == '/' {
                '-'
            } else {
                c
            }),
        decreases v@.len() - i,
    {
        let c = v[i];
        push_char(
            &mut out,
            if c == '/' {
                '-'
            } else {
                c
            },
        );
        assert(p.take(i - start + 1) =~= p.take(i - start).push(c));
        assert(out@ =~= p.take(i - start + 1).map_values(|c: char| if c == '/' {
            '-'
        } else {
            c
        }));
        i += 1;
    }
    assert(p.take(i - start) =~= p);
    out
}

/// Where a copied file is found from r-boot's point of view.
pub fn kernels_dir_path(name: &str) -> (r: String)
    ensures
        r@ == "/boot/nixos/"@ + name@,
{
    crate::text::concat("/boot/nixos/", name)
}

/// The kernel command line of a generation: its `init`, then its extra
/// parameters.
pub fn boot_options(system: &str, extra_params: &str) -> (r: String)
    ensures
        r@ == "init="@ + join_path(system@, "init"@) + " "@ + extra_params@,
{
    let init = join(system, "init");
    let mut out = owned("init=");
    push_str(&mut out, init.as_str());
    push_str(&mut out, " ");
    push_str(&mut out, extra_params);
    assert(out@ =~= "init="@ + join_path(system@, "init"@) + " "@ + extra_params@);
    out
}

/// The title of a generation's entry.
pub open spec fn entry_title(label: Seq<char>, id: Seq<char>) -> Seq<char> {
    "NixOS ("@ + label + ", "@ + id + ")"@
}

/// The entry a generation's table describes.
pub open spec fn generated_entry(
    id: Seq<char>,
    label: Seq<char>,
    kernel: Seq<char>,
    initrd: Seq<char>,
    options: Seq<char>,
) -> EntryView {
    EntryView {
        id,
        title: Some(entry_title(label, id)),
        kind: Some("linux"@),
        linux: Some(kernel),
        efi: None,
        initrd: seq![initrd],
        options: Some(options),
    }
}

/// The `[[entries]]` table of one generation.
pub open spec fn entry_text_spec(
    id: Seq<char>,
    label: Seq<char>,
    kernel: Seq<char>,
    initrd: Seq<char>,
    options: Seq<char>,
) -> Seq<char> {
    "\n[[entries]]\nid = \""@ + id + "\"\ntitle = \"NixOS ("@ + label + ", "@ + id
        + ")\"\nkind = \"linux\"\nlinux = \""@ + kernel + "\"\ninitrd = \""@ + initrd
        + "\"\noptions = \""@ + options + "\"\n"@
}

/// The `[[entries]]` table of one generation.
pub fn entry_text(id: &str, label: &str, kernel: &str, initrd: &str, options: &str) -> (r: String)
    ensures
        r@ == entry_text_spec(id@, label@, kernel@, initrd@, options@),
{
    let mut out = owned("\n[[entries]]\nid = \"");
    push_str(&mut out, id);
    push_str(&mut out, "\"\ntitle = \"NixOS (");
    push_str(&mut out, label);
    push_str(&mut out, ", ");
    push_str(&mut out, id);
    push_str(&mut out, ")\"\nkind = \"linux\"\nlinux = \"");
    push_str(&mut out, kernel);
    push_str(&mut out, "\"\ninitrd = \"");
    push_str(&mut out, initrd);
    push_str(&mut out, "\"\noptions = \"");
    push_str(&mut out, options);
    push_str(&mut out, "\"\n");
    assert(out@ =~= entry_text_spec(id@, label@, kernel@, initrd@, options@));
    out
}

/// The start of the file: the header, the default entry, and the timeout.
pub open spec fn menu_header_spec(timeout: u32) -> Seq<char> {
    "# Generated file, all changes will be lost on nixos-rebuild!\n"@
        + "default = \"nixos-default\"\n"@ + "timeout = "@ + decimal(timeout as nat) + "\n"@
}

/// The start of the file: the header, the default entry, and the timeout.
pub fn menu_header(timeout: u32) -> (r: String)
    ensures
        r@ == menu_header_spec(timeout),
{
    let mut out = owned("# Generated file, all changes will be lost on nixos-rebuild!\n");
    push_str(&mut out, "default = \"nixos-default\"\n");
    push_str(&mut out, "timeout = ");
    push_decimal(&mut out, timeout as u64);
    push_str(&mut out, "\n");
    assert(out@ =~= menu_header_spec(timeout));
    out
}

/// `s.trim_end()`, as a new string.
pub fn trim_end_owned(s: &str) -> (r: String)
    ensures
        r@ == crate::text::trim_end(s@),
{
    let v = chars_of(s);
    let mut hi = v.len();
    assert(v@.subrange(0, v@.len() as int) == v@);
    while hi > 0 && crate::text::is_white_char(v[hi - 1])
        invariant
            hi <= v@.len(),
            v@ == s@,
            crate::text::trim_end(s@) == crate::text::trim_end(v@.subrange(0, hi as int)),
        decreases hi,
    {
        assert(v@.subrange(0, hi as int).drop_last() =~= v@.subrange(0, hi - 1));
        hi -= 1;
    }
    string_of(&v, 0, hi)
}

// ---------------------------------------------------------------------------
// What the boot menu reads back
// ---------------------------------------------------------------------------

/// The fields of one generation's table.
pub struct GenerationView {
    pub id: Seq<char>,
    pub label: Seq<char>,
    pub kernel: Seq<char>,
    pub initrd: Seq<char>,
    pub options: Seq<char>,
}

/// The tables of several generations, in order.
pub open spec fn tables_text(gs: Seq<GenerationView>) -> Seq<char>
    decreases gs.len(),
{
    if gs.len() == 0 {
        Seq::empty()
    } else {
        tables_text(gs.drop_last()) + entry_text_spec(
            gs.last().id,
            gs.last().label,
            gs.last().kernel,
            gs.last().initrd,
            gs.last().options,
        )
    }
}

/// The entries that several generations' tables describe.
pub open spec fn generated_entries(gs: Seq<GenerationView>) -> Seq<EntryView> {
    gs.map_values(
        |g: GenerationView| generated_entry(g.id, g.label, g.kernel, g.initrd, g.options),
    )
}

/// A generation whose texts hold no line break or `#`.
pub open spec fn safe_generation(g: GenerationView) -> bool {
    &&& safe_value(g.id)
    &&& safe_value(g.label)
    &&& safe_value(g.kernel)
    &&& safe_value(g.initrd)
    &&& safe_value(g.options)
}

/// One generation's table is the rendering of the entry it describes.
proof fn lemma_table_is_rendering(g: GenerationView)
    ensures
        entry_text_spec(g.id, g.label, g.kernel, g.initrd, g.options) == render_entry(
            generated_entry(g.id, g.label, g.kernel, g.initrd, g.options),
        ),
{
    reveal_strlit("\n[[entries]]\nid = \"");
    reveal_strlit("\"\ntitle = \"NixOS (");
    reveal_strlit(", ");
    reveal_strlit(")\"\nkind = \"linux\"\nlinux = \"");
    reveal_strlit("\"\ninitrd = \"");
    reveal_strlit("\"\noptions = \"");
    reveal_strlit("\"\n");
    reveal_strlit("\n[[entries]]\n");
    reveal_strlit("id");
    reveal_strlit("title");
    reveal_strlit("kind");
    reveal_strlit("linux");
    reveal_strlit("initrd");
    reveal_strlit("options");
    reveal_strlit("NixOS (");
    reveal_strlit(")");
    let e = generated_entry(g.id, g.label, g.kernel, g.initrd, g.options);
    let one = seq![g.initrd];
    assert(one.drop_last() =~= Seq::<Seq<char>>::empty());
    assert(one.last() == g.initrd);
    assert(initrd_lines(Seq::<Seq<char>>::empty()) == Seq::<char>::empty());
    assert(initrd_lines(one) =~= quoted("initrd"@, g.initrd));
    assert(entry_text_spec(g.id, g.label, g.kernel, g.initrd, g.options) =~= render_entry(e));
}

/// The tables of several generations are the rendering of their entries.
proof fn lemma_tables_are_rendering(gs: Seq<GenerationView>)
    ensures
        tables_text(gs) == entries_text(generated_entries(gs)),
    decreases gs.len(),
{
    if gs.len() > 0 {
        lemma_tables_are_rendering(gs.drop_last());
        lemma_table_is_rendering(gs.last());
        assert(generated_entries(gs).drop_last() =~= generated_entries(gs.drop_last()));
    }
}

/// The configuration the builder writes for a timeout and a list of
/// generations.
pub open spec fn generated_config(timeout: u32, gs: Seq<GenerationView>) -> ConfigView {
    ConfigView {
        default: Some("nixos-default"@),
        timeout: Some(timeout),
        spinner: None,
        logo: None,
        entries: generated_entries(gs),
    }
}

/// The file the configuration builder writes reads back, with the parser
/// that `r-boot-cli` and the boot menu share, as the default
/// `nixos-default`, the timeout, and one Linux entry per generation with
/// its id, title, kernel, initrd and options.
pub proof fn lemma_generated_menu_reads_back(timeout: u32, gs: Seq<GenerationView>)
    requires
        forall|i: int| 0 <= i < gs.len() ==> safe_generation(#[trigger] gs[i]),
    ensures
        parse_config(menu_header_spec(timeout) + tables_text(gs)) == generated_config(timeout, gs),
{
    let c = generated_config(timeout, gs);
    reveal_strlit("# Generated file, all changes will be lost on nixos-rebuild!\n");
    reveal_strlit("default = \"nixos-default\"\n");
    reveal_strlit("timeout = ");
    reveal_strlit("\n");
    reveal_strlit("default");
    reveal_strlit("nixos-default");
    reveal_strlit("timeout");
    reveal_strlit("linux");
    assert(settings_text(c) =~= "default = \"nixos-default\"\n"@ + "timeout = "@ + decimal(
        timeout as nat,
    ) + "\n"@);
    lemma_tables_are_rendering(gs);
    assert(menu_header_spec(timeout) + tables_text(gs) =~= render_config(c));
    assert forall|i: int| 0 <= i < c.entries.len() implies safe_entry(#[trigger] c.entries[i]) by {
        let g = gs[i];
        assert(safe_generation(g));
        let e = c.entries[i];
        assert(e == generated_entry(g.id, g.label, g.kernel, g.initrd, g.options));
        assert(safe_value("linux"@)) by {
            assert(!crate::text::has_char("linux"@, '\n'));
            assert(!crate::text::has_char("linux"@, '#'));
        }
        assert(safe_value(entry_title(g.label, g.id))) by {
            reveal_strlit("NixOS (");
            reveal_strlit(", ");
            reveal_strlit(")");
            let t = entry_title(g.label, g.id);
            assert forall|j: int| 0 <= j < t.len() implies t[j] != '\n' && t[j] != '#' by {
                let a = "NixOS ("@.len() as int;
                let b = a + g.label.len();
                let d = b + 2;
                let f = d + g.id.len();
                if a <= j < b {
                    assert(t[j] == g.label[j - a]);
                    if g.label[j - a] == '\n' || g.label[j - a] == '#' {
                        assert(crate::text::has_char(g.label, t[j]));
                    }
                } else if d <= j < f {
                    assert(t[j] == g.id[j - d]);
                    if g.id[j - d] == '\n' || g.id[j - d] == '#' {
                        assert(crate::text::has_char(g.id, t[j]));
                    }
                }
            }
        }
        assert forall|k: int| 0 <= k < e.initrd.len() implies safe_value(#[trigger] e.initrd[k]) by {
            assert(e.initrd[k] == g.initrd);
        }
    }
    assert(safe_value("nixos-default"@)) by {
        assert(!crate::text::has_char("nixos-default"@, '\n'));
        assert(!crate::text::has_char("nixos-default"@, '#'));
    }
    lemma_render_then_parse(c);
}

} // verus!
