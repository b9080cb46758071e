//! What the `r-boot-cli` commands do to a configuration, and what they
//! print. Reading and writing the file is the caller's part.

use vstd::prelude::*;
use crate::cli::config::{Config, ConfigView, Entry, EntryView, entries_view};
use crate::text::{concat, decimal, owned, push_char, push_decimal, push_str, text_is};

verus! {

// ---------------------------------------------------------------------------
// Paths
// ---------------------------------------------------------------------------

/// `Path::join` on Unix: an absolute `p` replaces `base`; otherwise a `/`
/// separates them unless `base` is empty or already ends in one.
pub open spec fn join_path(base: Seq<char>, p: Seq<char>) -> Seq<char> {
    if p.len() > 0 && p[0] == '/' {
        p
    } else if base.len() > 0 && base.last() != '/' {
        base + seq!['/'] + p
    } else {
        base + p
    }
}

/// `s.trim_start_matches('/')`.
pub open spec fn strip_slashes(s: Seq<char>) -> Seq<char>
    decreases s.len(),
{
    if s.len() > 0 && s[0] == '/' {
        strip_slashes(s.drop_first())
    } else {
        s
    }
}

/// `Path::join`.
pub fn join(base: &str, p: &str) -> (r: String)
    ensures
        r@ == join_path(base@, p@),
{
    let pv = crate::text::chars_of(p);
    let bv = crate::text::chars_of(base);
    if pv.len() > 0 && pv[0] == '/' {
        return owned(p);
    }
    if bv.len() > 0 && bv[bv.len() - 1] != '/' {
        let mut out = owned(base);
        push_char(&mut out, '/');
        push_str(&mut out, p);
        assert(out@ =~= base@ + seq!['/'] + p@);
        out
    } else {
        concat(base, p)
    }
}

/// The configuration file under the ESP mount point.
pub fn config_path(esp: &str) -> (r: String)
    ensures
        r@ == join_path(join_path(esp@, "boot"@), "r-boot.toml"@),
{
    let boot = join(esp, "boot");
    join(boot.as_str(), "r-boot.toml")
}

/// Resolves a configuration path such as `/boot/nixos/kernel-foo`, rooted
/// at the ESP as r-boot handles paths, to its place under the mount point.
pub fn resolve_esp_path(esp: &str, entry_path: &str) -> (r: String)
    ensures
        r@ == join_path(esp@, strip_slashes(entry_path@)),
{
    let v = crate::text::chars_of(entry_path);
    let mut i: usize = 0;
    assert(v@.subrange(0, v@.len() as int) == v@);
    while i < v.len() && v[i] == '/'
        invariant
            i <= v@.len(),
            v@ == entry_path@,
            strip_slashes(entry_path@) == strip_slashes(v@.subrange(i as int, v@.len() as int)),
        decreases v@.len() - i,
    {
        assert(v@.subrange(i as int, v@.len() as int).drop_first() =~= v@.subrange(
            i + 1,
            v@.len() as int,
        ));
        i += 1;
    }
    let rest = crate::text::string_of(&v, i, v.len());
    join(esp, rest.as_str())
}

// ---------------------------------------------------------------------------
// Editing the configuration
// ---------------------------------------------------------------------------

/// The index of the first entry with id `id`, or `es.len()`.
pub open spec fn find_id(es: Seq<EntryView>, id: Seq<char>) -> int
    decreases es.len(),
{
    if es.len() == 0 {
        0
    } else if es[0].id == id {
        0
    } else {
        1 + find_id(es.drop_first(), id)
    }
}

/// The ids joined with `", "`.
pub open spec fn ids_text(es: Seq<EntryView>) -> Seq<char>
    decreases es.len(),
{
    if es.len() == 0 {
        Seq::empty()
    } else if es.len() == 1 {
        es[0].id
    } else {
        ids_text(es.drop_last()) + ", "@ + es.last().id
    }
}

/// The error for an unknown id.
pub open spec fn unknown_id(id: Seq<char>, es: Seq<EntryView>) -> Seq<char> {
    "no entry with id \""@ + id + "\" (known ids: "@ + ids_text(es) + ")"@
}

/// Appends the ids of the entries, joined with `", "`.
fn push_ids(out: &mut String, entries: &Vec<Entry>)
    ensures
        final(out)@ == old(out)@ + ids_text(entries_view(entries@)),
{
    let ghost es = entries_view(entries@);
    let ghost s0 = out@;
    let mut i: usize = 0;
    assert(es.take(0) =~= Seq::<EntryView>::empty());
    while i < entries.len()
        invariant
            i <= entries@.len(),
            es == entries_view(entries@),
            out@ == s0 + ids_text(es.take(i as int)),
        decreases entries@.len() - i,
    {
        proof {
            let t = es.take(i + 1);
            assert(t.drop_last() =~= es.take(i as int));
            assert(t.last() == entries@[i as int]@);
        }
        let ghost before = out@;
        if i > 0 {
            push_str(out, ", ");
        }
        push_str(out, entries[i].id.as_str());
        proof {
            let t = es.take(i + 1);
            if i == 0 {
                assert(t.len() == 1);
            }
            assert(out@ =~= s0 + ids_text(t));
        }
        i += 1;
    }
    assert(es.take(i as int) =~= es);
}

/// The error for an unknown id.
fn unknown_id_error(id: &str, entries: &Vec<Entry>) -> (r: String)
    ensures
        r@ == unknown_id(id@, entries_view(entries@)),
{
    let mut out = owned("no entry with id \"");
    push_str(&mut out, id);
    push_str(&mut out, "\" (known ids: ");
    push_ids(&mut out, entries);
    push_str(&mut out, ")");
    assert(out@ =~= unknown_id(id@, entries_view(entries@)));
    out
}

/// The first entry with id `id`.
fn position_of(entries: &Vec<Entry>, id: &str) -> (r: usize)
    ensures
        r == find_id(entries_view(entries@), id@),
        r <= entries@.len(),
{
    let ghost es = entries_view(entries@);
    let mut i: usize = 0;
    while i < entries.len()
        invariant
            i <= entries@.len(),
            es == entries_view(entries@),
            forall|j: int| 0 <= j < i ==> es[j].id != id@,
        decreases entries@.len() - i,
    {
        assert(es[i as int] == entries@[i as int]@);
        if text_is(entries[i].id.as_str(), id) {
            proof {
                lemma_find_id(es, id@, i as int);
            }
            return i;
        }
        i += 1;
    }
    proof {
        lemma_find_id(es, id@, i as int);
    }
    i
}

/// `find_id` is the first match, or the length.
proof fn lemma_find_id(es: Seq<EntryView>, id: Seq<char>, k: int)
    requires
        0 <= k <= es.len(),
        forall|j: int| 0 <= j < k ==> es[j].id != id,
        k < es.len() ==> es[k].id == id,
    ensures
        find_id(es, id) == k,
    decreases es.len(),
{
    if es.len() > 0 && k > 0 {
        let t = es.drop_first();
        assert forall|j: int| 0 <= j < k - 1 implies t[j].id != id by {
            assert(t[j] == es[j + 1]);
        }
        lemma_find_id(t, id, k - 1);
    }
}

/// Makes entry `id` the default; an unknown id is an error listing the
/// known ones. Returns the message to print.
pub fn set_default(config: &mut Config, id: &str) -> (r: Result<String, String>)
    ensures
        find_id(old(config)@.entries, id@) >= old(config)@.entries.len() ==> r is Err
            && r->Err_0@ == unknown_id(id@, old(config)@.entries) && final(config)@ == old(
            config,
        )@,
        find_id(old(config)@.entries, id@) < old(config)@.entries.len() ==> r is Ok
            && r->Ok_0@ == "default entry set to \""@ + id@ + "\""@ && final(config)@ == (
        ConfigView { default: Some(id@), ..old(config)@ }),
{
    if position_of(&config.entries, id) == config.entries.len() {
        return Err(unknown_id_error(id, &config.entries));
    }
    config.default = Some(owned(id));
    let mut message = owned("default entry set to \"");
    push_str(&mut message, id);
    push_str(&mut message, "\"");
    assert(message@ =~= "default entry set to \""@ + id@ + "\""@);
    Ok(message)
}

/// Sets the menu timeout. Returns the message to print.
pub fn set_timeout(config: &mut Config, seconds: u32) -> (r: String)
    ensures
        final(config)@ == (ConfigView { timeout: Some(seconds), ..old(config)@ }),
        r@ == "timeout set to "@ + decimal(seconds as nat) + "s"@,
{
    config.timeout = Some(seconds);
    let mut message = owned("timeout set to ");
    push_decimal(&mut message, seconds as u64);
    push_str(&mut message, "s");
    assert(message@ =~= "timeout set to "@ + decimal(seconds as nat) + "s"@);
    message
}

/// Sets the spinner mode. Returns the message to print.
pub fn set_spinner(config: &mut Config, mode: &str) -> (r: String)
    ensures
        final(config)@ == (ConfigView { spinner: Some(mode@), ..old(config)@ }),
        r@ == "spinner set to "@ + mode@,
{
    config.spinner = Some(owned(mode));
    concat("spinner set to ", mode)
}

/// Shows or hides the firmware logo. Returns the message to print.
pub fn set_logo(config: &mut Config, visible: bool) -> (r: String)
    ensures
        final(config)@ == (ConfigView { logo: Some(visible), ..old(config)@ }),
        r@ == "firmware logo "@ + if visible {
            "enabled"@
        } else {
            "disabled"@
        },
{
    config.logo = Some(visible);
    concat(
        "firmware logo ",
        if visible {
            "enabled"
        } else {
            "disabled"
        },
    )
}

/// Removes entry `id`, clearing the default if it named that entry, and
/// returns the removed entry; an unknown id is an error listing the known
/// ones.
pub fn remove(config: &mut Config, id: &str) -> (r: Result<Entry, String>)
    ensures
        ({
            let k = find_id(old(config)@.entries, id@);
            if k >= old(config)@.entries.len() {
                r is Err && r->Err_0@ == unknown_id(id@, old(config)@.entries) && final(config)@
                    == old(config)@
            } else {
                &&& r is Ok
                &&& r->Ok_0@ == old(config)@.entries[k]
                &&& final(config)@.entries == old(config)@.entries.remove(k)
                &&& final(config)@.default == (if old(config)@.default == Some(id@) {
                    None
                } else {
                    old(config)@.default
                })
                &&& final(config)@.timeout == old(config)@.timeout
                &&& final(config)@.spinner == old(config)@.spinner
                &&& final(config)@.logo == old(config)@.logo
            }
        }),
{
    let index = position_of(&config.entries, id);
    if index == config.entries.len() {
        return Err(unknown_id_error(id, &config.entries));
    }
    let ghost before = config.entries@;
    let entry = config.entries.remove(index);
    assert(entries_view(config.entries@) =~= entries_view(before).remove(index as int));
    let clear = match &config.default {
        Some(d) => text_is(d.as_str(), id),
        None => false,
    };
    if clear {
        config.default = None;
    }
    Ok(entry)
}

/// The files `remove --purge` deletes: the initrds, then the kernel or EFI
/// image.
pub fn purge_files(entry: &Entry) -> (r: Vec<String>)
    ensures
        crate::text::strings_view(r@) == entry@.initrd + match entry@.linux {
            Some(l) => seq![l],
            None => Seq::empty(),
        } + match entry@.efi {
            Some(e) => seq![e],
            None => Seq::empty(),
        },
{
    let mut files: Vec<String> = Vec::new();
    let mut i: usize = 0;
    assert(crate::text::strings_view(files@) =~= Seq::<Seq<char>>::empty());
    while i < entry.initrd.len()
        invariant
            i <= entry.initrd@.len(),
            crate::text::strings_view(files@) == entry@.initrd.take(i as int),
        decreases entry.initrd@.len() - i,
    {
        let ghost f = files@;
        files.push(entry.initrd[i].clone());
        assert(crate::text::strings_view(files@) =~= crate::text::strings_view(f).push(
            entry.initrd@[i as int]@,
        ));
        assert(entry@.initrd.take(i + 1) =~= entry@.initrd.take(i as int).push(
            entry@.initrd[i as int],
        ));
        i += 1;
    }
    assert(entry@.initrd.take(i as int) =~= entry@.initrd);
    let ghost a = crate::text::strings_view(files@);
    if let Some(linux) = &entry.linux {
        files.push(linux.clone());
    }
    assert(crate::text::strings_view(files@) =~= a + match entry@.linux {
        Some(l) => seq![l],
        None => Seq::<Seq<char>>::empty(),
    });
    let ghost b = crate::text::strings_view(files@);
    if let Some(efi) = &entry.efi {
        files.push(efi.clone());
    }
    assert(crate::text::strings_view(files@) =~= b + match entry@.efi {
        Some(e) => seq![e],
        None => Seq::<Seq<char>>::empty(),
    });
    files
}

// ---------------------------------------------------------------------------
// `show`
// ---------------------------------------------------------------------------

/// The `timeout:` line's value.
pub open spec fn timeout_shown(t: Option<u32>) -> Seq<char> {
    match t {
        Some(s) => if s == 0 {
            "0 (boots default immediately)"@
        } else {
            decimal(s as nat) + "s"@
        },
        None => "(unset, defaults to 5s)"@,
    }
}

/// One entry line of `show`: `*` marks the default.
pub open spec fn entry_shown(e: EntryView, default: Option<Seq<char>>) -> Seq<char> {
    "  "@ + seq![if default == Some(e.id) {
        '*'
    } else {
        ' '
    }] + " "@ + match e.title {
        Some(t) => t,
        None => e.id,
    } + " ("@ + e.id + ")\n"@
}

/// The entry lines of `show`.
pub open spec fn entries_shown(es: Seq<EntryView>, default: Option<Seq<char>>) -> Seq<char>
    decreases es.len(),
{
    if es.len() == 0 {
        Seq::empty()
    } else {
        entries_shown(es.drop_last(), default) + entry_shown(es.last(), default)
    }
}

/// The `default:` line of `show`.
pub open spec fn default_line(d: Option<Seq<char>>) -> Seq<char> {
    "default:  "@ + match d {
        Some(d) => d,
        None => "(unset, boots first entry)"@,
    } + "\n"@
}

/// The `timeout:` line of `show`.
pub open spec fn timeout_line(t: Option<u32>) -> Seq<char> {
    "timeout:  "@ + timeout_shown(t) + "\n"@
}

/// The `spinner:` line of `show`.
pub open spec fn spinner_line(s: Option<Seq<char>>) -> Seq<char> {
    "spinner:  "@ + match s {
        Some(s) => s,
        None => "graphical"@,
    } + "\n"@
}

/// The `logo:` line of `show`, and the blank line after it.
pub open spec fn logo_line(b: Option<bool>) -> Seq<char> {
    "logo:     "@ + (if match b {
        Some(b) => b,
        None => true,
    } {
        "on"@
    } else {
        "off"@
    }) + "\n"@ + "\n"@
}

/// The settings part of what `show` prints.
pub open spec fn show_head(path: Seq<char>, c: ConfigView) -> Seq<char> {
    "config:   "@ + path + "\n"@ + default_line(c.default) + timeout_line(c.timeout) + spinner_line(
        c.spinner,
    ) + logo_line(c.logo)
}

/// What `show` prints for the configuration at `path`.
pub open spec fn show_spec(path: Seq<char>, c: ConfigView) -> Seq<char> {
    show_head(path, c) + if c.entries.len() == 0 {
        "no boot entries found\n"@
    } else {
        "entries:\n"@ + entries_shown(c.entries, c.default)
    }
}

fn push_default_line(out: &mut String, d: &Option<String>)
    ensures
        final(out)@ == old(out)@ + default_line(crate::text::opt_view(*d)),
{
    let ghost s0 = out@;
    push_str(out, "default:  ");
    match d {
        Some(d) => push_str(out, d.as_str()),
        None => push_str(out, "(unset, boots first entry)"),
    }
    push_str(out, "\n");
    assert(out@ =~= s0 + default_line(crate::text::opt_view(*d)));
}

fn push_timeout_line(out: &mut String, t: Option<u32>)
    ensures
        final(out)@ == old(out)@ + timeout_line(t),
{
    let ghost s0 = out@;
    push_str(out, "timeout:  ");
    match t {
        Some(s) => {
            if s == 0 {
                push_str(out, "0 (boots default immediately)");
            } else {
                push_decimal(out, s as u64);
                push_str(out, "s");
            }
        },
        None => push_str(out, "(unset, defaults to 5s)"),
    }
    push_str(out, "\n");
    assert(out@ =~= s0 + timeout_line(t));
}

fn push_spinner_line(out: &mut String, s: &Option<String>)
    ensures
        final(out)@ == old(out)@ + spinner_line(crate::text::opt_view(*s)),
{
    let ghost s0 = out@;
    push_str(out, "spinner:  ");
    match s {
        Some(s) => push_str(out, s.as_str()),
        None => push_str(out, "graphical"),
    }
    push_str(out, "\n");
    assert(out@ =~= s0 + spinner_line(crate::text::opt_view(*s)));
}

fn push_logo_line(out: &mut String, b: Option<bool>)
    ensures
        final(out)@ == old(out)@ + logo_line(b),
{
    let ghost s0 = out@;
    push_str(out, "logo:     ");
    let logo = match b {
        Some(b) => b,
        None => true,
    };
    push_str(
        out,
        if logo {
            "on"
        } else {
            "off"
        },
    );
    push_str(out, "\n");
    push_str(out, "\n");
    assert(out@ =~= s0 + logo_line(b));
}

/// Appends the settings part of what `show` prints.
fn push_show_head(out: &mut String, path: &str, config: &Config)
    ensures
        final(out)@ == old(out)@ + show_head(path@, config@),
{
    let ghost s0 = out@;
    push_str(out, "config:   ");
    push_str(out, path);
    push_str(out, "\n");
    push_default_line(out, &config.default);
    push_timeout_line(out, config.timeout);
    push_spinner_line(out, &config.spinner);
    push_logo_line(out, config.logo);
    assert(out@ =~= s0 + show_head(path@, config@));
}

/// The text `show` prints for the configuration read from `path`.
pub fn show_text(path: &str, config: &Config) -> (r: String)
    ensures
        r@ == show_spec(path@, config@),
{
    let mut out = String::new();
    push_show_head(&mut out, path, config);
    let ghost head = out@;
    if config.entries.len() == 0 {
        push_str(&mut out, "no boot entries found\n");
        assert(out@ =~= show_spec(path@, config@));
        return out;
    }
    push_str(&mut out, "entries:\n");
    let ghost es = entries_view(config.entries@);
    let ghost s1 = out@;
    let mut i: usize = 0;
    assert(es.take(0) =~= Seq::<EntryView>::empty());
    while i < config.entries.len()
        invariant
            i <= config.entries@.len(),
            es == entries_view(config.entries@),
            out@ == s1 + entries_shown(es.take(i as int), opt_default(config)),
        decreases config.entries@.len() - i,
    {
        let e = &config.entries[i];
        proof {
            let t = es.take(i + 1);
            assert(t.drop_last() =~= es.take(i as int));
            assert(t.last() == e@);
        }
        let ghost before = out@;
        push_str(&mut out, "  ");
        let marker = match &config.default {
            Some(d) => text_is(d.as_str(), e.id.as_str()),
            None => false,
        };
        push_char(
            &mut out,
            if marker {
                '*'
            } else {
                ' '
            },
        );
        push_str(&mut out, " ");
        match &e.title {
            Some(t) => push_str(&mut out, t.as_str()),
            None => push_str(&mut out, e.id.as_str()),
        }
        push_str(&mut out, " (");
        push_str(&mut out, e.id.as_str());
        push_str(&mut out, ")\n");
        assert(out@ =~= before + entry_shown(e@, opt_default(config)));
        i += 1;
    }
    assert(es.take(i as int) =~= es);
    assert(out@ =~= show_spec(path@, config@));
    out
}

/// The configured default, as text.
pub open spec fn opt_default(c: &Config) -> Option<Seq<char>> {
    c@.default
}

} // verus!
