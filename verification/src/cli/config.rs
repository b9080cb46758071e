//! Parses and renders `r-boot.toml`, the menu configuration the boot menu
//! reads and the configuration builder regenerates. Edits made through the
//! command-line tool survive until the next rebuild.
//!
//! The format is a small TOML subset: `key = "value"` lines, an integer
//! `timeout`, a boolean `logo`, and repeated `[[entries]]` tables.

use vstd::prelude::*;
use crate::text::{
    bool_text, chars_of, clean_line, clean_range, decimal, find_char, find_in, has_char, is_white,
    lemma_find_char, lemma_find_char_unique, lemma_has_char, lemma_lines_cons, lemma_parse_bool_text,
    lemma_parse_decimal_u32, lemma_trim_end_suffix, lemma_trim_start_prefix, lines, next_line,
    ok_of, parse_bool, parse_bool_range, parse_u32, parse_u32_range, push_decimal, push_str,
    range_eq, split_once, string_of, strip_cr, trim, trim_end, trim_range, trim_start, unquote,
    unquote_range, before_char, is_digit, opt_view, strings_view, key_ok,
};

verus! {

// ---------------------------------------------------------------------------
// Data and its model
// ---------------------------------------------------------------------------

/// One `[[entries]]` table.
#[derive(Debug, Clone)]
pub struct Entry {
    pub id: String,
    pub title: Option<String>,
    pub kind: Option<String>,
    pub linux: Option<String>,
    pub efi: Option<String>,
    pub initrd: Vec<String>,
    pub options: Option<String>,
}

/// The whole configuration file.
#[derive(Debug, Clone)]
pub struct Config {
    pub default: Option<String>,
    pub timeout: Option<u32>,
    pub spinner: Option<String>,
    pub logo: Option<bool>,
    pub entries: Vec<Entry>,
}

/// An entry as text.
pub struct EntryView {
    pub id: Seq<char>,
    pub title: Option<Seq<char>>,
    pub kind: Option<Seq<char>>,
    pub linux: Option<Seq<char>>,
    pub efi: Option<Seq<char>>,
    pub initrd: Seq<Seq<char>>,
    pub options: Option<Seq<char>>,
}

/// A configuration as text.
pub struct ConfigView {
    pub default: Option<Seq<char>>,
    pub timeout: Option<u32>,
    pub spinner: Option<Seq<char>>,
    pub logo: Option<bool>,
    pub entries: Seq<EntryView>,
}

impl View for Entry {
    type V = EntryView;

    open spec fn view(&self) -> EntryView {
        EntryView {
            id: self.id@,
            title: opt_view(self.title),
            kind: opt_view(self.kind),
            linux: opt_view(self.linux),
            efi: opt_view(self.efi),
            initrd: strings_view(self.initrd@),
            options: opt_view(self.options),
        }
    }
}

/// The texts of a list of entries.
pub open spec fn entries_view(v: Seq<Entry>) -> Seq<EntryView> {
    v.map_values(|e: Entry| e@)
}

impl View for Config {
    type V = ConfigView;

    open spec fn view(&self) -> ConfigView {
        ConfigView {
            default: opt_view(self.default),
            timeout: self.timeout,
            spinner: opt_view(self.spinner),
            logo: self.logo,
            entries: entries_view(self.entries@),
        }
    }
}

/// An entry with no fields set (`Entry::default()`).
pub open spec fn empty_entry() -> EntryView {
    EntryView {
        id: Seq::empty(),
        title: None,
        kind: None,
        linux: None,
        efi: None,
        initrd: Seq::empty(),
        options: None,
    }
}

/// A configuration with nothing set (`Config::default()`).
pub open spec fn empty_config() -> ConfigView {
    ConfigView { default: None, timeout: None, spinner: None, logo: None, entries: Seq::empty() }
}

// ---------------------------------------------------------------------------
// Parsing, as a fold over the lines
// ---------------------------------------------------------------------------

/// The parser's state between lines: the settings so far, and the entry
/// being read, if an `[[entries]]` header was seen.
pub struct ParseState {
    pub config: ConfigView,
    pub entry: Option<EntryView>,
}

/// Sets one key of an entry; unknown keys are ignored and `initrd`
/// accumulates.
pub open spec fn entry_set(e: EntryView, key: Seq<char>, value: Seq<char>) -> EntryView {
    if key == "id"@ {
        EntryView { id: value, ..e }
    } else if key == "title"@ {
        EntryView { title: Some(value), ..e }
    } else if key == "kind"@ {
        EntryView { kind: Some(value), ..e }
    } else if key == "linux"@ {
        EntryView { linux: Some(value), ..e }
    } else if key == "efi"@ {
        EntryView { efi: Some(value), ..e }
    } else if key == "initrd"@ {
        EntryView { initrd: e.initrd.push(value), ..e }
    } else if key == "options"@ {
        EntryView { options: Some(value), ..e }
    } else {
        e
    }
}

/// Sets one top-level key; a `timeout` or `logo` that does not parse
/// clears the setting.
pub open spec fn config_set(c: ConfigView, key: Seq<char>, value: Seq<char>) -> ConfigView {
    if key == "default"@ {
        ConfigView { default: Some(value), ..c }
    } else if key == "timeout"@ {
        ConfigView { timeout: ok_of(parse_u32(value)), ..c }
    } else if key == "spinner"@ {
        ConfigView { spinner: Some(value), ..c }
    } else if key == "logo"@ {
        ConfigView { logo: parse_bool(value), ..c }
    } else {
        c
    }
}

/// The settings with the pending entry, if any, appended.
pub open spec fn flush(st: ParseState) -> ConfigView {
    match st.entry {
        Some(e) => ConfigView { entries: st.config.entries.push(e), ..st.config },
        None => st.config,
    }
}

/// What one line does to the parser's state.
pub open spec fn parse_step(st: ParseState, line: Seq<char>) -> ParseState {
    let l = clean_line(line);
    if l.len() == 0 {
        st
    } else if l == "[[entries]]"@ {
        ParseState { config: flush(st), entry: Some(empty_entry()) }
    } else {
        match split_once(l, '=') {
            None => st,
            Some((k, v)) => {
                let key = trim(k);
                let value = unquote(trim(v));
                match st.entry {
                    Some(e) => ParseState { config: st.config, entry: Some(entry_set(e, key, value)) },
                    None => ParseState { config: config_set(st.config, key, value), entry: None },
                }
            },
        }
    }
}

/// The state after a run of lines.
pub open spec fn parse_lines(st: ParseState, ls: Seq<Seq<char>>) -> ParseState
    decreases ls.len(),
{
    if ls.len() == 0 {
        st
    } else {
        parse_lines(parse_step(st, ls[0]), ls.drop_first())
    }
}

/// The configuration a text describes.
pub open spec fn parse_config(s: Seq<char>) -> ConfigView {
    flush(parse_lines(ParseState { config: empty_config(), entry: None }, lines(s)))
}

// ---------------------------------------------------------------------------
// Rendering
// ---------------------------------------------------------------------------

/// The first line of every rendered file.
pub open spec fn header() -> Seq<char> {
    "# Generated file, all changes will be lost on nixos-rebuild!\n"@
}

/// `key = "value"` and a newline.
pub open spec fn quoted(key: Seq<char>, value: Seq<char>) -> Seq<char> {
    key + seq![' ', '=', ' ', '"'] + value + seq!['"', '\n']
}

/// `key = value` and a newline.
pub open spec fn plain(key: Seq<char>, value: Seq<char>) -> Seq<char> {
    key + seq![' ', '=', ' '] + value + seq!['\n']
}

/// A quoted line, or nothing.
pub open spec fn opt_quoted(key: Seq<char>, value: Option<Seq<char>>) -> Seq<char> {
    match value {
        Some(v) => quoted(key, v),
        None => Seq::empty(),
    }
}

/// One `initrd = "..."` line per initrd, in order.
pub open spec fn initrd_lines(ls: Seq<Seq<char>>) -> Seq<char>
    decreases ls.len(),
{
    if ls.len() == 0 {
        Seq::empty()
    } else {
        initrd_lines(ls.drop_last()) + quoted("initrd"@, ls.last())
    }
}

/// The fields of an entry, one line each.
pub open spec fn entry_fields(e: EntryView) -> Seq<char> {
    quoted("id"@, e.id) + opt_quoted("title"@, e.title) + opt_quoted("kind"@, e.kind)
        + opt_quoted("linux"@, e.linux) + opt_quoted("efi"@, e.efi) + initrd_lines(e.initrd)
        + opt_quoted("options"@, e.options)
}

/// A blank line, the table header, and the fields.
pub open spec fn render_entry(e: EntryView) -> Seq<char> {
    "\n[[entries]]\n"@ + entry_fields(e)
}

/// All entries, in order.
pub open spec fn entries_text(es: Seq<EntryView>) -> Seq<char>
    decreases es.len(),
{
    if es.len() == 0 {
        Seq::empty()
    } else {
        entries_text(es.drop_last()) + render_entry(es.last())
    }
}

/// The top-level settings that are set.
pub open spec fn settings_text(c: ConfigView) -> Seq<char> {
    opt_quoted("default"@, c.default) + match c.timeout {
        Some(t) => plain("timeout"@, decimal(t as nat)),
        None => Seq::empty(),
    } + opt_quoted("spinner"@, c.spinner) + match c.logo {
        Some(b) => plain("logo"@, bool_text(b)),
        None => Seq::empty(),
    }
}

/// The file text of a configuration.
pub open spec fn render_config(c: ConfigView) -> Seq<char> {
    header() + settings_text(c) + entries_text(c.entries)
}

// ---------------------------------------------------------------------------
// Executable code
// ---------------------------------------------------------------------------

/// The model of the parser's executable state.
pub open spec fn state_of(config: Config, entry: Option<Entry>) -> ParseState {
    ParseState {
        config: config@,
        entry: match entry {
            Some(e) => Some(e@),
            None => None,
        },
    }
}

impl Default for Entry {
    fn default() -> (e: Self)
        ensures
            e@ == empty_entry(),
    {
        let e = Entry {
            id: String::new(),
            title: None,
            kind: None,
            linux: None,
            efi: None,
            initrd: Vec::new(),
            options: None,
        };
        assert(e@.initrd =~= Seq::<Seq<char>>::empty());
        e
    }
}

impl Default for Config {
    fn default() -> (c: Self)
        ensures
            c@ == empty_config(),
    {
        let c = Config { default: None, timeout: None, spinner: None, logo: None, entries: Vec::new() };
        assert(c@.entries =~= Seq::<EntryView>::empty());
        c
    }
}

impl Entry {
    /// Applies one `key = value` line inside the table.
    fn set(&mut self, v: &Vec<char>, klo: usize, khi: usize, vlo: usize, vhi: usize)
        requires
            klo <= khi <= v@.len(),
            vlo <= vhi <= v@.len(),
        ensures
            final(self)@ == entry_set(
                old(self)@,
                v@.subrange(klo as int, khi as int),
                v@.subrange(vlo as int, vhi as int),
            ),
    {
        if range_eq(v, klo, khi, "id") {
            self.id = string_of(v, vlo, vhi);
        } else if range_eq(v, klo, khi, "title") {
            self.title = Some(string_of(v, vlo, vhi));
        } else if range_eq(v, klo, khi, "kind") {
            self.kind = Some(string_of(v, vlo, vhi));
        } else if range_eq(v, klo, khi, "linux") {
            self.linux = Some(string_of(v, vlo, vhi));
        } else if range_eq(v, klo, khi, "efi") {
            self.efi = Some(string_of(v, vlo, vhi));
        } else if range_eq(v, klo, khi, "initrd") {
            let s = string_of(v, vlo, vhi);
            self.initrd.push(s);
            assert(strings_view(self.initrd@) =~= strings_view(old(self).initrd@).push(s@));
        } else if range_eq(v, klo, khi, "options") {
            self.options = Some(string_of(v, vlo, vhi));
        }
    }
}

impl Config {
    /// Applies one top-level `key = value` line.
    fn set(&mut self, v: &Vec<char>, klo: usize, khi: usize, vlo: usize, vhi: usize)
        requires
            klo <= khi <= v@.len(),
            vlo <= vhi <= v@.len(),
        ensures
            final(self)@ == config_set(
                old(self)@,
                v@.subrange(klo as int, khi as int),
                v@.subrange(vlo as int, vhi as int),
            ),
    {
        if range_eq(v, klo, khi, "default") {
            self.default = Some(string_of(v, vlo, vhi));
        } else if range_eq(v, klo, khi, "timeout") {
            self.timeout = match parse_u32_range(v, vlo, vhi) {
                Ok(t) => Some(t),
                Err(_) => None,
            };
        } else if range_eq(v, klo, khi, "spinner") {
            self.spinner = Some(string_of(v, vlo, vhi));
        } else if range_eq(v, klo, khi, "logo") {
            self.logo = parse_bool_range(v, vlo, vhi);
        }
    }

    /// Appends the pending entry, if any.
    fn flush(&mut self, entry: Option<Entry>)
        ensures
            final(self)@ == flush(state_of(*old(self), entry)),
    {
        if let Some(e) = entry {
            self.entries.push(e);
            assert(entries_view(self.entries@) =~= entries_view(old(self).entries@).push(e@));
        }
    }

    /// Reads a configuration file. Lines are cleaned of `#` comments and
    /// surrounding white space; settings before the first `[[entries]]`
    /// header are top-level, later ones belong to the latest table.
    pub fn parse(contents: &str) -> (config: Config)
        ensures
            config@ == parse_config(contents@),
    {
        let v = chars_of(contents);
        let mut config = Config::default();
        let mut entry: Option<Entry> = None;
        let mut pos: usize = 0;
        assert(v@.subrange(0, v@.len() as int) == v@);
        while pos < v.len()
            invariant
                pos <= v@.len(),
                v@ == contents@,
                parse_config(contents@) == flush(
                    parse_lines(
                        state_of(config, entry),
                        lines(v@.subrange(pos as int, v@.len() as int)),
                    ),
                ),
            decreases v@.len() - pos,
        {
            let (a, b, next) = next_line(&v, pos);
            let ghost line = v@.subrange(a as int, b as int);
            let ghost rest = lines(v@.subrange(next as int, v@.len() as int));
            let ghost before = state_of(config, entry);
            proof {
                let ls = seq![line] + rest;
                assert(ls[0] == line);
                assert(ls.drop_first() == rest);
            }
            let (lo, hi) = clean_range(&v, a, b);
            if lo == hi {
            } else if range_eq(&v, lo, hi, "[[entries]]") {
                config.flush(entry);
                entry = Some(Entry::default());
            } else {
                let eq = find_in(&v, lo, hi, '=');
                proof {
                    let l = v@.subrange(lo as int, hi as int);
                    lemma_find_char(l, '=');
                    if eq < hi {
                        assert(l.subrange(0, eq - lo) == v@.subrange(lo as int, eq as int));
                        assert(l.subrange(eq - lo + 1, l.len() as int) == v@.subrange(
                            eq + 1,
                            hi as int,
                        ));
                    }
                }
                if eq < hi {
                    let (klo, khi) = trim_range(&v, lo, eq);
                    let (tlo, thi) = trim_range(&v, eq + 1, hi);
                    let (vlo, vhi) = unquote_range(&v, tlo, thi);
                    match entry {
                        Some(mut e) => {
                            e.set(&v, klo, khi, vlo, vhi);
                            entry = Some(e);
                        },
                        None => {
                            config.set(&v, klo, khi, vlo, vhi);
                            entry = None;
                        },
                    }
                }
            }
            assert(state_of(config, entry) == parse_step(before, line));
            pos = next;
        }
        config.flush(entry);
        config
    }

    /// Writes the configuration back as file text: a header comment, the
    /// settings that are set, then one table per entry.
    pub fn render(&self) -> (out: String)
        ensures
            out@ == render_config(self@),
    {
        let mut out = String::new();
        push_str(&mut out, "# Generated file, all changes will be lost on nixos-rebuild!\n");
        push_settings(&mut out, self);
        let ghost settings = out@;
        let mut i: usize = 0;
        while i < self.entries.len()
            invariant
                0 <= i <= self.entries@.len(),
                settings == header() + settings_text(self@),
                out@ == settings + entries_text(entries_view(self.entries@).take(i as int)),
            decreases self.entries@.len() - i,
        {
            push_entry(&mut out, &self.entries[i]);
            proof {
                let t = entries_view(self.entries@).take(i + 1);
                assert(t.drop_last() == entries_view(self.entries@).take(i as int));
                assert(t.last() == self.entries@[i as int]@);
                assert(out@ =~= settings + entries_text(t));
            }
            i += 1;
        }
        assert(entries_view(self.entries@).take(i as int) == entries_view(self.entries@));
        out
    }
}

/// The `timeout` line, if set.
pub open spec fn timeout_text(t: Option<u32>) -> Seq<char> {
    match t {
        Some(t) => plain("timeout"@, decimal(t as nat)),
        None => Seq::empty(),
    }
}

/// The `logo` line, if set.
pub open spec fn logo_text(b: Option<bool>) -> Seq<char> {
    match b {
        Some(b) => plain("logo"@, bool_text(b)),
        None => Seq::empty(),
    }
}

/// Appends the top-level settings that are set.
fn push_settings(out: &mut String, c: &Config)
    ensures
        final(out)@ == old(out)@ + settings_text(c@),
{
    let ghost s0 = out@;
    push_opt_quoted(out, "default", &c.default);
    let ghost s1 = out@;
    push_timeout(out, c.timeout);
    let ghost s2 = out@;
    push_opt_quoted(out, "spinner", &c.spinner);
    let ghost s3 = out@;
    push_logo(out, c.logo);
    proof {
        let a = opt_quoted("default"@, c@.default);
        let b = timeout_text(c@.timeout);
        let d = opt_quoted("spinner"@, c@.spinner);
        let e = logo_text(c@.logo);
        assert(settings_text(c@) == a + b + d + e);
        assert(out@ =~= s0 + (a + b + d + e));
    }
}

fn push_timeout(out: &mut String, t: Option<u32>)
    ensures
        final(out)@ == old(out)@ + timeout_text(t),
{
    if let Some(timeout) = t {
        push_str(out, "timeout");
        push_str(out, " = ");
        push_decimal(out, timeout as u64);
        push_str(out, "\n");
        proof {
            reveal_strlit(" = ");
            reveal_strlit("\n");
        }
        assert(out@ =~= old(out)@ + timeout_text(t));
    } else {
        assert(out@ =~= old(out)@ + timeout_text(t));
    }
}

fn push_logo(out: &mut String, b: Option<bool>)
    ensures
        final(out)@ == old(out)@ + logo_text(b),
{
    if let Some(logo) = b {
        push_str(out, "logo");
        push_str(out, " = ");
        if logo {
            push_str(out, "true");
        } else {
            push_str(out, "false");
        }
        push_str(out, "\n");
        proof {
            reveal_strlit(" = ");
            reveal_strlit("\n");
        }
        assert(out@ =~= old(out)@ + logo_text(b));
    } else {
        assert(out@ =~= old(out)@ + logo_text(b));
    }
}

fn push_opt_quoted(out: &mut String, key: &str, value: &Option<String>)
    ensures
        final(out)@ == old(out)@ + opt_quoted(key@, opt_view(*value)),
{
    if let Some(v) = value {
        push_quoted(out, key, v);
    } else {
        assert(out@ =~= old(out)@ + opt_quoted(key@, opt_view(*value)));
    }
}

fn push_initrds(out: &mut String, initrd: &Vec<String>)
    ensures
        final(out)@ == old(out)@ + initrd_lines(strings_view(initrd@)),
{
    let ghost s0 = out@;
    let mut j: usize = 0;
    assert(initrd_lines(strings_view(initrd@).take(0)) =~= Seq::<char>::empty());
    while j < initrd.len()
        invariant
            0 <= j <= initrd@.len(),
            out@ =~= s0 + initrd_lines(strings_view(initrd@).take(j as int)),
        decreases initrd@.len() - j,
    {
        push_quoted(out, "initrd", &initrd[j]);
        proof {
            let t = strings_view(initrd@).take(j + 1);
            assert(t.drop_last() == strings_view(initrd@).take(j as int));
            assert(t.last() == initrd@[j as int]@);
        }
        j += 1;
    }
    assert(strings_view(initrd@).take(j as int) == strings_view(initrd@));
}

/// Appends one rendered entry table.
fn push_entry(out: &mut String, entry: &Entry)
    ensures
        final(out)@ == old(out)@ + render_entry(entry@),
{
    let ghost s0 = out@;
    push_str(out, "\n[[entries]]\n");
    let ghost s1 = out@;
    push_quoted(out, "id", &entry.id);
    let ghost s2 = out@;
    push_opt_quoted(out, "title", &entry.title);
    let ghost s3 = out@;
    push_opt_quoted(out, "kind", &entry.kind);
    let ghost s4 = out@;
    push_opt_quoted(out, "linux", &entry.linux);
    let ghost s5 = out@;
    push_opt_quoted(out, "efi", &entry.efi);
    let ghost s6 = out@;
    push_initrds(out, &entry.initrd);
    let ghost s7 = out@;
    push_opt_quoted(out, "options", &entry.options);
    proof {
        let e = entry@;
        let f = quoted("id"@, e.id) + opt_quoted("title"@, e.title) + opt_quoted("kind"@, e.kind)
            + opt_quoted("linux"@, e.linux) + opt_quoted("efi"@, e.efi) + initrd_lines(e.initrd)
            + opt_quoted("options"@, e.options);
        assert(entry_fields(e) == f);
        assert(out@ =~= s0 + ("\n[[entries]]\n"@ + f));
    }
}

/// Appends `key = "value"` and a newline.
fn push_quoted(out: &mut String, key: &str, value: &String)
    ensures
        final(out)@ == old(out)@ + quoted(key@, value@),
{
    push_str(out, key);
    push_str(out, " = \"");
    push_str(out, value.as_str());
    push_str(out, "\"\n");
    proof {
        reveal_strlit(" = \"");
        reveal_strlit("\"\n");
        assert(out@ =~= old(out)@ + quoted(key@, value@));
    }
}

} // verus!

verus! {

// ---------------------------------------------------------------------------
// Laws
// ---------------------------------------------------------------------------

/// Text that a value can hold without changing the file's line structure:
/// no line break and no comment sign.
pub open spec fn safe_value(s: Seq<char>) -> bool {
    !has_char(s, '\n') && !has_char(s, '#')
}

/// An optional value that is safe when present.
pub open spec fn safe_opt(o: Option<Seq<char>>) -> bool {
    match o {
        Some(s) => safe_value(s),
        None => true,
    }
}

/// Every text of an entry is safe.
pub open spec fn safe_entry(e: EntryView) -> bool {
    &&& safe_value(e.id)
    &&& safe_opt(e.title)
    &&& safe_opt(e.kind)
    &&& safe_opt(e.linux)
    &&& safe_opt(e.efi)
    &&& forall|i: int| 0 <= i < e.initrd.len() ==> safe_value(#[trigger] e.initrd[i])
    &&& safe_opt(e.options)
}

/// Every text of a configuration is safe, so that rendering it keeps one
/// setting per line.
pub open spec fn safe_config(c: ConfigView) -> bool {
    &&& safe_opt(c.default)
    &&& safe_opt(c.spinner)
    &&& forall|i: int| 0 <= i < c.entries.len() ==> safe_entry(#[trigger] c.entries[i])
}

/// What a `key = value` line does, whichever part of the file it is in.
pub open spec fn kv_result(st: ParseState, key: Seq<char>, value: Seq<char>) -> ParseState {
    match st.entry {
        Some(e) => ParseState { config: st.config, entry: Some(entry_set(e, key, value)) },
        None => ParseState { config: config_set(st.config, key, value), entry: None },
    }
}

proof fn lemma_parse_lines_append(st: ParseState, x: Seq<Seq<char>>, y: Seq<Seq<char>>)
    ensures
        parse_lines(st, x + y) == parse_lines(parse_lines(st, x), y),
    decreases x.len(),
{
    if x.len() == 0 {
        assert(x + y == y);
    } else {
        assert((x + y)[0] == x[0]);
        assert((x + y).drop_first() == x.drop_first() + y);
        lemma_parse_lines_append(parse_step(st, x[0]), x.drop_first(), y);
    }
}

/// Processing the lines of `a + b` is processing those of `a`, then `b`.
proof fn lemma_parse_text_append(st: ParseState, a: Seq<char>, b: Seq<char>)
    requires
        crate::text::terminated(a),
    ensures
        parse_lines(st, lines(a + b)) == parse_lines(parse_lines(st, lines(a)), lines(b)),
{
    crate::text::lemma_lines_append(a, b);
    lemma_parse_lines_append(st, lines(a), lines(b));
}

proof fn lemma_terminated_append(a: Seq<char>, b: Seq<char>)
    requires
        crate::text::terminated(a),
        crate::text::terminated(b),
    ensures
        crate::text::terminated(a + b),
{
    if b.len() > 0 {
        assert((a + b).last() == b.last());
    } else {
        assert(a + b == a);
    }
}

/// One `key = w` line, with `w` the raw value text.
proof fn lemma_kv_line(st: ParseState, key: Seq<char>, w: Seq<char>)
    requires
        key_ok(key),
        w.len() > 0,
        !is_white(w[0]),
        !is_white(w.last()),
        !has_char(w, '\n'),
        !has_char(w, '#'),
    ensures
        ({
            let line = key + seq![' ', '=', ' '] + w;
            &&& lines(line.push('\n')) == seq![line]
            &&& parse_step(st, line) == kv_result(st, key, unquote(w))
        }),
{
    let line = key + seq![' ', '=', ' '] + w;
    crate::text::lemma_assignment_line(key, w);
    assert(is_white('\r'));
    crate::text::lemma_lines_single(line);
    reveal_strlit("[[entries]]");
    assert(line != "[[entries]]"@) by {
        assert("[[entries]]"@[0] == '[');
    }
}

/// A `key = "value"` line.
proof fn lemma_quoted(st: ParseState, key: Seq<char>, value: Seq<char>)
    requires
        key_ok(key),
        safe_value(value),
    ensures
        crate::text::terminated(quoted(key, value)),
        parse_lines(st, lines(quoted(key, value))) == kv_result(st, key, value),
{
    let w = seq!['"'] + value + seq!['"'];
    assert(!has_char(w, '\n') && !has_char(w, '#')) by {
        assert forall|j: int| 0 <= j < w.len() implies w[j] != '\n' && w[j] != '#' by {
            if 0 < j < w.len() - 1 {
                assert(w[j] == value[j - 1]);
                if value[j - 1] == '\n' {
                    assert(has_char(value, '\n'));
                }
                if value[j - 1] == '#' {
                    assert(has_char(value, '#'));
                }
            }
        }
    }
    lemma_kv_line(st, key, w);
    let line = key + seq![' ', '=', ' '] + w;
    assert(quoted(key, value) =~= line.push('\n'));
    assert(unquote(w) =~= value);
    let ls = seq![line];
    assert(lines(quoted(key, value)) == ls);
    assert(ls[0] == line);
    assert(ls.drop_first() =~= Seq::<Seq<char>>::empty());
    assert(parse_lines(st, ls) == parse_lines(parse_step(st, line), ls.drop_first()));
    assert(parse_lines(parse_step(st, line), Seq::<Seq<char>>::empty()) == parse_step(st, line));
}

/// A `key = value` line for a bare value.
proof fn lemma_plain(st: ParseState, key: Seq<char>, w: Seq<char>)
    requires
        key_ok(key),
        w.len() > 0,
        !is_white(w[0]),
        !is_white(w.last()),
        w[0] != '"',
        !has_char(w, '\n'),
        !has_char(w, '#'),
    ensures
        crate::text::terminated(plain(key, w)),
        parse_lines(st, lines(plain(key, w))) == kv_result(st, key, w),
{
    lemma_kv_line(st, key, w);
    let line = key + seq![' ', '=', ' '] + w;
    assert(plain(key, w) =~= line.push('\n'));
    let ls = seq![line];
    assert(lines(plain(key, w)) == ls);
    assert(ls[0] == line);
    assert(ls.drop_first() =~= Seq::<Seq<char>>::empty());
    assert(parse_lines(st, ls) == parse_lines(parse_step(st, line), ls.drop_first()));
    assert(parse_lines(parse_step(st, line), Seq::<Seq<char>>::empty()) == parse_step(st, line));
    assert(unquote(w) == w);
}

/// An optional quoted line.
proof fn lemma_opt_quoted(st: ParseState, key: Seq<char>, o: Option<Seq<char>>)
    requires
        key_ok(key),
        safe_opt(o),
    ensures
        crate::text::terminated(opt_quoted(key, o)),
        parse_lines(st, lines(opt_quoted(key, o))) == match o {
            Some(v) => kv_result(st, key, v),
            None => st,
        },
{
    match o {
        Some(v) => lemma_quoted(st, key, v),
        None => {
            assert(lines(Seq::<char>::empty()) =~= Seq::<Seq<char>>::empty());
        },
    }
}

/// Facts about the key names the renderer writes.
proof fn lemma_key_names()
    ensures
        key_ok("id"@),
        key_ok("title"@),
        key_ok("kind"@),
        key_ok("linux"@),
        key_ok("efi"@),
        key_ok("initrd"@),
        key_ok("options"@),
        key_ok("default"@),
        key_ok("timeout"@),
        key_ok("spinner"@),
        key_ok("logo"@),
        "title"@ != "id"@,
        "kind"@ != "id"@ && "kind"@ != "title"@,
        "linux"@ != "id"@ && "linux"@ != "title"@ && "linux"@ != "kind"@,
        "efi"@ != "id"@ && "efi"@ != "title"@ && "efi"@ != "kind"@ && "efi"@ != "linux"@,
        "initrd"@ != "id"@ && "initrd"@ != "title"@ && "initrd"@ != "kind"@ && "initrd"@
            != "linux"@ && "initrd"@ != "efi"@,
        "options"@ != "id"@ && "options"@ != "title"@ && "options"@ != "kind"@ && "options"@
            != "linux"@ && "options"@ != "efi"@ && "options"@ != "initrd"@,
        "timeout"@ != "default"@,
        "spinner"@ != "default"@ && "spinner"@ != "timeout"@,
        "logo"@ != "default"@ && "logo"@ != "timeout"@ && "logo"@ != "spinner"@,
{
    reveal_strlit("id");
    reveal_strlit("title");
    reveal_strlit("kind");
    reveal_strlit("linux");
    reveal_strlit("efi");
    reveal_strlit("initrd");
    reveal_strlit("options");
    reveal_strlit("default");
    reveal_strlit("timeout");
    reveal_strlit("spinner");
    reveal_strlit("logo");
    lemma_key_ok("id"@);
    lemma_key_ok("title"@);
    lemma_key_ok("kind"@);
    lemma_key_ok("linux"@);
    lemma_key_ok("efi"@);
    lemma_key_ok("initrd"@);
    lemma_key_ok("options"@);
    lemma_key_ok("default"@);
    lemma_key_ok("timeout"@);
    lemma_key_ok("spinner"@);
    lemma_key_ok("logo"@);
    assert("linux"@[0] != "title"@[0]);
    assert("linux"@[0] != "kind"@[0] || "linux"@.len() != "kind"@.len());
    assert("initrd"@[0] != "kind"@[0] || "initrd"@.len() != "kind"@.len());
    assert("spinner"@[0] != "default"@[0]);
    assert("spinner"@[0] != "timeout"@[0]);
    assert("timeout"@[0] != "default"@[0]);
    assert("options"@[0] != "default"@[0]);
}

/// A key made of lower-case ASCII letters is rendered safely.
proof fn lemma_key_ok(k: Seq<char>)
    requires
        k.len() > 0,
        forall|j: int| 0 <= j < k.len() ==> 'a' <= #[trigger] k[j] <= 'z',
    ensures
        key_ok(k),
{
    assert(k[0] == k[0]);
    assert(k.last() == k[k.len() - 1]);
    assert(!has_char(k, '=')) by {
        if has_char(k, '=') {
            let j = choose|j: int| 0 <= j < k.len() && k[j] == '=';
            assert('a' <= k[j]);
        }
    }
    assert(!has_char(k, '#')) by {
        if has_char(k, '#') {
            let j = choose|j: int| 0 <= j < k.len() && k[j] == '#';
            assert('a' <= k[j]);
        }
    }
    assert(!has_char(k, '\n')) by {
        if has_char(k, '\n') {
            let j = choose|j: int| 0 <= j < k.len() && k[j] == '\n';
            assert('a' <= k[j]);
        }
    }
}

/// The parser's state inside a table.
pub open spec fn pending(cfg: ConfigView, e: EntryView) -> ParseState {
    ParseState { config: cfg, entry: Some(e) }
}

/// The parser's state before any table.
pub open spec fn top(cfg: ConfigView) -> ParseState {
    ParseState { config: cfg, entry: None }
}

/// A configuration with other entries.
pub open spec fn with_entries(c: ConfigView, es: Seq<EntryView>) -> ConfigView {
    ConfigView { entries: es, ..c }
}

/// An entry with other initrds.
pub open spec fn with_initrd(e: EntryView, ls: Seq<Seq<char>>) -> EntryView {
    EntryView { initrd: ls, ..e }
}

/// The fields of one table, read from a fresh entry, give the entry back.
proof fn lemma_entry_fields(cfg: ConfigView, e: EntryView)
    requires
        safe_entry(e),
    ensures
        crate::text::terminated(entry_fields(e)),
        parse_lines(pending(cfg, empty_entry()), lines(entry_fields(e))) == pending(cfg, e),
{
    lemma_key_names();
    let st0 = ParseState { config: cfg, entry: Some(empty_entry()) };
    let e1 = EntryView { id: e.id, ..empty_entry() };
    let e2 = EntryView { title: e.title, ..e1 };
    let e3 = EntryView { kind: e.kind, ..e2 };
    let e4 = EntryView { linux: e.linux, ..e3 };
    let e5 = EntryView { efi: e.efi, ..e4 };
    let e6 = EntryView { initrd: e.initrd, ..e5 };
    let st = |x: EntryView| ParseState { config: cfg, entry: Some(x) };
    let p1 = quoted("id"@, e.id);
    let p2 = opt_quoted("title"@, e.title);
    let p3 = opt_quoted("kind"@, e.kind);
    let p4 = opt_quoted("linux"@, e.linux);
    let p5 = opt_quoted("efi"@, e.efi);
    let p6 = initrd_lines(e.initrd);
    let p7 = opt_quoted("options"@, e.options);
    lemma_quoted(st0, "id"@, e.id);
    assert(parse_lines(st0, lines(p1)) == st(e1));
    lemma_opt_quoted(st(e1), "title"@, e.title);
    assert(parse_lines(st(e1), lines(p2)) == st(e2));
    lemma_opt_quoted(st(e2), "kind"@, e.kind);
    assert(parse_lines(st(e2), lines(p3)) == st(e3));
    lemma_opt_quoted(st(e3), "linux"@, e.linux);
    assert(parse_lines(st(e3), lines(p4)) == st(e4));
    lemma_opt_quoted(st(e4), "efi"@, e.efi);
    assert(parse_lines(st(e4), lines(p5)) == st(e5));
    lemma_initrds(cfg, e5, e.initrd);
    assert(e5.initrd + e.initrd =~= e.initrd);
    assert(parse_lines(st(e5), lines(p6)) == st(e6));
    lemma_opt_quoted(st(e6), "options"@, e.options);
    assert(parse_lines(st(e6), lines(p7)) == st(e));
    let a2 = p1 + p2;
    let a3 = a2 + p3;
    let a4 = a3 + p4;
    let a5 = a4 + p5;
    let a6 = a5 + p6;
    lemma_terminated_append(p1, p2);
    lemma_terminated_append(a2, p3);
    lemma_terminated_append(a3, p4);
    lemma_terminated_append(a4, p5);
    lemma_terminated_append(a5, p6);
    lemma_terminated_append(a6, p7);
    lemma_parse_text_append(st0, p1, p2);
    lemma_parse_text_append(st0, a2, p3);
    lemma_parse_text_append(st0, a3, p4);
    lemma_parse_text_append(st0, a4, p5);
    lemma_parse_text_append(st0, a5, p6);
    lemma_parse_text_append(st0, a6, p7);
    assert(entry_fields(e) == a6 + p7);
}

/// `initrd` lines append to the entry's list, in order.
proof fn lemma_initrds(cfg: ConfigView, e: EntryView, ls: Seq<Seq<char>>)
    requires
        forall|i: int| 0 <= i < ls.len() ==> safe_value(#[trigger] ls[i]),
    ensures
        crate::text::terminated(initrd_lines(ls)),
        parse_lines(pending(cfg, e), lines(initrd_lines(ls))) == pending(cfg, with_initrd(e, e.initrd + ls)),
    decreases ls.len(),
{
    let st0 = ParseState { config: cfg, entry: Some(e) };
    if ls.len() == 0 {
        assert(lines(Seq::<char>::empty()) =~= Seq::<Seq<char>>::empty());
        assert(e.initrd + ls =~= e.initrd);
    } else {
        lemma_key_names();
        let prev = ls.drop_last();
        lemma_initrds(cfg, e, prev);
        let mid = EntryView { initrd: e.initrd + prev, ..e };
        let st1 = ParseState { config: cfg, entry: Some(mid) };
        assert(safe_value(ls[ls.len() - 1]));
        lemma_quoted(st1, "initrd"@, ls.last());
        lemma_terminated_append(initrd_lines(prev), quoted("initrd"@, ls.last()));
        lemma_parse_text_append(st0, initrd_lines(prev), quoted("initrd"@, ls.last()));
        assert((e.initrd + prev).push(ls.last()) =~= e.initrd + ls);
    }
}

/// The lines of the table header text.
proof fn lemma_entries_header()
    ensures
        lines("\n[[entries]]\n"@) == seq![Seq::<char>::empty(), "[[entries]]"@],
        clean_line(Seq::<char>::empty()) == Seq::<char>::empty(),
        clean_line("[[entries]]"@) == "[[entries]]"@,
        crate::text::terminated("\n[[entries]]\n"@),
{
    reveal_strlit("\n[[entries]]\n");
    reveal_strlit("[[entries]]");
    let h = "[[entries]]"@;
    assert(!has_char(h, '\n') && !has_char(h, '#')) by {
        assert forall|j: int| 0 <= j < h.len() implies h[j] != '\n' && h[j] != '#' by {}
    }
    crate::text::lemma_lines_single(h);
    crate::text::lemma_lines_cons(Seq::<char>::empty(), h.push('\n'));
    assert(Seq::<char>::empty().push('\n') + h.push('\n') =~= "\n[[entries]]\n"@);
    assert(!has_char(Seq::<char>::empty(), '\n'));
    assert(strip_cr(Seq::<char>::empty()) =~= Seq::<char>::empty());
    crate::text::lemma_find_absent(h, '#');
    assert(before_char(h, '#') == h);
    crate::text::lemma_trim_fixed(h);
    assert(before_char(Seq::<char>::empty(), '#') =~= Seq::<char>::empty());
}

/// A rendered table: the pending entry is stored and the new one is read.
proof fn lemma_render_entry(st: ParseState, e: EntryView)
    requires
        safe_entry(e),
    ensures
        crate::text::terminated(render_entry(e)),
        parse_lines(st, lines(render_entry(e))) == pending(flush(st), e),
{
    lemma_entries_header();
    let head = "\n[[entries]]\n"@;
    let hl = seq![Seq::<char>::empty(), "[[entries]]"@];
    assert(parse_step(st, Seq::<char>::empty()) == st);
    let st1 = ParseState { config: flush(st), entry: Some(empty_entry()) };
    reveal_strlit("[[entries]]");
    assert(clean_line("[[entries]]"@).len() > 0);
    assert(parse_step(st, "[[entries]]"@) == st1);
    assert(hl[0] == Seq::<char>::empty());
    let one = seq!["[[entries]]"@];
    assert(hl.drop_first() =~= one);
    assert(one[0] == "[[entries]]"@);
    assert(one.drop_first() =~= Seq::<Seq<char>>::empty());
    assert(parse_lines(st1, Seq::<Seq<char>>::empty()) == st1);
    assert(parse_lines(st, one) == parse_lines(parse_step(st, one[0]), one.drop_first()));
    assert(parse_lines(st, one) == st1);
    assert(parse_lines(st, hl) == parse_lines(parse_step(st, hl[0]), hl.drop_first()));
    assert(parse_lines(st, hl) == st1);
    lemma_entry_fields(flush(st), e);
    lemma_terminated_append(head, entry_fields(e));
    lemma_parse_text_append(st, head, entry_fields(e));
}

/// Rendered tables, read after the settings, give the entries back: all
/// but the last stored, the last pending.
proof fn lemma_entries(cfg: ConfigView, es: Seq<EntryView>)
    requires
        forall|i: int| 0 <= i < es.len() ==> safe_entry(#[trigger] es[i]),
    ensures
        crate::text::terminated(entries_text(es)),
        parse_lines(top(cfg), lines(entries_text(es))) == (if es.len() == 0 {
            top(cfg)
        } else {
            pending(with_entries(cfg, cfg.entries + es.drop_last()), es.last())
        }),
    decreases es.len(),
{
    let st0 = ParseState { config: cfg, entry: None };
    if es.len() == 0 {
        assert(lines(Seq::<char>::empty()) =~= Seq::<Seq<char>>::empty());
    } else {
        let prev = es.drop_last();
        lemma_entries(cfg, prev);
        let st1 = parse_lines(st0, lines(entries_text(prev)));
        assert(safe_entry(es[es.len() - 1]));
        lemma_render_entry(st1, es.last());
        lemma_terminated_append(entries_text(prev), render_entry(es.last()));
        lemma_parse_text_append(st0, entries_text(prev), render_entry(es.last()));
        if prev.len() == 0 {
            assert(cfg.entries + es.drop_last() =~= cfg.entries);
        } else {
            assert((cfg.entries + prev.drop_last()).push(prev.last()) =~= cfg.entries + es.drop_last());
        }
    }
}

/// The header comment is a line of its own and sets nothing.
proof fn lemma_header(st: ParseState)
    ensures
        crate::text::terminated(header()),
        parse_lines(st, lines(header())) == st,
{
    reveal_strlit("# Generated file, all changes will be lost on nixos-rebuild!\n");
    let h = header().drop_last();
    assert(header() =~= h.push('\n'));
    assert(!has_char(h, '\n')) by {
        assert forall|j: int| 0 <= j < h.len() implies h[j] != '\n' by {}
    }
    crate::text::lemma_lines_single(h);
    lemma_find_char_unique(h, '#', 0);
    assert(before_char(h, '#') =~= Seq::<char>::empty());
    assert(clean_line(h) =~= Seq::<char>::empty());
    assert(seq![h].drop_first() =~= Seq::<Seq<char>>::empty());
    assert(parse_lines(st, seq![h]) == parse_lines(parse_step(st, h), Seq::<Seq<char>>::empty()));
}

/// The settings, read at the top of the file, are set as written.
proof fn lemma_settings(c: ConfigView)
    requires
        safe_opt(c.default),
        safe_opt(c.spinner),
    ensures
        crate::text::terminated(settings_text(c)),
        parse_lines(top(empty_config()), lines(settings_text(c))) == top(
            with_entries(c, Seq::empty()),
        ),
{
    lemma_key_names();
    let st = |x: ConfigView| ParseState { config: x, entry: None };
    let c0 = empty_config();
    let c1 = ConfigView { default: c.default, ..c0 };
    let c2 = ConfigView { timeout: c.timeout, ..c1 };
    let c3 = ConfigView { spinner: c.spinner, ..c2 };
    let c4 = ConfigView { logo: c.logo, ..c3 };
    let p1 = opt_quoted("default"@, c.default);
    let p2 = timeout_text(c.timeout);
    let p3 = opt_quoted("spinner"@, c.spinner);
    let p4 = logo_text(c.logo);
    lemma_opt_quoted(st(c0), "default"@, c.default);
    assert(parse_lines(st(c0), lines(p1)) == st(c1));
    match c.timeout {
        Some(t) => {
            let d = decimal(t as nat);
            crate::text::lemma_decimal_digits(t as nat, u32::MAX as int);
            assert(is_digit(d[0]) && is_digit(d[d.len() - 1]));
            assert(!has_char(d, '\n') && !has_char(d, '#')) by {
                assert forall|j: int| 0 <= j < d.len() implies d[j] != '\n' && d[j] != '#' by {
                    assert(is_digit(d[j]));
                }
            }
            lemma_plain(st(c1), "timeout"@, d);
            lemma_parse_decimal_u32(t);
            assert(parse_lines(st(c1), lines(p2)) == st(c2));
        },
        None => {
            assert(lines(Seq::<char>::empty()) =~= Seq::<Seq<char>>::empty());
        },
    }
    lemma_opt_quoted(st(c2), "spinner"@, c.spinner);
    assert(parse_lines(st(c2), lines(p3)) == st(c3));
    match c.logo {
        Some(b) => {
            reveal_strlit("true");
            reveal_strlit("false");
            let w = bool_text(b);
            assert(!has_char(w, '\n') && !has_char(w, '#')) by {
                assert forall|j: int| 0 <= j < w.len() implies w[j] != '\n' && w[j] != '#' by {}
            }
            lemma_plain(st(c3), "logo"@, w);
            lemma_parse_bool_text(b);
            assert(parse_lines(st(c3), lines(p4)) == st(c4));
        },
        None => {
            assert(lines(Seq::<char>::empty()) =~= Seq::<Seq<char>>::empty());
        },
    }
    let a2 = p1 + p2;
    let a3 = a2 + p3;
    lemma_terminated_append(p1, p2);
    lemma_terminated_append(a2, p3);
    lemma_terminated_append(a3, p4);
    lemma_parse_text_append(st(c0), p1, p2);
    lemma_parse_text_append(st(c0), a2, p3);
    lemma_parse_text_append(st(c0), a3, p4);
    assert(settings_text(c) == a3 + p4);
    assert(c4 == ConfigView { entries: Seq::<EntryView>::empty(), ..c });
}

/// Reading back a rendered configuration gives the same configuration,
/// provided no text in it holds a line break or a `#`.
pub proof fn lemma_render_then_parse(c: ConfigView)
    requires
        safe_config(c),
    ensures
        parse_config(render_config(c)) == c,
{
    let st0 = ParseState { config: empty_config(), entry: None };
    lemma_header(st0);
    lemma_settings(c);
    let cs = ConfigView { entries: Seq::empty(), ..c };
    lemma_entries(cs, c.entries);
    lemma_terminated_append(header(), settings_text(c));
    lemma_parse_text_append(st0, header(), settings_text(c));
    lemma_parse_text_append(st0, header() + settings_text(c), entries_text(c.entries));
    if c.entries.len() > 0 {
        assert((cs.entries + c.entries.drop_last()).push(c.entries.last()) =~= c.entries);
    } else {
        assert(cs.entries =~= c.entries);
    }
}

} // verus!
