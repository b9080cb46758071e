//! Boot-entry discovery, configuration parsing, and the decisions of the
//! boot menu.
//!
//! Entries come from `boot/r-boot.toml` (a small TOML subset), from
//! systemd-boot's `loader/entries/*.conf` files with `loader/loader.conf`
//! supplying `default` and `timeout` when the TOML file has not, and from
//! the static Linux `menuentry` blocks of GRUB configuration files. The
//! caller reads the files and hands their text to the parsers here, in that
//! order; the menu's key handling is a state machine the caller drives.

use vstd::prelude::*;
use crate::spinner::{Mode, mode_named};
use crate::splash::{Image, image_named};
use crate::text::{
    chars_of, clean_line, clean_range, find_in, find_white_in, lemma_find_char, lines, next_line,
    ok_of, opt_view, parse_bool, parse_bool_range, parse_u64, parse_u64_range, range_ends_with,
    range_eq, split_once, split_white, string_of, strings_view, text_is, trim, trim_range, unquote,
    unquote_range, has_suffix, find_white, lemma_find_white_unique, has_prefix, is_white,
    is_white_char, push_char, push_str, range_starts_with,
};

verus! {

/// Entries shown on one page of the menu.
pub const ENTRIES_PER_PAGE: usize = 10;

/// How an entry is booted.
#[derive(Clone, Copy, Debug, PartialEq, Eq, Structural)]
pub enum Kind {
    Linux,
    Limine,
    Efi,
}

/// A boot entry.
#[derive(Debug)]
pub struct Entry {
    pub id: String,
    pub title: String,
    pub kind: Kind,
    pub kernel: String,
    pub initrds: Vec<String>,
    pub options: Option<String>,
    pub image: Option<Image>,
}

/// The boot menu: its entries and the settings read so far.
#[derive(Debug)]
pub struct Menu {
    pub entries: Vec<Entry>,
    default: Option<String>,
    timeout: Option<u64>,
    spinner_mode: Mode,
    logo_visible: bool,
}

/// The fields of an entry as read from a configuration file, before it is
/// checked.
#[derive(Debug)]
pub struct RawEntry {
    pub id: Option<String>,
    pub title: Option<String>,
    pub kind: Option<String>,
    pub kernel: Option<String>,
    pub initrds: Vec<String>,
    pub options: Option<String>,
    pub image: Option<String>,
}

// ---------------------------------------------------------------------------
// Models
// ---------------------------------------------------------------------------

pub struct EntryView {
    pub id: Seq<char>,
    pub title: Seq<char>,
    pub kind: Kind,
    pub kernel: Seq<char>,
    pub initrds: Seq<Seq<char>>,
    pub options: Option<Seq<char>>,
    pub image: Option<Image>,
}

pub struct MenuView {
    pub entries: Seq<EntryView>,
    pub default: Option<Seq<char>>,
    pub timeout: Option<u64>,
    pub spinner_mode: Mode,
    pub logo_visible: bool,
}

pub struct RawView {
    pub id: Option<Seq<char>>,
    pub title: Option<Seq<char>>,
    pub kind: Option<Seq<char>>,
    pub kernel: Option<Seq<char>>,
    pub initrds: Seq<Seq<char>>,
    pub options: Option<Seq<char>>,
    pub image: Option<Seq<char>>,
}

impl View for Entry {
    type V = EntryView;

    open spec fn view(&self) -> EntryView {
        EntryView {
            id: self.id@,
            title: self.title@,
            kind: self.kind,
            kernel: self.kernel@,
            initrds: strings_view(self.initrds@),
            options: opt_view(self.options),
            image: self.image,
        }
    }
}

/// The models of a list of entries.
pub open spec fn entries_view(v: Seq<Entry>) -> Seq<EntryView> {
    v.map_values(|e: Entry| e@)
}

impl View for Menu {
    type V = MenuView;

    closed spec fn view(&self) -> MenuView {
        MenuView {
            entries: entries_view(self.entries@),
            default: opt_view(self.default),
            timeout: self.timeout,
            spinner_mode: self.spinner_mode,
            logo_visible: self.logo_visible,
        }
    }
}

impl View for RawEntry {
    type V = RawView;

    open spec fn view(&self) -> RawView {
        RawView {
            id: opt_view(self.id),
            title: opt_view(self.title),
            kind: opt_view(self.kind),
            kernel: opt_view(self.kernel),
            initrds: strings_view(self.initrds@),
            options: opt_view(self.options),
            image: opt_view(self.image),
        }
    }
}

/// The model of an optional raw entry.
pub open spec fn raw_opt(r: Option<RawEntry>) -> Option<RawView> {
    match r {
        Some(e) => Some(e@),
        None => None,
    }
}

/// An entry with no field set.
pub open spec fn empty_raw() -> RawView {
    RawView {
        id: None,
        title: None,
        kind: None,
        kernel: None,
        initrds: Seq::empty(),
        options: None,
        image: None,
    }
}

/// A menu before any file was read.
pub open spec fn initial_menu() -> MenuView {
    MenuView {
        entries: Seq::empty(),
        default: None,
        timeout: None,
        spinner_mode: Mode::Graphical,
        logo_visible: true,
    }
}

/// What one `key value` pair does to an entry. `efi` names an image that is
/// started directly; `linux` and `kernel` are synonyms; `initrd` repeats.
pub open spec fn raw_set(r: RawView, key: Seq<char>, value: Seq<char>) -> RawView {
    if key == "title"@ {
        RawView { title: Some(value), ..r }
    } else if key == "id"@ {
        RawView { id: Some(value), ..r }
    } else if key == "kind"@ {
        RawView { kind: Some(value), ..r }
    } else if key == "linux"@ || key == "kernel"@ {
        RawView { kernel: Some(value), ..r }
    } else if key == "efi"@ {
        RawView { kind: Some("efi"@), kernel: Some(value), ..r }
    } else if key == "initrd"@ {
        RawView { initrds: r.initrds.push(value), ..r }
    } else if key == "options"@ {
        RawView { options: Some(value), ..r }
    } else if key == "image"@ {
        RawView { image: Some(value), ..r }
    } else {
        r
    }
}

/// The kind an entry declares; an unknown kind is `None`.
pub open spec fn kind_named(k: Option<Seq<char>>) -> Option<Kind> {
    match k {
        None => Some(Kind::Linux),
        Some(s) => if s == "limine"@ {
            Some(Kind::Limine)
        } else if s == "linux"@ {
            Some(Kind::Linux)
        } else if s == "efi"@ {
            Some(Kind::Efi)
        } else {
            None
        },
    }
}

/// The entry a raw entry becomes: none without a kernel or with an unknown
/// kind. The id falls back to the title, then the kernel; the title to the
/// kernel. An unknown splash image is dropped.
pub open spec fn entry_of(r: RawView) -> Option<EntryView> {
    match r.kernel {
        None => None,
        Some(kernel) => match kind_named(r.kind) {
            None => None,
            Some(kind) => Some(
                EntryView {
                    id: match r.id {
                        Some(i) => i,
                        None => match r.title {
                            Some(t) => t,
                            None => kernel,
                        },
                    },
                    title: match r.title {
                        Some(t) => t,
                        None => kernel,
                    },
                    kind,
                    kernel,
                    initrds: r.initrds,
                    options: r.options,
                    image: match r.image {
                        Some(v) => image_named(v),
                        None => None,
                    },
                },
            ),
        },
    }
}

/// The menu with a finished raw entry added, if it is valid.
pub open spec fn with_entry(m: MenuView, r: Option<RawView>) -> MenuView {
    match r {
        None => m,
        Some(raw) => match entry_of(raw) {
            None => m,
            Some(e) => MenuView { entries: m.entries.push(e), ..m },
        },
    }
}

// ---------------------------------------------------------------------------
// boot/r-boot.toml
// ---------------------------------------------------------------------------

/// The state of a configuration reader between lines: the menu so far and
/// the entry being read, if any.
pub struct ReadState {
    pub menu: MenuView,
    pub entry: Option<RawView>,
}

/// What one top-level `key = value` does. A `timeout` that does not parse
/// clears the setting; an unknown spinner mode or a `logo` that is no
/// boolean keeps the current one.
pub open spec fn toml_set(m: MenuView, key: Seq<char>, value: Seq<char>) -> MenuView {
    if key == "default"@ {
        MenuView { default: Some(value), ..m }
    } else if key == "timeout"@ {
        MenuView { timeout: ok_of(parse_u64(value)), ..m }
    } else if key == "spinner"@ {
        match mode_named(value) {
            Some(mode) => MenuView { spinner_mode: mode, ..m },
            None => m,
        }
    } else if key == "logo"@ {
        match parse_bool(value) {
            Some(b) => MenuView { logo_visible: b, ..m },
            None => m,
        }
    } else {
        m
    }
}

/// What one line of `r-boot.toml` does.
pub open spec fn toml_step(st: ReadState, line: Seq<char>) -> ReadState {
    let l = clean_line(line);
    if l == "[[entries]]"@ {
        ReadState { menu: with_entry(st.menu, st.entry), entry: Some(empty_raw()) }
    } else {
        match split_once(l, '=') {
            None => st,
            Some((k, v)) => {
                let key = trim(k);
                let value = unquote(trim(v));
                match st.entry {
                    Some(e) => ReadState { entry: Some(raw_set(e, key, value)), ..st },
                    None => ReadState { menu: toml_set(st.menu, key, value), ..st },
                }
            },
        }
    }
}

/// The TOML reader's state after the lines `ls`.
pub open spec fn toml_lines(st: ReadState, ls: Seq<Seq<char>>) -> ReadState
    decreases ls.len(),
{
    if ls.len() == 0 {
        st
    } else {
        toml_lines(toml_step(st, ls[0]), ls.drop_first())
    }
}

/// The menu after reading `r-boot.toml` text `s`.
pub open spec fn parse_toml_spec(m: MenuView, s: Seq<char>) -> MenuView {
    let st = toml_lines(ReadState { menu: m, entry: None }, lines(s));
    with_entry(st.menu, st.entry)
}

// ---------------------------------------------------------------------------
// loader/loader.conf and loader/entries/*.conf
// ---------------------------------------------------------------------------

/// What one line of `loader.conf` does: `default` and `timeout` apply only
/// when `r-boot.toml` did not set them.
pub open spec fn loader_step(m: MenuView, line: Seq<char>) -> MenuView {
    match split_white(clean_line(line)) {
        None => m,
        Some((key, value)) => if key == "default"@ && m.default is None {
            MenuView { default: Some(trim(value)), ..m }
        } else if key == "timeout"@ && m.timeout is None {
            MenuView { timeout: ok_of(parse_u64(trim(value))), ..m }
        } else {
            m
        },
    }
}

/// The menu after the lines `ls` of `loader.conf`.
pub open spec fn loader_lines(m: MenuView, ls: Seq<Seq<char>>) -> MenuView
    decreases ls.len(),
{
    if ls.len() == 0 {
        m
    } else {
        loader_lines(loader_step(m, ls[0]), ls.drop_first())
    }
}

/// `s.trim_end_matches(suffix)`: every trailing copy of `suffix` removed.
pub open spec fn strip_suffixes(s: Seq<char>, suffix: Seq<char>) -> Seq<char>
    decreases s.len(),
{
    if suffix.len() > 0 && has_suffix(s, suffix) {
        strip_suffixes(s.subrange(0, s.len() - suffix.len()), suffix)
    } else {
        s
    }
}

/// What one line of an entry file does: `key value`, split at the first
/// white space.
pub open spec fn conf_step(r: RawView, line: Seq<char>) -> RawView {
    match split_white(clean_line(line)) {
        None => r,
        Some((key, value)) => raw_set(r, key, trim(value)),
    }
}

/// The entry after the lines `ls` of an entry file.
pub open spec fn conf_lines(r: RawView, ls: Seq<Seq<char>>) -> RawView
    decreases ls.len(),
{
    if ls.len() == 0 {
        r
    } else {
        conf_lines(conf_step(r, ls[0]), ls.drop_first())
    }
}

/// The raw entry read from the entry file `name` with text `s`: its title
/// and id default to the file name without `.conf`.
pub open spec fn conf_entry(name: Seq<char>, s: Seq<char>) -> RawView {
    let base = strip_suffixes(name, ".conf"@);
    conf_lines(RawView { title: Some(base), id: Some(base), ..empty_raw() }, lines(s))
}

// ---------------------------------------------------------------------------
// GRUB configuration
// ---------------------------------------------------------------------------

/// The state of the word splitter between characters.
pub struct WordsState {
    pub words: Seq<Seq<char>>,
    pub word: Seq<char>,
    pub quote: Option<char>,
    pub escaped: bool,
}

/// What one character does to the word splitter: quotes group, a backslash
/// escapes the next character, unquoted white space ends a word, and `{`
/// and `;` are dropped.
pub open spec fn words_step(st: WordsState, c: char) -> WordsState {
    if st.escaped {
        WordsState { word: st.word.push(c), escaped: false, ..st }
    } else if c == '\\' {
        WordsState { escaped: true, ..st }
    } else if st.quote == Some(c) {
        WordsState { quote: None, ..st }
    } else if st.quote is None && (c == '\'' || c == '"') {
        WordsState { quote: Some(c), ..st }
    } else if st.quote is None && is_white(c) {
        if st.word.len() > 0 {
            WordsState { words: st.words.push(st.word), word: Seq::empty(), ..st }
        } else {
            st
        }
    } else if c != '{' && c != ';' {
        WordsState { word: st.word.push(c), ..st }
    } else {
        st
    }
}

/// The word splitter's state after the characters of `s`.
pub open spec fn words_fold(s: Seq<char>) -> WordsState
    decreases s.len(),
{
    if s.len() == 0 {
        WordsState { words: Seq::empty(), word: Seq::empty(), quote: None, escaped: false }
    } else {
        words_step(words_fold(s.drop_last()), s.last())
    }
}

/// The words of a GRUB command line.
pub open spec fn shell_words_spec(s: Seq<char>) -> Seq<Seq<char>> {
    let st = words_fold(s);
    if st.word.len() > 0 {
        st.words.push(st.word)
    } else {
        st.words
    }
}

/// The words joined with single spaces.
pub open spec fn join_words(ws: Seq<Seq<char>>) -> Seq<char>
    decreases ws.len(),
{
    if ws.len() == 0 {
        Seq::empty()
    } else if ws.len() == 1 {
        ws[0]
    } else {
        join_words(ws.drop_last()) + seq![' '] + ws.last()
    }
}

/// The id the last `--id=` option gives.
pub open spec fn last_id(options: Seq<Seq<char>>) -> Option<Seq<char>>
    decreases options.len(),
{
    if options.len() == 0 {
        None
    } else if has_prefix(options.last(), "--id="@) {
        Some(options.last().subrange(5, options.last().len() as int))
    } else {
        last_id(options.drop_last())
    }
}

/// The entry a `menuentry` line starts: its first word is the title.
pub open spec fn menuentry_spec(value: Seq<char>) -> Option<RawView> {
    let w = shell_words_spec(value);
    if w.len() == 0 {
        None
    } else {
        Some(RawView { title: Some(w[0]), id: last_id(w.drop_first()), ..empty_raw() })
    }
}

/// What a top-level GRUB line does: `set default=` and `set timeout=`
/// apply when no earlier source set them.
pub open spec fn grub_setting(m: MenuView, line: Seq<char>) -> MenuView {
    if !has_prefix(line, "set "@) {
        m
    } else {
        match split_once(line.subrange(4, line.len() as int), '=') {
            None => m,
            Some((k, v)) => {
                let key = trim(k);
                let value = unquote(trim(v));
                if key == "default"@ && m.default is None {
                    MenuView { default: Some(value), ..m }
                } else if key == "timeout"@ && m.timeout is None {
                    MenuView { timeout: ok_of(parse_u64(value)), ..m }
                } else {
                    m
                }
            },
        }
    }
}

/// What a command inside a `menuentry` block does to the entry.
pub open spec fn grub_command(e: RawView, w: Seq<Seq<char>>) -> RawView {
    let args = w.drop_first();
    if w[0] == "linux"@ || w[0] == "linuxefi"@ {
        if args.len() > 0 {
            RawView {
                kernel: Some(args[0]),
                options: Some(join_words(args.drop_first())),
                ..e
            }
        } else {
            e
        }
    } else if w[0] == "initrd"@ || w[0] == "initrdefi"@ {
        RawView { initrds: e.initrds + args, ..e }
    } else {
        e
    }
}

/// What one line of a GRUB configuration does.
pub open spec fn grub_step(st: ReadState, line: Seq<char>) -> ReadState {
    let l = clean_line(line);
    if has_prefix(l, "menuentry"@) {
        ReadState {
            menu: with_entry(st.menu, st.entry),
            entry: menuentry_spec(l.subrange(9, l.len() as int)),
        }
    } else {
        match st.entry {
            None => ReadState { menu: grub_setting(st.menu, l), entry: None },
            Some(e) => {
                let w = shell_words_spec(l);
                if w.len() == 0 {
                    st
                } else if w[0] == "}"@ {
                    ReadState { menu: with_entry(st.menu, st.entry), entry: None }
                } else {
                    ReadState { entry: Some(grub_command(e, w)), ..st }
                }
            },
        }
    }
}

/// The reader's state after the lines `ls` of a GRUB configuration.
pub open spec fn grub_lines(st: ReadState, ls: Seq<Seq<char>>) -> ReadState
    decreases ls.len(),
{
    if ls.len() == 0 {
        st
    } else {
        grub_lines(grub_step(st, ls[0]), ls.drop_first())
    }
}

/// The menu after reading the GRUB configuration text `s`.
pub open spec fn grub_spec(m: MenuView, s: Seq<char>) -> MenuView {
    let st = grub_lines(ReadState { menu: m, entry: None }, lines(s));
    with_entry(st.menu, st.entry)
}

// ---------------------------------------------------------------------------
// Saving preferences, and reading them early
// ---------------------------------------------------------------------------

/// `line`'s trimmed key and value around its first `=`, comments removed.
pub open spec fn key_value(line: Seq<char>) -> Option<(Seq<char>, Seq<char>)> {
    match split_once(clean_line(line), '=') {
        Some((k, v)) => Some((trim(k), trim(v))),
        None => None,
    }
}

/// Whether `line` sets one of the preferences the editor saves.
pub open spec fn is_setting_line(line: Seq<char>) -> bool {
    match key_value(line) {
        Some((k, _)) => k == "timeout"@ || k == "spinner"@ || k == "logo"@,
        None => false,
    }
}

/// Whether `line` is the `id` of entry `id`.
pub open spec fn names_id(line: Seq<char>, id: Seq<char>) -> bool {
    match key_value(line) {
        Some((k, v)) => k == "id"@ && unquote(v) == id,
        None => false,
    }
}

/// Whether `line` sets an `image`.
pub open spec fn is_image_line(line: Seq<char>) -> bool {
    match key_value(line) {
        Some((k, _)) => k == "image"@,
        None => false,
    }
}

/// Whether `line` sets an `id`.
pub open spec fn is_id_line(line: Seq<char>) -> bool {
    match key_value(line) {
        Some((k, _)) => k == "id"@,
        None => false,
    }
}

/// The `image` line for `image`, if any.
pub open spec fn image_line(image: Option<Image>) -> Seq<char> {
    match image {
        Some(i) => "image = \""@ + crate::splash::image_name(i) + "\"\n"@,
        None => Seq::empty(),
    }
}

/// The saved preferences that start the file.
pub open spec fn settings_head(timeout: u64, mode: Mode, logo: bool) -> Seq<char> {
    "timeout = "@ + crate::text::decimal(timeout as nat) + "\nspinner = \""@
        + crate::spinner::mode_name(mode) + "\"\nlogo = "@ + if logo {
        "true\n"@
    } else {
        "false\n"@
    }
}

/// One line of an entry table as it is saved: the selected entry's `image`
/// line is replaced (or dropped with no image), and an entry without one
/// gets it after its `id`.
pub open spec fn entry_line_out(
    line: Seq<char>,
    selected: bool,
    has_image: bool,
    image: Option<Image>,
) -> Seq<char> {
    if selected && is_image_line(line) {
        image_line(image)
    } else {
        line + seq!['\n'] + if selected && !has_image && is_id_line(line) {
            image_line(image)
        } else {
            Seq::empty()
        }
    }
}

/// The lines of an entry table as they are saved.
pub open spec fn entry_lines_out(
    ls: Seq<Seq<char>>,
    selected: bool,
    has_image: bool,
    image: Option<Image>,
) -> Seq<char>
    decreases ls.len(),
{
    if ls.len() == 0 {
        Seq::empty()
    } else {
        entry_lines_out(ls.drop_last(), selected, has_image, image) + entry_line_out(
            ls.last(),
            selected,
            has_image,
            image,
        )
    }
}

/// An entry table (or the text before the first one) as it is saved; only
/// the table whose `id` is `id` changes.
pub open spec fn append_entry_spec(ls: Seq<Seq<char>>, id: Seq<char>, image: Option<Image>) -> Seq<
    char,
> {
    let selected = exists|i: int| 0 <= i < ls.len() && names_id(#[trigger] ls[i], id);
    let has_image = exists|i: int| 0 <= i < ls.len() && is_image_line(#[trigger] ls[i]);
    entry_lines_out(ls, selected, has_image, image)
}

/// The state of the writer between lines.
pub struct PersistState {
    pub out: Seq<char>,
    pub started: bool,
    pub entry_lines: Seq<Seq<char>>,
}

/// What one line of the old file does: before the first `[[entries]]` the
/// old preference lines are dropped and the others kept; from there on the
/// lines are collected per table.
pub open spec fn persist_step(st: PersistState, line: Seq<char>, id: Seq<char>, image: Option<Image>) -> PersistState {
    let st1 = if clean_line(line) == "[[entries]]"@ {
        PersistState {
            out: st.out + append_entry_spec(st.entry_lines, id, image),
            started: true,
            entry_lines: Seq::empty(),
        }
    } else {
        st
    };
    if st1.started {
        PersistState { entry_lines: st1.entry_lines.push(line), ..st1 }
    } else if is_setting_line(line) {
        st1
    } else {
        PersistState { out: st1.out + line + seq!['\n'], ..st1 }
    }
}

/// The writer's state after the lines `ls`.
pub open spec fn persist_lines(st: PersistState, ls: Seq<Seq<char>>, id: Seq<char>, image: Option<Image>) -> PersistState
    decreases ls.len(),
{
    if ls.len() == 0 {
        st
    } else {
        persist_lines(persist_step(st, ls[0], id, image), ls.drop_first(), id, image)
    }
}

/// The new `r-boot.toml` text: the preferences first, then the old text
/// without its old preference lines, with the splash image of entry `id`
/// set to `image`.
pub open spec fn persisted_text(
    old_text: Seq<char>,
    timeout: u64,
    mode: Mode,
    logo: bool,
    id: Seq<char>,
    image: Option<Image>,
) -> Seq<char> {
    let st = persist_lines(
        PersistState { out: settings_head(timeout, mode, logo), started: false, entry_lines: Seq::empty() },
        lines(old_text),
        id,
        image,
    );
    st.out + append_entry_spec(st.entry_lines, id, image)
}

/// The spinner mode the first `spinner` line before the entries names, or
/// graphical.
pub open spec fn spinner_scan(ls: Seq<Seq<char>>) -> Mode
    decreases ls.len(),
{
    if ls.len() == 0 || clean_line(ls[0]) == "[[entries]]"@ {
        Mode::Graphical
    } else {
        match key_value(ls[0]) {
            Some((k, v)) => if k == "spinner"@ && mode_named(unquote(v)) is Some {
                mode_named(unquote(v))->0
            } else {
                spinner_scan(ls.drop_first())
            },
            None => spinner_scan(ls.drop_first()),
        }
    }
}

/// Whether the first `logo` line before the entries says `true` (or is no
/// boolean); shown when there is none.
pub open spec fn logo_scan(ls: Seq<Seq<char>>) -> bool
    decreases ls.len(),
{
    if ls.len() == 0 || clean_line(ls[0]) == "[[entries]]"@ {
        true
    } else {
        match key_value(ls[0]) {
            Some((k, v)) => if k == "logo"@ {
                match parse_bool(v) {
                    Some(b) => b,
                    None => true,
                }
            } else {
                logo_scan(ls.drop_first())
            },
            None => logo_scan(ls.drop_first()),
        }
    }
}

// ---------------------------------------------------------------------------
// Pages and the default entry
// ---------------------------------------------------------------------------

/// Whether entry `e` is named by the `default` setting `d`: by title, by id,
/// or, for `d` ending in `*`, by an id that starts with the rest of `d`.
pub open spec fn names_entry(e: EntryView, d: Seq<char>) -> bool {
    ||| e.title == d
    ||| e.id == d
    ||| (d.len() > 0 && d.last() == '*' && d.drop_last().len() <= e.id.len() && e.id.subrange(
        0,
        d.drop_last().len() as int,
    ) == d.drop_last())
}

/// The first entry named by `d`, or `es.len()`.
pub open spec fn first_named(es: Seq<EntryView>, d: Seq<char>) -> int
    decreases es.len(),
{
    if es.len() == 0 {
        0
    } else if names_entry(es[0], d) {
        0
    } else {
        1 + first_named(es.drop_first(), d)
    }
}

/// The entry selected when the menu opens: the first one the `default`
/// setting names, else the first.
pub open spec fn default_index_spec(m: MenuView) -> int {
    match m.default {
        None => 0,
        Some(d) => if first_named(m.entries, d) < m.entries.len() {
            first_named(m.entries, d)
        } else {
            0
        },
    }
}

/// The number of pages `n` entries take.
pub open spec fn pages_of(n: int) -> int {
    (n + 9) / 10
}

/// The number of entries on `page`.
pub open spec fn rows_on(page: int, n: int) -> int {
    if page * 10 + 10 < n {
        10
    } else {
        n - page * 10
    }
}

/// The entry selected after moving to `page`: the same row where that page
/// has it, else the page's last row.
pub open spec fn on_page(selected: int, n: int, page: int) -> int {
    page * 10 + if selected % 10 < rows_on(page, n) - 1 {
        selected % 10
    } else {
        rows_on(page, n) - 1
    }
}

// ---------------------------------------------------------------------------
// Executable code
// ---------------------------------------------------------------------------

impl RawEntry {
    /// An entry with no field set.
    pub fn new() -> (r: RawEntry)
        ensures
            r@ == empty_raw(),
    {
        let r = RawEntry {
            id: None,
            title: None,
            kind: None,
            kernel: None,
            initrds: Vec::new(),
            options: None,
            image: None,
        };
        assert(strings_view(r.initrds@) =~= Seq::<Seq<char>>::empty());
        r
    }

    /// Sets one field from a `key value` pair; unknown keys are ignored.
    pub fn set(&mut self, key: &str, value: &str)
        ensures
            final(self)@ == raw_set(old(self)@, key@, value@),
    {
        if text_is(key, "title") {
            self.title = Some(value.to_owned());
        } else if text_is(key, "id") {
            self.id = Some(value.to_owned());
        } else if text_is(key, "kind") {
            self.kind = Some(value.to_owned());
        } else if text_is(key, "linux") || text_is(key, "kernel") {
            self.kernel = Some(value.to_owned());
        } else if text_is(key, "efi") {
            self.kind = Some("efi".to_owned());
            self.kernel = Some(value.to_owned());
        } else if text_is(key, "initrd") {
            self.initrds.push(value.to_owned());
            assert(strings_view(self.initrds@) =~= strings_view(old(self).initrds@).push(value@));
        } else if text_is(key, "options") {
            self.options = Some(value.to_owned());
        } else if text_is(key, "image") {
            self.image = Some(value.to_owned());
        }
    }
}

/// The kind an entry declares, if it is known.
fn kind_of(kind: &Option<String>) -> (r: Option<Kind>)
    ensures
        r == kind_named(opt_view(*kind)),
{
    match kind {
        None => Some(Kind::Linux),
        Some(k) => {
            if text_is(k.as_str(), "limine") {
                Some(Kind::Limine)
            } else if text_is(k.as_str(), "linux") {
                Some(Kind::Linux)
            } else if text_is(k.as_str(), "efi") {
                Some(Kind::Efi)
            } else {
                None
            }
        },
    }
}

impl Menu {
    /// A menu with no entries and the default settings: graphical progress,
    /// firmware logo shown.
    pub fn new() -> (m: Menu)
        ensures
            m@ == initial_menu(),
    {
        let m = Menu {
            entries: Vec::new(),
            default: None,
            timeout: None,
            spinner_mode: Mode::Graphical,
            logo_visible: true,
        };
        assert(entries_view(m.entries@) =~= Seq::<EntryView>::empty());
        m
    }

    pub fn spinner_mode(&self) -> (r: Mode)
        ensures
            r == self@.spinner_mode,
    {
        self.spinner_mode
    }

    pub fn logo_visible(&self) -> (r: bool)
        ensures
            r == self@.logo_visible,
    {
        self.logo_visible
    }

    /// The configured menu timeout in seconds, if any.
    pub fn timeout(&self) -> (r: Option<u64>)
        ensures
            r == self@.timeout,
    {
        self.timeout
    }

    /// Adds a finished entry if it has a kernel and a known kind.
    pub fn push_entry(&mut self, raw: Option<RawEntry>)
        ensures
            final(self)@ == with_entry(old(self)@, raw_opt(raw)),
    {
        let raw = match raw {
            None => {
                return;
            },
            Some(r) => r,
        };
        let kind = match kind_of(&raw.kind) {
            None => {
                return;
            },
            Some(k) => k,
        };
        let RawEntry { id, title, kind: _, kernel, initrds, options, image } = raw;
        let kernel = match kernel {
            None => {
                return;
            },
            Some(k) => k,
        };
        let id = match id {
            Some(i) => i,
            None => match &title {
                Some(t) => t.clone(),
                None => kernel.clone(),
            },
        };
        let title = match title {
            Some(t) => t,
            None => kernel.clone(),
        };
        let image = match &image {
            Some(v) => Image::parse(v.as_str()),
            None => None,
        };
        let entry = Entry { id, title, kind, kernel, initrds, options, image };
        let ghost before = self.entries@;
        self.entries.push(entry);
        assert(entries_view(self.entries@) =~= entries_view(before).push(entry@));
    }

    /// Sets one top-level key of `r-boot.toml`.
    fn toml_set(&mut self, key: &str, value: &str)
        ensures
            final(self)@ == toml_set(old(self)@, key@, value@),
    {
        if text_is(key, "default") {
            self.default = Some(value.to_owned());
        } else if text_is(key, "timeout") {
            let v = chars_of(value);
            assert(v@.subrange(0, v@.len() as int) == v@);
            self.timeout = match parse_u64_range(&v, 0, v.len()) {
                Ok(t) => Some(t),
                Err(_) => None,
            };
        } else if text_is(key, "spinner") {
            if let Some(mode) = Mode::parse(value) {
                self.spinner_mode = mode;
            }
        } else if text_is(key, "logo") {
            let v = chars_of(value);
            assert(v@.subrange(0, v@.len() as int) == v@);
            if let Some(b) = parse_bool_range(&v, 0, v.len()) {
                self.logo_visible = b;
            }
        }
    }

    /// Reads `boot/r-boot.toml`.
    pub fn parse_toml(&mut self, contents: &str)
        ensures
            final(self)@ == parse_toml_spec(old(self)@, contents@),
    {
        let v = chars_of(contents);
        let mut entry: Option<RawEntry> = None;
        let mut pos: usize = 0;
        assert(v@.subrange(0, v@.len() as int) == v@);
        while pos < v.len()
            invariant
                pos <= v@.len(),
                v@ == contents@,
                parse_toml_spec(old(self)@, contents@) == ({
                    let st = toml_lines(
                        ReadState { menu: self@, entry: raw_opt(entry) },
                        lines(v@.subrange(pos as int, v@.len() as int)),
                    );
                    with_entry(st.menu, st.entry)
                }),
            decreases v@.len() - pos,
        {
            let (a, b, next) = next_line(&v, pos);
            let ghost line = v@.subrange(a as int, b as int);
            let ghost rest = lines(v@.subrange(next as int, v@.len() as int));
            let ghost before = ReadState { menu: self@, entry: raw_opt(entry) };
            proof {
                let ls = seq![line] + rest;
                assert(ls[0] == line);
                assert(ls.drop_first() == rest);
            }
            let (lo, hi) = clean_range(&v, a, b);
            if range_eq(&v, lo, hi, "[[entries]]") {
                self.push_entry(entry);
                entry = Some(RawEntry::new());
            } else {
                let eq = find_in(&v, lo, hi, '=');
                proof {
                    let l = v@.subrange(lo as int, hi as int);
                    lemma_find_char(l, '=');
                    if eq < hi {
                        assert(l.subrange(0, eq - lo) == v@.subrange(lo as int, eq as int));
                        assert(l.subrange(eq - lo + 1, l.len() as int) == v@.subrange(
                            eq + 1,
                            hi as int,
                        ));
                    }
                }
                if eq < hi {
                    let (klo, khi) = trim_range(&v, lo, eq);
                    let (tlo, thi) = trim_range(&v, eq + 1, hi);
                    let (vlo, vhi) = unquote_range(&v, tlo, thi);
                    let key = string_of(&v, klo, khi);
                    let value = string_of(&v, vlo, vhi);
                    match entry {
                        Some(mut e) => {
                            e.set(key.as_str(), value.as_str());
                            entry = Some(e);
                        },
                        None => {
                            self.toml_set(key.as_str(), value.as_str());
                            entry = None;
                        },
                    }
                }
            }
            assert(ReadState { menu: self@, entry: raw_opt(entry) } == toml_step(before, line));
            pos = next;
        }
        assert(lines(v@.subrange(pos as int, v@.len() as int)) =~= Seq::<Seq<char>>::empty());
        self.push_entry(entry);
    }

    /// Reads `loader/loader.conf`.
    pub fn parse_loader_config(&mut self, contents: &str)
        ensures
            final(self)@ == loader_lines(old(self)@, lines(contents@)),
    {
        let v = chars_of(contents);
        let mut pos: usize = 0;
        assert(v@.subrange(0, v@.len() as int) == v@);
        while pos < v.len()
            invariant
                pos <= v@.len(),
                v@ == contents@,
                loader_lines(old(self)@, lines(contents@)) == loader_lines(
                    self@,
                    lines(v@.subrange(pos as int, v@.len() as int)),
                ),
            decreases v@.len() - pos,
        {
            let (a, b, next) = next_line(&v, pos);
            let ghost line = v@.subrange(a as int, b as int);
            let ghost rest = lines(v@.subrange(next as int, v@.len() as int));
            let ghost before = self@;
            proof {
                let ls = seq![line] + rest;
                assert(ls[0] == line);
                assert(ls.drop_first() == rest);
            }
            let (lo, hi) = clean_range(&v, a, b);
            let sp = find_white_in(&v, lo, hi);
            proof {
                split_white_at(v@, lo as int, sp as int, hi as int);
            }
            if sp < hi {
                let (tlo, thi) = trim_range(&v, sp + 1, hi);
                if range_eq(&v, lo, sp, "default") && self.default.is_none() {
                    self.default = Some(string_of(&v, tlo, thi));
                } else if range_eq(&v, lo, sp, "timeout") && self.timeout.is_none() {
                    self.timeout = match parse_u64_range(&v, tlo, thi) {
                        Ok(t) => Some(t),
                        Err(_) => None,
                    };
                }
            }
            assert(self@ == loader_step(before, line));
            pos = next;
        }
    }

    /// Adds the entry read from the systemd-boot entry file `name` (which
    /// ends in `.conf`) with text `contents`.
    pub fn load_systemd_entry(&mut self, name: &str, contents: &str)
        ensures
            final(self)@ == with_entry(old(self)@, Some(conf_entry(name@, contents@))),
    {
        let base = entry_base_name(name);
        let mut raw = RawEntry::new();
        raw.title = Some(base.clone());
        raw.id = Some(base);
        let v = chars_of(contents);
        let mut pos: usize = 0;
        assert(v@.subrange(0, v@.len() as int) == v@);
        while pos < v.len()
            invariant
                pos <= v@.len(),
                v@ == contents@,
                conf_entry(name@, contents@) == conf_lines(
                    raw@,
                    lines(v@.subrange(pos as int, v@.len() as int)),
                ),
            decreases v@.len() - pos,
        {
            let (a, b, next) = next_line(&v, pos);
            let ghost line = v@.subrange(a as int, b as int);
            let ghost rest = lines(v@.subrange(next as int, v@.len() as int));
            let ghost before = raw@;
            proof {
                let ls = seq![line] + rest;
                assert(ls[0] == line);
                assert(ls.drop_first() == rest);
            }
            let (lo, hi) = clean_range(&v, a, b);
            let sp = find_white_in(&v, lo, hi);
            proof {
                split_white_at(v@, lo as int, sp as int, hi as int);
            }
            if sp < hi {
                let (tlo, thi) = trim_range(&v, sp + 1, hi);
                let key = string_of(&v, lo, sp);
                let value = string_of(&v, tlo, thi);
                raw.set(key.as_str(), value.as_str());
            }
            assert(raw@ == conf_step(before, line));
            pos = next;
        }
        assert(lines(v@.subrange(pos as int, v@.len() as int)) =~= Seq::<Seq<char>>::empty());
        self.push_entry(Some(raw));
    }

    /// The number of entries.
    pub fn entry_count(&self) -> (n: usize)
        ensures
            n == self@.entries.len(),
    {
        self.entries.len()
    }

    /// Entry `index`.
    pub fn entry_at(&self, index: usize) -> (e: &Entry)
        requires
            index < self@.entries.len(),
        ensures
            e@ == self@.entries[index as int],
    {
        &self.entries[index]
    }

    /// How to boot entry `index`.
    pub fn boot_plan(&self, index: usize) -> (r: crate::boot::BootPlan)
        requires
            index < self@.entries.len(),
        ensures
            r@ == crate::boot::entry_plan_spec(self@.entries[index as int]),
    {
        crate::boot::entry_plan(&self.entries[index])
    }

    /// The entry selected when the menu opens.
    pub fn default_index(&self) -> (r: usize)
        ensures
            r == default_index_spec(self@),
    {
        let d = match &self.default {
            None => {
                return 0;
            },
            Some(d) => d,
        };
        let dv = chars_of(d.as_str());
        let star = dv.len() > 0 && dv[dv.len() - 1] == '*';
        let mut i: usize = 0;
        while i < self.entries.len()
            invariant
                i <= self.entries@.len(),
                dv@ == d@,
                self@.default == Some(d@),
                star == (d@.len() > 0 && d@.last() == '*'),
                forall|j: int| 0 <= j < i ==> !names_entry(self@.entries[j], d@),
            decreases self.entries@.len() - i,
        {
            let e = &self.entries[i];
            let hit = if e.title == *d || e.id == *d {
                true
            } else if star {
                let idv = chars_of(e.id.as_str());
                if idv.len() < dv.len() - 1 {
                    false
                } else {
                    let r = ranges_prefix(&idv, &dv, dv.len() - 1);
                    r
                }
            } else {
                false
            };
            proof {
                assert(self@.entries[i as int] == e@);
                if star {
                    assert(d@.drop_last() == dv@.subrange(0, dv@.len() - 1));
                }
            }
            if hit {
                proof {
                    lemma_first_named(self@.entries, d@, i as int);
                }
                return i;
            }
            i += 1;
        }
        proof {
            lemma_first_named(self@.entries, d@, i as int);
        }
        0
    }
}

impl Menu {
    /// Reads a top-level GRUB line.
    pub fn parse_grub_setting(&mut self, line: &str)
        ensures
            final(self)@ == grub_setting(old(self)@, line@),
    {
        let v = chars_of(line);
        assert(v@.subrange(0, v@.len() as int) == v@);
        if !range_starts_with(&v, 0, v.len(), "set ") {
            return;
        }
        proof {
            reveal_strlit("set ");
        }
        let len = v.len();
        let eq = find_in(&v, 4, len, '=');
        proof {
            let l = v@.subrange(4, len as int);
            lemma_find_char(l, '=');
            if eq < len {
                assert(l.subrange(0, eq - 4) == v@.subrange(4, eq as int));
                assert(l.subrange(eq - 4 + 1, l.len() as int) == v@.subrange(eq + 1, len as int));
            }
        }
        if eq == len {
            return;
        }
        let (klo, khi) = trim_range(&v, 4, eq);
        let (tlo, thi) = trim_range(&v, eq + 1, len);
        let (vlo, vhi) = unquote_range(&v, tlo, thi);
        if range_eq(&v, klo, khi, "default") && self.default.is_none() {
            self.default = Some(string_of(&v, vlo, vhi));
        } else if range_eq(&v, klo, khi, "timeout") && self.timeout.is_none() {
            self.timeout = match parse_u64_range(&v, vlo, vhi) {
                Ok(t) => Some(t),
                Err(_) => None,
            };
        }
    }

    /// Reads a GRUB configuration: static Linux `menuentry` blocks and the
    /// top-level `default` and `timeout` settings.
    pub fn load_grub_config(&mut self, contents: &str)
        ensures
            final(self)@ == grub_spec(old(self)@, contents@),
    {
        let v = chars_of(contents);
        let mut entry: Option<RawEntry> = None;
        let mut pos: usize = 0;
        assert(v@.subrange(0, v@.len() as int) == v@);
        proof {
            reveal_strlit("menuentry");
        }
        while pos < v.len()
            invariant
                pos <= v@.len(),
                v@ == contents@,
                "menuentry"@.len() == 9,
                grub_spec(old(self)@, contents@) == ({
                    let st = grub_lines(
                        ReadState { menu: self@, entry: raw_opt(entry) },
                        lines(v@.subrange(pos as int, v@.len() as int)),
                    );
                    with_entry(st.menu, st.entry)
                }),
            decreases v@.len() - pos,
        {
            let (a, b, next) = next_line(&v, pos);
            let ghost line = v@.subrange(a as int, b as int);
            let ghost rest = lines(v@.subrange(next as int, v@.len() as int));
            let ghost before = ReadState { menu: self@, entry: raw_opt(entry) };
            proof {
                let ls = seq![line] + rest;
                assert(ls[0] == line);
                assert(ls.drop_first() == rest);
            }
            let (lo, hi) = clean_range(&v, a, b);
            let ghost l = v@.subrange(lo as int, hi as int);
            if range_starts_with(&v, lo, hi, "menuentry") {
                self.push_entry(entry);
                let rest_text = string_of(&v, lo + 9, hi);
                assert(rest_text@ == l.subrange(9, l.len() as int));
                entry = parse_grub_menuentry(rest_text.as_str());
            } else {
                match entry {
                    None => {
                        let text = string_of(&v, lo, hi);
                        self.parse_grub_setting(text.as_str());
                        entry = None;
                    },
                    Some(mut e) => {
                        let text = string_of(&v, lo, hi);
                        let words = shell_words(text.as_str());
                        if words.len() == 0 {
                            entry = Some(e);
                        } else if text_is(words[0].as_str(), "}") {
                            proof {
                                assert(strings_view(words@)[0] == words@[0]@);
                            }
                            self.push_entry(Some(e));
                            entry = None;
                        } else {
                            proof {
                                assert(strings_view(words@)[0] == words@[0]@);
                            }
                            grub_command_apply(&mut e, &words);
                            entry = Some(e);
                        }
                    },
                }
            }
            assert(ReadState { menu: self@, entry: raw_opt(entry) } == grub_step(before, line));
            pos = next;
        }
        assert(lines(v@.subrange(pos as int, v@.len() as int)) =~= Seq::<Seq<char>>::empty());
        self.push_entry(entry);
    }
}

/// Applies a command inside a `menuentry` block.
fn grub_command_apply(e: &mut RawEntry, words: &Vec<String>)
    requires
        words@.len() > 0,
    ensures
        final(e)@ == grub_command(old(e)@, strings_view(words@)),
{
    let ghost w = strings_view(words@);
    assert(w[0] == words@[0]@);
    let command = words[0].as_str();
    if text_is(command, "linux") || text_is(command, "linuxefi") {
        if words.len() > 1 {
            e.kernel = Some(words[1].clone());
            let mut options = String::new();
            let mut i: usize = 2;
            proof {
                assert(w.drop_first().drop_first().take(0) =~= Seq::<Seq<char>>::empty());
            }
            while i < words.len()
                invariant
                    2 <= i <= words@.len(),
                    w == strings_view(words@),
                    options@ == join_words(w.drop_first().drop_first().take(i - 2)),
                decreases words@.len() - i,
            {
                proof {
                    let t = w.drop_first().drop_first().take(i - 1);
                    assert(t.drop_last() =~= w.drop_first().drop_first().take(i - 2));
                    assert(t.last() == words@[i as int]@);
                }
                if i > 2 {
                    push_char(&mut options, ' ');
                }
                push_str(&mut options, words[i].as_str());
                proof {
                    let t = w.drop_first().drop_first().take(i - 1);
                    if i == 2 {
                        assert(t.len() == 1);
                        assert(options@ =~= join_words(t));
                    } else {
                        assert(options@ =~= join_words(t));
                    }
                }
                i += 1;
            }
            proof {
                assert(w.drop_first().drop_first().take(i - 2) =~= w.drop_first().drop_first());
                assert(w.drop_first()[0] == words@[1]@);
            }
            e.options = Some(options);
        }
    } else if text_is(command, "initrd") || text_is(command, "initrdefi") {
        let ghost start = e.initrds@;
        let mut i: usize = 1;
        while i < words.len()
            invariant
                1 <= i <= words@.len(),
                w == strings_view(words@),
                strings_view(e.initrds@) == strings_view(start) + w.subrange(1, i as int),
                e.id == old(e).id,
                e.title == old(e).title,
                e.kind == old(e).kind,
                e.kernel == old(e).kernel,
                e.options == old(e).options,
                e.image == old(e).image,
                start == old(e).initrds@,
            decreases words@.len() - i,
        {
            let ghost before = e.initrds@;
            e.initrds.push(words[i].clone());
            assert(strings_view(e.initrds@) =~= strings_view(before).push(words@[i as int]@));
            assert(w.subrange(1, i + 1) =~= w.subrange(1, i as int).push(w[i as int]));
            i += 1;
        }
        assert(w.subrange(1, i as int) =~= w.drop_first());
    }
}

/// Splits a GRUB command line into words: quotes group words and a
/// backslash escapes the next character.
pub fn shell_words(line: &str) -> (r: Vec<String>)
    ensures
        strings_view(r@) == shell_words_spec(line@),
{
    let v = chars_of(line);
    let mut words: Vec<String> = Vec::new();
    let mut word = String::new();
    let mut quote: Option<char> = None;
    let mut escaped = false;
    let mut i: usize = 0;
    assert(strings_view(words@) =~= Seq::<Seq<char>>::empty());
    assert(v@.subrange(0, 0) =~= Seq::<char>::empty());
    while i < v.len()
        invariant
            i <= v@.len(),
            v@ == line@,
            words_fold(v@.subrange(0, i as int)) == (WordsState {
                words: strings_view(words@),
                word: word@,
                quote,
                escaped,
            }),
        decreases v@.len() - i,
    {
        let c = v[i];
        proof {
            let t = v@.subrange(0, i + 1);
            assert(t.drop_last() =~= v@.subrange(0, i as int));
            assert(t.last() == c);
        }
        let ghost words_before = words@;
        if escaped {
            push_char(&mut word, c);
            escaped = false;
        } else if c == '\\' {
            escaped = true;
        } else if quote == Some(c) {
            quote = None;
        } else if quote.is_none() && (c == '\'' || c == '"') {
            quote = Some(c);
        } else if quote.is_none() && is_white_char(c) {
            if !word.as_str().is_empty() {
                words.push(word);
                word = String::new();
                assert(strings_view(words@) =~= strings_view(words_before).push(words@.last()@));
            }
        } else if c != '{' && c != ';' {
            push_char(&mut word, c);
        }
        i += 1;
    }
    assert(v@.subrange(0, v@.len() as int) == v@);
    if !word.as_str().is_empty() {
        let ghost words_before = words@;
        words.push(word);
        assert(strings_view(words@) =~= strings_view(words_before).push(words@.last()@));
    }
    words
}

/// Reads the rest of a `menuentry` line: the title and an optional `--id=`.
pub fn parse_grub_menuentry(value: &str) -> (r: Option<RawEntry>)
    ensures
        raw_opt(r) == menuentry_spec(value@),
{
    let words = shell_words(value);
    let ghost w = strings_view(words@);
    if words.len() == 0 {
        return None;
    }
    let mut entry = RawEntry::new();
    entry.title = Some(words[0].clone());
    proof {
        reveal_strlit("--id=");
        assert(w[0] == words@[0]@);
        assert(w.drop_first().take(0) =~= Seq::<Seq<char>>::empty());
    }
    let mut i: usize = 1;
    while i < words.len()
        invariant
            1 <= i <= words@.len(),
            w == strings_view(words@),
            "--id="@.len() == 5,
            entry@ == (RawView { title: Some(w[0]), id: last_id(w.drop_first().take(i - 1)), ..empty_raw() }),
        decreases words@.len() - i,
    {
        let option = chars_of(words[i].as_str());
        proof {
            let t = w.drop_first().take(i as int);
            assert(t.drop_last() =~= w.drop_first().take(i - 1));
            assert(t.last() == words@[i as int]@);
            assert(option@.subrange(0, option@.len() as int) == option@);
        }
        if range_starts_with(&option, 0, option.len(), "--id=") {
            entry.id = Some(string_of(&option, 5, option.len()));
        }
        i += 1;
    }
    proof {
        assert(w.drop_first().take(i - 1) =~= w.drop_first());
    }
    Some(entry)
}

// ---------------------------------------------------------------------------
// The menu's key handling
// ---------------------------------------------------------------------------

/// A key press, as the menu distinguishes them.
#[derive(Clone, Copy, Debug, PartialEq, Eq, Structural)]
pub enum MenuKey {
    Up,
    Down,
    Left,
    Right,
    Escape,
    /// A printable character.
    Char(char),
    /// Any other key.
    Other,
}

/// The selection and the countdown of an open menu.
#[derive(Clone, Copy, Debug, PartialEq, Eq, Structural)]
pub struct SelectState {
    pub selected: usize,
    /// Seconds left before the selection boots; `None` once a key was
    /// pressed.
    pub remaining: Option<u64>,
}

/// How the menu starts.
#[derive(Clone, Copy, Debug, PartialEq, Eq, Structural)]
pub enum Start {
    /// Boot this entry at once (a zero timeout).
    Boot(usize),
    /// Show the menu and wait, with a one-second timer while a countdown runs.
    Wait(SelectState),
}

/// What a timer tick does.
#[derive(Clone, Copy, Debug, PartialEq, Eq, Structural)]
pub enum Tick {
    /// The countdown ran out: boot this entry.
    Boot(usize),
    /// Update the status line and keep waiting.
    Continue(SelectState),
}

/// What the screen needs after a key press.
#[derive(Clone, Copy, Debug, PartialEq, Eq, Structural)]
pub enum KeyAction {
    /// Boot the selected entry.
    Boot(usize),
    /// Redraw the whole menu.
    Redraw,
    /// Move the `>` marker between two rows of the current page.
    Marker { previous_row: usize, selected_row: usize },
    /// Open the configuration editor for the selected entry.
    Configure,
    /// Nothing changes.
    Ignore,
}

/// The result of a key press in the menu.
#[derive(Clone, Copy, Debug, PartialEq, Eq, Structural)]
pub struct KeyOutcome {
    pub state: SelectState,
    /// The countdown was running and stops now (cancel the timer and
    /// rewrite the status line).
    pub cancel_timer: bool,
    pub action: KeyAction,
}

/// How the menu starts for `m`.
pub open spec fn start_spec(m: MenuView) -> Result<Start, &'static str> {
    if m.entries.len() == 0 {
        Err("no boot entries found")
    } else {
        let t = match m.timeout {
            Some(t) => t,
            None => 5,
        };
        if t == 0 {
            Ok(Start::Boot(default_index_spec(m) as usize))
        } else {
            Ok(
                Start::Wait(
                    SelectState { selected: default_index_spec(m) as usize, remaining: Some(t) },
                ),
            )
        }
    }
}

/// The marker rows for a move from `previous` to `selected`, when both are
/// on one page.
pub open spec fn move_spec(previous: int, selected: int) -> KeyAction {
    if previous / 10 != selected / 10 {
        KeyAction::Redraw
    } else {
        KeyAction::Marker {
            previous_row: (previous - selected / 10 * 10) as usize,
            selected_row: (selected - selected / 10 * 10) as usize,
        }
    }
}

/// The selection after a key, for `n` entries.
pub open spec fn key_selected(selected: int, n: int, key: MenuKey) -> int {
    match key {
        MenuKey::Up => if selected == 0 {
            n - 1
        } else {
            selected - 1
        },
        MenuKey::Down => (selected + 1) % n,
        MenuKey::Left => on_page(selected, n, if selected / 10 == 0 {
            0
        } else {
            selected / 10 - 1
        }),
        MenuKey::Right => on_page(selected, n, if selected / 10 + 1 < pages_of(n) - 1 {
            selected / 10 + 1
        } else {
            pages_of(n) - 1
        }),
        _ => selected,
    }
}

/// What a key press does in the menu of `n` entries.
pub open spec fn key_spec(n: int, st: SelectState, key: MenuKey) -> KeyOutcome {
    let selected = key_selected(st.selected as int, n, key) as usize;
    KeyOutcome {
        state: SelectState { selected, remaining: None },
        cancel_timer: st.remaining is Some,
        action: match key {
            MenuKey::Up => move_spec(st.selected as int, selected as int),
            MenuKey::Down => move_spec(st.selected as int, selected as int),
            MenuKey::Left => KeyAction::Redraw,
            MenuKey::Right => KeyAction::Redraw,
            MenuKey::Char(c) => if c == '\r' {
                KeyAction::Boot(st.selected)
            } else if c == 'c' || c == 'C' {
                KeyAction::Configure
            } else {
                KeyAction::Ignore
            },
            _ => KeyAction::Ignore,
        },
    }
}

/// The preferences being edited in the configuration screen.
#[derive(Clone, Copy, Debug, PartialEq, Eq, Structural)]
pub struct Settings {
    pub timeout: u64,
    pub spinner_mode: Mode,
    pub logo_visible: bool,
    /// The splash image of the entry the editor was opened for.
    pub image: Option<Image>,
    /// The highlighted row: timeout, spinner, logo, image.
    pub selected: usize,
}

/// What a key press does in the configuration screen.
#[derive(Clone, Copy, Debug, PartialEq, Eq, Structural)]
pub enum EditOutcome {
    Continue(Settings),
    /// Save these settings and leave.
    Save(Settings),
    /// Leave without saving.
    Cancel,
}

/// What Left (`forward == false`) or Right does to the highlighted row.
pub open spec fn change_spec(s: Settings, forward: bool) -> Settings {
    if s.selected == 0 {
        Settings {
            timeout: if forward {
                if s.timeout == u64::MAX {
                    u64::MAX
                } else {
                    (s.timeout + 1) as u64
                }
            } else if s.timeout == 0 {
                0
            } else {
                (s.timeout - 1) as u64
            },
            ..s
        }
    } else if s.selected == 1 {
        Settings {
            spinner_mode: if forward {
                crate::spinner::mode_after(s.spinner_mode)
            } else {
                crate::spinner::mode_before(s.spinner_mode)
            },
            ..s
        }
    } else if s.selected == 2 {
        Settings { logo_visible: !s.logo_visible, ..s }
    } else {
        Settings {
            image: if forward {
                match s.image {
                    None => Some(Image::Nixos),
                    Some(i) => crate::splash::image_after(i),
                }
            } else {
                match s.image {
                    None => None,
                    Some(i) => crate::splash::image_before(i),
                }
            },
            ..s
        }
    }
}

/// What a key press does to the settings being edited.
pub open spec fn edit_spec(s: Settings, key: MenuKey) -> EditOutcome {
    match key {
        MenuKey::Up => EditOutcome::Continue(
            Settings {
                selected: if s.selected == 0 {
                    0
                } else {
                    (s.selected - 1) as usize
                },
                ..s
            },
        ),
        MenuKey::Down => EditOutcome::Continue(
            Settings { selected: ((s.selected + 1) % 4) as usize, ..s },
        ),
        MenuKey::Left => EditOutcome::Continue(change_spec(s, false)),
        MenuKey::Right => EditOutcome::Continue(change_spec(s, true)),
        MenuKey::Char(c) => if c == '\r' {
            EditOutcome::Save(s)
        } else {
            EditOutcome::Continue(s)
        },
        MenuKey::Escape => EditOutcome::Cancel,
        MenuKey::Other => EditOutcome::Continue(s),
    }
}

/// Up and Down move the selection by one entry and wrap around only at the
/// ends of the list, and each undoes the other. Within a page the move only
/// redraws the two marker rows.
pub proof fn lemma_up_down_keys(n: int, st: SelectState)
    requires
        st.selected < n <= usize::MAX,
    ensures
        st.selected > 0 ==> key_spec(n, st, MenuKey::Up).state.selected == st.selected - 1,
        st.selected == 0 ==> key_spec(n, st, MenuKey::Up).state.selected == n - 1,
        st.selected + 1 < n ==> key_spec(n, st, MenuKey::Down).state.selected == st.selected + 1,
        st.selected + 1 == n ==> key_spec(n, st, MenuKey::Down).state.selected == 0,
        key_spec(n, key_spec(n, st, MenuKey::Up).state, MenuKey::Down).state.selected
            == st.selected,
        key_spec(n, key_spec(n, st, MenuKey::Down).state, MenuKey::Up).state.selected
            == st.selected,
        st.selected % 10 != 0 ==> key_spec(n, st, MenuKey::Up).action == (KeyAction::Marker {
            previous_row: (st.selected % 10) as usize,
            selected_row: (st.selected % 10 - 1) as usize,
        }),
        st.selected % 10 != 9 && st.selected + 1 < n ==> key_spec(n, st, MenuKey::Down).action
            == (KeyAction::Marker {
            previous_row: (st.selected % 10) as usize,
            selected_row: (st.selected % 10 + 1) as usize,
        }),
{
    let k = st.selected as int;
    assert(n > 0);
    if k > 0 {
        assert((k - 1 + 1) % n == k) by {
            vstd::arithmetic::div_mod::lemma_small_mod(k as nat, n as nat);
        }
    } else {
        assert((n - 1 + 1) % n == 0) by {
            vstd::arithmetic::div_mod::lemma_mod_self_0(n);
        }
    }
    if k + 1 < n {
        vstd::arithmetic::div_mod::lemma_small_mod((k + 1) as nat, n as nat);
    } else {
        vstd::arithmetic::div_mod::lemma_mod_self_0(n);
    }
    if k % 10 != 0 {
        assert((k - 1) / 10 == k / 10 && k - k / 10 * 10 == k % 10) by (nonlinear_arith)
            requires
                k % 10 != 0,
                k > 0,
        ;
        assert((k - 1) - (k - 1) / 10 * 10 == k % 10 - 1) by (nonlinear_arith)
            requires
                k % 10 != 0,
                k > 0,
                (k - 1) / 10 == k / 10,
                k - k / 10 * 10 == k % 10,
        ;
    }
    if k % 10 != 9 && k + 1 < n {
        assert((k + 1) / 10 == k / 10 && k - k / 10 * 10 == k % 10) by (nonlinear_arith)
            requires
                k % 10 != 9,
                k >= 0,
        ;
        assert((k + 1) - (k + 1) / 10 * 10 == k % 10 + 1) by (nonlinear_arith)
            requires
                (k + 1) / 10 == k / 10,
                k - k / 10 * 10 == k % 10,
        ;
    }
}

/// Moving to `page` lands on that page, in range, on the same row where
/// the page has it and else on the last entry.
proof fn lemma_on_page(k: int, n: int, page: int)
    requires
        0 <= k < n,
        0 <= page,
        page * 10 < n,
    ensures
        page * 10 <= on_page(k, n, page) < n,
        on_page(k, n, page) / 10 == page,
        on_page(k, n, page) % 10 <= k % 10,
        on_page(k, n, page) % 10 == k % 10 || on_page(k, n, page) == n - 1,
        page * 10 + 10 <= n ==> on_page(k, n, page) % 10 == k % 10,
{
    let rows = rows_on(page, n);
    let row = if k % 10 < rows - 1 {
        k % 10
    } else {
        rows - 1
    };
    assert(0 <= k % 10 < 10);
    assert(1 <= rows <= 10);
    assert(0 <= row < 10);
    assert((page * 10 + row) / 10 == page && (page * 10 + row) % 10 == row) by (nonlinear_arith)
        requires
            0 <= row < 10,
            page >= 0,
    ;
}

/// Left and Right turn the page: Right goes to the next page, or stays on
/// the last one, and Left to the previous page, or stays on the first; the
/// row is kept where the new page has it (else the last entry is chosen),
/// the selection stays in range, and the whole menu is redrawn.
pub proof fn lemma_page_keys(n: int, st: SelectState)
    requires
        st.selected < n <= usize::MAX,
    ensures
        ({
            let k = st.selected as int;
            let r = key_spec(n, st, MenuKey::Right).state.selected as int;
            let l = key_spec(n, st, MenuKey::Left).state.selected as int;
            &&& 0 <= r < n
            &&& r / 10 == (if k / 10 + 1 <= (n - 1) / 10 {
                k / 10 + 1
            } else {
                k / 10
            })
            &&& r % 10 <= k % 10
            &&& (r % 10 == k % 10 || r == n - 1)
            &&& 0 <= l < n
            &&& l / 10 == (if k / 10 == 0 {
                0
            } else {
                k / 10 - 1
            })
            &&& l % 10 == k % 10
            &&& key_spec(n, st, MenuKey::Right).action == KeyAction::Redraw
            &&& key_spec(n, st, MenuKey::Left).action == KeyAction::Redraw
        }),
{
    let k = st.selected as int;
    assert(pages_of(n) - 1 == (n - 1) / 10) by (nonlinear_arith)
        requires
            n >= 1,
    ;
    assert(k / 10 <= (n - 1) / 10 && ((n - 1) / 10) * 10 < n && (k / 10) * 10 <= k) by (nonlinear_arith)
        requires
            0 <= k < n,
    ;
    let rp = if k / 10 + 1 < pages_of(n) - 1 {
        k / 10 + 1
    } else {
        pages_of(n) - 1
    };
    assert(rp * 10 < n) by (nonlinear_arith)
        requires
            rp == k / 10 + 1 || rp == (n - 1) / 10,
            rp <= (n - 1) / 10,
            ((n - 1) / 10) * 10 < n,
    ;
    lemma_on_page(k, n, rp);
    let lp = if k / 10 == 0 {
        0
    } else {
        k / 10 - 1
    };
    assert(lp * 10 + 10 <= n || lp == k / 10) by (nonlinear_arith)
        requires
            lp == k / 10 - 1 || (lp == 0 && k / 10 == 0),
            (k / 10) * 10 <= k,
            k < n,
    ;
    assert(lp * 10 < n);
    lemma_on_page(k, n, lp);
    if lp == k / 10 {
        assert(on_page(k, n, lp) == k) by (nonlinear_arith)
            requires
                lp == k / 10,
                on_page(k, n, lp) / 10 == lp,
                on_page(k, n, lp) % 10 <= k % 10,
                on_page(k, n, lp) % 10 == k % 10 || on_page(k, n, lp) == n - 1,
                on_page(k, n, lp) >= 0,
                0 <= k < n,
        ;
    }
    assert(key_spec(n, st, MenuKey::Right).state.selected as int == on_page(k, n, rp));
    assert(key_spec(n, st, MenuKey::Left).state.selected as int == on_page(k, n, lp));
}

/// An entry without a kind, or declaring `kind = "linux"`, boots by the
/// Linux EFI handover with its own kernel, initrds and options;
/// `"limine"` and `"efi"` entries boot by the Limine protocol and as a UEFI
/// image; any other kind is no entry.
pub proof fn lemma_entry_kinds(r: RawView)
    ensures
        entry_of(RawView { kind: Some("linux"@), ..r }) == entry_of(RawView { kind: None, ..r }),
        r.kernel matches Some(k) ==> ({
            let e = entry_of(RawView { kind: None, ..r });
            &&& e is Some
            &&& e->0.kind == Kind::Linux
            &&& crate::boot::entry_plan_spec(e->0) == crate::boot::BootPlanView::Linux {
                kernel: k,
                initrds: r.initrds,
                options: r.options,
            }
        }),
        r.kernel matches Some(k) ==> entry_of(RawView { kind: Some("limine"@), ..r })->0.kind
            == Kind::Limine && entry_of(RawView { kind: Some("efi"@), ..r })->0.kind == Kind::Efi,
        r.kind matches Some(s) && s != "linux"@ && s != "limine"@ && s != "efi"@ ==> entry_of(r) is None,
{
    reveal_strlit("linux");
    reveal_strlit("limine");
    reveal_strlit("efi");
    assert("linux"@.len() != "limine"@.len());
    assert("efi"@.len() != "limine"@.len() && "efi"@.len() != "linux"@.len());
}

impl Menu {
    /// How the menu starts: the default entry boots at once with a zero
    /// timeout; otherwise the countdown starts at the timeout (5 seconds
    /// unless configured).
    pub fn begin_select(&self) -> (r: Result<Start, &'static str>)
        ensures
            r == start_spec(self@),
    {
        if self.entries.len() == 0 {
            return Err("no boot entries found");
        }
        let selected = self.default_index();
        let timeout = match self.timeout {
            Some(t) => t,
            None => 5,
        };
        if timeout == 0 {
            return Ok(Start::Boot(selected));
        }
        Ok(Start::Wait(SelectState { selected, remaining: Some(timeout) }))
    }

    /// Handles a key press while the menu is shown.
    pub fn select_key(&self, state: SelectState, key: MenuKey) -> (r: KeyOutcome)
        requires
            state.selected < self@.entries.len(),
        ensures
            r == key_spec(self@.entries.len() as int, state, key),
            r.state.selected < self@.entries.len(),
    {
        let n = self.entries.len();
        let cancel_timer = state.remaining.is_some();
        let previous = state.selected;
        let (selected, action) = match key {
            MenuKey::Up => {
                let selected = if previous == 0 {
                    n - 1
                } else {
                    previous - 1
                };
                (selected, move_selection(previous, selected))
            },
            MenuKey::Down => {
                let selected = (previous + 1) % n;
                (selected, move_selection(previous, selected))
            },
            MenuKey::Left => {
                let current = page_for(previous);
                let page = if current == 0 {
                    0
                } else {
                    current - 1
                };
                (entry_on_page(previous, n, page), KeyAction::Redraw)
            },
            MenuKey::Right => {
                let last_page = page_count(n) - 1;
                let page = if page_for(previous) + 1 < last_page {
                    page_for(previous) + 1
                } else {
                    last_page
                };
                (entry_on_page(previous, n, page), KeyAction::Redraw)
            },
            MenuKey::Char(c) => {
                if c == '\r' {
                    (previous, KeyAction::Boot(previous))
                } else if c == 'c' || c == 'C' {
                    (previous, KeyAction::Configure)
                } else {
                    (previous, KeyAction::Ignore)
                }
            },
            _ => (previous, KeyAction::Ignore),
        };
        KeyOutcome {
            state: SelectState { selected, remaining: None },
            cancel_timer,
            action,
        }
    }

    /// The state after the configuration editor closed: a saved timeout
    /// restarts the countdown (`true`: restart the timer), unless it is zero.
    pub fn after_configure(&self, state: SelectState, saved: bool) -> (r: (SelectState, bool))
        ensures
            !saved ==> r == (state, false),
            saved ==> r.0.selected == state.selected,
            saved ==> ({
                let t = match self@.timeout {
                    Some(t) => t,
                    None => 5u64,
                };
                if t > 0 {
                    r.0.remaining == Some(t) && r.1
                } else {
                    r.0.remaining is None && !r.1
                }
            }),
    {
        if !saved {
            return (state, false);
        }
        let timeout = match self.timeout {
            Some(t) => t,
            None => 5,
        };
        if timeout > 0 {
            (SelectState { selected: state.selected, remaining: Some(timeout) }, true)
        } else {
            (SelectState { selected: state.selected, remaining: None }, false)
        }
    }

    /// The settings the editor opens with, for entry `entry_index`.
    pub fn begin_edit(&self, entry_index: usize) -> (s: Settings)
        requires
            entry_index < self@.entries.len(),
        ensures
            s == (Settings {
                timeout: match self@.timeout {
                    Some(t) => t,
                    None => 5,
                },
                spinner_mode: self@.spinner_mode,
                logo_visible: self@.logo_visible,
                image: self@.entries[entry_index as int].image,
                selected: 0,
            }),
    {
        assert(self@.entries[entry_index as int] == self.entries@[entry_index as int]@);
        Settings {
            timeout: match self.timeout {
                Some(t) => t,
                None => 5,
            },
            spinner_mode: self.spinner_mode,
            logo_visible: self.logo_visible,
            image: self.entries[entry_index].image,
            selected: 0,
        }
    }

    /// Takes saved settings into the running menu.
    pub fn apply_settings(&mut self, settings: &Settings, entry_index: usize)
        requires
            entry_index < old(self)@.entries.len(),
        ensures
            final(self)@.timeout == Some(settings.timeout),
            final(self)@.spinner_mode == settings.spinner_mode,
            final(self)@.logo_visible == settings.logo_visible,
            final(self)@.default == old(self)@.default,
            final(self)@.entries.len() == old(self)@.entries.len(),
            final(self)@.entries[entry_index as int].image == settings.image,
            forall|i: int|
                0 <= i < old(self)@.entries.len() && i != entry_index
                    ==> #[trigger] final(self)@.entries[i] == old(self)@.entries[i],
            ({
                let e = final(self)@.entries[entry_index as int];
                let o = old(self)@.entries[entry_index as int];
                e.id == o.id && e.title == o.title && e.kind == o.kind && e.kernel == o.kernel
                    && e.initrds == o.initrds && e.options == o.options
            }),
    {
        self.timeout = Some(settings.timeout);
        self.spinner_mode = settings.spinner_mode;
        self.logo_visible = settings.logo_visible;
        let mut entry = self.entries.remove(entry_index);
        entry.image = settings.image;
        self.entries.insert(entry_index, entry);
        proof {
            assert forall|i: int|
                0 <= i < old(self)@.entries.len() && i != entry_index implies #[trigger] self@.entries[i]
                == old(self)@.entries[i] by {
                assert(self@.entries[i] == self.entries@[i]@);
                assert(old(self)@.entries[i] == old(self).entries@[i]@);
            }
            assert(self@.entries[entry_index as int] == self.entries@[entry_index as int]@);
            assert(old(self)@.entries[entry_index as int] == old(self).entries@[entry_index as int]@);
        }
    }
}

/// The marker rows for a move within a page, or a full redraw across pages.
pub fn move_selection(previous: usize, selected: usize) -> (r: KeyAction)
    ensures
        r == move_spec(previous as int, selected as int),
{
    if page_for(previous) != page_for(selected) {
        return KeyAction::Redraw;
    }
    let first = page_for(selected) * ENTRIES_PER_PAGE;
    KeyAction::Marker { previous_row: previous - first, selected_row: selected - first }
}

/// What a timer tick does while the countdown runs.
pub fn timer_tick(state: SelectState) -> (r: Tick)
    requires
        state.remaining matches Some(left) && left > 0,
    ensures
        state.remaining == Some(1u64) ==> r == Tick::Boot(state.selected),
        state.remaining != Some(1u64) ==> r == Tick::Continue(
            SelectState {
                selected: state.selected,
                remaining: Some((state.remaining->0 - 1) as u64),
            },
        ),
{
    let left = match state.remaining {
        Some(l) => l,
        None => 1,
    };
    if left == 1 {
        Tick::Boot(state.selected)
    } else {
        Tick::Continue(SelectState { selected: state.selected, remaining: Some(left - 1) })
    }
}

/// Handles a key press in the configuration editor.
pub fn edit_key(settings: Settings, key: MenuKey) -> (r: EditOutcome)
    requires
        settings.selected < 4,
    ensures
        r == edit_spec(settings, key),
        r matches EditOutcome::Continue(s) ==> s.selected < 4,
{
    let mut s = settings;
    match key {
        MenuKey::Up => {
            s.selected = if s.selected == 0 {
                0
            } else {
                s.selected - 1
            };
            EditOutcome::Continue(s)
        },
        MenuKey::Down => {
            s.selected = (s.selected + 1) % 4;
            EditOutcome::Continue(s)
        },
        MenuKey::Left => EditOutcome::Continue(change_setting(s, false)),
        MenuKey::Right => EditOutcome::Continue(change_setting(s, true)),
        MenuKey::Char(c) => {
            if c == '\r' {
                EditOutcome::Save(s)
            } else {
                EditOutcome::Continue(s)
            }
        },
        MenuKey::Escape => EditOutcome::Cancel,
        MenuKey::Other => EditOutcome::Continue(s),
    }
}

/// Left or Right on the highlighted row of the editor.
fn change_setting(s: Settings, forward: bool) -> (r: Settings)
    requires
        s.selected < 4,
    ensures
        r == change_spec(s, forward),
{
    let mut r = s;
    if s.selected == 0 {
        r.timeout = if forward {
            s.timeout.saturating_add(1)
        } else {
            s.timeout.saturating_sub(1)
        };
    } else if s.selected == 1 {
        r.spinner_mode = if forward {
            s.spinner_mode.next()
        } else {
            s.spinner_mode.previous()
        };
    } else if s.selected == 2 {
        r.logo_visible = !s.logo_visible;
    } else {
        r.image = if forward {
            match s.image {
                None => Some(Image::Nixos),
                Some(i) => i.next(),
            }
        } else {
            match s.image {
                None => None,
                Some(i) => i.previous(),
            }
        };
    }
    r
}

// ---------------------------------------------------------------------------
// Saving preferences, and reading them early
// ---------------------------------------------------------------------------

/// `line`'s trimmed key and value around its first `=`, comments removed.
pub fn key_value_of(line: &str) -> (r: Option<(String, String)>)
    ensures
        r matches Some(kv) ==> key_value(line@) == Some((kv.0@, kv.1@)),
        r is None ==> key_value(line@) is None,
{
    let v = chars_of(line);
    assert(v@.subrange(0, v@.len() as int) == v@);
    let (lo, hi) = clean_range(&v, 0, v.len());
    let eq = find_in(&v, lo, hi, '=');
    proof {
        let l = v@.subrange(lo as int, hi as int);
        lemma_find_char(l, '=');
        if eq < hi {
            assert(l.subrange(0, eq - lo) == v@.subrange(lo as int, eq as int));
            assert(l.subrange(eq - lo + 1, l.len() as int) == v@.subrange(eq + 1, hi as int));
        }
    }
    if eq == hi {
        return None;
    }
    let (klo, khi) = trim_range(&v, lo, eq);
    let (vlo, vhi) = trim_range(&v, eq + 1, hi);
    Some((string_of(&v, klo, khi), string_of(&v, vlo, vhi)))
}

/// Whether `line`'s key is `key`.
fn has_key(line: &str, key: &str) -> (r: bool)
    ensures
        r == (key_value(line@) matches Some(kv) && kv.0 == key@),
{
    match key_value_of(line) {
        Some((k, _)) => text_is(k.as_str(), key),
        None => false,
    }
}

/// `unquote` of a string.
fn unquoted(s: &str) -> (r: String)
    ensures
        r@ == unquote(s@),
{
    let v = chars_of(s);
    assert(v@.subrange(0, v@.len() as int) == v@);
    let (lo, hi) = unquote_range(&v, 0, v.len());
    string_of(&v, lo, hi)
}

/// Whether `line` is the `id` of entry `id`.
fn names_id_line(line: &str, id: &str) -> (r: bool)
    ensures
        r == names_id(line@, id@),
{
    match key_value_of(line) {
        Some((k, v)) => {
            if text_is(k.as_str(), "id") {
                let u = unquoted(v.as_str());
                text_is(u.as_str(), id)
            } else {
                false
            }
        },
        None => false,
    }
}

/// Appends the `image` line for `image`, if any.
fn push_image_line(out: &mut String, image: Option<Image>)
    ensures
        final(out)@ == old(out)@ + image_line(image),
{
    if let Some(i) = image {
        let ghost s0 = out@;
        push_str(out, "image = \"");
        push_str(out, i.as_str());
        push_str(out, "\"\n");
        assert(out@ =~= s0 + image_line(image));
    }
}

/// Appends an entry table (or the text before the first one) as it is
/// saved.
pub fn append_entry(updated: &mut String, lines: &Vec<String>, entry_id: &str, image: Option<Image>)
    ensures
        final(updated)@ == old(updated)@ + append_entry_spec(strings_view(lines@), entry_id@, image),
{
    let ghost ls = strings_view(lines@);
    let mut selected = false;
    let mut has_image = false;
    let mut i: usize = 0;
    while i < lines.len()
        invariant
            i <= lines@.len(),
            ls == strings_view(lines@),
            selected == exists|j: int| 0 <= j < i && names_id(#[trigger] ls[j], entry_id@),
            has_image == exists|j: int| 0 <= j < i && is_image_line(#[trigger] ls[j]),
        decreases lines@.len() - i,
    {
        assert(ls[i as int] == lines@[i as int]@);
        if names_id_line(lines[i].as_str(), entry_id) {
            selected = true;
        }
        if has_key(lines[i].as_str(), "image") {
            has_image = true;
        }
        i += 1;
    }
    let ghost s0 = updated@;
    let mut i: usize = 0;
    assert(ls.take(0) =~= Seq::<Seq<char>>::empty());
    while i < lines.len()
        invariant
            i <= lines@.len(),
            ls == strings_view(lines@),
            selected == exists|j: int| 0 <= j < ls.len() && names_id(#[trigger] ls[j], entry_id@),
            has_image == exists|j: int| 0 <= j < ls.len() && is_image_line(#[trigger] ls[j]),
            updated@ == s0 + entry_lines_out(ls.take(i as int), selected, has_image, image),
        decreases lines@.len() - i,
    {
        let line = lines[i].as_str();
        proof {
            assert(ls[i as int] == line@);
            let t = ls.take(i + 1);
            assert(t.drop_last() =~= ls.take(i as int));
            assert(t.last() == line@);
        }
        let ghost before = updated@;
        if selected && has_key(line, "image") {
            push_image_line(updated, image);
        } else {
            push_str(updated, line);
            push_char(updated, '\n');
            if selected && !has_image && has_key(line, "id") {
                push_image_line(updated, image);
            }
        }
        assert(updated@ =~= before + entry_line_out(line@, selected, has_image, image));
        i += 1;
    }
    assert(ls.take(i as int) =~= ls);
}

/// The new `r-boot.toml` text after the configuration editor saved
/// `timeout`, `spinner_mode`, `logo_visible`, and `image` for entry
/// `entry_id`; `contents` is the old text (empty when there was none).
pub fn persist_settings(
    contents: &str,
    timeout: u64,
    spinner_mode: Mode,
    logo_visible: bool,
    entry_id: &str,
    image: Option<Image>,
) -> (r: String)
    ensures
        r@ == persisted_text(contents@, timeout, spinner_mode, logo_visible, entry_id@, image),
{
    let mut updated = String::new();
    push_str(&mut updated, "timeout = ");
    crate::text::push_decimal(&mut updated, timeout);
    push_str(&mut updated, "\nspinner = \"");
    push_str(&mut updated, spinner_mode.as_str());
    push_str(&mut updated, "\"\nlogo = ");
    push_str(
        &mut updated,
        if logo_visible {
            "true\n"
        } else {
            "false\n"
        },
    );
    assert(updated@ =~= settings_head(timeout, spinner_mode, logo_visible));
    let v = chars_of(contents);
    let mut started = false;
    let mut entry_lines: Vec<String> = Vec::new();
    let mut pos: usize = 0;
    assert(v@.subrange(0, v@.len() as int) == v@);
    assert(strings_view(entry_lines@) =~= Seq::<Seq<char>>::empty());
    while pos < v.len()
        invariant
            pos <= v@.len(),
            v@ == contents@,
            persisted_text(contents@, timeout, spinner_mode, logo_visible, entry_id@, image) == ({
                let st = persist_lines(
                    PersistState {
                        out: updated@,
                        started,
                        entry_lines: strings_view(entry_lines@),
                    },
                    lines(v@.subrange(pos as int, v@.len() as int)),
                    entry_id@,
                    image,
                );
                st.out + append_entry_spec(st.entry_lines, entry_id@, image)
            }),
        decreases v@.len() - pos,
    {
        let (a, b, next) = next_line(&v, pos);
        let ghost line = v@.subrange(a as int, b as int);
        let ghost rest = lines(v@.subrange(next as int, v@.len() as int));
        let ghost before = PersistState {
            out: updated@,
            started,
            entry_lines: strings_view(entry_lines@),
        };
        proof {
            let ls = seq![line] + rest;
            assert(ls[0] == line);
            assert(ls.drop_first() == rest);
        }
        let text = string_of(&v, a, b);
        let (lo, hi) = clean_range(&v, a, b);
        if range_eq(&v, lo, hi, "[[entries]]") {
            append_entry(&mut updated, &entry_lines, entry_id, image);
            entry_lines = Vec::new();
            started = true;
            assert(strings_view(entry_lines@) =~= Seq::<Seq<char>>::empty());
        }
        if started {
            let ghost el = entry_lines@;
            entry_lines.push(text);
            assert(strings_view(entry_lines@) =~= strings_view(el).push(line));
        } else if has_key(text.as_str(), "timeout") || has_key(text.as_str(), "spinner") || has_key(
            text.as_str(),
            "logo",
        ) {
        } else {
            let ghost u0 = updated@;
            push_str(&mut updated, text.as_str());
            push_char(&mut updated, '\n');
            assert(updated@ =~= u0 + line + seq!['\n']);
        }
        assert((PersistState {
            out: updated@,
            started,
            entry_lines: strings_view(entry_lines@),
        }) == persist_step(before, line, entry_id@, image));
        pos = next;
    }
    assert(lines(v@.subrange(pos as int, v@.len() as int)) =~= Seq::<Seq<char>>::empty());
    append_entry(&mut updated, &entry_lines, entry_id, image);
    updated
}

/// The spinner preference of `r-boot.toml` text, read early, before the
/// entries are discovered; an invalid or missing setting keeps the
/// graphical default.
pub fn configured_spinner_mode(contents: &str) -> (r: Mode)
    ensures
        r == spinner_scan(lines(contents@)),
{
    let v = chars_of(contents);
    let mut pos: usize = 0;
    assert(v@.subrange(0, v@.len() as int) == v@);
    while pos < v.len()
        invariant
            pos <= v@.len(),
            v@ == contents@,
            spinner_scan(lines(contents@)) == spinner_scan(
                lines(v@.subrange(pos as int, v@.len() as int)),
            ),
        decreases v@.len() - pos,
    {
        let (a, b, next) = next_line(&v, pos);
        let ghost line = v@.subrange(a as int, b as int);
        let ghost rest = lines(v@.subrange(next as int, v@.len() as int));
        proof {
            let ls = seq![line] + rest;
            assert(ls[0] == line);
            assert(ls.drop_first() == rest);
        }
        let (lo, hi) = clean_range(&v, a, b);
        if range_eq(&v, lo, hi, "[[entries]]") {
            return Mode::Graphical;
        }
        let text = string_of(&v, a, b);
        if let Some((k, value)) = key_value_of(text.as_str()) {
            if text_is(k.as_str(), "spinner") {
                let u = unquoted(value.as_str());
                if let Some(mode) = Mode::parse(u.as_str()) {
                    return mode;
                }
            }
        }
        pos = next;
    }
    assert(lines(v@.subrange(pos as int, v@.len() as int)) =~= Seq::<Seq<char>>::empty());
    Mode::Graphical
}

/// The firmware-logo preference of `r-boot.toml` text, read early: the
/// first `logo` setting decides, and a value that is no boolean, or no
/// setting, shows the logo.
pub fn configured_logo_visible(contents: &str) -> (r: bool)
    ensures
        r == logo_scan(lines(contents@)),
{
    let v = chars_of(contents);
    let mut pos: usize = 0;
    assert(v@.subrange(0, v@.len() as int) == v@);
    while pos < v.len()
        invariant
            pos <= v@.len(),
            v@ == contents@,
            logo_scan(lines(contents@)) == logo_scan(lines(v@.subrange(pos as int, v@.len() as int))),
        decreases v@.len() - pos,
    {
        let (a, b, next) = next_line(&v, pos);
        let ghost line = v@.subrange(a as int, b as int);
        let ghost rest = lines(v@.subrange(next as int, v@.len() as int));
        proof {
            let ls = seq![line] + rest;
            assert(ls[0] == line);
            assert(ls.drop_first() == rest);
        }
        let (lo, hi) = clean_range(&v, a, b);
        if range_eq(&v, lo, hi, "[[entries]]") {
            return true;
        }
        let text = string_of(&v, a, b);
        if let Some((k, value)) = key_value_of(text.as_str()) {
            if text_is(k.as_str(), "logo") {
                let w = chars_of(value.as_str());
                assert(w@.subrange(0, w@.len() as int) == w@);
                return match parse_bool_range(&w, 0, w.len()) {
                    Some(b) => b,
                    None => true,
                };
            }
        }
        pos = next;
    }
    assert(lines(v@.subrange(pos as int, v@.len() as int)) =~= Seq::<Seq<char>>::empty());
    true
}

/// Whether `a` starts with the first `n` characters of `b`.
fn ranges_prefix(a: &Vec<char>, b: &Vec<char>, n: usize) -> (r: bool)
    requires
        n <= a@.len(),
        n <= b@.len(),
    ensures
        r == (a@.subrange(0, n as int) == b@.subrange(0, n as int)),
{
    let mut i: usize = 0;
    while i < n
        invariant
            n <= a@.len(),
            n <= b@.len(),
            i <= n,
            a@.subrange(0, i as int) == b@.subrange(0, i as int),
        decreases n - i,
    {
        if a[i] != b[i] {
            assert(a@.subrange(0, n as int)[i as int] != b@.subrange(0, n as int)[i as int]);
            return false;
        }
        assert(a@.subrange(0, i + 1) =~= a@.subrange(0, i as int).push(a@[i as int]));
        assert(b@.subrange(0, i + 1) =~= b@.subrange(0, i as int).push(b@[i as int]));
        i += 1;
    }
    true
}

/// The first index naming `d` is the first that does, or the length.
proof fn lemma_first_named(es: Seq<EntryView>, d: Seq<char>, k: int)
    requires
        0 <= k <= es.len(),
        forall|j: int| 0 <= j < k ==> !names_entry(es[j], d),
        k < es.len() ==> names_entry(es[k], d),
    ensures
        first_named(es, d) == k,
    decreases es.len(),
{
    if es.len() > 0 && k > 0 {
        let t = es.drop_first();
        assert forall|j: int| 0 <= j < k - 1 implies !names_entry(t[j], d) by {
            assert(t[j] == es[j + 1]);
        }
        lemma_first_named(t, d, k - 1);
    }
}

/// The split at the first white space of `v[lo..hi]`, found at `sp`.
proof fn split_white_at(v: Seq<char>, lo: int, sp: int, hi: int)
    requires
        0 <= lo <= sp <= hi <= v.len(),
        sp - lo == find_white(v.subrange(lo, hi)),
    ensures
        sp < hi ==> split_white(v.subrange(lo, hi)) == Some(
            (v.subrange(lo, sp), v.subrange(sp + 1, hi)),
        ),
        sp == hi ==> split_white(v.subrange(lo, hi)) is None,
{
    let l = v.subrange(lo, hi);
    assert(l.subrange(0, sp - lo) == v.subrange(lo, sp));
    if sp < hi {
        assert(l.subrange(sp - lo + 1, l.len() as int) == v.subrange(sp + 1, hi));
    }
}

/// The file name of a systemd-boot entry, without its `.conf` suffixes.
fn entry_base_name(name: &str) -> (r: String)
    ensures
        r@ == strip_suffixes(name@, ".conf"@),
{
    let v = chars_of(name);
    let mut hi = v.len();
    proof {
        reveal_strlit(".conf");
    }
    assert(v@.subrange(0, v@.len() as int) == v@);
    while range_ends_with(&v, 0, hi, ".conf")
        invariant
            hi <= v@.len(),
            v@ == name@,
            ".conf"@.len() == 5,
            strip_suffixes(name@, ".conf"@) == strip_suffixes(v@.subrange(0, hi as int), ".conf"@),
        decreases hi,
    {
        assert(v@.subrange(0, hi as int).subrange(0, hi - 5) == v@.subrange(0, hi - 5));
        hi = hi - 5;
    }
    string_of(&v, 0, hi)
}

/// Whether a file in `loader/entries` is an entry file.
pub fn is_entry_file_name(name: &str) -> (r: bool)
    ensures
        r == has_suffix(name@, ".conf"@),
{
    let v = chars_of(name);
    assert(v@.subrange(0, v@.len() as int) == v@);
    range_ends_with(&v, 0, v.len(), ".conf")
}

/// The number of pages `entry_count` entries take.
pub fn page_count(entry_count: usize) -> (r: usize)
    ensures
        r == pages_of(entry_count as int),
{
    entry_count / ENTRIES_PER_PAGE + if entry_count % ENTRIES_PER_PAGE == 0 {
        0
    } else {
        1
    }
}

/// The page that shows entry `entry_index`.
pub fn page_for(entry_index: usize) -> (r: usize)
    ensures
        r == entry_index / 10,
{
    entry_index / ENTRIES_PER_PAGE
}

/// The entry selected after moving to `page`, keeping the row within the
/// page where that page has it, else its last row.
pub fn entry_on_page(selected: usize, entry_count: usize, page: usize) -> (r: usize)
    requires
        page * 10 < entry_count,
    ensures
        r == on_page(selected as int, entry_count as int, page as int),
        page * 10 <= r < entry_count,
        r / 10 == page,
{
    let first = page * ENTRIES_PER_PAGE;
    let last = if entry_count - first > ENTRIES_PER_PAGE {
        first + ENTRIES_PER_PAGE
    } else {
        entry_count
    };
    let row = selected % ENTRIES_PER_PAGE;
    let r = first + if row < last - first - 1 {
        row
    } else {
        last - first - 1
    };
    r
}

// ---------------------------------------------------------------------------
// Saved preferences read back
// ---------------------------------------------------------------------------

/// The first line of a saved file.
pub open spec fn timeout_line(t: u64) -> Seq<char> {
    "timeout"@ + seq![' ', '=', ' '] + crate::text::decimal(t as nat)
}

/// The second line of a saved file.
pub open spec fn spinner_line(m: Mode) -> Seq<char> {
    "spinner"@ + seq![' ', '=', ' '] + (seq!['"'] + crate::spinner::mode_name(m) + seq!['"'])
}

/// The third line of a saved file.
pub open spec fn logo_line(b: bool) -> Seq<char> {
    "logo"@ + seq![' ', '=', ' '] + crate::text::bool_text(b)
}

/// The writer only appends.
proof fn lemma_persist_prefix(st: PersistState, ls: Seq<Seq<char>>, id: Seq<char>, image: Option<Image>)
    ensures
        persist_lines(st, ls, id, image).out.len() >= st.out.len(),
        persist_lines(st, ls, id, image).out.subrange(0, st.out.len() as int) == st.out,
    decreases ls.len(),
{
    if ls.len() > 0 {
        let st2 = persist_step(st, ls[0], id, image);
        let st1 = if clean_line(ls[0]) == "[[entries]]"@ {
            PersistState {
                out: st.out + append_entry_spec(st.entry_lines, id, image),
                started: true,
                entry_lines: Seq::empty(),
            }
        } else {
            st
        };
        assert(st1.out.subrange(0, st.out.len() as int) =~= st.out);
        assert(st2.out.subrange(0, st.out.len() as int) =~= st.out);
        lemma_persist_prefix(st2, ls.drop_first(), id, image);
        let f = persist_lines(st2, ls.drop_first(), id, image);
        assert(f.out.subrange(0, st.out.len() as int) =~= f.out.subrange(0, st2.out.len() as int).subrange(
            0,
            st.out.len() as int,
        ));
    }
}

/// The key names of the saved preference lines.
proof fn lemma_setting_keys()
    ensures
        crate::text::key_ok("timeout"@),
        crate::text::key_ok("spinner"@),
        crate::text::key_ok("logo"@),
        "timeout"@ != "spinner"@,
        "timeout"@ != "logo"@,
        "spinner"@ != "logo"@,
        "[[entries]]"@[0] == '[',
{
    reveal_strlit("timeout");
    reveal_strlit("spinner");
    reveal_strlit("logo");
    reveal_strlit("[[entries]]");
    assert(!crate::text::has_char("timeout"@, '=') && !crate::text::has_char("timeout"@, '#')
        && !crate::text::has_char("timeout"@, '\n'));
    assert(!crate::text::has_char("spinner"@, '=') && !crate::text::has_char("spinner"@, '#')
        && !crate::text::has_char("spinner"@, '\n'));
    assert(!crate::text::has_char("logo"@, '=') && !crate::text::has_char("logo"@, '#')
        && !crate::text::has_char("logo"@, '\n'));
    assert("timeout"@[1] != "spinner"@[1]);
    assert("timeout"@.len() != "logo"@.len());
    assert("spinner"@.len() != "logo"@.len());
}

/// How the three preference lines read.
proof fn lemma_setting_lines(t: u64, m: Mode, b: bool)
    ensures
        !crate::text::has_char(timeout_line(t), '\n'),
        !crate::text::has_char(spinner_line(m), '\n'),
        !crate::text::has_char(logo_line(b), '\n'),
        crate::text::strip_cr(timeout_line(t)) == timeout_line(t),
        crate::text::strip_cr(spinner_line(m)) == spinner_line(m),
        crate::text::strip_cr(logo_line(b)) == logo_line(b),
        clean_line(timeout_line(t)) != "[[entries]]"@,
        clean_line(spinner_line(m)) != "[[entries]]"@,
        clean_line(logo_line(b)) != "[[entries]]"@,
        key_value(timeout_line(t)) == Some(("timeout"@, crate::text::decimal(t as nat))),
        key_value(spinner_line(m)) == Some(
            ("spinner"@, seq!['"'] + crate::spinner::mode_name(m) + seq!['"']),
        ),
        key_value(logo_line(b)) == Some(("logo"@, crate::text::bool_text(b))),
{
    lemma_setting_keys();
    assert(crate::text::is_white('\r'));
    // timeout
    let d = crate::text::decimal(t as nat);
    crate::text::lemma_decimal_digits(t as nat, u64::MAX as int);
    assert(!crate::text::has_char(d, '\n') && !crate::text::has_char(d, '#')) by {
        if crate::text::has_char(d, '\n') {
            let j = choose|j: int| 0 <= j < d.len() && d[j] == '\n';
            assert(crate::text::is_digit(d[j]));
        }
        if crate::text::has_char(d, '#') {
            let j = choose|j: int| 0 <= j < d.len() && d[j] == '#';
            assert(crate::text::is_digit(d[j]));
        }
    }
    assert(crate::text::is_digit(d[0]));
    assert(crate::text::is_digit(d.last()));
    crate::text::lemma_assignment_line("timeout"@, d);
    // spinner
    let name = crate::spinner::mode_name(m);
    reveal_strlit("off");
    reveal_strlit("text");
    reveal_strlit("graphical");
    let q = seq!['"'] + name + seq!['"'];
    assert(!crate::text::has_char(q, '\n') && !crate::text::has_char(q, '#')) by {
        assert forall|j: int| 0 <= j < q.len() implies q[j] != '\n' && q[j] != '#' by {
            if 0 < j < q.len() - 1 {
                assert(q[j] == name[j - 1]);
            }
        }
    }
    crate::text::lemma_assignment_line("spinner"@, q);
    // logo
    let bt = crate::text::bool_text(b);
    reveal_strlit("true");
    reveal_strlit("false");
    assert(!crate::text::has_char(bt, '\n') && !crate::text::has_char(bt, '#')) by {
        assert forall|j: int| 0 <= j < bt.len() implies bt[j] != '\n' && bt[j] != '#' by {
        }
    }
    crate::text::lemma_assignment_line("logo"@, bt);
}

/// The saved file starts with its three preference lines.
proof fn lemma_head_lines(t: u64, m: Mode, b: bool, rest: Seq<char>)
    ensures
        lines(settings_head(t, m, b) + rest) == seq![timeout_line(t), spinner_line(m), logo_line(b)]
            + lines(rest),
{
    lemma_setting_lines(t, m, b);
    reveal_strlit("timeout = ");
    reveal_strlit("\nspinner = \"");
    reveal_strlit("\"\nlogo = ");
    reveal_strlit("true\n");
    reveal_strlit("false\n");
    reveal_strlit("timeout");
    reveal_strlit("spinner");
    reveal_strlit("logo");
    reveal_strlit("true");
    reveal_strlit("false");
    let l1 = timeout_line(t);
    let l2 = spinner_line(m);
    let l3 = logo_line(b);
    assert(settings_head(t, m, b) + rest =~= l1.push('\n') + (l2.push('\n') + (l3.push('\n')
        + rest)));
    crate::text::lemma_lines_cons(l1, l2.push('\n') + (l3.push('\n') + rest));
    crate::text::lemma_lines_cons(l2, l3.push('\n') + rest);
    crate::text::lemma_lines_cons(l3, rest);
    assert(seq![l1] + (seq![l2] + (seq![l3] + lines(rest))) =~= seq![l1, l2, l3] + lines(rest));
}

/// The text of `ks`, each line followed by a newline.
spec fn join_lines(ks: Seq<Seq<char>>) -> Seq<char>
    decreases ks.len(),
{
    if ks.len() == 0 {
        Seq::empty()
    } else {
        join_lines(ks.drop_last()) + ks.last().push('\n')
    }
}

/// A line the writer keeps ahead of the entry tables.
spec fn kept_line(k: Seq<char>) -> bool {
    &&& !crate::text::has_char(k, '\n')
    &&& !is_setting_line(k)
    &&& clean_line(k) != "[[entries]]"@
}

/// A line that opens an entry table.
spec fn table_line(f: Seq<char>) -> bool {
    !crate::text::has_char(f, '\n') && clean_line(f) == "[[entries]]"@
}

/// No line ahead of the first entry table sets a saved preference.
spec fn settings_free(ls: Seq<Seq<char>>) -> bool
    decreases ls.len(),
{
    ls.len() == 0 || clean_line(ls[0]) == "[[entries]]"@ || (!is_setting_line(ls[0])
        && settings_free(ls.drop_first()))
}

/// The lines as `lines` gives them back.
spec fn read_back(ks: Seq<Seq<char>>) -> Seq<Seq<char>> {
    Seq::new(ks.len(), |i: int| crate::text::strip_cr(ks[i]))
}

/// The three preferences the editor saves.
spec fn same_prefs(a: MenuView, b: MenuView) -> bool {
    a.timeout == b.timeout && a.spinner_mode == b.spinner_mode && a.logo_visible == b.logo_visible
}

/// What the writer has produced: the head `pre`, the kept lines `ks`, and
/// from the first entry table `f` on, that table (still pending or
/// already written).
spec fn persist_shape(st: PersistState, pre: Seq<char>, ks: Seq<Seq<char>>, f: Seq<char>) -> bool {
    &&& forall|i: int| 0 <= i < ks.len() ==> kept_line(#[trigger] ks[i])
    &&& if !st.started {
        st.out == pre + join_lines(ks) && st.entry_lines.len() == 0
    } else {
        &&& table_line(f)
        &&& ((st.out == pre + join_lines(ks) && st.entry_lines.len() > 0 && st.entry_lines[0] == f)
            || crate::text::has_prefix(st.out, pre + join_lines(ks) + f.push('\n')))
    }
}

/// A saved text after the head `pre`: kept lines, then possibly an entry
/// table and anything after it.
spec fn good_text(pre: Seq<char>, text: Seq<char>) -> bool {
    exists|ks: Seq<Seq<char>>, f: Seq<char>| #[trigger] good_split(pre, text, ks, f)
}

/// `text` is the head `pre`, the kept lines `ks`, and possibly the entry
/// table `f` and anything after it.
spec fn good_split(pre: Seq<char>, text: Seq<char>, ks: Seq<Seq<char>>, f: Seq<char>) -> bool {
    &&& forall|i: int| 0 <= i < ks.len() ==> kept_line(#[trigger] ks[i])
    &&& (text == pre + join_lines(ks) || (table_line(f) && crate::text::has_prefix(
        text,
        pre + join_lines(ks) + f.push('\n'),
    )))
}

/// No line of `lines(s)` holds a newline.
proof fn lemma_lines_no_newline(s: Seq<char>)
    ensures
        forall|j: int| 0 <= j < lines(s).len() ==> !crate::text::has_char(#[trigger] lines(s)[j], '\n'),
    decreases s.len(),
{
    if s.len() > 0 {
        let i = crate::text::find_char(s, '\n');
        crate::text::lemma_find_char(s, '\n');
        if 0 <= i < s.len() {
            let rest = s.subrange(i + 1, s.len() as int);
            lemma_lines_no_newline(rest);
            let first = crate::text::strip_cr(s.subrange(0, i));
            assert(!crate::text::has_char(first, '\n')) by {
                if crate::text::has_char(first, '\n') {
                    let j = choose|j: int| 0 <= j < first.len() && first[j] == '\n';
                    assert(s[j] == '\n');
                }
            }
            assert forall|j: int| 0 <= j < lines(s).len() implies !crate::text::has_char(
                #[trigger] lines(s)[j],
                '\n',
            ) by {
                if j > 0 {
                    assert(lines(s)[j] == lines(rest)[j - 1]);
                }
            }
        } else {
            assert(!crate::text::has_char(s, '\n')) by {
                crate::text::lemma_has_char(s, '\n');
            }
            assert(lines(s) == seq![s]);
        }
    }
}

/// Reading joined lines gives them back.
proof fn lemma_lines_join(ks: Seq<Seq<char>>, r: Seq<char>)
    requires
        forall|i: int| 0 <= i < ks.len() ==> !crate::text::has_char(#[trigger] ks[i], '\n'),
    ensures
        lines(join_lines(ks) + r) == read_back(ks) + lines(r),
    decreases ks.len(),
{
    if ks.len() == 0 {
        assert(join_lines(ks) + r =~= r);
        assert(read_back(ks) + lines(r) =~= lines(r));
    } else {
        let k = ks.last();
        let rr = k.push('\n') + r;
        assert(!crate::text::has_char(ks[ks.len() - 1], '\n'));
        assert forall|i: int| 0 <= i < ks.drop_last().len() implies !crate::text::has_char(
            #[trigger] ks.drop_last()[i],
            '\n',
        ) by {
            assert(ks.drop_last()[i] == ks[i]);
        }
        lemma_lines_join(ks.drop_last(), rr);
        crate::text::lemma_lines_cons(k, r);
        assert(join_lines(ks) + r =~= join_lines(ks.drop_last()) + rr);
        assert(read_back(ks.drop_last()) + (seq![crate::text::strip_cr(k)] + lines(r))
            =~= read_back(ks) + lines(r));
    }
}

/// Kept lines read back keep no preference ahead of the entries.
proof fn lemma_kept_free(ks: Seq<Seq<char>>, l: Seq<Seq<char>>)
    requires
        forall|i: int| 0 <= i < ks.len() ==> kept_line(#[trigger] ks[i]),
        settings_free(l),
    ensures
        settings_free(read_back(ks) + l),
    decreases ks.len(),
{
    let m = read_back(ks) + l;
    if ks.len() == 0 {
        assert(m =~= l);
    } else {
        let k = ks[0];
        assert(kept_line(k));
        crate::text::lemma_clean_strip_cr(k);
        assert(m[0] == crate::text::strip_cr(k));
        assert(key_value(m[0]) == key_value(k));
        assert forall|i: int| 0 <= i < ks.drop_first().len() implies kept_line(
            #[trigger] ks.drop_first()[i],
        ) by {
            assert(ks.drop_first()[i] == ks[i + 1]);
        }
        lemma_kept_free(ks.drop_first(), l);
        assert(m.drop_first() =~= read_back(ks.drop_first()) + l);
    }
}

/// An entry table is written from its first line on.
proof fn lemma_entry_lines_front(ls: Seq<Seq<char>>, selected: bool, has_image: bool, image: Option<Image>)
    requires
        ls.len() > 0,
    ensures
        entry_lines_out(ls, selected, has_image, image) == entry_line_out(
            ls[0],
            selected,
            has_image,
            image,
        ) + entry_lines_out(ls.drop_first(), selected, has_image, image),
    decreases ls.len(),
{
    if ls.len() == 1 {
        assert(ls.drop_last() =~= Seq::<Seq<char>>::empty());
        assert(ls.drop_first() =~= Seq::<Seq<char>>::empty());
        let o = entry_line_out(ls[0], selected, has_image, image);
        assert(Seq::<char>::empty() + o =~= o);
        assert(o + Seq::<char>::empty() =~= o);
    } else {
        lemma_entry_lines_front(ls.drop_last(), selected, has_image, image);
        assert(ls.drop_last().drop_first() =~= ls.drop_first().drop_last());
        assert(ls.drop_first().last() == ls.last());
        assert(ls.drop_last()[0] == ls[0]);
        let a = entry_line_out(ls[0], selected, has_image, image);
        let b = entry_lines_out(ls.drop_first().drop_last(), selected, has_image, image);
        let c = entry_line_out(ls.last(), selected, has_image, image);
        assert((a + b) + c =~= a + (b + c));
    }
}

/// An entry table's first line is written as it is.
proof fn lemma_table_line_out(f: Seq<char>, selected: bool, has_image: bool, image: Option<Image>)
    requires
        table_line(f),
    ensures
        entry_line_out(f, selected, has_image, image) == f.push('\n'),
{
    reveal_strlit("[[entries]]");
    assert(!crate::text::has_char("[[entries]]"@, '=')) by {
        assert forall|j: int| 0 <= j < "[[entries]]"@.len() implies "[[entries]]"@[j] != '=' by {
        }
    }
    crate::text::lemma_find_absent("[[entries]]"@, '=');
    assert(key_value(f) is None);
    assert(f + seq!['\n'] + Seq::<char>::empty() =~= f.push('\n'));
}

/// Saved texts keep their shape through each line of the old text.
proof fn lemma_persist_good(
    st: PersistState,
    ls: Seq<Seq<char>>,
    id: Seq<char>,
    image: Option<Image>,
    pre: Seq<char>,
    ks: Seq<Seq<char>>,
    f: Seq<char>,
)
    requires
        persist_shape(st, pre, ks, f),
        forall|j: int| 0 <= j < ls.len() ==> !crate::text::has_char(#[trigger] ls[j], '\n'),
    ensures
        good_text(
            pre,
            persist_lines(st, ls, id, image).out + append_entry_spec(
                persist_lines(st, ls, id, image).entry_lines,
                id,
                image,
            ),
        ),
    decreases ls.len(),
{
    if ls.len() == 0 {
        let text = st.out + append_entry_spec(st.entry_lines, id, image);
        let p = pre + join_lines(ks) + f.push('\n');
        if !st.started {
            assert(st.entry_lines =~= Seq::<Seq<char>>::empty());
            assert(text =~= pre + join_lines(ks));
        } else if st.out == pre + join_lines(ks) && st.entry_lines.len() > 0 && st.entry_lines[0] == f {
            let el = st.entry_lines;
            let selected = exists|i: int| 0 <= i < el.len() && names_id(#[trigger] el[i], id);
            let has_image = exists|i: int| 0 <= i < el.len() && is_image_line(#[trigger] el[i]);
            lemma_entry_lines_front(el, selected, has_image, image);
            lemma_table_line_out(f, selected, has_image, image);
            let tail = entry_lines_out(el.drop_first(), selected, has_image, image);
            assert(text =~= p + tail);
            assert(text.subrange(0, p.len() as int) =~= p);
        } else {
            assert(text.subrange(0, p.len() as int) =~= st.out.subrange(0, p.len() as int));
        }
        assert(good_split(pre, text, ks, f));
    } else {
        let line = ls[0];
        let st2 = persist_step(st, line, id, image);
        let p = pre + join_lines(ks) + f.push('\n');
        assert(!crate::text::has_char(line, '\n'));
        let (ks2, f2) = if clean_line(line) == "[[entries]]"@ {
            if !st.started {
                assert(st.entry_lines =~= Seq::<Seq<char>>::empty());
                assert(st2.out =~= pre + join_lines(ks));
                assert(st2.entry_lines[0] == line);
                (ks, line)
            } else {
                let el = st.entry_lines;
                let a = append_entry_spec(el, id, image);
                if st.out == pre + join_lines(ks) && el.len() > 0 && el[0] == f {
                    let selected = exists|i: int| 0 <= i < el.len() && names_id(#[trigger] el[i], id);
                    let has_image = exists|i: int|
                        0 <= i < el.len() && is_image_line(#[trigger] el[i]);
                    lemma_entry_lines_front(el, selected, has_image, image);
                    lemma_table_line_out(f, selected, has_image, image);
                    let tail = entry_lines_out(el.drop_first(), selected, has_image, image);
                    assert(st2.out =~= p + tail);
                } else {
                    assert(st.out.subrange(0, p.len() as int) == p);
                }
                assert(st2.out.subrange(0, p.len() as int) =~= p);
                (ks, f)
            }
        } else if st.started {
            assert(st.entry_lines.len() > 0 ==> st2.entry_lines[0] == st.entry_lines[0]);
            (ks, f)
        } else if is_setting_line(line) {
            (ks, f)
        } else {
            let k2 = ks.push(line);
            assert(k2.drop_last() =~= ks);
            assert(st2.out =~= pre + join_lines(k2));
            assert forall|i: int| 0 <= i < k2.len() implies kept_line(#[trigger] k2[i]) by {
                if i < ks.len() {
                    assert(k2[i] == ks[i]);
                }
            }
            (k2, f)
        };
        assert(persist_shape(st2, pre, ks2, f2));
        assert forall|j: int| 0 <= j < ls.drop_first().len() implies !crate::text::has_char(
            #[trigger] ls.drop_first()[j],
            '\n',
        ) by {
            assert(ls.drop_first()[j] == ls[j + 1]);
        }
        lemma_persist_good(st2, ls.drop_first(), id, image, pre, ks2, f2);
    }
}

/// Inside the entry tables the preferences stay as they are.
proof fn lemma_toml_in_entries(st: ReadState, ls: Seq<Seq<char>>)
    requires
        st.entry is Some,
    ensures
        same_prefs(toml_lines(st, ls).menu, st.menu),
        toml_lines(st, ls).entry is Some,
    decreases ls.len(),
{
    if ls.len() > 0 {
        let st2 = toml_step(st, ls[0]);
        assert(same_prefs(st2.menu, st.menu));
        lemma_toml_in_entries(st2, ls.drop_first());
    }
}

/// Lines that set no preference ahead of the entry tables leave the
/// preferences as they are.
proof fn lemma_toml_free(st: ReadState, ls: Seq<Seq<char>>)
    requires
        st.entry is None,
        settings_free(ls),
    ensures
        same_prefs(toml_lines(st, ls).menu, st.menu),
    decreases ls.len(),
{
    if ls.len() > 0 {
        let st2 = toml_step(st, ls[0]);
        if clean_line(ls[0]) == "[[entries]]"@ {
            lemma_toml_in_entries(st2, ls.drop_first());
        } else {
            assert(!is_setting_line(ls[0]));
            assert(same_prefs(st2.menu, st.menu));
            lemma_toml_free(st2, ls.drop_first());
        }
    }
}

/// After the head of a saved file, no line ahead of the entry tables sets
/// a saved preference.
proof fn lemma_saved_rest_free(
    old_text: Seq<char>,
    timeout: u64,
    mode: Mode,
    logo: bool,
    id: Seq<char>,
    image: Option<Image>,
) -> (rest: Seq<char>)
    ensures
        persisted_text(old_text, timeout, mode, logo, id, image) == settings_head(timeout, mode, logo)
            + rest,
        settings_free(lines(rest)),
{
    let head = settings_head(timeout, mode, logo);
    let st0 = PersistState { out: head, started: false, entry_lines: Seq::empty() };
    let none = Seq::<Seq<char>>::empty();
    lemma_lines_no_newline(old_text);
    assert(head + join_lines(none) =~= head);
    assert(persist_shape(st0, head, none, Seq::empty()));
    lemma_persist_good(st0, lines(old_text), id, image, head, none, Seq::empty());
    let text = persisted_text(old_text, timeout, mode, logo, id, image);
    assert(good_text(head, text));
    let (ks, f) = choose|ks: Seq<Seq<char>>, f: Seq<char>| good_split(head, text, ks, f);
    assert forall|i: int| 0 <= i < ks.len() implies !crate::text::has_char(#[trigger] ks[i], '\n') by {
        assert(kept_line(ks[i]));
    }
    let rest = text.subrange(head.len() as int, text.len() as int);
    if text == head + join_lines(ks) {
        assert(rest =~= join_lines(ks));
        assert(join_lines(ks) + Seq::<char>::empty() =~= join_lines(ks));
        lemma_lines_join(ks, Seq::empty());
        assert(lines(Seq::<char>::empty()) =~= none);
        lemma_kept_free(ks, none);
        assert(read_back(ks) + none =~= read_back(ks));
    } else {
        let p = head + join_lines(ks) + f.push('\n');
        let y = text.subrange(p.len() as int, text.len() as int);
        assert(text =~= p + y);
        assert(rest =~= join_lines(ks) + (f.push('\n') + y));
        lemma_lines_join(ks, f.push('\n') + y);
        crate::text::lemma_lines_cons(f, y);
        crate::text::lemma_clean_strip_cr(f);
        let l = seq![crate::text::strip_cr(f)] + lines(y);
        assert(l[0] == crate::text::strip_cr(f));
        assert(settings_free(l));
        lemma_kept_free(ks, l);
    }
    assert(text =~= head + rest);
    rest
}

/// The preferences the configuration editor saves are the ones the menu
/// reads from `r-boot.toml` on the next boot: the timeout, the spinner
/// mode and whether the firmware logo is shown, whatever the menu held
/// before.
pub proof fn lemma_saved_preferences_reload(
    m: MenuView,
    old_text: Seq<char>,
    timeout: u64,
    mode: Mode,
    logo: bool,
    id: Seq<char>,
    image: Option<Image>,
)
    ensures
        parse_toml_spec(m, persisted_text(old_text, timeout, mode, logo, id, image)).timeout == Some(
            timeout,
        ),
        parse_toml_spec(m, persisted_text(old_text, timeout, mode, logo, id, image)).spinner_mode
            == mode,
        parse_toml_spec(m, persisted_text(old_text, timeout, mode, logo, id, image)).logo_visible
            == logo,
{
    let rest = lemma_saved_rest_free(old_text, timeout, mode, logo, id, image);
    lemma_head_lines(timeout, mode, logo, rest);
    lemma_setting_lines(timeout, mode, logo);
    lemma_setting_keys();
    reveal_strlit("default");
    reveal_strlit("timeout");
    reveal_strlit("spinner");
    reveal_strlit("logo");
    reveal_strlit("true");
    reveal_strlit("false");
    assert("timeout"@[0] != "default"@[0]);
    assert("spinner"@[0] != "default"@[0]);
    assert("logo"@[0] != "default"@[0]);
    crate::spinner::lemma_mode_name_round_trip(mode);
    crate::text::lemma_parse_decimal_u64(timeout);
    crate::text::lemma_decimal_digits(timeout as nat, u64::MAX as int);
    crate::text::lemma_parse_bool_text(logo);
    let d = crate::text::decimal(timeout as nat);
    let q = seq!['"'] + crate::spinner::mode_name(mode) + seq!['"'];
    let bt = crate::text::bool_text(logo);
    assert(unquote(d) == d);
    assert(unquote(q) =~= crate::spinner::mode_name(mode));
    assert(unquote(bt) == bt);
    let (l1, l2, l3) = (timeout_line(timeout), spinner_line(mode), logo_line(logo));
    let ls = seq![l1, l2, l3] + lines(rest);
    let s0 = ReadState { menu: m, entry: None };
    let s1 = toml_step(s0, l1);
    let s2 = toml_step(s1, l2);
    let s3 = toml_step(s2, l3);
    assert(s1.menu.timeout == Some(timeout) && s1.entry is None);
    assert(s2.menu.timeout == Some(timeout) && s2.menu.spinner_mode == mode && s2.entry is None);
    assert(s3.menu.timeout == Some(timeout) && s3.menu.spinner_mode == mode
        && s3.menu.logo_visible == logo && s3.entry is None);
    assert(ls[0] == l1);
    assert(ls.drop_first() =~= seq![l2, l3] + lines(rest));
    assert(ls.drop_first()[0] == l2);
    assert(ls.drop_first().drop_first() =~= seq![l3] + lines(rest));
    assert(ls.drop_first().drop_first()[0] == l3);
    assert(ls.drop_first().drop_first().drop_first() =~= lines(rest));
    assert(toml_lines(s0, ls) == toml_lines(s1, ls.drop_first()));
    assert(toml_lines(s1, ls.drop_first()) == toml_lines(s2, ls.drop_first().drop_first()));
    assert(toml_lines(s2, ls.drop_first().drop_first()) == toml_lines(
        s3,
        ls.drop_first().drop_first().drop_first(),
    ));
    lemma_toml_free(s3, lines(rest));
}

/// The preferences the configuration editor saves are the ones the boot
/// loader reads back early on the next boot: the spinner mode and whether
/// the firmware logo is shown.
pub proof fn lemma_saved_preferences_read_back(
    old_text: Seq<char>,
    timeout: u64,
    mode: Mode,
    logo: bool,
    id: Seq<char>,
    image: Option<Image>,
)
    ensures
        spinner_scan(lines(persisted_text(old_text, timeout, mode, logo, id, image))) == mode,
        logo_scan(lines(persisted_text(old_text, timeout, mode, logo, id, image))) == logo,
{
    let head = settings_head(timeout, mode, logo);
    let st0 = PersistState { out: head, started: false, entry_lines: Seq::empty() };
    let st = persist_lines(st0, lines(old_text), id, image);
    lemma_persist_prefix(st0, lines(old_text), id, image);
    let text = persisted_text(old_text, timeout, mode, logo, id, image);
    let rest = text.subrange(head.len() as int, text.len() as int);
    assert(text =~= head + rest);
    lemma_head_lines(timeout, mode, logo, rest);
    lemma_setting_lines(timeout, mode, logo);
    lemma_setting_keys();
    crate::spinner::lemma_mode_name_round_trip(mode);
    let ls = seq![timeout_line(timeout), spinner_line(mode), logo_line(logo)] + lines(rest);
    assert(ls[0] == timeout_line(timeout));
    assert(ls.drop_first()[0] == spinner_line(mode));
    assert(ls.drop_first().drop_first()[0] == logo_line(logo));
    assert(unquote(seq!['"'] + crate::spinner::mode_name(mode) + seq!['"']) =~= crate::spinner::mode_name(mode));
    assert(spinner_scan(ls) == spinner_scan(ls.drop_first()));
    assert(logo_scan(ls) == logo_scan(ls.drop_first()));
    assert(logo_scan(ls.drop_first()) == logo_scan(ls.drop_first().drop_first()));
    reveal_strlit("true");
    reveal_strlit("false");
    assert(parse_bool(crate::text::bool_text(logo)) == Some(logo)) by {
        crate::text::lemma_parse_bool_text(logo);
    }
}

} // verus!
