//! A minimal shell for browsing the boot file system: `ls [path]`,
//! `cd <path>` and `exit`. This module holds its line editor, command
//! parsing, path resolution and listing order; the caller reads keys and
//! the file system.

use vstd::prelude::*;
use crate::menu::MenuKey;
use crate::text::{chars_of, find_white, find_white_in, owned, split_white, string_of, text_is, trim, trim_range};

verus! {

/// The root directory of the boot file system.
pub const ROOT: &'static str = "\\";

// ---------------------------------------------------------------------------
// The line editor
// ---------------------------------------------------------------------------

/// `char::is_control`: the Unicode `Cc` category.
pub open spec fn is_control(c: char) -> bool {
    (c as u32) <= 0x1f || (0x7f <= (c as u32) && (c as u32) <= 0x9f)
}

/// What a key does to the line being typed.
#[derive(Clone, Copy, Debug, PartialEq, Eq, Structural)]
pub enum LineEvent {
    /// The line is complete (Enter).
    Submit,
    /// Typing was abandoned (Escape).
    Cancel,
    /// A character was added; echo it.
    Typed(char),
    /// The last character was removed; erase it on screen.
    Erased,
    /// Nothing changes.
    Ignored,
}

/// The line being typed.
pub struct LineEditor {
    chars: Vec<char>,
}

impl View for LineEditor {
    type V = Seq<char>;

    closed spec fn view(&self) -> Seq<char> {
        self.chars@
    }
}

impl LineEditor {
    pub fn new() -> (e: LineEditor)
        ensures
            e@ == Seq::<char>::empty(),
    {
        LineEditor { chars: Vec::new() }
    }

    /// Handles a key: Enter submits, Escape cancels, backspace removes the
    /// last character, and other printable characters that are not control
    /// characters are added.
    pub fn key(&mut self, key: MenuKey) -> (r: LineEvent)
        ensures
            key == MenuKey::Char('\r') ==> r == LineEvent::Submit && final(self)@ == old(self)@,
            key == MenuKey::Escape ==> r == LineEvent::Cancel && final(self)@ == old(self)@,
            key == MenuKey::Char('\u{8}') ==> if old(self)@.len() > 0 {
                r == LineEvent::Erased && final(self)@ == old(self)@.drop_last()
            } else {
                r == LineEvent::Ignored && final(self)@ == old(self)@
            },
            key is Char && key->Char_0 != '\r' && key->Char_0 != '\u{8}' ==> if is_control(
                key->Char_0,
            ) {
                r == LineEvent::Ignored && final(self)@ == old(self)@
            } else {
                r == LineEvent::Typed(key->Char_0) && final(self)@ == old(self)@.push(key->Char_0)
            },
            !(key is Char) && key != MenuKey::Escape ==> r == LineEvent::Ignored && final(self)@
                == old(self)@,
    {
        match key {
            MenuKey::Char(c) => {
                if c == '\r' {
                    LineEvent::Submit
                } else if c == '\u{8}' {
                    if self.chars.len() > 0 {
                        self.chars.pop();
                        LineEvent::Erased
                    } else {
                        LineEvent::Ignored
                    }
                } else {
                    let n = c as u32;
                    if n <= 0x1f || (0x7f <= n && n <= 0x9f) {
                        LineEvent::Ignored
                    } else {
                        self.chars.push(c);
                        LineEvent::Typed(c)
                    }
                }
            },
            MenuKey::Escape => LineEvent::Cancel,
            _ => LineEvent::Ignored,
        }
    }

    /// The text typed so far.
    pub fn line(&self) -> (s: String)
        ensures
            s@ == self@,
    {
        assert(self.chars@.subrange(0, self.chars@.len() as int) == self.chars@);
        string_of(&self.chars, 0, self.chars.len())
    }
}

// ---------------------------------------------------------------------------
// Commands
// ---------------------------------------------------------------------------

/// A shell command.
#[derive(Debug)]
pub enum ShellCommand {
    Ls(String),
    Cd(String),
    Exit,
    Unknown(String),
}

pub enum ShellCommandView {
    Ls(Seq<char>),
    Cd(Seq<char>),
    Exit,
    Unknown(Seq<char>),
}

impl View for ShellCommand {
    type V = ShellCommandView;

    open spec fn view(&self) -> ShellCommandView {
        match self {
            ShellCommand::Ls(a) => ShellCommandView::Ls(a@),
            ShellCommand::Cd(a) => ShellCommandView::Cd(a@),
            ShellCommand::Exit => ShellCommandView::Exit,
            ShellCommand::Unknown(c) => ShellCommandView::Unknown(c@),
        }
    }
}

/// The command a line asks for: its first word, and the trimmed rest as
/// the argument; none for a blank line.
pub open spec fn command_spec(line: Seq<char>) -> Option<ShellCommandView> {
    let l = trim(line);
    if l.len() == 0 {
        None
    } else {
        let (command, argument) = match split_white(l) {
            Some((c, a)) => (c, trim(a)),
            None => (l, Seq::empty()),
        };
        if command == "ls"@ {
            Some(ShellCommandView::Ls(argument))
        } else if command == "cd"@ {
            Some(ShellCommandView::Cd(argument))
        } else if command == "exit"@ || command == "quit"@ {
            Some(ShellCommandView::Exit)
        } else {
            Some(ShellCommandView::Unknown(command))
        }
    }
}

/// Parses a typed line.
pub fn parse_command(line: &str) -> (r: Option<ShellCommand>)
    ensures
        match r {
            Some(c) => command_spec(line@) == Some(c@),
            None => command_spec(line@) is None,
        },
{
    let v = chars_of(line);
    assert(v@.subrange(0, v@.len() as int) == v@);
    let (lo, hi) = trim_range(&v, 0, v.len());
    if lo == hi {
        return None;
    }
    let sp = find_white_in(&v, lo, hi);
    let ghost l = v@.subrange(lo as int, hi as int);
    proof {
        assert(l.subrange(0, sp - lo) == v@.subrange(lo as int, sp as int));
        if sp < hi {
            assert(l.subrange(sp - lo + 1, l.len() as int) == v@.subrange(sp + 1, hi as int));
        } else {
            assert(l.subrange(0, sp - lo) == l);
        }
    }
    let command = string_of(&v, lo, sp);
    let argument = if sp < hi {
        let (alo, ahi) = trim_range(&v, sp + 1, hi);
        string_of(&v, alo, ahi)
    } else {
        String::new()
    };
    if text_is(command.as_str(), "ls") {
        Some(ShellCommand::Ls(argument))
    } else if text_is(command.as_str(), "cd") {
        Some(ShellCommand::Cd(argument))
    } else if text_is(command.as_str(), "exit") || text_is(command.as_str(), "quit") {
        Some(ShellCommand::Exit)
    } else {
        Some(ShellCommand::Unknown(command))
    }
}

// ---------------------------------------------------------------------------
// Paths
// ---------------------------------------------------------------------------

/// Whether `CString16::try_from` accepts `s`: every character is one
/// UCS-2 unit and none is NUL.
pub open spec fn ucs2_text(s: Seq<char>) -> bool {
    forall|i: int| 0 <= i < s.len() ==> 0 < (#[trigger] s[i] as u32) <= 0xffff
}

/// `s` with every `/` turned into `\`.
pub open spec fn backslashed(s: Seq<char>) -> Seq<char> {
    s.map_values(|c: char| if c == '/' { '\\' } else { c })
}

/// The text of `path` with `name` pushed onto it as a `uefi` `PathBuf`
/// does; none when either is not UCS-2 text without NUL. Every `/` becomes
/// `\` (the path when it is made a `PathBuf`, the whole text on a push); an
/// empty name adds nothing, otherwise a `\` goes between a non-empty path and the
/// name (also after a path that ends in one: the check for a trailing
/// separator sees the terminating NUL).
pub open spec fn uefi_pushed(path: Seq<char>, name: Seq<char>) -> Option<Seq<char>> {
    if !ucs2_text(path) || !ucs2_text(name) {
        None
    } else if name.len() == 0 {
        Some(backslashed(path))
    } else if path.len() == 0 {
        Some(backslashed(name))
    } else {
        Some(backslashed(path + seq!['\\'] + name))
    }
}

/// `s.split('\\')`: the pieces between backslashes.
pub open spec fn split_backslash(s: Seq<char>) -> Seq<Seq<char>>
    decreases s.len(),
{
    let i = crate::text::find_char(s, '\\');
    if 0 <= i < s.len() {
        proof {
            crate::text::lemma_find_char(s, '\\');
        }
        seq![s.subrange(0, i)] + split_backslash(s.subrange(i + 1, s.len() as int))
    } else {
        seq![s]
    }
}

/// The components a `uefi` `Path` iterates over: none for the empty path
/// or `\` alone; otherwise the pieces between backslashes, after one
/// leading backslash is skipped.
pub open spec fn uefi_components(p: Seq<char>) -> Seq<Seq<char>> {
    if p.len() == 0 || p == seq!['\\'] {
        Seq::empty()
    } else if p[0] == '\\' {
        split_backslash(p.drop_first())
    } else {
        split_backslash(p)
    }
}

/// The components joined as `Path::parent` joins them: a backslash before
/// each one, except at the start and after a backslash.
pub open spec fn uefi_join(cs: Seq<Seq<char>>) -> Seq<char>
    decreases cs.len(),
{
    if cs.len() == 0 {
        Seq::empty()
    } else {
        let acc = uefi_join(cs.drop_last());
        (if acc.len() > 0 && acc.last() != '\\' {
            acc.push('\\')
        } else {
            acc
        }) + cs.last()
    }
}

/// The text of the parent of `path` as a `uefi` `Path` computes it: none
/// for text that is not UCS-2 without NUL, for a path without components
/// and for one without a backslash; otherwise all components but the last,
/// joined.
pub open spec fn uefi_parent(path: Seq<char>) -> Option<Seq<char>> {
    let p = backslashed(path);
    let cs = uefi_components(p);
    if !ucs2_text(path) || cs.len() == 0 || !crate::text::has_char(p, '\\') {
        None
    } else {
        Some(uefi_join(cs.take(cs.len() - 1)))
    }
}

/// The text of an optional string.
pub open spec fn opt_text(o: Option<String>) -> Option<Seq<char>> {
    match o {
        Some(s) => Some(s@),
        None => None,
    }
}

/// `PathBuf::push` of the `uefi` crate, with both texts converted by
/// `CString16::try_from` and the result shown with `Display`: the text
/// `uefi_pushed` states.
#[verifier::external_body]
fn path_push(path: &str, name: &str) -> (r: Option<String>)
    ensures
        opt_text(r) == uefi_pushed(path@, name@),
{
    let name = uefi::CString16::try_from(name).ok()?;
    let mut buf = uefi::fs::PathBuf::from(uefi::CString16::try_from(path).ok()?);
    buf.push(uefi::fs::Path::new(&name));
    Some(buf.to_string())
}

/// `Path::parent` of the `uefi` crate, the path converted by
/// `CString16::try_from` and the result shown with `Display`: the text
/// `uefi_parent` states.
#[verifier::external_body]
fn path_parent(path: &str) -> (r: Option<String>)
    ensures
        opt_text(r) == uefi_parent(path@),
{
    let buf = uefi::fs::PathBuf::from(uefi::CString16::try_from(path).ok()?);
    buf.parent().map(|p| p.to_string())
}

/// Whether `c` separates path components as the user types them.
pub open spec fn is_sep(c: char) -> bool {
    c == '\\' || c == '/'
}

/// Index of the last separator of `s`, or -1.
pub open spec fn last_sep(s: Seq<char>) -> int
    decreases s.len(),
{
    if s.len() == 0 {
        -1
    } else if is_sep(s.last()) {
        s.len() - 1
    } else {
        last_sep(s.drop_last())
    }
}

/// `s.split(['\\', '/'])`: the pieces between separators, empty ones
/// included.
pub open spec fn split_seps(s: Seq<char>) -> Seq<Seq<char>>
    decreases s.len(),
{
    let i = last_sep(s);
    if i < 0 {
        seq![s]
    } else {
        proof {
            lemma_last_sep_bounds(s);
        }
        split_seps(s.subrange(0, i)).push(s.subrange(i + 1, s.len() as int))
    }
}

/// `last_sep` is an index of `s`, or -1.
pub proof fn lemma_last_sep_bounds(s: Seq<char>)
    ensures
        -1 <= last_sep(s) < s.len(),
    decreases s.len(),
{
    if s.len() > 0 && !is_sep(s.last()) {
        lemma_last_sep_bounds(s.drop_last());
    }
}

/// The path reached from `start` through `components`: empty and `.`
/// components stay, `..` goes to the parent (the root above a top-level
/// path), and a name is pushed.
pub open spec fn walk(start: Seq<char>, components: Seq<Seq<char>>) -> Option<Seq<char>>
    decreases components.len(),
{
    if components.len() == 0 {
        Some(start)
    } else {
        let c = components[0];
        let rest = components.drop_first();
        if c.len() == 0 || c == "."@ {
            walk(start, rest)
        } else if c == ".."@ {
            walk(
                match uefi_parent(start) {
                    Some(p) => p,
                    None => "\\"@,
                },
                rest,
            )
        } else {
            match uefi_pushed(start, c) {
                None => None,
                Some(p) => walk(p, rest),
            }
        }
    }
}

/// A typed path resolved against the working directory: an absolute path
/// (starting with `\` or `/`) starts at the root.
pub open spec fn resolve_spec(cwd: Seq<char>, argument: Seq<char>) -> Option<Seq<char>> {
    let start = if argument.len() > 0 && is_sep(argument[0]) {
        "\\"@
    } else {
        cwd
    };
    walk(start, split_seps(argument))
}

/// The pieces of `v[0..hi]` between separators.
fn split_components(v: &Vec<char>, hi: usize) -> (r: Vec<String>)
    requires
        hi <= v@.len(),
    ensures
        crate::text::strings_view(r@) == split_seps(v@.subrange(0, hi as int)),
    decreases hi,
{
    let ghost s = v@.subrange(0, hi as int);
    let mut lo = hi;
    while lo > 0 && !(v[lo - 1] == '\\' || v[lo - 1] == '/')
        invariant
            lo <= hi <= v@.len(),
            s == v@.subrange(0, hi as int),
            forall|j: int| lo <= j < hi ==> !is_sep(v@[j]),
        decreases lo,
    {
        lo -= 1;
    }
    proof {
        lemma_last_sep(s, lo - 1);
        assert(s.subrange(lo as int, s.len() as int) == v@.subrange(lo as int, hi as int));
    }
    let piece = string_of(v, lo, hi);
    if lo == 0 {
        let mut r: Vec<String> = Vec::new();
        r.push(piece);
        assert(s.subrange(0, hi as int) =~= s);
        assert(crate::text::strings_view(r@) =~= seq![s]);
        return r;
    }
    let mut r = split_components(v, lo - 1);
    let ghost before = r@;
    r.push(piece);
    proof {
        assert(s.subrange(0, lo - 1) == v@.subrange(0, lo - 1));
        assert(crate::text::strings_view(r@) =~= crate::text::strings_view(before).push(
            v@.subrange(lo as int, hi as int),
        ));
    }
    r
}

/// `last_sep` is the last separator, or -1.
proof fn lemma_last_sep(s: Seq<char>, k: int)
    requires
        -1 <= k < s.len(),
        forall|j: int| k < j < s.len() ==> !is_sep(s[j]),
        k >= 0 ==> is_sep(s[k]),
    ensures
        last_sep(s) == k,
    decreases s.len(),
{
    if s.len() > 0 && k < s.len() - 1 {
        lemma_last_sep(s.drop_last(), k);
    }
}

/// Resolves a typed path (absolute or relative, `/`- or `\`-separated,
/// with `.` and `..` components) against the working directory `cwd`.
pub fn resolve(cwd: &str, argument: &str) -> (r: Option<String>)
    ensures
        opt_text(r) == resolve_spec(cwd@, argument@),
{
    let v = chars_of(argument);
    let mut result = if v.len() > 0 && (v[0] == '\\' || v[0] == '/') {
        owned(ROOT)
    } else {
        owned(cwd)
    };
    let components = split_components(&v, v.len());
    let ghost cs = crate::text::strings_view(components@);
    proof {
        assert(v@.subrange(0, v@.len() as int) == v@);
        assert(cs.subrange(0, cs.len() as int) =~= cs);
    }
    let mut i: usize = 0;
    while i < components.len()
        invariant
            i <= components@.len(),
            cs == crate::text::strings_view(components@),
            cs == split_seps(argument@),
            resolve_spec(cwd@, argument@) == walk(result@, cs.subrange(i as int, cs.len() as int)),
        decreases components@.len() - i,
    {
        let c = components[i].as_str();
        proof {
            let rest = cs.subrange(i as int, cs.len() as int);
            assert(rest[0] == c@);
            assert(rest.drop_first() =~= cs.subrange(i + 1, cs.len() as int));
        }
        if c.is_empty() || text_is(c, ".") {
        } else if text_is(c, "..") {
            result = match path_parent(result.as_str()) {
                Some(p) => p,
                None => owned(ROOT),
            };
        } else {
            match path_push(result.as_str(), c) {
                None => {
                    return None;
                },
                Some(p) => {
                    result = p;
                },
            }
        }
        i += 1;
    }
    assert(cs.subrange(i as int, cs.len() as int) =~= Seq::<Seq<char>>::empty());
    Some(result)
}

// ---------------------------------------------------------------------------
// Listings
// ---------------------------------------------------------------------------

/// `a < b` for strings, as `String`'s order compares them: by code point,
/// a proper prefix first.
pub open spec fn text_lt(a: Seq<char>, b: Seq<char>) -> bool
    decreases a.len(),
{
    if b.len() == 0 {
        false
    } else if a.len() == 0 {
        true
    } else if a[0] != b[0] {
        (a[0] as u32) < (b[0] as u32)
    } else {
        text_lt(a.drop_first(), b.drop_first())
    }
}

/// The order of directory entries: by name, files before directories of
/// the same name.
pub open spec fn entry_lt(a: (Seq<char>, bool), b: (Seq<char>, bool)) -> bool {
    text_lt(a.0, b.0) || (a.0 == b.0 && !a.1 && b.1)
}

/// Where `x` goes in a sorted list: before the first entry it precedes.
pub open spec fn entry_insert_at(s: Seq<(Seq<char>, bool)>, x: (Seq<char>, bool)) -> int
    decreases s.len(),
{
    if s.len() == 0 {
        0
    } else if entry_lt(x, s[0]) {
        0
    } else {
        1 + entry_insert_at(s.drop_first(), x)
    }
}

/// The entries in order.
pub open spec fn sorted_entries(s: Seq<(Seq<char>, bool)>) -> Seq<(Seq<char>, bool)>
    decreases s.len(),
{
    if s.len() == 0 {
        Seq::empty()
    } else {
        let t = sorted_entries(s.drop_last());
        t.insert(entry_insert_at(t, s.last()), s.last())
    }
}

/// One listing line: a directory's name ends in `\`.
pub open spec fn listing_line(e: (Seq<char>, bool)) -> Seq<char> {
    if e.1 {
        e.0.push('\\')
    } else {
        e.0
    }
}

/// The lines `ls` prints for a directory's entries.
pub open spec fn listing_spec(entries: Seq<(Seq<char>, bool)>) -> Seq<Seq<char>> {
    if entries.len() == 0 {
        seq!["(empty)"@]
    } else {
        sorted_entries(entries).map_values(|e: (Seq<char>, bool)| listing_line(e))
    }
}

/// The model of directory entries.
pub open spec fn entries_text(v: Seq<(String, bool)>) -> Seq<(Seq<char>, bool)> {
    v.map_values(|e: (String, bool)| (e.0@, e.1))
}

/// `a < b` for strings.
fn less_than(a: &str, b: &str) -> (r: bool)
    ensures
        r == text_lt(a@, b@),
{
    let x = chars_of(a);
    let y = chars_of(b);
    let mut i: usize = 0;
    assert(x@.subrange(0, x@.len() as int) == x@);
    assert(y@.subrange(0, y@.len() as int) == y@);
    while i < x.len() && i < y.len() && x[i] == y[i]
        invariant
            i <= x@.len(),
            i <= y@.len(),
            x@ == a@,
            y@ == b@,
            text_lt(a@, b@) == text_lt(x@.subrange(i as int, x@.len() as int), y@.subrange(
                i as int,
                y@.len() as int,
            )),
        decreases x@.len() - i,
    {
        proof {
            let s = x@.subrange(i as int, x@.len() as int);
            let t = y@.subrange(i as int, y@.len() as int);
            assert(s.drop_first() =~= x@.subrange(i + 1, x@.len() as int));
            assert(t.drop_first() =~= y@.subrange(i + 1, y@.len() as int));
        }
        i += 1;
    }
    proof {
        assert(x@.subrange(0, x@.len() as int) == x@);
        assert(y@.subrange(0, y@.len() as int) == y@);
    }
    if i == y.len() {
        false
    } else if i == x.len() {
        true
    } else {
        (x[i] as u32) < (y[i] as u32)
    }
}

/// The lines `ls` prints for a directory's entries: sorted, a `\` after
/// each directory name, or `(empty)`.
pub fn listing(entries: &Vec<(String, bool)>) -> (r: Vec<String>)
    ensures
        crate::text::strings_view(r@) == listing_spec(entries_text(entries@)),
{
    let ghost es = entries_text(entries@);
    if entries.len() == 0 {
        let mut r: Vec<String> = Vec::new();
        r.push(owned("(empty)"));
        assert(crate::text::strings_view(r@) =~= seq!["(empty)"@]);
        return r;
    }
    let mut sorted: Vec<(String, bool)> = Vec::new();
    let mut i: usize = 0;
    assert(es.take(0) =~= Seq::<(Seq<char>, bool)>::empty());
    assert(entries_text(sorted@) =~= Seq::<(Seq<char>, bool)>::empty());
    while i < entries.len()
        invariant
            i <= entries@.len(),
            es == entries_text(entries@),
            entries_text(sorted@) == sorted_entries(es.take(i as int)),
        decreases entries@.len() - i,
    {
        let x = (entries[i].0.clone(), entries[i].1);
        let ghost xv = (x.0@, x.1);
        let ghost t = entries_text(sorted@);
        proof {
            let ei = es.take(i + 1);
            assert(ei.drop_last() =~= es.take(i as int));
            assert(ei.last() == es[i as int]);
        }
        let mut p: usize = 0;
        while p < sorted.len() && !(less_than(x.0.as_str(), sorted[p].0.as_str()) || (text_is(
            x.0.as_str(),
            sorted[p].0.as_str(),
        ) && !x.1 && sorted[p].1))
            invariant
                p <= sorted@.len(),
                t == entries_text(sorted@),
                xv == (x.0@, x.1),
                forall|j: int| 0 <= j < p ==> !entry_lt(xv, t[j]),
            decreases sorted@.len() - p,
        {
            assert(t[p as int] == (sorted@[p as int].0@, sorted@[p as int].1));
            p += 1;
        }
        proof {
            if p < sorted@.len() {
                assert(t[p as int] == (sorted@[p as int].0@, sorted@[p as int].1));
            }
            lemma_entry_insert_at(t, xv, p as int);
        }
        sorted.insert(p, x);
        assert(entries_text(sorted@) =~= t.insert(p as int, xv));
        i += 1;
    }
    assert(es.take(i as int) =~= es);
    let ghost ss = entries_text(sorted@);
    let mut r: Vec<String> = Vec::new();
    let mut k: usize = 0;
    assert(crate::text::strings_view(r@) =~= Seq::<Seq<char>>::empty());
    while k < sorted.len()
        invariant
            k <= sorted@.len(),
            ss == entries_text(sorted@),
            crate::text::strings_view(r@) == ss.take(k as int).map_values(
                |e: (Seq<char>, bool)| listing_line(e),
            ),
        decreases sorted@.len() - k,
    {
        let mut line = sorted[k].0.clone();
        if sorted[k].1 {
            crate::text::push_char(&mut line, '\\');
        }
        let ghost before = r@;
        r.push(line);
        proof {
            assert(ss[k as int] == (sorted@[k as int].0@, sorted@[k as int].1));
            assert(line@ == listing_line(ss[k as int]));
            assert(crate::text::strings_view(r@) =~= crate::text::strings_view(before).push(line@));
            assert(ss.take(k + 1).map_values(|e: (Seq<char>, bool)| listing_line(e)) =~= ss.take(
                k as int,
            ).map_values(|e: (Seq<char>, bool)| listing_line(e)).push(listing_line(ss[k as int])));
        }
        k += 1;
    }
    assert(ss.take(k as int) =~= ss);
    r
}

/// `entry_insert_at` stops before the first entry `x` precedes.
proof fn lemma_entry_insert_at(s: Seq<(Seq<char>, bool)>, x: (Seq<char>, bool), k: int)
    requires
        0 <= k <= s.len(),
        forall|j: int| 0 <= j < k ==> !entry_lt(x, s[j]),
        k < s.len() ==> entry_lt(x, s[k]),
    ensures
        entry_insert_at(s, x) == k,
    decreases s.len(),
{
    if s.len() > 0 && k > 0 {
        let t = s.drop_first();
        assert forall|j: int| 0 <= j < k - 1 implies !entry_lt(x, t[j]) by {
            assert(t[j] == s[j + 1]);
        }
        lemma_entry_insert_at(t, x, k - 1);
    }
}

} // verus!
