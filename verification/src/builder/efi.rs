//! Registering a UEFI boot entry for r-boot through `efibootmgr`, unless one
//! exists already. This is best effort: any step that fails ends it quietly,
//! as boot managers that cannot touch NVRAM are tolerated.
//!
//! The steps are a state machine: the caller runs each program (or reads
//! the file) the machine asks for and hands back its trimmed output, or
//! `None` when it failed.

use vstd::prelude::*;
use crate::text::{chars_of, concat, lines, next_line, owned, range_eq, string_of, trim, trim_range};
use crate::cli::args::args_view;

verus! {

/// What the caller does next.
#[derive(Debug)]
pub enum Action {
    /// Run `program` with `args` and hand back its trimmed standard output
    /// if it succeeds.
    Run { program: String, args: Vec<String> },
    /// Read the file at this path and hand back its text.
    Read(String),
    /// Nothing more to do.
    Stop,
}

/// Where registration stands.
#[derive(Debug)]
pub enum Stage {
    /// Listing the existing boot entries.
    ListEntries,
    /// Finding the device the ESP is mounted from.
    FindSource,
    /// Finding the disk that holds partition `part_name` (device `source`).
    FindDisk { source: String, part_name: String },
    /// Reading the partition number of `part_name` on `disk`.
    ReadPartition { disk: String, part_name: String },
    /// The entry was created.
    Done,
}

pub enum ActionView {
    Run { program: Seq<char>, args: Seq<Seq<char>> },
    Read(Seq<char>),
    Stop,
}

pub enum StageView {
    ListEntries,
    FindSource,
    FindDisk { source: Seq<char>, part_name: Seq<char> },
    ReadPartition { disk: Seq<char>, part_name: Seq<char> },
    Done,
}

impl View for Action {
    type V = ActionView;

    open spec fn view(&self) -> ActionView {
        match self {
            Action::Run { program, args } => ActionView::Run {
                program: program@,
                args: args_view(args@),
            },
            Action::Read(p) => ActionView::Read(p@),
            Action::Stop => ActionView::Stop,
        }
    }
}

impl View for Stage {
    type V = StageView;

    open spec fn view(&self) -> StageView {
        match self {
            Stage::ListEntries => StageView::ListEntries,
            Stage::FindSource => StageView::FindSource,
            Stage::FindDisk { source, part_name } => StageView::FindDisk {
                source: source@,
                part_name: part_name@,
            },
            Stage::ReadPartition { disk, part_name } => StageView::ReadPartition {
                disk: disk@,
                part_name: part_name@,
            },
            Stage::Done => StageView::Done,
        }
    }
}

/// Whether `t` occurs in `s`.
pub open spec fn contains_text(s: Seq<char>, t: Seq<char>) -> bool {
    exists|i: int| 0 <= i && i + t.len() <= s.len() && #[trigger] s.subrange(i, i + t.len()) == t
}

/// Index of the last `c` in `s`, or -1.
pub open spec fn last_index(s: Seq<char>, c: char) -> int
    decreases s.len(),
{
    if s.len() == 0 {
        -1
    } else if s.last() == c {
        s.len() - 1
    } else {
        last_index(s.drop_last(), c)
    }
}

/// `Path::file_name` on Unix: the last component, skipping empty and `.`
/// components; none when it is `..` or there is none.
pub open spec fn file_name(s: Seq<char>) -> Option<Seq<char>>
    decreases s.len(),
{
    let i = last_index(s, '/');
    let comp = s.subrange(i + 1, s.len() as int);
    if s.len() == 0 {
        None
    } else if comp.len() == 0 || comp == "."@ {
        if i < 0 {
            None
        } else {
            proof {
                lemma_last_index_bounds(s, '/');
            }
            file_name(s.subrange(0, i))
        }
    } else if comp == ".."@ {
        None
    } else {
        Some(comp)
    }
}

/// The first line of `s`, if it is not empty.
pub open spec fn first_line(s: Seq<char>) -> Option<Seq<char>> {
    let ls = lines(s);
    if ls.len() > 0 && ls[0].len() > 0 {
        Some(ls[0])
    } else {
        None
    }
}

/// The arguments that create the boot entry.
pub open spec fn create_args(disk: Seq<char>, part: Seq<char>) -> Seq<Seq<char>> {
    seq![
        "--create"@,
        "--disk"@,
        "/dev/"@ + disk,
        "--part"@,
        part,
        "--label"@,
        "r-boot"@,
        "--loader"@,
        "\\EFI\\BOOT\\BOOTX64.EFI"@,
    ]
}

/// One step: from a stage and the result of its action to the next stage
/// and action.
pub open spec fn advance_spec(stage: StageView, esp: Seq<char>, result: Option<Seq<char>>) -> (
    StageView,
    ActionView,
) {
    match result {
        None => (stage, ActionView::Stop),
        Some(out) => match stage {
            StageView::ListEntries => if contains_text(out, "r-boot"@) {
                (stage, ActionView::Stop)
            } else {
                (
                    StageView::FindSource,
                    ActionView::Run {
                        program: "findmnt"@,
                        args: seq!["-n"@, "-o"@, "SOURCE"@, "--target"@, esp],
                    },
                )
            },
            StageView::FindSource => match file_name(out) {
                None => (stage, ActionView::Stop),
                Some(part_name) => (
                    StageView::FindDisk { source: out, part_name },
                    ActionView::Run { program: "lsblk"@, args: seq!["-no"@, "pkname"@, out] },
                ),
            },
            StageView::FindDisk { source: _, part_name } => match first_line(out) {
                None => (stage, ActionView::Stop),
                Some(disk) => (
                    StageView::ReadPartition { disk, part_name },
                    ActionView::Read("/sys/class/block/"@ + part_name + "/partition"@),
                ),
            },
            StageView::ReadPartition { disk, part_name: _ } => if trim(out).len() == 0 {
                (stage, ActionView::Stop)
            } else {
                (
                    StageView::Done,
                    ActionView::Run { program: "efibootmgr"@, args: create_args(disk, trim(out)) },
                )
            },
            StageView::Done => (stage, ActionView::Stop),
        },
    }
}

/// The first step: list the existing boot entries.
pub fn begin() -> (r: (Stage, Action))
    ensures
        r.0@ == StageView::ListEntries,
        r.1@ == (ActionView::Run { program: "efibootmgr"@, args: Seq::empty() }),
{
    let args: Vec<String> = Vec::new();
    let r = (Stage::ListEntries, Action::Run { program: owned("efibootmgr"), args });
    assert(args_view(args@) =~= Seq::<Seq<char>>::empty());
    r
}

/// The output of a program as the steps use it: trimmed.
pub fn captured(stdout: &str) -> (r: String)
    ensures
        r@ == trim(stdout@),
{
    let v = chars_of(stdout);
    assert(v@.subrange(0, v@.len() as int) == v@);
    let (lo, hi) = trim_range(&v, 0, v.len());
    string_of(&v, lo, hi)
}

/// Whether `t` occurs in `s`.
fn contains(s: &str, t: &str) -> (r: bool)
    ensures
        r == contains_text(s@, t@),
{
    let v = chars_of(s);
    let w = chars_of(t);
    if w.len() > v.len() {
        return false;
    }
    let last = v.len() - w.len();
    let mut i: usize = 0;
    loop
        invariant
            v@ == s@,
            w@ == t@,
            w@.len() <= v@.len(),
            last == v@.len() - w@.len(),
            v@.len() <= usize::MAX,
            i <= last,
            forall|j: int| 0 <= j < i ==> #[trigger] s@.subrange(j, j + t@.len()) != t@,
        decreases last - i,
    {
        if range_eq(&v, i, i + w.len(), t) {
            return true;
        }
        if i == last {
            assert forall|j: int| 0 <= j && j + t@.len() <= s@.len() implies #[trigger] s@.subrange(
                j,
                j + t@.len(),
            ) != t@ by {
                assert(j <= i);
            }
            return false;
        }
        i += 1;
    }
}

/// `Path::file_name`.
pub fn file_name_of(path: &str) -> (r: Option<String>)
    ensures
        match r {
            Some(n) => file_name(path@) == Some(n@),
            None => file_name(path@) is None,
        },
{
    let v = chars_of(path);
    let mut hi = v.len();
    assert(v@.subrange(0, v@.len() as int) == v@);
    loop
        invariant
            hi <= v@.len(),
            v@ == path@,
            file_name(path@) == file_name(v@.subrange(0, hi as int)),
        decreases hi,
    {
        let ghost s = v@.subrange(0, hi as int);
        if hi == 0 {
            return None;
        }
        let mut lo = hi;
        while lo > 0 && v[lo - 1] != '/'
            invariant
                lo <= hi <= v@.len(),
                s == v@.subrange(0, hi as int),
                forall|j: int| lo <= j < hi ==> v@[j] != '/',
            decreases lo,
        {
            lo -= 1;
        }
        proof {
            lemma_last_index(s, '/', lo - 1);
            assert(s.subrange(lo as int, s.len() as int) == v@.subrange(lo as int, hi as int));
        }
        let empty = lo == hi;
        let dot = range_eq(&v, lo, hi, ".");
        if empty || dot {
            if lo == 0 {
                return None;
            }
            assert(s.subrange(0, lo - 1) == v@.subrange(0, lo - 1));
            hi = lo - 1;
        } else if range_eq(&v, lo, hi, "..") {
            return None;
        } else {
            return Some(string_of(&v, lo, hi));
        }
    }
}

/// `last_index` is an index of `s`, or -1.
pub proof fn lemma_last_index_bounds(s: Seq<char>, c: char)
    ensures
        -1 <= last_index(s, c) < s.len(),
    decreases s.len(),
{
    if s.len() > 0 && s.last() != c {
        lemma_last_index_bounds(s.drop_last(), c);
    }
}

/// `last_index` is the last match, or -1.
proof fn lemma_last_index(s: Seq<char>, c: char, k: int)
    requires
        -1 <= k < s.len(),
        forall|j: int| k < j < s.len() ==> s[j] != c,
        k >= 0 ==> s[k] == c,
    ensures
        last_index(s, c) == k,
    decreases s.len(),
{
    if s.len() > 0 && k < s.len() - 1 {
        lemma_last_index(s.drop_last(), c, k);
    }
}

/// The first line of `s`, if it is not empty.
fn first_line_of(s: &str) -> (r: Option<String>)
    ensures
        match r {
            Some(l) => first_line(s@) == Some(l@),
            None => first_line(s@) is None,
        },
{
    let v = chars_of(s);
    assert(v@.subrange(0, v@.len() as int) == v@);
    if v.len() == 0 {
        return None;
    }
    let (a, b, _next) = next_line(&v, 0);
    if a == b {
        return None;
    }
    Some(string_of(&v, a, b))
}

/// One step of the registration.
pub fn advance(stage: Stage, esp: &str, result: Option<String>) -> (r: (Stage, Action))
    ensures
        (r.0@, r.1@) == advance_spec(stage@, esp@, match result {
            Some(s) => Some(s@),
            None => None,
        }),
{
    let out = match result {
        None => {
            return (stage, Action::Stop);
        },
        Some(o) => o,
    };
    match stage {
        Stage::ListEntries => {
            if contains(out.as_str(), "r-boot") {
                return (Stage::ListEntries, Action::Stop);
            }
            let mut args: Vec<String> = Vec::new();
            args.push(owned("-n"));
            args.push(owned("-o"));
            args.push(owned("SOURCE"));
            args.push(owned("--target"));
            args.push(owned(esp));
            let a = Action::Run { program: owned("findmnt"), args };
            assert(a@ == (ActionView::Run {
                program: "findmnt"@,
                args: seq!["-n"@, "-o"@, "SOURCE"@, "--target"@, esp@],
            })) by {
                assert(args_view(args@) =~= seq!["-n"@, "-o"@, "SOURCE"@, "--target"@, esp@]);
            }
            (Stage::FindSource, a)
        },
        Stage::FindSource => {
            match file_name_of(out.as_str()) {
                None => (Stage::FindSource, Action::Stop),
                Some(part_name) => {
                    let mut args: Vec<String> = Vec::new();
                    args.push(owned("-no"));
                    args.push(owned("pkname"));
                    args.push(out.clone());
                    let a = Action::Run { program: owned("lsblk"), args };
                    assert(args_view(args@) =~= seq!["-no"@, "pkname"@, out@]);
                    (Stage::FindDisk { source: out, part_name }, a)
                },
            }
        },
        Stage::FindDisk { source, part_name } => {
            match first_line_of(out.as_str()) {
                None => (Stage::FindDisk { source, part_name }, Action::Stop),
                Some(disk) => {
                    let mut path = owned("/sys/class/block/");
                    crate::text::push_str(&mut path, part_name.as_str());
                    crate::text::push_str(&mut path, "/partition");
                    assert(path@ =~= "/sys/class/block/"@ + part_name@ + "/partition"@);
                    (Stage::ReadPartition { disk, part_name }, Action::Read(path))
                },
            }
        },
        Stage::ReadPartition { disk, part_name } => {
            let part = captured(out.as_str());
            if part.as_str().is_empty() {
                return (Stage::ReadPartition { disk, part_name }, Action::Stop);
            }
            let mut args: Vec<String> = Vec::new();
            args.push(owned("--create"));
            args.push(owned("--disk"));
            args.push(concat("/dev/", disk.as_str()));
            args.push(owned("--part"));
            args.push(part);
            args.push(owned("--label"));
            args.push(owned("r-boot"));
            args.push(owned("--loader"));
            args.push(owned("\\EFI\\BOOT\\BOOTX64.EFI"));
            let a = Action::Run { program: owned("efibootmgr"), args };
            assert(args_view(args@) =~= create_args(disk@, trim(out@)));
            (Stage::Done, a)
        },
        Stage::Done => (Stage::Done, Action::Stop),
    }
}

} // verus!
