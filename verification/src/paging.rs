//! x86_64 four-level page tables, built in memory before the boot loader
//! installs them.
//!
//! Tables live in an arena: table `t` holds entries `t * 512 .. t * 512 + 512`
//! and table 0 is the PML4. An entry either is empty, refers to a child
//! table by arena index, or is a final entry word (a 2 MiB page in a page
//! directory, a 4 KiB page in a page table). Placing the arena in physical
//! memory turns each `Table(i)` into `address_of(i) | PRESENT | WRITABLE`.
//!
//! The model of the tables is `leaf`: the final entry, and the level it was
//! found at, that the hardware walk of an address reaches.

use vstd::prelude::*;

verus! {

pub const PRESENT: u64 = 1;
pub const WRITABLE: u64 = 2;
pub const HUGE: u64 = 0x80;
pub const EXECUTE_DISABLE: u64 = 0x8000_0000_0000_0000;
pub const PAGE_2M: u64 = 0x20_0000;
pub const PAGE_1G: u64 = 0x4000_0000;

/// One page-table entry.
#[derive(Clone, Copy, Debug, PartialEq, Eq, Structural)]
pub enum PageEntry {
    Empty,
    /// A child table, by arena index.
    Table(usize),
    /// A final entry word: frame address and flags.
    Frame(u64),
}

/// The page tables under construction.
pub struct PageTables {
    entries: Vec<PageEntry>,
    /// For each table, the indices of the walk that reaches it.
    paths: Ghost<Seq<Seq<int>>>,
}

// ---------------------------------------------------------------------------
// Model
// ---------------------------------------------------------------------------

/// The table index an address selects at `level` (0 = PML4 .. 3 = PT).
pub open spec fn idx(a: u64, level: int) -> int {
    let x = a as int;
    if level == 0 {
        (x / 0x80_0000_0000) % 512
    } else if level == 1 {
        (x / 0x4000_0000) % 512
    } else if level == 2 {
        (x / 0x20_0000) % 512
    } else {
        (x / 0x1000) % 512
    }
}

/// The first `d` table indices of an address.
pub open spec fn prefix(a: u64, d: int) -> Seq<int> {
    Seq::new(d as nat, |k: int| idx(a, k))
}

/// Entry `j` of table `t`.
pub open spec fn cell(s: Seq<PageEntry>, t: int, j: int) -> PageEntry {
    s[t * 512 + j]
}

/// The final entry the walk of `a` reaches, with its level, if any.
pub open spec fn leaf(s: Seq<PageEntry>, a: u64) -> Option<(int, u64)> {
    match cell(s, 0, idx(a, 0)) {
        PageEntry::Empty => None,
        PageEntry::Frame(r) => Some((0, r)),
        PageEntry::Table(x) => match cell(s, x as int, idx(a, 1)) {
            PageEntry::Empty => None,
            PageEntry::Frame(r) => Some((1, r)),
            PageEntry::Table(y) => match cell(s, y as int, idx(a, 2)) {
                PageEntry::Empty => None,
                PageEntry::Frame(r) => Some((2, r)),
                PageEntry::Table(z) => match cell(s, z as int, idx(a, 3)) {
                    PageEntry::Frame(r) => Some((3, r)),
                    _ => None,
                },
            },
        },
    }
}

/// The physical address `a` maps to: a 2 MiB page at level 2, a 4 KiB page
/// at level 3.
pub open spec fn translate(s: Seq<PageEntry>, a: u64) -> Option<int> {
    match leaf(s, a) {
        Some((level, r)) => if level == 2 {
            Some((r & 0x000f_ffff_ffe0_0000) as int + (a as int) % 0x20_0000)
        } else if level == 3 {
            Some((r & 0x000f_ffff_ffff_f000) as int + (a as int) % 0x1000)
        } else {
            None
        },
        None => None,
    }
}

/// Whether two addresses share the 1 GiB slot (PML4 and PDPT indices).
pub open spec fn same_slot_1g(a: u64, b: u64) -> bool {
    idx(a, 0) == idx(b, 0) && idx(a, 1) == idx(b, 1)
}

/// Whether two addresses share the 4 KiB page slot (all four indices).
pub open spec fn same_slot_4k(a: u64, b: u64) -> bool {
    &&& idx(a, 0) == idx(b, 0)
    &&& idx(a, 1) == idx(b, 1)
    &&& idx(a, 2) == idx(b, 2)
    &&& idx(a, 3) == idx(b, 3)
}

/// The 2 MiB entry for slot `e` of gigabyte `g` of a window.
pub open spec fn huge_entry(g: int, e: int) -> u64 {
    ((g * 0x4000_0000 + e * 0x20_0000) as u64) | 0x83
}

/// The flag bits of a kernel page with ELF segment flags `f`: present,
/// writable if `PF_W`, execute-disable unless `PF_X`.
pub open spec fn page_flags(f: u32) -> u64 {
    (1u64 | (if f & 2 != 0 {
        2u64
    } else {
        0u64
    })) | (if f & 1 == 0 {
        0x8000_0000_0000_0000u64
    } else {
        0u64
    })
}

/// The start of gigabyte `g` of a window at `base`.
pub open spec fn window_gb(base: u64, g: int) -> u64 {
    (base + g * 0x4000_0000) as u64
}

/// Whether `a` lies in one of the four 1 GiB slots of a window.
pub open spec fn in_window(base: u64, a: u64) -> bool {
    exists|g: int| 0 <= g < 4 && same_slot_1g(a, #[trigger] window_gb(base, g))
}

/// The number of pages `map_range` maps for `length` bytes.
pub open spec fn pages_of(length: usize) -> int {
    (length + 4095) / 4096
}

/// Page `i` of a range.
pub open spec fn page_at(base: u64, i: int) -> u64 {
    (base + i * 4096) as u64
}

/// Whether the walk of `a` meets no 2 MiB page, so that a 4 KiB mapping
/// can be placed below it.
pub open spec fn no_huge_on_path(s: Seq<PageEntry>, a: u64) -> bool {
    match cell(s, 0, idx(a, 0)) {
        PageEntry::Table(x) => match cell(s, x as int, idx(a, 1)) {
            PageEntry::Table(y) => !(cell(s, y as int, idx(a, 2)) is Frame),
            _ => true,
        },
        _ => true,
    }
}

// ---------------------------------------------------------------------------
// Well-formedness and its lemmas
// ---------------------------------------------------------------------------

/// Entry `j` of table `t` agrees with the table paths: a child's path extends
/// its parent's by `j`, children exist, and final entries sit at level 2 or 3.
spec fn entry_ok(s: Seq<PageEntry>, p: Seq<Seq<int>>, t: int, j: int) -> bool {
    match cell(s, t, j) {
        PageEntry::Table(i) => 0 <= i < p.len() && p[i as int] == p[t].push(j) && p[t].len() < 3,
        PageEntry::Frame(_) => p[t].len() >= 2,
        PageEntry::Empty => true,
    }
}

spec fn tables_ok(s: Seq<PageEntry>, p: Seq<Seq<int>>) -> bool {
    &&& p.len() >= 1
    &&& s.len() == 512 * p.len()
    &&& p[0] == Seq::<int>::empty()
    &&& forall|t: int| 0 <= t < p.len() ==> (#[trigger] p[t]).len() <= 3
    &&& forall|t: int, j: int|
        0 <= t < p.len() && 0 <= j < 512 ==> #[trigger] entry_ok(s, p, t, j)
}

/// Whether the walk of `a` reads entry `j` of table `t`.
spec fn reads(s: Seq<PageEntry>, a: u64, t: int, j: int) -> bool {
    ||| t == 0 && j == idx(a, 0)
    ||| (cell(s, 0, idx(a, 0)) matches PageEntry::Table(x) && t == x && j == idx(a, 1))
    ||| (cell(s, 0, idx(a, 0)) matches PageEntry::Table(x) && cell(s, x as int, idx(a, 1))
        matches PageEntry::Table(y) && t == y && j == idx(a, 2))
    ||| (cell(s, 0, idx(a, 0)) matches PageEntry::Table(x) && cell(s, x as int, idx(a, 1))
        matches PageEntry::Table(y) && cell(s, y as int, idx(a, 2)) matches PageEntry::Table(z)
        && t == z && j == idx(a, 3))
}

proof fn lemma_idx_range(a: u64, level: int)
    ensures
        0 <= idx(a, level) < 512,
{
}

proof fn lemma_cell_index(t1: int, j1: int, t2: int, j2: int)
    requires
        0 <= j1 < 512,
        0 <= j2 < 512,
        t1 * 512 + j1 == t2 * 512 + j2,
    ensures
        t1 == t2 && j1 == j2,
{
    assert(t1 == t2) by (nonlinear_arith)
        requires
            0 <= j1 < 512,
            0 <= j2 < 512,
            t1 * 512 + j1 == t2 * 512 + j2,
    ;
}

proof fn lemma_entry_ok(s: Seq<PageEntry>, p: Seq<Seq<int>>, t: int, j: int)
    requires
        tables_ok(s, p),
        0 <= t < p.len(),
        0 <= j < 512,
    ensures
        entry_ok(s, p, t, j),
        0 <= t * 512 + j < s.len(),
{
    assert(0 <= t * 512 + j < s.len()) by (nonlinear_arith)
        requires
            0 <= t < p.len(),
            0 <= j < 512,
            s.len() == 512 * p.len(),
    ;
}

/// The tables a walk passes through have the address's prefix as path.
proof fn lemma_reads_path(s: Seq<PageEntry>, p: Seq<Seq<int>>, a: u64, t: int, j: int)
    requires
        tables_ok(s, p),
        reads(s, a, t, j),
    ensures
        0 <= t < p.len(),
        p[t] == prefix(a, p[t].len() as int),
        j == idx(a, p[t].len() as int),
        p[t].len() <= 3,
{
    lemma_idx_range(a, 0);
    lemma_idx_range(a, 1);
    lemma_idx_range(a, 2);
    lemma_idx_range(a, 3);
    assert(prefix(a, 0) =~= Seq::<int>::empty());
    lemma_entry_ok(s, p, 0, idx(a, 0));
    if let PageEntry::Table(x) = cell(s, 0, idx(a, 0)) {
        assert(p[x as int] =~= prefix(a, 1));
        lemma_entry_ok(s, p, x as int, idx(a, 1));
        if let PageEntry::Table(y) = cell(s, x as int, idx(a, 1)) {
            assert(p[y as int] =~= prefix(a, 2));
            lemma_entry_ok(s, p, y as int, idx(a, 2));
            if let PageEntry::Table(z) = cell(s, y as int, idx(a, 2)) {
                assert(p[z as int] =~= prefix(a, 3));
            }
        }
    }
}

/// Changing an entry the walk of `a` does not read leaves its leaf alone.
proof fn lemma_leaf_frame(s: Seq<PageEntry>, p: Seq<Seq<int>>, t: int, j: int, e: PageEntry, a: u64)
    requires
        tables_ok(s, p),
        0 <= t < p.len(),
        0 <= j < 512,
        !reads(s, a, t, j),
    ensures
        leaf(s.update(t * 512 + j, e), a) == leaf(s, a),
        no_huge_on_path(s.update(t * 512 + j, e), a) == no_huge_on_path(s, a),
{
    let s2 = s.update(t * 512 + j, e);
    lemma_entry_ok(s, p, t, j);
    lemma_idx_range(a, 0);
    lemma_idx_range(a, 1);
    lemma_idx_range(a, 2);
    lemma_idx_range(a, 3);
    lemma_entry_ok(s, p, 0, idx(a, 0));
    if t * 512 + j == 0 * 512 + idx(a, 0) {
        lemma_cell_index(t, j, 0, idx(a, 0));
    }
    assert(cell(s2, 0, idx(a, 0)) == cell(s, 0, idx(a, 0)));
    if let PageEntry::Table(x) = cell(s, 0, idx(a, 0)) {
        lemma_entry_ok(s, p, x as int, idx(a, 1));
        if t * 512 + j == x * 512 + idx(a, 1) {
            lemma_cell_index(t, j, x as int, idx(a, 1));
        }
        assert(cell(s2, x as int, idx(a, 1)) == cell(s, x as int, idx(a, 1)));
        if let PageEntry::Table(y) = cell(s, x as int, idx(a, 1)) {
            lemma_entry_ok(s, p, y as int, idx(a, 2));
            if t * 512 + j == y * 512 + idx(a, 2) {
                lemma_cell_index(t, j, y as int, idx(a, 2));
            }
            assert(cell(s2, y as int, idx(a, 2)) == cell(s, y as int, idx(a, 2)));
            if let PageEntry::Table(z) = cell(s, y as int, idx(a, 2)) {
                lemma_entry_ok(s, p, z as int, idx(a, 3));
                if t * 512 + j == z * 512 + idx(a, 3) {
                    lemma_cell_index(t, j, z as int, idx(a, 3));
                }
                assert(cell(s2, z as int, idx(a, 3)) == cell(s, z as int, idx(a, 3)));
            }
        }
    }
}

/// Writing entry `j` of table `t` only concerns addresses whose walk has
/// the path of `t` followed by `j`.
proof fn lemma_write_elsewhere(
    s: Seq<PageEntry>,
    p: Seq<Seq<int>>,
    t: int,
    j: int,
    e: PageEntry,
    a: u64,
)
    requires
        tables_ok(s, p),
        0 <= t < p.len(),
        0 <= j < 512,
        prefix(a, (p[t].len() + 1) as int) != p[t].push(j),
    ensures
        leaf(s.update(t * 512 + j, e), a) == leaf(s, a),
        no_huge_on_path(s.update(t * 512 + j, e), a) == no_huge_on_path(s, a),
{
    if reads(s, a, t, j) {
        lemma_reads_path(s, p, a, t, j);
        assert(prefix(a, (p[t].len() + 1) as int) =~= p[t].push(j));
    }
    lemma_leaf_frame(s, p, t, j, e, a);
}

/// Appending an empty table changes no walk.
proof fn lemma_extend(s: Seq<PageEntry>, p: Seq<Seq<int>>, ext: Seq<PageEntry>, a: u64)
    requires
        tables_ok(s, p),
    ensures
        leaf(s + ext, a) == leaf(s, a),
        no_huge_on_path(s + ext, a) == no_huge_on_path(s, a),
{
    let s2 = s + ext;
    lemma_idx_range(a, 0);
    lemma_idx_range(a, 1);
    lemma_idx_range(a, 2);
    lemma_idx_range(a, 3);
    lemma_entry_ok(s, p, 0, idx(a, 0));
    if let PageEntry::Table(x) = cell(s, 0, idx(a, 0)) {
        lemma_entry_ok(s, p, x as int, idx(a, 1));
        if let PageEntry::Table(y) = cell(s, x as int, idx(a, 1)) {
            lemma_entry_ok(s, p, y as int, idx(a, 2));
            if let PageEntry::Table(z) = cell(s, y as int, idx(a, 2)) {
                lemma_entry_ok(s, p, z as int, idx(a, 3));
            }
        }
    }
}

/// Linking an empty table into an empty entry changes no leaf.
proof fn lemma_link_fresh(s: Seq<PageEntry>, p: Seq<Seq<int>>, t: int, j: int, f: usize, a: u64)
    requires
        tables_ok(s, p),
        0 <= t < p.len(),
        0 <= j < 512,
        0 <= f < p.len(),
        f != t,
        p[t].len() < 3,
        cell(s, t, j) is Empty,
        forall|k: int| 0 <= k < 512 ==> cell(s, f as int, k) is Empty,
    ensures
        leaf(s.update(t * 512 + j, PageEntry::Table(f)), a) == leaf(s, a),
        no_huge_on_path(s, a) ==> no_huge_on_path(
            s.update(t * 512 + j, PageEntry::Table(f)),
            a,
        ),
{
    let s2 = s.update(t * 512 + j, PageEntry::Table(f));
    if !reads(s, a, t, j) {
        lemma_leaf_frame(s, p, t, j, PageEntry::Table(f), a);
    } else {
        lemma_reads_path(s, p, a, t, j);
        lemma_entry_ok(s, p, t, j);
        let d = p[t].len();
        lemma_idx_range(a, 0);
        lemma_idx_range(a, 1);
        lemma_idx_range(a, 2);
        lemma_idx_range(a, 3);
        // Before the write, the walk of `a` stops at the empty entry.
        assert(leaf(s, a) is None) by {
            lemma_leaf_frame_before(s, p, a, t, j);
        }
        // After it, the walk enters the empty table and stops there.
        lemma_walk_into_fresh(s, p, t, j, f, a);
    }
}

/// A walk that reads an empty entry reaches no leaf.
proof fn lemma_leaf_frame_before(s: Seq<PageEntry>, p: Seq<Seq<int>>, a: u64, t: int, j: int)
    requires
        tables_ok(s, p),
        reads(s, a, t, j),
        0 <= t < p.len(),
        0 <= j < 512,
        cell(s, t, j) is Empty,
    ensures
        leaf(s, a) is None,
{
    lemma_idx_range(a, 0);
    lemma_idx_range(a, 1);
    lemma_idx_range(a, 2);
    lemma_idx_range(a, 3);
    lemma_entry_ok(s, p, 0, idx(a, 0));
    if let PageEntry::Table(x) = cell(s, 0, idx(a, 0)) {
        lemma_entry_ok(s, p, x as int, idx(a, 1));
        if let PageEntry::Table(y) = cell(s, x as int, idx(a, 1)) {
            lemma_entry_ok(s, p, y as int, idx(a, 2));
        }
    }
}

/// The walk that reads the newly linked entry meets only empty entries
/// of the new table.
proof fn lemma_walk_into_fresh(s: Seq<PageEntry>, p: Seq<Seq<int>>, t: int, j: int, f: usize, a: u64)
    requires
        tables_ok(s, p),
        reads(s, a, t, j),
        0 <= t < p.len(),
        0 <= j < 512,
        0 <= f < p.len(),
        f != t,
        p[t].len() < 3,
        cell(s, t, j) is Empty,
        forall|k: int| 0 <= k < 512 ==> cell(s, f as int, k) is Empty,
    ensures
        leaf(s.update(t * 512 + j, PageEntry::Table(f)), a) is None,
        no_huge_on_path(s.update(t * 512 + j, PageEntry::Table(f)), a),
{
    let s2 = s.update(t * 512 + j, PageEntry::Table(f));
    lemma_reads_path(s, p, a, t, j);
    let d = p[t].len() as int;
    lemma_idx_range(a, 0);
    lemma_idx_range(a, 1);
    lemma_idx_range(a, 2);
    lemma_idx_range(a, 3);
    lemma_entry_ok(s, p, t, j);
    lemma_entry_ok(s, p, 0, idx(a, 0));
    lemma_entry_ok(s, p, f as int, idx(a, d + 1));
    // Entries other than (t, j) keep their values.
    assert forall|t2: int, j2: int|
        0 <= t2 < p.len() && 0 <= j2 < 512 && (t2 != t || j2 != j) implies cell(s2, t2, j2)
        == cell(s, t2, j2) by {
        lemma_entry_ok(s, p, t2, j2);
        if t2 * 512 + j2 == t * 512 + j {
            lemma_cell_index(t2, j2, t, j);
        }
    }
    assert(cell(s2, t, j) == PageEntry::Table(f));
    assert(f != 0) by {
        if f == 0 {
            assert(p[0].len() == 0);
        }
    }
    if t == 0 && j == idx(a, 0) {
        assert(cell(s2, f as int, idx(a, 1)) is Empty);
    } else {
        let x = cell(s, 0, idx(a, 0))->Table_0;
        lemma_entry_ok(s, p, x as int, idx(a, 1));
        assert(p[x as int].len() == 1);
        assert(cell(s2, 0, idx(a, 0)) == cell(s, 0, idx(a, 0)));
        if t == x && j == idx(a, 1) {
            assert(cell(s2, f as int, idx(a, 2)) is Empty);
        } else {
            let y = cell(s, x as int, idx(a, 1))->Table_0;
            lemma_entry_ok(s, p, y as int, idx(a, 2));
            assert(p[y as int].len() == 2);
            assert(cell(s2, x as int, idx(a, 1)) == cell(s, x as int, idx(a, 1)));
            assert(t == y && j == idx(a, 2)) by {
                if !(t == y && j == idx(a, 2)) {
                    let z = cell(s, y as int, idx(a, 2))->Table_0;
                    lemma_entry_ok(s, p, z as int, idx(a, 3));
                    assert(p[z as int].len() == 3);
                }
            }
            assert(cell(s2, f as int, idx(a, 3)) is Empty);
        }
    }
}

// ---------------------------------------------------------------------------
// Executable code
// ---------------------------------------------------------------------------

impl View for PageTables {
    type V = Seq<PageEntry>;

    closed spec fn view(&self) -> Seq<PageEntry> {
        self.entries@
    }
}

impl PageTables {
    /// The tables are consistent.
    pub closed spec fn wf(&self) -> bool {
        tables_ok(self.entries@, self.paths@)
    }

    /// The number of tables.
    pub closed spec fn count(&self) -> nat {
        self.paths@.len()
    }

    /// An empty PML4 and nothing else.
    pub fn new() -> (r: Self)
        ensures
            r.wf(),
            r.count() == 1,
            forall|a: u64| leaf(r@, a) is None,
    {
        let mut entries: Vec<PageEntry> = Vec::new();
        let mut k: usize = 0;
        while k < 512
            invariant
                k <= 512,
                entries@.len() == k,
                forall|i: int| 0 <= i < k ==> entries@[i] is Empty,
            decreases 512 - k,
        {
            entries.push(PageEntry::Empty);
            k += 1;
        }
        let ghost root_only = seq![Seq::<int>::empty()];
        let r = PageTables { entries, paths: Ghost(root_only) };
        proof {
            assert forall|t: int, j: int|
                0 <= t < r.paths@.len() && 0 <= j < 512 implies #[trigger] entry_ok(
                r.entries@,
                r.paths@,
                t,
                j,
            ) by {
                assert(t == 0);
                assert(r.entries@[t * 512 + j] is Empty);
            }
            assert forall|a: u64| leaf(r@, a) is None by {
                lemma_idx_range(a, 0);
            }
        }
        r
    }

    /// The number of tables.
    pub fn table_count(&self) -> (n: usize)
        requires
            self.wf(),
        ensures
            n == self.count(),
    {
        self.entries.len() / 512
    }

    /// Entry `index` of table `table`.
    pub fn entry(&self, table: usize, index: usize) -> (e: PageEntry)
        requires
            self.wf(),
            table < self.count(),
            index < 512,
        ensures
            e == cell(self@, table as int, index as int),
            e matches PageEntry::Table(i) ==> i < self.count(),
    {
        proof {
            lemma_entry_ok(self.entries@, self.paths@, table as int, index as int);
        }
        let len = self.entries.len();
        assert(table * 512 + index < len);
        self.entries[table * 512 + index]
    }

    /// Appends an empty table whose walk path will be `path`.
    fn new_table(&mut self, path: Ghost<Seq<int>>) -> (n: usize)
        requires
            old(self).wf(),
            path@.len() <= 3,
        ensures
            final(self).wf(),
            n == old(self).count(),
            final(self).count() == old(self).count() + 1,
            final(self).paths@ == old(self).paths@.push(path@),
            final(self).entries@.subrange(0, old(self).entries@.len() as int) == old(self).entries@,
            forall|k: int| 0 <= k < 512 ==> cell(final(self).entries@, n as int, k) is Empty,
            forall|a: u64| leaf(final(self).entries@, a) == leaf(old(self).entries@, a),
            forall|a: u64| no_huge_on_path(final(self).entries@, a) == no_huge_on_path(
                old(self).entries@,
                a,
            ),
    {
        let ghost s0 = self.entries@;
        let ghost p0 = self.paths@;
        let n = self.entries.len() / 512;
        assert(n == p0.len());
        let mut k: usize = 0;
        while k < 512
            invariant
                k <= 512,
                n == p0.len(),
                s0.len() == 512 * p0.len(),
                self.entries@.len() == s0.len() + k,
                self.entries@.subrange(0, s0.len() as int) == s0,
                forall|i: int| s0.len() <= i < self.entries@.len() ==> self.entries@[i] is Empty,
                self.paths@ == p0,
            decreases 512 - k,
        {
            self.entries.push(PageEntry::Empty);
            assert(self.entries@.subrange(0, s0.len() as int) =~= s0);
            k += 1;
        }
        let ghost p1 = p0.push(path@);
        self.paths = Ghost(p1);
        proof {
            let s = self.entries@;
            let p = self.paths@;
            let ext = s.subrange(s0.len() as int, s.len() as int);
            assert(s =~= s0 + ext);
            assert forall|t: int, j: int| 0 <= t < p.len() && 0 <= j < 512 implies #[trigger] entry_ok(
                s,
                p,
                t,
                j,
            ) by {
                if t < p0.len() {
                    lemma_entry_ok(s0, p0, t, j);
                    assert(cell(s, t, j) == cell(s0, t, j));
                } else {
                    assert(t == n);
                    assert(t * 512 + j >= s0.len()) by (nonlinear_arith)
                        requires
                            t == p0.len(),
                            s0.len() == 512 * p0.len(),
                            0 <= j,
                    ;
                    assert(t * 512 + j < s.len()) by (nonlinear_arith)
                        requires
                            t == p0.len(),
                            s.len() == s0.len() + 512,
                            s0.len() == 512 * p0.len(),
                            j < 512,
                    ;
                }
            }
            assert forall|k2: int| 0 <= k2 < 512 implies cell(s, n as int, k2) is Empty by {
                assert(n * 512 + k2 >= s0.len() && n * 512 + k2 < s.len()) by (nonlinear_arith)
                    requires
                        n == p0.len(),
                        s.len() == s0.len() + 512,
                        s0.len() == 512 * p0.len(),
                        0 <= k2 < 512,
                ;
            }
            assert forall|a: u64| leaf(s, a) == leaf(s0, a) && no_huge_on_path(s, a)
                == no_huge_on_path(s0, a) by {
                lemma_extend(s0, p0, ext, a);
            }
        }
        n
    }

    /// Stores `e` as entry `j` of table `t`.
    fn put(&mut self, t: usize, j: usize, e: PageEntry)
        requires
            old(self).wf(),
            t < old(self).count(),
            j < 512,
            entry_ok(old(self).entries@.update(t * 512 + j, e), old(self).paths@, t as int, j as int),
        ensures
            final(self).wf(),
            final(self).paths@ == old(self).paths@,
            final(self).entries@ == old(self).entries@.update(t * 512 + j, e),
    {
        let ghost s0 = self.entries@;
        let ghost p = self.paths@;
        proof {
            lemma_entry_ok(s0, p, t as int, j as int);
        }
        let len = self.entries.len();
        assert(t * 512 + j < len);
        self.entries.set(t * 512 + j, e);
        proof {
            let s = self.entries@;
            assert forall|t2: int, j2: int| 0 <= t2 < p.len() && 0 <= j2 < 512 implies #[trigger] entry_ok(
                s,
                p,
                t2,
                j2,
            ) by {
                lemma_entry_ok(s0, p, t2, j2);
                if t2 * 512 + j2 == t * 512 + j {
                    lemma_cell_index(t2, j2, t as int, j as int);
                }
            }
        }
    }

    /// The child table behind entry `index` of table `parent`, created
    /// empty if the entry is empty.
    fn child_table(&mut self, parent: usize, index: usize) -> (child: usize)
        requires
            old(self).wf(),
            parent < old(self).count(),
            index < 512,
            old(self).paths@[parent as int].len() < 3,
            !(cell(old(self).entries@, parent as int, index as int) is Frame),
        ensures
            final(self).wf(),
            child < final(self).count(),
            final(self).count() >= old(self).count(),
            final(self).paths@.subrange(0, old(self).count() as int) == old(self).paths@,
            final(self).paths@[child as int] == old(self).paths@[parent as int].push(index as int),
            cell(final(self).entries@, parent as int, index as int) == PageEntry::Table(child),
            forall|a: u64| leaf(final(self).entries@, a) == leaf(old(self).entries@, a),
            forall|a: u64|
                no_huge_on_path(old(self).entries@, a) ==> no_huge_on_path(final(self).entries@, a),
            forall|t: int, j: int|
                0 <= t < old(self).count() && 0 <= j < 512 && (t != parent || j != index) ==> cell(
                    final(self).entries@,
                    t,
                    j,
                ) == cell(old(self).entries@, t, j),
    {
        let ghost s0 = self.entries@;
        let ghost p0 = self.paths@;
        proof {
            lemma_entry_ok(s0, p0, parent as int, index as int);
        }
        let len = self.entries.len();
        assert(parent * 512 + index < len);
        match self.entries[parent * 512 + index] {
            PageEntry::Table(i) => {
                assert(self.paths@.subrange(0, p0.len() as int) =~= p0);
                i
            },
            _ => {
                let ghost path = p0[parent as int].push(index as int);
                let table = self.new_table(Ghost(path));
                let ghost s1 = self.entries@;
                let ghost p1 = self.paths@;
                proof {
                    assert(p1.subrange(0, p0.len() as int) =~= p0);
                    lemma_entry_ok(s1, p1, parent as int, index as int);
                    assert(cell(s1, parent as int, index as int) == cell(s0, parent as int, index as int));
                    let s2 = s1.update(parent * 512 + index, PageEntry::Table(table));
                    assert(cell(s2, parent as int, index as int) == PageEntry::Table(table));
                    assert(entry_ok(s2, p1, parent as int, index as int));
                    assert forall|a: u64| leaf(s2, a) == leaf(s1, a) && (no_huge_on_path(s1, a)
                        ==> no_huge_on_path(s2, a)) by {
                        lemma_link_fresh(s1, p1, parent as int, index as int, table, a);
                    }
                }
                self.put(parent, index, PageEntry::Table(table));
                proof {
                    assert forall|t: int, j: int|
                        0 <= t < p0.len() && 0 <= j < 512 && (t != parent || j != index) implies cell(
                        self.entries@,
                        t,
                        j,
                    ) == cell(s0, t, j) by {
                        lemma_entry_ok(s0, p0, t, j);
                        if t * 512 + j == parent * 512 + index {
                            lemma_cell_index(t, j, parent as int, index as int);
                        }
                        assert(s1.subrange(0, s0.len() as int)[t * 512 + j] == s0[t * 512 + j]);
                    }
                }
                table
            },
        }
    }
}


// ---------------------------------------------------------------------------
// Index arithmetic
// ---------------------------------------------------------------------------

proof fn lemma_idx_bits(a: u64)
    ensures
        idx(a, 0) == ((a >> 39u64) & 0x1ffu64),
        idx(a, 1) == ((a >> 30u64) & 0x1ffu64),
        idx(a, 2) == ((a >> 21u64) & 0x1ffu64),
        idx(a, 3) == ((a >> 12u64) & 0x1ffu64),
{
    assert(((a >> 39u64) & 0x1ffu64) == (a / 0x80_0000_0000u64) % 512) by (bit_vector);
    assert(((a >> 30u64) & 0x1ffu64) == (a / 0x4000_0000u64) % 512) by (bit_vector);
    assert(((a >> 21u64) & 0x1ffu64) == (a / 0x20_0000u64) % 512) by (bit_vector);
    assert(((a >> 12u64) & 0x1ffu64) == (a / 0x1000u64) % 512) by (bit_vector);
}

/// The four 1 GiB slots of a window are distinct.
proof fn lemma_slots_distinct(base: u64, g1: int, g2: int)
    requires
        0 <= g1 < g2 < 4,
        base <= 0xffff_ffff_3fff_ffffu64,
    ensures
        !same_slot_1g(window_gb(base, g1), window_gb(base, g2)),
{
    let w1 = window_gb(base, g1);
    let w2 = window_gb(base, g2);
    let d = (g2 - g1) as u64;
    assert(w2 == w1 + d * 0x4000_0000);
    lemma_idx_bits(w1);
    lemma_idx_bits(w2);
    assert(((w1 >> 30u64) & 0x3ffffu64) != ((w2 >> 30u64) & 0x3ffffu64)) by (bit_vector)
        requires
            w2 == w1 + d * 0x4000_0000u64,
            1 <= d <= 3,
    ;
    assert(((w1 >> 30u64) & 0x3ffffu64) == ((w1 >> 39u64) & 0x1ffu64) * 512 + ((w1 >> 30u64)
        & 0x1ffu64)) by (bit_vector);
    assert(((w2 >> 30u64) & 0x3ffffu64) == ((w2 >> 39u64) & 0x1ffu64) * 512 + ((w2 >> 30u64)
        & 0x1ffu64)) by (bit_vector);
}

fn index_pml4(address: u64) -> (r: usize)
    ensures
        r == idx(address, 0),
        r < 512,
{
    proof {
        lemma_idx_bits(address);
    }
    let x = (address >> 39) & 0x1ff;
    assert(x < 512) by (bit_vector)
        requires
            x == (address >> 39u64) & 0x1ffu64,
    ;
    x as usize
}

fn index_pdpt(address: u64) -> (r: usize)
    ensures
        r == idx(address, 1),
        r < 512,
{
    proof {
        lemma_idx_bits(address);
    }
    let x = (address >> 30) & 0x1ff;
    assert(x < 512) by (bit_vector)
        requires
            x == (address >> 30u64) & 0x1ffu64,
    ;
    x as usize
}

fn index_pd(address: u64) -> (r: usize)
    ensures
        r == idx(address, 2),
        r < 512,
{
    proof {
        lemma_idx_bits(address);
    }
    let x = (address >> 21) & 0x1ff;
    assert(x < 512) by (bit_vector)
        requires
            x == (address >> 21u64) & 0x1ffu64,
    ;
    x as usize
}

fn index_pt(address: u64) -> (r: usize)
    ensures
        r == idx(address, 3),
        r < 512,
{
    proof {
        lemma_idx_bits(address);
    }
    let x = (address >> 12) & 0x1ff;
    assert(x < 512) by (bit_vector)
        requires
            x == (address >> 12u64) & 0x1ffu64,
    ;
    x as usize
}

// ---------------------------------------------------------------------------
// Mapping
// ---------------------------------------------------------------------------

impl PageTables {
    /// Maps four 1 GiB slots starting at the slot of `virtual_base` with
    /// 2 MiB pages onto physical memory 0 .. 4 GiB: slot `g`, entry `e`
    /// maps `g GiB + e * 2 MiB`. Each slot gets a new page directory.
    fn map_2m_window(&mut self, virtual_base: u64)
        requires
            old(self).wf(),
            virtual_base <= 0xffff_ffff_3fff_ffffu64,
        ensures
            final(self).wf(),
            forall|a: u64, g: int|
                0 <= g < 4 && #[trigger] same_slot_1g(a, window_gb(virtual_base, g)) ==> leaf(
                    final(self)@,
                    a,
                ) == Some((2int, huge_entry(g, idx(a, 2)))),
            forall|a: u64| !in_window(virtual_base, a) ==> leaf(final(self)@, a) == leaf(old(self)@, a),
    {
        let ghost s_start = self.entries@;
        let mut gigabyte: u64 = 0;
        while gigabyte < 4
            invariant
                self.wf(),
                gigabyte <= 4,
                virtual_base <= 0xffff_ffff_3fff_ffffu64,
                forall|a: u64, g: int|
                    0 <= g < gigabyte && #[trigger] same_slot_1g(a, window_gb(virtual_base, g))
                        ==> leaf(self@, a) == Some((2int, huge_entry(g, idx(a, 2)))),
                forall|a: u64|
                    (forall|g: int|
                        0 <= g < gigabyte ==> !same_slot_1g(a, #[trigger] window_gb(virtual_base, g)))
                        ==> leaf(self@, a) == leaf(s_start, a),
            decreases 4 - gigabyte,
        {
            let ghost sg = self.entries@;
            let w = virtual_base + gigabyte * 0x4000_0000;
            assert(w == window_gb(virtual_base, gigabyte as int));
            let i0 = index_pml4(w);
            let i1 = index_pdpt(w);
            proof {
                lemma_entry_ok(self.entries@, self.paths@, 0, i0 as int);
            }
            let pdpt = self.child_table(0, i0);
            let ghost path = self.paths@[pdpt as int].push(i1 as int);
            assert(self.paths@[pdpt as int] =~= seq![i0 as int]);
            let pd = self.new_table(Ghost(path));
            proof {
                lemma_entry_ok(self.entries@, self.paths@, pdpt as int, i1 as int);
                lemma_entry_ok(self.entries@, self.paths@, 0, i0 as int);
            }
            let ghost before_link = self.entries@;
            let ghost p = self.paths@;
            proof {
                assert forall|a: u64| !same_slot_1g(a, w) implies leaf(
                    before_link.update(pdpt * 512 + i1, PageEntry::Table(pd)),
                    a,
                ) == leaf(before_link, a) by {
                    assert(prefix(a, 2) != p[pdpt as int].push(i1 as int)) by {
                        if prefix(a, 2) == p[pdpt as int].push(i1 as int) {
                            assert(prefix(a, 2)[0] == i0);
                            assert(prefix(a, 2)[1] == i1);
                        }
                    }
                    lemma_write_elsewhere(before_link, p, pdpt as int, i1 as int, PageEntry::Table(pd), a);
                }
            }
            self.put(pdpt, i1, PageEntry::Table(pd));
            proof {
                lemma_entry_ok(self.entries@, self.paths@, 0, i0 as int);
                assert(cell(self.entries@, 0, i0 as int) == PageEntry::Table(pdpt)) by {
                    if 0 * 512 + i0 == pdpt * 512 + i1 {
                        lemma_cell_index(0, i0 as int, pdpt as int, i1 as int);
                    }
                }
                assert forall|k: int| 0 <= k < 512 implies cell(self.entries@, pd as int, k) is Empty by {
                    lemma_entry_ok(before_link, p, pd as int, k);
                    if pd * 512 + k == pdpt * 512 + i1 {
                        lemma_cell_index(pd as int, k, pdpt as int, i1 as int);
                    }
                }
            }
            let mut entry: u64 = 0;
            while entry < 512
                invariant
                    self.wf(),
                    entry <= 512,
                    gigabyte < 4,
                    self.paths@ == p,
                    pd < p.len(),
                    pdpt < p.len(),
                    pd != 0,
                    pd != pdpt,
                    p[pd as int] == seq![i0 as int, i1 as int],
                    i0 == idx(w, 0),
                    i1 == idx(w, 1),
                    i0 < 512,
                    i1 < 512,
                    cell(self@, 0, i0 as int) == PageEntry::Table(pdpt),
                    cell(self@, pdpt as int, i1 as int) == PageEntry::Table(pd),
                    forall|k: int| 0 <= k < entry ==> cell(self@, pd as int, k) == PageEntry::Frame(
                        huge_entry(gigabyte as int, k),
                    ),
                    forall|k: int| entry <= k < 512 ==> cell(self@, pd as int, k) is Empty,
                    forall|a: u64| !same_slot_1g(a, w) ==> leaf(self@, a) == leaf(before_link, a),
                decreases 512 - entry,
            {
                let physical = gigabyte * 0x4000_0000 + entry * PAGE_2M;
                let value = physical | PRESENT | WRITABLE | HUGE;
                assert(value == physical | 0x83u64) by (bit_vector)
                    requires
                        value == physical | 1u64 | 2u64 | 0x80u64,
                ;
                let ghost s_now = self.entries@;
                proof {
                    assert forall|a: u64| !same_slot_1g(a, w) implies leaf(
                        s_now.update(pd * 512 + entry, PageEntry::Frame(value)),
                        a,
                    ) == leaf(s_now, a) by {
                        assert(prefix(a, 3) != p[pd as int].push(entry as int)) by {
                            if prefix(a, 3) == p[pd as int].push(entry as int) {
                                assert(prefix(a, 3)[0] == i0);
                                assert(prefix(a, 3)[1] == i1);
                            }
                        }
                        lemma_write_elsewhere(s_now, p, pd as int, entry as int, PageEntry::Frame(value), a);
                    }
                    lemma_entry_ok(s_now, p, pd as int, entry as int);
                }
                self.put(pd as usize, entry as usize, PageEntry::Frame(value));
                proof {
                    let s = self.entries@;
                    assert forall|k: int| 0 <= k < 512 && k != entry implies cell(s, pd as int, k)
                        == cell(s_now, pd as int, k) by {
                        lemma_entry_ok(s_now, p, pd as int, k);
                        if pd * 512 + k == pd * 512 + entry {
                        }
                    }
                    lemma_entry_ok(s_now, p, 0, i0 as int);
                    lemma_entry_ok(s_now, p, pdpt as int, i1 as int);
                    if 0 * 512 + i0 == pd * 512 + entry {
                        lemma_cell_index(0, i0 as int, pd as int, entry as int);
                    }
                    if pdpt * 512 + i1 == pd * 512 + entry {
                        lemma_cell_index(pdpt as int, i1 as int, pd as int, entry as int);
                    }
                    assert(huge_entry(gigabyte as int, entry as int) == value);
                }
                entry += 1;
            }
            proof {
                let s = self.entries@;
                assert forall|a: u64| same_slot_1g(a, w) implies leaf(s, a) == Some(
                    (2int, huge_entry(gigabyte as int, idx(a, 2))),
                ) by {
                    lemma_idx_range(a, 2);
                }
                assert forall|a: u64, g: int|
                    0 <= g < gigabyte + 1 && #[trigger] same_slot_1g(a, window_gb(virtual_base, g))
                        implies leaf(s, a) == Some((2int, huge_entry(g, idx(a, 2)))) by {
                    if g < gigabyte {
                        lemma_slots_distinct(virtual_base, g, gigabyte as int);
                        assert(!same_slot_1g(a, w));
                    }
                }
                assert forall|a: u64|
                    (forall|g: int|
                        0 <= g < gigabyte + 1 ==> !same_slot_1g(a, #[trigger] window_gb(virtual_base, g)))
                        implies leaf(s, a) == leaf(s_start, a) by {
                    assert(!same_slot_1g(a, window_gb(virtual_base, gigabyte as int)));
                }
            }
            gigabyte += 1;
        }
        proof {
            assert forall|a: u64| !in_window(virtual_base, a) implies leaf(self@, a) == leaf(
                s_start,
                a,
            ) by {
                assert forall|g: int| 0 <= g < 4 implies !same_slot_1g(a, #[trigger] window_gb(virtual_base, g)) by {
                    if same_slot_1g(a, window_gb(virtual_base, g)) {
                        assert(in_window(virtual_base, a));
                    }
                }
            }
        }
    }
}

/// Within a window at a 1 GiB-aligned `base`, `base + x` translates to `x`
/// for every `x` below 4 GiB.
proof fn lemma_window_translate(s: Seq<PageEntry>, base: u64, x: u64)
    requires
        base & 0x3fff_ffffu64 == 0,
        base <= 0xffff_ffff_0000_0000u64,
        x < 0x1_0000_0000u64,
        forall|a: u64, g: int|
            0 <= g < 4 && #[trigger] same_slot_1g(a, window_gb(base, g)) ==> leaf(s, a) == Some(
                (2int, huge_entry(g, idx(a, 2))),
            ),
    ensures
        translate(s, (base + x) as u64) == Some(x as int),
{
    let a: u64 = (base + x) as u64;
    let g: u64 = x >> 30u64;
    assert(g < 4) by (bit_vector)
        requires
            x < 0x1_0000_0000u64,
            g == x >> 30u64,
    ;
    let w: u64 = (base + g * 0x4000_0000) as u64;
    assert(w == window_gb(base, g as int));
    assert(a >> 30u64 == w >> 30u64) by (bit_vector)
        requires
            base & 0x3fff_ffffu64 == 0,
            base <= 0xffff_ffff_0000_0000u64,
            x < 0x1_0000_0000u64,
            a == base + x,
            g == x >> 30u64,
            w == base + g * 0x4000_0000u64,
    ;
    lemma_idx_bits(a);
    lemma_idx_bits(w);
    assert(((a >> 39u64) & 0x1ffu64) == (((a >> 30u64) >> 9u64) & 0x1ffu64)) by (bit_vector);
    assert(((w >> 39u64) & 0x1ffu64) == (((w >> 30u64) >> 9u64) & 0x1ffu64)) by (bit_vector);
    assert(same_slot_1g(a, w));
    let e: u64 = (x >> 21u64) & 0x1ffu64;
    assert(((a >> 21u64) & 0x1ffu64) == e) by (bit_vector)
        requires
            base & 0x3fff_ffffu64 == 0,
            x < 0x1_0000_0000u64,
            a == base + x,
            e == (x >> 21u64) & 0x1ffu64,
    ;
    let phys: u64 = (g * 0x4000_0000 + e * 0x20_0000) as u64;
    assert(phys == g * 0x4000_0000 + e * 0x20_0000);
    assert(huge_entry(g as int, e as int) == phys | 0x83u64);
    let v = phys | 0x83u64;
    assert((v & 0x000f_ffff_ffe0_0000u64) == phys) by (bit_vector)
        requires
            v == phys | 0x83u64,
            phys == g * 0x4000_0000u64 + e * 0x20_0000u64,
            g < 4,
            e < 512,
    ;
    assert(a % 0x20_0000u64 == x & 0x1f_ffffu64) by (bit_vector)
        requires
            base & 0x3fff_ffffu64 == 0,
            a == base + x,
            x < 0x1_0000_0000u64,
    ;
    assert(phys + (x & 0x1f_ffffu64) == x) by (bit_vector)
        requires
            phys == g * 0x4000_0000u64 + e * 0x20_0000u64,
            g == x >> 30u64,
            e == (x >> 21u64) & 0x1ffu64,
            x < 0x1_0000_0000u64,
    ;
    assert(leaf(s, a) == Some((2int, huge_entry(g as int, e as int))));
}

impl PageTables {
    /// Identity-maps physical memory 0 .. 4 GiB with 2 MiB pages.
    pub fn map_identity_first_4g(&mut self)
        requires
            old(self).wf(),
        ensures
            final(self).wf(),
            forall|a: u64| (a as int) < 0x1_0000_0000 ==> translate(final(self)@, a) == Some(a as int),
            forall|a: u64, g: int|
                0 <= g < 4 && #[trigger] same_slot_1g(a, window_gb(0, g)) ==> leaf(final(self)@, a)
                    == Some((2int, huge_entry(g, idx(a, 2)))),
            forall|a: u64| !in_window(0, a) ==> leaf(final(self)@, a) == leaf(old(self)@, a),
    {
        self.map_2m_window(0);
        proof {
            assert(0u64 & 0x3fff_ffffu64 == 0) by (bit_vector);
            assert forall|a: u64| (a as int) < 0x1_0000_0000 implies translate(self@, a) == Some(
                a as int,
            ) by {
                lemma_window_translate(self@, 0, a);
                assert((0 + a) as u64 == a);
            }
        }
    }

    /// Maps physical memory 0 .. 4 GiB again at `offset` (the higher-half
    /// direct map), with 2 MiB pages.
    pub fn map_hhdm_first_4g(&mut self, offset: u64)
        requires
            old(self).wf(),
            offset <= 0xffff_ffff_3fff_ffffu64,
        ensures
            final(self).wf(),
            offset & 0x3fff_ffffu64 == 0 ==> forall|x: u64|
                (x as int) < 0x1_0000_0000 ==> translate(final(self)@, (offset + x) as u64) == Some(
                    x as int,
                ),
            forall|a: u64, g: int|
                0 <= g < 4 && #[trigger] same_slot_1g(a, window_gb(offset, g)) ==> leaf(
                    final(self)@,
                    a,
                ) == Some((2int, huge_entry(g, idx(a, 2)))),
            forall|a: u64| !in_window(offset, a) ==> leaf(final(self)@, a) == leaf(old(self)@, a),
    {
        self.map_2m_window(offset);
        proof {
            if offset & 0x3fff_ffffu64 == 0 {
                assert(offset <= 0xffff_ffff_0000_0000u64) by (bit_vector)
                    requires
                        offset & 0x3fff_ffffu64 == 0,
                        offset <= 0xffff_ffff_3fff_ffffu64,
                ;
                assert forall|x: u64| (x as int) < 0x1_0000_0000 implies translate(
                    self@,
                    (offset + x) as u64,
                ) == Some(x as int) by {
                    lemma_window_translate(self@, offset, x);
                }
            }
        }
    }
}

/// Addresses in one 4 KiB page slot reach the same leaf.
pub proof fn lemma_same_slot_same_leaf(s: Seq<PageEntry>, a: u64, b: u64)
    requires
        same_slot_4k(a, b),
    ensures
        leaf(s, a) == leaf(s, b),
{
}

impl PageTables {
    /// Whether `map_range` can map `length` bytes at `virtual_address`:
    /// none of its pages lies under a 2 MiB page.
    pub open spec fn can_map(&self, virtual_address: u64, length: usize) -> bool {
        forall|i: int|
            0 <= i < pages_of(length) ==> no_huge_on_path(self@, #[trigger] page_at(virtual_address, i))
    }

    /// Maps `length` bytes (rounded up to 4 KiB pages) at
    /// `virtual_address` to `physical_address` with 4 KiB pages, writable
    /// if the ELF flags have `PF_W` and executable only if they have `PF_X`.
    pub fn map_range(
        &mut self,
        virtual_address: u64,
        physical_address: u64,
        length: usize,
        elf_flags: u32,
    ) -> (r: Result<(), &'static str>)
        requires
            old(self).wf(),
            length + 4095 <= usize::MAX ==> pages_of(length) == 0 || (virtual_address + (pages_of(
                length,
            ) - 1) * 4096 <= u64::MAX && physical_address + (pages_of(length) - 1) * 4096
                <= u64::MAX),
            length + 4095 <= usize::MAX ==> old(self).can_map(virtual_address, length),
        ensures
            final(self).wf(),
            length + 4095 > usize::MAX ==> r == Err::<(), &'static str>("mapping length overflow")
                && final(self)@ == old(self)@,
            length + 4095 <= usize::MAX ==> r is Ok,
            r is Ok ==> forall|a: u64, i: int|
                0 <= i < pages_of(length) && #[trigger] same_slot_4k(a, page_at(virtual_address, i))
                    && (forall|j: int|
                    i < j < pages_of(length) ==> !same_slot_4k(
                        page_at(virtual_address, i),
                        #[trigger] page_at(virtual_address, j),
                    )) ==> leaf(final(self)@, a) == Some(
                    (3int, page_at(physical_address, i) | page_flags(elf_flags)),
                ),
            r is Ok ==> forall|a: u64|
                (forall|i: int|
                    0 <= i < pages_of(length) ==> !same_slot_4k(
                        a,
                        #[trigger] page_at(virtual_address, i),
                    )) ==> leaf(final(self)@, a) == leaf(old(self)@, a),
    {
        if length > usize::MAX - 4095 {
            return Err("mapping length overflow");
        }
        let pages = (length + 4095) / 4096;
        let ghost s_start = self.entries@;
        let writable: u64 = if elf_flags & 2 != 0 {
            WRITABLE
        } else {
            0
        };
        let no_execute: u64 = if elf_flags & 1 == 0 {
            EXECUTE_DISABLE
        } else {
            0
        };
        let flags = (PRESENT | writable) | no_execute;
        assert(flags == page_flags(elf_flags));
        let mut page: usize = 0;
        while page < pages
            invariant
                self.wf(),
                page <= pages,
                pages == pages_of(length),
                length + 4095 <= usize::MAX,
                flags == page_flags(elf_flags),
                pages == 0 || (virtual_address + (pages - 1) * 4096 <= u64::MAX && physical_address
                    + (pages - 1) * 4096 <= u64::MAX),
                forall|i: int| page <= i < pages ==> no_huge_on_path(self@, #[trigger] page_at(virtual_address, i)),
                forall|a: u64, i: int|
                    0 <= i < page && #[trigger] same_slot_4k(a, page_at(virtual_address, i)) && (forall|j: int|
                        i < j < page ==> !same_slot_4k(
                            page_at(virtual_address, i),
                            #[trigger] page_at(virtual_address, j),
                        )) ==> leaf(self@, a) == Some(
                        (3int, page_at(physical_address, i) | page_flags(elf_flags)),
                    ),
                forall|a: u64|
                    (forall|i: int|
                        0 <= i < page ==> !same_slot_4k(a, #[trigger] page_at(virtual_address, i)))
                        ==> leaf(self@, a) == leaf(s_start, a),
            decreases pages - page,
        {
            assert(page * 4096 <= (pages - 1) * 4096) by (nonlinear_arith)
                requires
                    page < pages,
            ;
            assert((pages - 1) * 4096 <= length + 4095) by (nonlinear_arith)
                requires
                    pages == (length + 4095) / 4096,
                    pages >= 1,
            ;
            let offset = (page * 4096) as u64;
            let vp = virtual_address + offset;
            let pp = physical_address + offset;
            assert(vp == page_at(virtual_address, page as int));
            assert(pp == page_at(physical_address, page as int));
            let ghost s_page = self.entries@;
            assert(no_huge_on_path(s_page, vp));
            let i0 = index_pml4(vp);
            let i1 = index_pdpt(vp);
            let i2 = index_pd(vp);
            let i3 = index_pt(vp);
            proof {
                lemma_entry_ok(self.entries@, self.paths@, 0, i0 as int);
            }
            let pdpt = self.child_table(0, i0);
            proof {
                lemma_entry_ok(self.entries@, self.paths@, pdpt as int, i1 as int);
                assert(self.paths@[pdpt as int] =~= seq![i0 as int]);
            }
            let pd = self.child_table(pdpt, i1);
            proof {
                assert(self.paths@[pd as int] =~= seq![i0 as int, i1 as int]);
                assert(pdpt != 0);
                assert(cell(self.entries@, 0, i0 as int) == PageEntry::Table(pdpt));
                lemma_entry_ok(self.entries@, self.paths@, pd as int, i2 as int);
            }
            let pt = self.child_table(pd, i2);
            let ghost s_walk = self.entries@;
            let ghost p = self.paths@;
            proof {
                assert(p[pt as int] =~= seq![i0 as int, i1 as int, i2 as int]);
                assert(pd != pdpt && pd != 0);
                assert(cell(s_walk, 0, i0 as int) == PageEntry::Table(pdpt));
                assert(cell(s_walk, pdpt as int, i1 as int) == PageEntry::Table(pd));
                assert(cell(s_walk, pd as int, i2 as int) == PageEntry::Table(pt));
                lemma_entry_ok(s_walk, p, pt as int, i3 as int);
                lemma_entry_ok(s_walk, p, 0, i0 as int);
                lemma_entry_ok(s_walk, p, pdpt as int, i1 as int);
                lemma_entry_ok(s_walk, p, pd as int, i2 as int);
            }
            let value = pp | flags;
            let ghost s_after = s_walk.update(pt * 512 + i3, PageEntry::Frame(value));
            proof {
                assert forall|a: u64| !same_slot_4k(a, vp) implies leaf(s_after, a) == leaf(s_walk, a)
                    && no_huge_on_path(s_after, a) == no_huge_on_path(s_walk, a) by {
                    assert(prefix(a, 4) != p[pt as int].push(i3 as int)) by {
                        if prefix(a, 4) == p[pt as int].push(i3 as int) {
                            assert(prefix(a, 4)[0] == i0);
                            assert(prefix(a, 4)[1] == i1);
                            assert(prefix(a, 4)[2] == i2);
                            assert(prefix(a, 4)[3] == i3);
                        }
                    }
                    lemma_write_elsewhere(s_walk, p, pt as int, i3 as int, PageEntry::Frame(value), a);
                }
                assert(pt != pd && pt != pdpt && pt != 0);
                if pt * 512 + i3 == 0 * 512 + i0 {
                    lemma_cell_index(pt as int, i3 as int, 0, i0 as int);
                }
                if pt * 512 + i3 == pdpt * 512 + i1 {
                    lemma_cell_index(pt as int, i3 as int, pdpt as int, i1 as int);
                }
                if pt * 512 + i3 == pd * 512 + i2 {
                    lemma_cell_index(pt as int, i3 as int, pd as int, i2 as int);
                }
                assert(cell(s_after, 0, i0 as int) == PageEntry::Table(pdpt));
                assert(cell(s_after, pdpt as int, i1 as int) == PageEntry::Table(pd));
                assert(cell(s_after, pd as int, i2 as int) == PageEntry::Table(pt));
                assert(cell(s_after, pt as int, i3 as int) == PageEntry::Frame(value));
                assert forall|a: u64| same_slot_4k(a, vp) implies leaf(s_after, a) == Some(
                    (3int, value),
                ) && no_huge_on_path(s_after, a) by {}
            }
            self.put(pt, i3, PageEntry::Frame(value));
            proof {
                let s = self.entries@;
                assert(s == s_after);
                assert forall|i: int| page + 1 <= i < pages implies no_huge_on_path(
                    s,
                    #[trigger] page_at(virtual_address, i),
                ) by {
                    let b = page_at(virtual_address, i);
                    assert(no_huge_on_path(s_page, b));
                    if !same_slot_4k(b, vp) {
                        assert(no_huge_on_path(s_walk, b));
                    }
                }
                assert forall|a: u64, i: int|
                    0 <= i < page + 1 && #[trigger] same_slot_4k(a, page_at(virtual_address, i)) && (forall|j: int|
                        i < j < page + 1 ==> !same_slot_4k(
                            page_at(virtual_address, i),
                            #[trigger] page_at(virtual_address, j),
                        )) implies leaf(s, a) == Some(
                    (3int, page_at(physical_address, i) | page_flags(elf_flags)),
                ) by {
                    if i < page {
                        assert(!same_slot_4k(page_at(virtual_address, i), page_at(virtual_address, page as int)));
                        assert(!same_slot_4k(a, vp));
                        assert(leaf(s_walk, a) == leaf(s_page, a));
                    }
                }
                assert forall|a: u64|
                    (forall|i: int|
                        0 <= i < page + 1 ==> !same_slot_4k(a, #[trigger] page_at(virtual_address, i)))
                        implies leaf(s, a) == leaf(s_start, a) by {
                    assert(!same_slot_4k(a, page_at(virtual_address, page as int)));
                    assert(leaf(s_walk, a) == leaf(s_page, a));
                }
            }
            page += 1;
        }
        Ok(())
    }
}

proof fn lemma_cannot_map(t: &PageTables, va: u64, length: usize, i: int)
    requires
        0 <= i < pages_of(length),
        !no_huge_on_path(t@, page_at(va, i)),
    ensures
        !t.can_map(va, length),
{
}

impl PageTables {
    /// Whether the walk of `a` meets no 2 MiB page.
    fn no_huge_at(&self, a: u64) -> (b: bool)
        requires
            self.wf(),
        ensures
            b == no_huge_on_path(self@, a),
    {
        let i0 = index_pml4(a);
        match self.entry(0, i0) {
            PageEntry::Table(x) => match self.entry(x, index_pdpt(a)) {
                PageEntry::Table(y) => match self.entry(y, index_pd(a)) {
                    PageEntry::Frame(_) => false,
                    _ => true,
                },
                _ => true,
            },
            _ => true,
        }
    }

    /// Whether `map_range` accepts these arguments: the pages neither run
    /// past the end of the address space nor lie under a 2 MiB page.
    pub fn can_map_range(&self, virtual_address: u64, physical_address: u64, length: usize) -> (b:
        bool)
        requires
            self.wf(),
        ensures
            b == (length + 4095 <= usize::MAX ==> (pages_of(length) == 0 || (virtual_address + (
            pages_of(length) - 1) * 4096 <= u64::MAX && physical_address + (pages_of(length) - 1)
                * 4096 <= u64::MAX)) && self.can_map(virtual_address, length)),
    {
        if length > usize::MAX - 4095 {
            return true;
        }
        let pages = (length + 4095) / 4096;
        if pages == 0 {
            return true;
        }
        let last = ((pages - 1) as u64) * 4096;
        assert((pages - 1) * 4096 <= u64::MAX) by (nonlinear_arith)
            requires
                pages == (length + 4095) / 4096,
                length <= usize::MAX,
                usize::MAX <= u64::MAX,
        ;
        if virtual_address > u64::MAX - last || physical_address > u64::MAX - last {
            return false;
        }
        let mut page: usize = 0;
        while page < pages
            invariant
                self.wf(),
                page <= pages,
                pages == pages_of(length),
                pages >= 1,
                length + 4095 <= usize::MAX,
                virtual_address + (pages - 1) * 4096 <= u64::MAX,
                physical_address + (pages - 1) * 4096 <= u64::MAX,
                forall|i: int| 0 <= i < page ==> no_huge_on_path(self@, #[trigger] page_at(virtual_address, i)),
            decreases pages - page,
        {
            assert(page * 4096 <= (pages - 1) * 4096) by (nonlinear_arith)
                requires
                    page < pages,
            ;
            let vp = virtual_address + (page as u64) * 4096;
            assert(vp == page_at(virtual_address, page as int));
            if !self.no_huge_at(vp) {
                proof {
                    lemma_cannot_map(self, virtual_address, length, page as int);
                }
                return false;
            }
            page += 1;
        }
        true
    }
}
} // verus!
