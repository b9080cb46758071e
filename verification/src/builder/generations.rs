//! The older system generations the menu lists, newest first, and the boot
//! files no generation refers to any more.

use vstd::prelude::*;
use crate::text::{chars_of, has_prefix, has_suffix, ok_of, parse_u64, range_ends_with, range_starts_with, text_is};

verus! {

/// The generation number of a profile link named `system-<n>-link`.
pub open spec fn generation_number_spec(name: Seq<char>) -> Option<u64> {
    if has_prefix(name, "system-"@) {
        let rest = name.subrange(7, name.len() as int);
        if has_suffix(rest, "-link"@) {
            ok_of(parse_u64(rest.subrange(0, rest.len() - 5)))
        } else {
            None
        }
    } else {
        None
    }
}

/// The generation number of a profile link named `system-<n>-link`.
pub fn generation_number(name: &str) -> (r: Option<u64>)
    ensures
        r == generation_number_spec(name@),
{
    let v = chars_of(name);
    proof {
        reveal_strlit("system-");
        reveal_strlit("-link");
    }
    assert(v@.subrange(0, v@.len() as int) == v@);
    if !range_starts_with(&v, 0, v.len(), "system-") {
        return None;
    }
    let len = v.len();
    assert(v@.subrange(7, len as int) == v@.subrange(0, len as int).subrange(7, len as int));
    if !range_ends_with(&v, 7, len, "-link") {
        return None;
    }
    assert(v@.subrange(7, len as int).subrange(0, len - 7 - 5) == v@.subrange(7, len - 5));
    match crate::text::parse_u64_range(&v, 7, len - 5) {
        Ok(n) => Some(n),
        Err(_) => None,
    }
}

/// A generation: its number and its profile path.
pub type GenerationItem = (u64, Seq<char>);

/// Where `x` goes in a list sorted newest first: before the first older
/// generation, so that equal numbers keep their order.
pub open spec fn insert_at(s: Seq<GenerationItem>, x: GenerationItem) -> int
    decreases s.len(),
{
    if s.len() == 0 {
        0
    } else if s[0].0 < x.0 {
        0
    } else {
        1 + insert_at(s.drop_first(), x)
    }
}

/// The generations sorted newest first, equal numbers in their old order.
pub open spec fn newest_first_spec(s: Seq<GenerationItem>) -> Seq<GenerationItem>
    decreases s.len(),
{
    if s.len() == 0 {
        Seq::empty()
    } else {
        let t = newest_first_spec(s.drop_last());
        t.insert(insert_at(t, s.last()), s.last())
    }
}

/// Whether the generations are sorted newest first.
pub open spec fn sorted_newest_first(s: Seq<GenerationItem>) -> bool {
    forall|i: int, j: int| 0 <= i < j < s.len() ==> s[i].0 >= s[j].0
}

/// The model of a list of generations.
pub open spec fn items_view(v: Seq<(u64, String)>) -> Seq<GenerationItem> {
    v.map_values(|g: (u64, String)| (g.0, g.1@))
}

/// `insert_at` stops before the first older generation.
proof fn lemma_insert_at(s: Seq<GenerationItem>, x: GenerationItem, k: int)
    requires
        0 <= k <= s.len(),
        forall|j: int| 0 <= j < k ==> !(s[j].0 < x.0),
        k < s.len() ==> s[k].0 < x.0,
    ensures
        insert_at(s, x) == k,
    decreases s.len(),
{
    if s.len() > 0 && k > 0 {
        let t = s.drop_first();
        assert forall|j: int| 0 <= j < k - 1 implies !(t[j].0 < x.0) by {
            assert(t[j] == s[j + 1]);
        }
        lemma_insert_at(t, x, k - 1);
    }
}

/// The generations older than the current one (the newest), newest first.
pub open spec fn older_spec(s: Seq<GenerationItem>) -> Seq<GenerationItem> {
    if s.len() == 0 {
        Seq::empty()
    } else {
        newest_first_spec(s).drop_first()
    }
}

/// At most `limit` of the generations older than the current one (the
/// newest), newest first: the menu lists those beside the current system.
pub fn older_generations(generations: &Vec<(u64, String)>, limit: u32) -> (r: Vec<(u64, String)>)
    ensures
        items_view(r@) == older_spec(items_view(generations@)).take(
            if limit as int <= older_spec(items_view(generations@)).len() {
                limit as int
            } else {
                older_spec(items_view(generations@)).len() as int
            },
        ),
{
    let ghost g = items_view(generations@);
    let mut sorted: Vec<(u64, String)> = Vec::new();
    let mut i: usize = 0;
    assert(g.take(0) =~= Seq::<GenerationItem>::empty());
    assert(items_view(sorted@) =~= Seq::<GenerationItem>::empty());
    while i < generations.len()
        invariant
            i <= generations@.len(),
            g == items_view(generations@),
            items_view(sorted@) == newest_first_spec(g.take(i as int)),
            sorted@.len() == i,
        decreases generations@.len() - i,
    {
        let x = (generations[i].0, generations[i].1.clone());
        let ghost xv = (x.0, x.1@);
        let ghost t = items_view(sorted@);
        proof {
            let gi = g.take(i + 1);
            assert(gi.drop_last() =~= g.take(i as int));
            assert(gi.last() == g[i as int]);
            assert(g[i as int] == xv);
        }
        let mut p: usize = 0;
        while p < sorted.len() && !(sorted[p].0 < x.0)
            invariant
                p <= sorted@.len(),
                t == items_view(sorted@),
                xv.0 == x.0,
                forall|j: int| 0 <= j < p ==> !(t[j].0 < xv.0),
            decreases sorted@.len() - p,
        {
            assert(t[p as int].0 == sorted@[p as int].0);
            p += 1;
        }
        proof {
            if p < sorted@.len() {
                assert(t[p as int].0 == sorted@[p as int].0);
            }
            lemma_insert_at(t, xv, p as int);
        }
        sorted.insert(p, x);
        assert(items_view(sorted@) =~= t.insert(p as int, xv));
        i += 1;
    }
    assert(g.take(i as int) =~= g);
    if sorted.len() == 0 {
        assert(items_view(sorted@) =~= older_spec(g).take(0));
        return sorted;
    }
    let ghost all = items_view(sorted@);
    sorted.remove(0);
    assert(items_view(sorted@) =~= all.drop_first());
    let k: usize = if (limit as usize) <= sorted.len() {
        limit as usize
    } else {
        sorted.len()
    };
    sorted.truncate(k);
    assert(items_view(sorted@) =~= older_spec(g).take(k as int));
    sorted
}

/// Inserting an item where `insert_at` says keeps a list sorted newest
/// first.
proof fn lemma_insert_sorted(s: Seq<GenerationItem>, x: GenerationItem)
    requires
        sorted_newest_first(s),
    ensures
        sorted_newest_first(s.insert(insert_at(s, x), x)),
    decreases s.len(),
{
    let k = insert_at(s, x);
    lemma_insert_at_bounds(s, x);
    let r = s.insert(k, x);
    assert forall|i: int, j: int| 0 <= i < j < r.len() implies r[i].0 >= r[j].0 by {
        if j < k {
        } else if j == k {
            assert(r[i] == s[i]);
            assert(!(s[i].0 < x.0));
        } else if i == k {
            assert(r[j] == s[j - 1]);
            if k < s.len() {
                assert(s[k].0 < x.0);
                assert(s[k].0 >= s[j - 1].0);
            }
        } else if i < k {
            assert(r[i] == s[i]);
            assert(r[j] == s[j - 1]);
        } else {
            assert(r[i] == s[i - 1]);
            assert(r[j] == s[j - 1]);
        }
    }
}

/// What `insert_at` stops at.
proof fn lemma_insert_at_bounds(s: Seq<GenerationItem>, x: GenerationItem)
    ensures
        0 <= insert_at(s, x) <= s.len(),
        forall|j: int| 0 <= j < insert_at(s, x) ==> !(s[j].0 < x.0),
        insert_at(s, x) < s.len() ==> s[insert_at(s, x)].0 < x.0,
    decreases s.len(),
{
    if s.len() > 0 && !(s[0].0 < x.0) {
        lemma_insert_at_bounds(s.drop_first(), x);
        assert forall|j: int| 0 <= j < insert_at(s, x) implies !(s[j].0 < x.0) by {
            if j > 0 {
                assert(s[j] == s.drop_first()[j - 1]);
            }
        }
    }
}

/// The older generations the menu lists come newest first, every one of
/// them no newer than the current generation, and all but the current one
/// are there before the limit cuts the list.
pub proof fn lemma_older_generations_sorted(s: Seq<GenerationItem>, limit: int)
    requires
        0 <= limit <= older_spec(s).len(),
    ensures
        sorted_newest_first(older_spec(s).take(limit)),
        s.len() > 0 ==> older_spec(s).len() == s.len() - 1,
        forall|i: int|
            0 <= i < older_spec(s).len() ==> #[trigger] older_spec(s)[i].0 <= newest_first_spec(
                s,
            )[0].0,
{
    lemma_sorted(s);
    if s.len() > 0 {
        let t = newest_first_spec(s);
        assert forall|i: int| 0 <= i < older_spec(s).len() implies #[trigger] older_spec(s)[i].0
            <= t[0].0 by {
            assert(older_spec(s)[i] == t[i + 1]);
        }
        assert forall|i: int, j: int| 0 <= i < j < limit implies older_spec(s).take(limit)[i].0
            >= older_spec(s).take(limit)[j].0 by {
            assert(older_spec(s)[i] == t[i + 1]);
            assert(older_spec(s)[j] == t[j + 1]);
        }
    }
}

/// The whole sorted list is sorted and as long as the input.
proof fn lemma_sorted(s: Seq<GenerationItem>)
    ensures
        sorted_newest_first(newest_first_spec(s)),
        newest_first_spec(s).len() == s.len(),
    decreases s.len(),
{
    if s.len() > 0 {
        lemma_sorted(s.drop_last());
        let t = newest_first_spec(s.drop_last());
        lemma_insert_sorted(t, s.last());
        lemma_insert_at_bounds(t, s.last());
    }
}

/// The files of the kernels directory that no kept generation copied.
pub open spec fn unreferenced_spec(files: Seq<Seq<char>>, copied: Seq<Seq<char>>) -> Seq<Seq<char>> {
    files.filter(|f: Seq<char>| !copied.contains(f))
}

/// The files of the kernels directory that no kept generation copied, to
/// be removed.
pub fn unreferenced(files: &Vec<String>, copied: &Vec<String>) -> (r: Vec<String>)
    ensures
        crate::text::strings_view(r@) == unreferenced_spec(
            crate::text::strings_view(files@),
            crate::text::strings_view(copied@),
        ),
{
    let ghost fs = crate::text::strings_view(files@);
    let ghost cs = crate::text::strings_view(copied@);
    let mut out: Vec<String> = Vec::new();
    let mut i: usize = 0;
    assert(fs.take(0) =~= Seq::<Seq<char>>::empty());
    assert(crate::text::strings_view(out@) =~= Seq::<Seq<char>>::empty());
    while i < files.len()
        invariant
            i <= files@.len(),
            fs == crate::text::strings_view(files@),
            cs == crate::text::strings_view(copied@),
            crate::text::strings_view(out@) == unreferenced_spec(fs.take(i as int), cs),
        decreases files@.len() - i,
    {
        let f = files[i].as_str();
        let mut j: usize = 0;
        let mut found = false;
        while j < copied.len()
            invariant
                j <= copied@.len(),
                cs == crate::text::strings_view(copied@),
                found == exists|k: int| 0 <= k < j && cs[k] == f@,
            decreases copied@.len() - j,
        {
            assert(cs[j as int] == copied@[j as int]@);
            if text_is(copied[j].as_str(), f) {
                found = true;
            }
            j += 1;
        }
        proof {
            assert(fs[i as int] == f@);
            let t = fs.take(i + 1);
            assert(t.drop_last() =~= fs.take(i as int));
            assert(t.last() == f@);
            assert(found == cs.contains(f@));
            assert(unreferenced_spec(t, cs) == if cs.contains(f@) {
                unreferenced_spec(t.drop_last(), cs)
            } else {
                unreferenced_spec(t.drop_last(), cs).push(f@)
            }) by {
                reveal(Seq::filter);
            }
        }
        if !found {
            let ghost before = out@;
            out.push(files[i].clone());
            assert(crate::text::strings_view(out@) =~= crate::text::strings_view(before).push(f@));
        }
        i += 1;
    }
    assert(fs.take(i as int) =~= fs);
    out
}

} // verus!
