//! Paths on the device, and the index of the directories that exist there.
//!
//! A path is a byte string whose components are separated by slashes. The
//! index is a list of paths in the order in which they became known.

use vstd::prelude::*;
use crate::bytes::{copy_range, is_prefix, same_bytes, starts_with, views, SLASH};

verus! {

/// `path` is `base` or lies below it: `base` is a prefix of `path` that ends
/// where a component of `path` ends. Every path lies below the empty one.
pub open spec fn is_under(path: Seq<u8>, base: Seq<u8>) -> bool {
    is_prefix(base, path) && (base.len() == 0 || path.len() == base.len() || base.last() == SLASH
        || path[base.len() as int] == SLASH)
}

/// A component of `path` ends right before position `i`.
pub open spec fn is_component_end(path: Seq<u8>, i: int) -> bool {
    0 < i <= path.len() && path[i - 1] != SLASH && (i == path.len() || path[i] == SLASH)
}

/// The prefixes of `path` that end with a component and are no longer than
/// `n`, the longest first.
pub open spec fn lineage_upto(path: Seq<u8>, n: int) -> Seq<Seq<u8>>
    decreases n,
{
    if n <= 0 {
        Seq::empty()
    } else if is_component_end(path, n) {
        seq![path.take(n)] + lineage_upto(path, n - 1)
    } else {
        lineage_upto(path, n - 1)
    }
}

/// The path and the directories above it, the deepest first. The root is not
/// among them.
pub open spec fn lineage(path: Seq<u8>) -> Seq<Seq<u8>> {
    lineage_upto(path, path.len() as int)
}

/// `dirs`, and behind it those of `more` that were not yet in it, in their
/// order.
pub open spec fn with_all<T>(dirs: Seq<T>, more: Seq<T>) -> Seq<T>
    decreases more.len(),
{
    if more.len() == 0 {
        dirs
    } else if dirs.contains(more.first()) {
        with_all(dirs, more.drop_first())
    } else {
        with_all(dirs.push(more.first()), more.drop_first())
    }
}

/// Where the last component of `path` ends among its first `n` bytes, and 0
/// where no component ends there.
pub open spec fn last_end(path: Seq<u8>, n: int) -> int
    decreases n,
{
    if n <= 0 {
        0
    } else if is_component_end(path, n) {
        n
    } else {
        last_end(path, n - 1)
    }
}

/// The directories above `path`, the deepest first: the prefixes of `path`
/// that end with a component, but for the longest, which is the path
/// itself. The root is not among them.
pub open spec fn ancestors(path: Seq<u8>) -> Seq<Seq<u8>> {
    lineage_upto(path, last_end(path, path.len() as int) - 1)
}

/// The index after a folder was created at `path`: the folder and the
/// directories above it are in it.
pub open spec fn extended(dirs: Seq<Seq<u8>>, path: Seq<u8>) -> Seq<Seq<u8>> {
    with_all(dirs, lineage(path))
}

/// The index after an icon was written at `path`: the directories above the
/// icon are in it, the icon itself is not put there.
pub open spec fn extended_above(dirs: Seq<Seq<u8>>, path: Seq<u8>) -> Seq<Seq<u8>> {
    with_all(dirs, ancestors(path))
}

/// Nothing stands twice in `s`.
pub open spec fn is_without_duplicates<T>(s: Seq<T>) -> bool {
    forall|i: int, j: int| 0 <= i < j < s.len() ==> s[i] != s[j]
}

/// The index without the paths at or below `base`.
pub open spec fn pruned(dirs: Seq<Seq<u8>>, base: Seq<u8>) -> Seq<Seq<u8>>
    decreases dirs.len(),
{
    if dirs.len() == 0 {
        dirs
    } else if is_under(dirs.last(), base) {
        pruned(dirs.drop_last(), base)
    } else {
        pruned(dirs.drop_last(), base).push(dirs.last())
    }
}

pub fn is_under_path(path: &[u8], base: &[u8]) -> (r: bool)
    ensures
        r == is_under(path@, base@),
{
    if !starts_with(path, base) {
        return false;
    }
    base.len() == 0 || path.len() == base.len() || base[base.len() - 1] == SLASH
        || path[base.len()] == SLASH
}

pub fn contains_path(dirs: &Vec<Vec<u8>>, path: &[u8]) -> (r: bool)
    ensures
        r == views(dirs@).contains(path@),
{
    let mut i: usize = 0;
    while i < dirs.len()
        invariant
            i <= dirs@.len(),
            forall|j: int| 0 <= j < i ==> views(dirs@)[j] != path@,
        decreases dirs@.len() - i,
    {
        if same_bytes(dirs[i].as_slice(), path) {
            assert(views(dirs@)[i as int] == path@);
            return true;
        }
        i += 1;
    }
    false
}

/// Puts the prefixes of `path` that end with a component and are no longer
/// than `upto` into the index, the longest first, each only if it is not
/// there yet.
fn add_upto(dirs: &mut Vec<Vec<u8>>, path: &[u8], upto: usize)
    requires
        upto <= path@.len(),
    ensures
        views(final(dirs)@) == with_all(views(old(dirs)@), lineage_upto(path@, upto as int)),
{
    let mut n: usize = upto;
    while n > 0
        invariant
            n <= upto <= path@.len(),
            with_all(views(dirs@), lineage_upto(path@, n as int)) == with_all(
                views(old(dirs)@),
                lineage_upto(path@, upto as int),
            ),
        decreases n,
    {
        let ends: bool = path[n - 1] != SLASH && (n == path.len() || path[n] == SLASH);
        assert(ends == is_component_end(path@, n as int));
        if ends {
            let candidate: Vec<u8> = copy_range(path, 0, n);
            proof {
                let rest = lineage_upto(path@, n as int);
                assert(rest.first() == candidate@);
                assert(rest.drop_first() =~= lineage_upto(path@, n - 1));
            }
            if !contains_path(dirs, candidate.as_slice()) {
                let ghost before = views(dirs@);
                dirs.push(candidate);
                assert(views(dirs@) =~= before.push(candidate@));
            }
        }
        n -= 1;
    }
}

/// Puts `path` and the directories above it into the index, the deepest
/// first, each only if it is not there yet.
pub fn add_path(dirs: &mut Vec<Vec<u8>>, path: &[u8])
    ensures
        views(final(dirs)@) == extended(views(old(dirs)@), path@),
{
    add_upto(dirs, path, path.len());
}

/// Puts the directories above `path` into the index, the deepest first, each
/// only if it is not there yet. The path itself is not put there.
pub fn add_ancestors(dirs: &mut Vec<Vec<u8>>, path: &[u8])
    ensures
        views(final(dirs)@) == extended_above(views(old(dirs)@), path@),
{
    let mut top: usize = path.len();
    while top > 0 && !(path[top - 1] != SLASH && (top == path.len() || path[top] == SLASH))
        invariant
            top <= path@.len(),
            last_end(path@, path@.len() as int) == last_end(path@, top as int),
        decreases top,
    {
        top -= 1;
    }
    if top > 0 {
        assert(is_component_end(path@, top as int));
        add_upto(dirs, path, top - 1);
    } else {
        assert(lineage_upto(path@, -1) =~= Seq::<Seq<u8>>::empty());
    }
}

/// Takes the paths at or below `base` out of the index.
pub fn remove_path(dirs: &mut Vec<Vec<u8>>, base: &[u8])
    ensures
        views(final(dirs)@) == pruned(views(old(dirs)@), base@),
{
    let mut kept: Vec<Vec<u8>> = Vec::new();
    let mut i: usize = 0;
    assert(views(dirs@).take(0) =~= Seq::<Seq<u8>>::empty());
    assert(views(kept@) =~= Seq::<Seq<u8>>::empty());
    while i < dirs.len()
        invariant
            i <= dirs@.len(),
            views(kept@) == pruned(views(dirs@).take(i as int), base@),
        decreases dirs@.len() - i,
    {
        proof {
            let upto = views(dirs@).take(i + 1);
            assert(upto.drop_last() =~= views(dirs@).take(i as int));
            assert(upto.last() == dirs@[i as int]@);
        }
        if !is_under_path(dirs[i].as_slice(), base) {
            let ghost before = views(kept@);
            let entry: Vec<u8> = copy_range(dirs[i].as_slice(), 0, dirs[i].len());
            assert(entry@ =~= dirs@[i as int]@);
            kept.push(entry);
            assert(views(kept@) =~= before.push(entry@));
        }
        i += 1;
    }
    assert(views(dirs@).take(i as int) =~= views(dirs@));
    *dirs = kept;
}

/// A second list with the same paths.
pub fn copy_paths(dirs: &Vec<Vec<u8>>) -> (r: Vec<Vec<u8>>)
    ensures
        views(r@) == views(dirs@),
{
    let mut out: Vec<Vec<u8>> = Vec::new();
    let mut i: usize = 0;
    while i < dirs.len()
        invariant
            i <= dirs@.len(),
            views(out@) == views(dirs@).take(i as int),
        decreases dirs@.len() - i,
    {
        let entry: Vec<u8> = copy_range(dirs[i].as_slice(), 0, dirs[i].len());
        assert(entry@ =~= dirs@[i as int]@);
        let ghost before = views(out@);
        out.push(entry);
        assert(views(out@) =~= before.push(entry@));
        i += 1;
        assert(views(out@) =~= views(dirs@).take(i as int));
    }
    assert(views(dirs@).take(i as int) =~= views(dirs@));
    out
}

/// What `with_all` is given stays, and what it is asked to add is there
/// afterwards.
pub proof fn lemma_with_all_holds<T>(dirs: Seq<T>, more: Seq<T>)
    ensures
        forall|d: T| dirs.contains(d) ==> #[trigger] with_all(dirs, more).contains(d),
        forall|i: int| 0 <= i < more.len() ==> with_all(dirs, more).contains(#[trigger] more[i]),
    decreases more.len(),
{
    if more.len() > 0 {
        let first = more.first();
        let rest = more.drop_first();
        let next = if dirs.contains(first) {
            dirs
        } else {
            dirs.push(first)
        };
        lemma_with_all_holds(next, rest);
        assert(next.contains(first)) by {
            if !dirs.contains(first) {
                assert(next[dirs.len() as int] == first);
            }
        }
        assert(with_all(dirs, more) == with_all(next, rest));
        assert forall|d: T| dirs.contains(d) implies #[trigger] with_all(
            dirs,
            more,
        ).contains(d) by {
            let j = choose|j: int| 0 <= j < dirs.len() && dirs[j] == d;
            assert(next[j] == d);
            assert(next.contains(d));
            assert(with_all(next, rest).contains(d));
        }
        assert forall|i: int| 0 <= i < more.len() implies with_all(dirs, more).contains(
            #[trigger] more[i],
        ) by {
            if i > 0 {
                assert(rest[i - 1] == more[i]);
                assert(with_all(next, rest).contains(rest[i - 1]));
            } else {
                assert(with_all(next, rest).contains(first));
            }
        }
    }
}

/// What `with_all` gives begins with what it was given, in the old order,
/// and goes on with those of `more` that were not there, each once.
pub proof fn lemma_with_all_grows<T>(dirs: Seq<T>, more: Seq<T>)
    ensures
        with_all(dirs, more).len() >= dirs.len(),
        forall|i: int| 0 <= i < dirs.len() ==> #[trigger] with_all(dirs, more)[i] == dirs[i],
        forall|i: int|
            dirs.len() <= i < with_all(dirs, more).len() ==> more.contains(
                #[trigger] with_all(dirs, more)[i],
            ) && !dirs.contains(with_all(dirs, more)[i]),
        is_without_duplicates(dirs) ==> is_without_duplicates(with_all(dirs, more)),
    decreases more.len(),
{
    if more.len() > 0 {
        let first = more.first();
        let rest = more.drop_first();
        let next = if dirs.contains(first) {
            dirs
        } else {
            dirs.push(first)
        };
        let all = with_all(dirs, more);
        lemma_with_all_grows(next, rest);
        assert(all == with_all(next, rest));
        assert forall|i: int| 0 <= i < dirs.len() implies #[trigger] all[i] == dirs[i] by {
            assert(next[i] == dirs[i]);
        }
        assert forall|i: int| dirs.len() <= i < all.len() implies more.contains(#[trigger] all[i])
            && !dirs.contains(all[i]) by {
            if i < next.len() {
                assert(all[i] == next[i]);
                assert(all[i] == first);
                assert(more[0] == first);
            } else {
                let j = choose|j: int| 0 <= j < rest.len() && rest[j] == all[i];
                assert(more[j + 1] == all[i]);
                if dirs.contains(all[i]) {
                    let k = choose|k: int| 0 <= k < dirs.len() && dirs[k] == all[i];
                    assert(next[k] == all[i]);
                }
            }
        }
        if is_without_duplicates(dirs) {
            assert forall|i: int, j: int| 0 <= i < j < next.len() implies next[i] != next[j] by {
                if j == dirs.len() {
                    assert(next[i] == dirs[i]);
                }
            }
        }
    }
}

/// What stands in a lineage is a prefix of the path that ends with a
/// component.
pub proof fn lemma_lineage_holds_prefixes(path: Seq<u8>, upto: int, i: int)
    requires
        0 <= i < lineage_upto(path, upto).len(),
    ensures
        exists|n: int|
            0 < n <= upto && is_component_end(path, n) && lineage_upto(path, upto)[i]
                == #[trigger] path.take(n),
    decreases upto,
{
    if upto > 0 {
        if is_component_end(path, upto) {
            if i == 0 {
                assert(lineage_upto(path, upto)[0] == path.take(upto));
            } else {
                lemma_lineage_holds_prefixes(path, upto - 1, i - 1);
                assert(lineage_upto(path, upto)[i] == lineage_upto(path, upto - 1)[i - 1]);
            }
        } else {
            lemma_lineage_holds_prefixes(path, upto - 1, i);
        }
    }
}

pub proof fn lemma_last_end(path: Seq<u8>, n: int)
    requires
        0 <= n <= path.len(),
    ensures
        0 <= last_end(path, n) <= n,
        last_end(path, n) > 0 ==> is_component_end(path, last_end(path, n)),
        forall|k: int| last_end(path, n) < k <= n ==> !is_component_end(path, k),
    decreases n,
{
    if n > 0 && !is_component_end(path, n) {
        lemma_last_end(path, n - 1);
    }
}

/// A written icon brings its directories into the index and nothing else:
/// the index keeps what it held, in the old order; what comes behind that is
/// a directory above the icon, shorter than the path of the icon, that was
/// not there before; the root and the icon itself are never put there; every
/// directory above the icon is there afterwards; and an index in which
/// nothing stood twice stays one.
pub proof fn law_written_icon_indexes_its_directories(dirs: Seq<Seq<u8>>, path: Seq<u8>)
    ensures
        extended_above(dirs, path).len() >= dirs.len(),
        forall|i: int| 0 <= i < dirs.len() ==> #[trigger] extended_above(dirs, path)[i] == dirs[i],
        forall|i: int|
            dirs.len() <= i < extended_above(dirs, path).len() ==> {
                let added = #[trigger] extended_above(dirs, path)[i];
                &&& !dirs.contains(added)
                &&& added != seq![SLASH]
                &&& added != path
                &&& exists|n: int|
                    0 < n < last_end(path, path.len() as int) && is_component_end(path, n) && added
                        == #[trigger] path.take(n)
            },
        forall|n: int|
            is_component_end(path, n) && n < last_end(path, path.len() as int)
                ==> extended_above(dirs, path).contains(#[trigger] path.take(n)),
        is_without_duplicates(dirs) ==> is_without_duplicates(extended_above(dirs, path)),
{
    let top = last_end(path, path.len() as int);
    let above = ancestors(path);
    let all = extended_above(dirs, path);
    lemma_last_end(path, path.len() as int);
    lemma_with_all_grows(dirs, above);
    lemma_with_all_holds(dirs, above);
    assert forall|i: int| dirs.len() <= i < all.len() implies {
        let added = #[trigger] all[i];
        &&& !dirs.contains(added)
        &&& added != seq![SLASH]
        &&& added != path
        &&& exists|n: int|
            0 < n < top && is_component_end(path, n) && added == #[trigger] path.take(n)
    } by {
        let added = all[i];
        let j = choose|j: int| 0 <= j < above.len() && above[j] == added;
        lemma_lineage_holds_prefixes(path, top - 1, j);
        let n = choose|n: int|
            0 < n <= top - 1 && is_component_end(path, n) && above[j] == #[trigger] path.take(n);
        assert(added == path.take(n));
        assert(added.len() == n);
        assert(added[n - 1] == path[n - 1]);
        if added == seq![SLASH] {
            assert(seq![SLASH][0] == SLASH);
        }
    }
    assert forall|n: int| is_component_end(path, n) && n < top implies all.contains(
        #[trigger] path.take(n),
    ) by {
        lemma_lineage_has(path, top - 1, n);
        let i = choose|i: int| 0 <= i < above.len() && above[i] == path.take(n);
        assert(with_all(dirs, above).contains(above[i]));
    }
}

/// After a folder was created at a path, the index holds that path and every
/// directory above it, and all that it held before.
pub proof fn law_written_path_is_indexed(dirs: Seq<Seq<u8>>, path: Seq<u8>)
    ensures
        forall|n: int|
            is_component_end(path, n) ==> extended(dirs, path).contains(#[trigger] path.take(n)),
        forall|d: Seq<u8>| dirs.contains(d) ==> #[trigger] extended(dirs, path).contains(d),
{
    lemma_with_all_holds(dirs, lineage(path));
    assert forall|n: int| is_component_end(path, n) implies extended(dirs, path).contains(
        #[trigger] path.take(n),
    ) by {
        lemma_lineage_has(path, path.len() as int, n);
        let i = choose|i: int| 0 <= i < lineage(path).len() && lineage(path)[i] == path.take(n);
        assert(with_all(dirs, lineage(path)).contains(lineage(path)[i]));
    }
}

pub proof fn lemma_lineage_has(path: Seq<u8>, upto: int, n: int)
    requires
        is_component_end(path, n),
        n <= upto,
    ensures
        lineage_upto(path, upto).contains(path.take(n)),
    decreases upto,
{
    if n == upto {
        assert(lineage_upto(path, upto)[0] == path.take(n));
    } else {
        lemma_lineage_has(path, upto - 1, n);
        let rest = lineage_upto(path, upto - 1);
        let i = choose|i: int| 0 <= i < rest.len() && rest[i] == path.take(n);
        if is_component_end(path, upto) {
            assert(lineage_upto(path, upto)[i + 1] == rest[i]);
        }
    }
}

/// After a removal at `base`, no path of the index is `base` or lies below
/// it; what is left is what was there and lies elsewhere, in its old order.
pub proof fn law_pruned_index_is_clear(dirs: Seq<Seq<u8>>, base: Seq<u8>)
    ensures
        forall|i: int|
            0 <= i < pruned(dirs, base).len() ==> !is_under(#[trigger] pruned(dirs, base)[i], base),
        forall|i: int|
            0 <= i < pruned(dirs, base).len() ==> dirs.contains(#[trigger] pruned(dirs, base)[i]),
        forall|i: int|
            0 <= i < dirs.len() && !is_under(dirs[i], base) ==> pruned(dirs, base).contains(
                #[trigger] dirs[i],
            ),
    decreases dirs.len(),
{
    if dirs.len() > 0 {
        let front = dirs.drop_last();
        law_pruned_index_is_clear(front, base);
        let p = pruned(dirs, base);
        let q = pruned(front, base);
        assert forall|i: int| 0 <= i < p.len() implies dirs.contains(#[trigger] p[i]) by {
            if i < q.len() {
                assert(front.contains(q[i]));
                let j = choose|j: int| 0 <= j < front.len() && front[j] == q[i];
                assert(dirs[j] == q[i]);
            } else {
                assert(dirs[dirs.len() - 1] == p[i]);
            }
        }
        assert forall|i: int| 0 <= i < dirs.len() && !is_under(dirs[i], base) implies p.contains(
            #[trigger] dirs[i],
        ) by {
            if i < front.len() {
                assert(front[i] == dirs[i]);
                assert(q.contains(front[i]));
                let j = choose|j: int| 0 <= j < q.len() && q[j] == front[i];
                assert(p[j] == dirs[i]);
            } else {
                assert(p[p.len() - 1] == dirs[i]);
            }
        }
    }
}

} // verus!
