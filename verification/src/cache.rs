//! Tables keyed by a path, in the order in which the paths were first seen:
//! the icon cache and the table of button handlers are such tables.

use vstd::prelude::*;
use crate::bytes::same_bytes;
use crate::raster::{Image, Pixels};

verus! {

/// What the table holds for `key`.
pub open spec fn lookup<V>(entries: Seq<(Seq<u8>, V)>, key: Seq<u8>) -> Option<V>
    decreases entries.len(),
{
    if entries.len() == 0 {
        None
    } else if entries.first().0 == key {
        Some(entries.first().1)
    } else {
        lookup(entries.drop_first(), key)
    }
}

/// The table with `value` for `key`: in the place of what it held for `key`,
/// or at the end.
pub open spec fn inserted<V>(entries: Seq<(Seq<u8>, V)>, key: Seq<u8>, value: V) -> Seq<
    (Seq<u8>, V),
>
    decreases entries.len(),
{
    if entries.len() == 0 {
        seq![(key, value)]
    } else if entries.first().0 == key {
        entries.update(0, (key, value))
    } else {
        seq![entries.first()] + inserted(entries.drop_first(), key, value)
    }
}

/// The table with the keys by their views.
pub open spec fn keyed<T>(v: Seq<(Vec<u8>, T)>) -> Seq<(Seq<u8>, T)> {
    Seq::new(v.len(), |i: int| (v[i].0@, v[i].1))
}

/// The icon cache with keys and images by their views.
pub open spec fn entry_views(v: Seq<(Vec<u8>, Image)>) -> Seq<(Seq<u8>, Pixels)> {
    Seq::new(v.len(), |i: int| (v[i].0@, v[i].1@))
}

pub proof fn lemma_lookup_from<V>(entries: Seq<(Seq<u8>, V)>, key: Seq<u8>, i: int)
    requires
        0 <= i <= entries.len(),
        forall|j: int| 0 <= j < i ==> (#[trigger] entries[j]).0 != key,
    ensures
        lookup(entries, key) == lookup(entries.skip(i), key),
    decreases i,
{
    if i == 0 {
        assert(entries.skip(0) =~= entries);
    } else {
        assert(entries[0].0 != key);
        let rest = entries.drop_first();
        assert forall|j: int| 0 <= j < i - 1 implies (#[trigger] rest[j]).0 != key by {
            assert(rest[j] == entries[j + 1]);
        }
        lemma_lookup_from(rest, key, i - 1);
        assert(rest.skip(i - 1) =~= entries.skip(i));
    }
}

/// Where the first entry for `key` stands at `i`, that entry is what the
/// table holds for it; where there is none, it holds nothing.
pub proof fn lemma_lookup_at<V>(entries: Seq<(Seq<u8>, V)>, key: Seq<u8>, i: int)
    requires
        0 <= i <= entries.len(),
        forall|j: int| 0 <= j < i ==> (#[trigger] entries[j]).0 != key,
        i < entries.len() ==> entries[i].0 == key,
    ensures
        lookup(entries, key) == if i < entries.len() {
            Some(entries[i].1)
        } else {
            None
        },
{
    lemma_lookup_from(entries, key, i);
    if i < entries.len() {
        assert(entries.skip(i).first() == entries[i]);
    }
}

pub proof fn lemma_inserted_at<V>(entries: Seq<(Seq<u8>, V)>, key: Seq<u8>, value: V, i: int)
    requires
        0 <= i <= entries.len(),
        forall|j: int| 0 <= j < i ==> (#[trigger] entries[j]).0 != key,
        i < entries.len() ==> entries[i].0 == key,
    ensures
        inserted(entries, key, value) == if i < entries.len() {
            entries.update(i, (key, value))
        } else {
            entries.push((key, value))
        },
    decreases i,
{
    if i == 0 {
        if entries.len() == 0 {
            assert(seq![(key, value)] =~= entries.push((key, value)));
        }
    } else {
        assert(entries[0].0 != key);
        let rest = entries.drop_first();
        assert forall|j: int| 0 <= j < i - 1 implies (#[trigger] rest[j]).0 != key by {
            assert(rest[j] == entries[j + 1]);
        }
        if i < entries.len() {
            assert(rest[i - 1] == entries[i]);
        }
        lemma_inserted_at(rest, key, value, i - 1);
        if i < entries.len() {
            assert(seq![entries.first()] + rest.update(i - 1, (key, value)) =~= entries.update(
                i,
                (key, value),
            ));
        } else {
            assert(seq![entries.first()] + rest.push((key, value)) =~= entries.push((key, value)));
        }
    }
}

/// What was put into a table for a key is what the table holds for it, and
/// what it holds for any other key is as before.
pub proof fn law_table_holds_what_was_put<V>(
    entries: Seq<(Seq<u8>, V)>,
    key: Seq<u8>,
    value: V,
    other: Seq<u8>,
)
    ensures
        lookup(inserted(entries, key, value), key) == Some(value),
        other != key ==> lookup(inserted(entries, key, value), other) == lookup(entries, other),
    decreases entries.len(),
{
    let after = inserted(entries, key, value);
    if entries.len() == 0 {
        assert(after.first() == (key, value));
        assert(after.drop_first() =~= Seq::<(Seq<u8>, V)>::empty());
        assert(lookup(after.drop_first(), other) is None);
    } else if entries.first().0 == key {
        assert(after.first() == (key, value));
        assert(after.drop_first() =~= entries.drop_first());
    } else {
        let rest = entries.drop_first();
        law_table_holds_what_was_put(rest, key, value, other);
        assert(after.first() == entries.first());
        assert(after.drop_first() =~= inserted(rest, key, value));
    }
}

/// Where the first entry for `key` stands, or the length of the table where
/// there is none.
pub fn position<T>(entries: &Vec<(Vec<u8>, T)>, key: &[u8]) -> (i: usize)
    ensures
        i <= entries@.len(),
        forall|j: int| 0 <= j < i ==> (#[trigger] entries@[j]).0@ != key@,
        i < entries@.len() ==> entries@[i as int].0@ == key@,
{
    let mut i: usize = 0;
    while i < entries.len()
        invariant
            i <= entries@.len(),
            forall|j: int| 0 <= j < i ==> (#[trigger] entries@[j]).0@ != key@,
        decreases entries@.len() - i,
    {
        if same_bytes(entries[i].0.as_slice(), key) {
            return i;
        }
        i += 1;
    }
    i
}

/// What the table holds for `key`.
pub fn find<'a, T>(entries: &'a Vec<(Vec<u8>, T)>, key: &[u8]) -> (r: Option<&'a T>)
    ensures
        r == match lookup(keyed(entries@), key@) {
            Some(value) => Some(&value),
            None => None,
        },
{
    let i: usize = position(entries, key);
    proof {
        assert forall|j: int| 0 <= j < i implies (#[trigger] keyed(entries@)[j]).0 != key@ by {
            assert(entries@[j].0@ != key@);
        }
        lemma_lookup_at(keyed(entries@), key@, i as int);
    }
    if i < entries.len() {
        Some(&entries[i].1)
    } else {
        None
    }
}

/// Puts `value` into the table for `key`.
pub fn store<T>(entries: &mut Vec<(Vec<u8>, T)>, key: Vec<u8>, value: T)
    ensures
        keyed(final(entries)@) == inserted(keyed(old(entries)@), key@, value),
{
    let ghost before = keyed(entries@);
    let i: usize = position(entries, key.as_slice());
    proof {
        assert forall|j: int| 0 <= j < i implies (#[trigger] before[j]).0 != key@ by {
            assert(entries@[j].0@ != key@);
        }
        lemma_inserted_at(before, key@, value, i as int);
    }
    if i < entries.len() {
        entries[i] = (key, value);
        assert(keyed(entries@) =~= before.update(i as int, (key@, value)));
    } else {
        entries.push((key, value));
        assert(keyed(entries@) =~= before.push((key@, value)));
    }
}

/// The image that the cache holds for `key`.
pub fn find_icon<'a>(entries: &'a Vec<(Vec<u8>, Image)>, key: &[u8]) -> (r: Option<&'a Image>)
    ensures
        match r {
            Some(img) => lookup(entry_views(entries@), key@) == Some(img@),
            None => lookup(entry_views(entries@), key@) is None,
        },
{
    let i: usize = position(entries, key);
    proof {
        assert forall|j: int| 0 <= j < i implies (#[trigger] entry_views(entries@)[j]).0
            != key@ by {
            assert(entries@[j].0@ != key@);
        }
        lemma_lookup_at(entry_views(entries@), key@, i as int);
    }
    if i < entries.len() {
        Some(&entries[i].1)
    } else {
        None
    }
}

/// Puts `value` into the cache for `key`.
pub fn store_icon(entries: &mut Vec<(Vec<u8>, Image)>, key: Vec<u8>, value: Image)
    ensures
        entry_views(final(entries)@) == inserted(entry_views(old(entries)@), key@, value@),
{
    let ghost before = entry_views(entries@);
    let i: usize = position(entries, key.as_slice());
    proof {
        assert forall|j: int| 0 <= j < i implies (#[trigger] before[j]).0 != key@ by {
            assert(entries@[j].0@ != key@);
        }
        lemma_inserted_at(before, key@, value@, i as int);
    }
    if i < entries.len() {
        entries[i] = (key, value);
        assert(entry_views(entries@) =~= before.update(i as int, (key@, value@)));
    } else {
        entries.push((key, value));
        assert(entry_views(entries@) =~= before.push((key@, value@)));
    }
}

} // verus!
