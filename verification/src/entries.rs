//! Entries with texts as keys, in the order in which a map holds them.

use vstd::prelude::*;
use vstd::utf8::*;

verus! {

/// The bytes come before others in lexicographic order.
pub open spec fn bytes_before(a: Seq<u8>, b: Seq<u8>) -> bool
    decreases a.len(),
{
    if b.len() == 0 {
        false
    } else if a.len() == 0 {
        true
    } else if a[0] == b[0] {
        bytes_before(a.drop_first(), b.drop_first())
    } else {
        a[0] < b[0]
    }
}

/// The text comes before another: their bytes are in lexicographic order.
pub open spec fn text_before(a: Seq<char>, b: Seq<char>) -> bool {
    bytes_before(encode_utf8(a), encode_utf8(b))
}

/// Each key comes before those that follow it.
pub open spec fn keys_increase<V>(entries: Seq<(Seq<char>, V)>) -> bool {
    forall|i: int, j: int|
        0 <= i < j < entries.len() ==> text_before(
            (#[trigger] entries[i]).0,
            (#[trigger] entries[j]).0,
        )
}

/// The entries of a map after a key is mapped to a value: the entry comes where the order puts it,
/// in place of one with the same key.
pub open spec fn placed<V>(entries: Seq<(Seq<char>, V)>, key: Seq<char>, value: V) -> Seq<
    (Seq<char>, V),
>
    decreases entries.len(),
{
    if entries.len() == 0 {
        seq![(key, value)]
    } else if text_before(entries[0].0, key) {
        seq![entries[0]] + placed(entries.drop_first(), key, value)
    } else if entries[0].0 == key {
        seq![(key, value)] + entries.drop_first()
    } else {
        seq![(key, value)] + entries
    }
}

/// What a map holds that was made from entries one by one: they are in the order of their keys,
/// and of those with the same key the last one counts.
pub open spec fn ordered<V>(entries: Seq<(Seq<char>, V)>) -> Seq<(Seq<char>, V)>
    decreases entries.len(),
{
    if entries.len() == 0 {
        Seq::empty()
    } else {
        placed(ordered(entries.drop_last()), entries.last().0, entries.last().1)
    }
}

/// The value of the first entry with a given key.
pub open spec fn lookup<V>(entries: Seq<(Seq<char>, V)>, key: Seq<char>) -> Option<V>
    decreases entries.len(),
{
    if entries.len() == 0 {
        None
    } else if entries[0].0 == key {
        Some(entries[0].1)
    } else {
        lookup(entries.drop_first(), key)
    }
}

/// The value of the last entry with a given key.
pub open spec fn last_value<V>(entries: Seq<(Seq<char>, V)>, key: Seq<char>) -> Option<V>
    decreases entries.len(),
{
    if entries.len() == 0 {
        None
    } else if entries.last().0 == key {
        Some(entries.last().1)
    } else {
        last_value(entries.drop_last(), key)
    }
}

proof fn lemma_bytes_irreflexive(a: Seq<u8>)
    ensures
        !bytes_before(a, a),
    decreases a.len(),
{
    if a.len() > 0 {
        lemma_bytes_irreflexive(a.drop_first());
    }
}

proof fn lemma_bytes_total(a: Seq<u8>, b: Seq<u8>)
    requires
        !bytes_before(a, b),
        !bytes_before(b, a),
    ensures
        a == b,
    decreases a.len(),
{
    if a.len() > 0 && b.len() > 0 {
        lemma_bytes_total(a.drop_first(), b.drop_first());
        assert(a =~= seq![a[0]] + a.drop_first());
        assert(b =~= seq![b[0]] + b.drop_first());
    } else {
        assert(a =~= b);
    }
}

proof fn lemma_bytes_transitive(a: Seq<u8>, b: Seq<u8>, c: Seq<u8>)
    requires
        bytes_before(a, b),
        bytes_before(b, c),
    ensures
        bytes_before(a, c),
    decreases a.len(),
{
    if a.len() > 0 && a[0] == b[0] && b[0] == c[0] {
        lemma_bytes_transitive(a.drop_first(), b.drop_first(), c.drop_first());
    }
}

/// No text comes before itself.
proof fn lemma_irreflexive(a: Seq<char>)
    ensures
        !text_before(a, a),
{
    lemma_bytes_irreflexive(encode_utf8(a));
}

/// Of two different texts one comes before the other.
proof fn lemma_total(a: Seq<char>, b: Seq<char>)
    requires
        !text_before(a, b),
        a != b,
    ensures
        text_before(b, a),
{
    if !text_before(b, a) {
        lemma_bytes_total(encode_utf8(a), encode_utf8(b));
        crate::text::lemma_utf8_injective(a, b);
    }
}

/// Where an entry is placed, given how many of the keys come before its key.
pub proof fn lemma_placed<V>(entries: Seq<(Seq<char>, V)>, i: int, key: Seq<char>, value: V)
    requires
        0 <= i <= entries.len(),
        forall|j: int| 0 <= j < i ==> text_before((#[trigger] entries[j]).0, key),
        i < entries.len() ==> !text_before(entries[i].0, key),
    ensures
        placed(entries, key, value) == (if i < entries.len() && entries[i].0 == key {
            entries.update(i, (key, value))
        } else {
            entries.insert(i, (key, value))
        }),
    decreases entries.len(),
{
    let rest = entries.drop_first();
    if i > 0 {
        assert(text_before(entries[0].0, key));
        assert forall|j: int| 0 <= j < i - 1 implies text_before(
            (#[trigger] rest[j]).0,
            key,
        ) by {
            assert(text_before(entries[j + 1].0, key));
        }
        lemma_placed(rest, i - 1, key, value);
        if i < entries.len() && entries[i].0 == key {
            assert(placed(entries, key, value) =~= entries.update(i, (key, value)));
        } else {
            assert(placed(entries, key, value) =~= entries.insert(i, (key, value)));
        }
    } else if entries.len() == 0 {
        assert(placed(entries, key, value) =~= entries.insert(0, (key, value)));
    } else if entries[0].0 == key {
        assert(placed(entries, key, value) =~= entries.update(0, (key, value)));
    } else {
        assert(placed(entries, key, value) =~= entries.insert(0, (key, value)));
    }
}

proof fn lemma_lookup_placed<V>(
    entries: Seq<(Seq<char>, V)>,
    key: Seq<char>,
    value: V,
    wanted: Seq<char>,
)
    ensures
        lookup(placed(entries, key, value), wanted) == (if wanted == key {
            Some(value)
        } else {
            lookup(entries, wanted)
        }),
    decreases entries.len(),
{
    let after = placed(entries, key, value);
    if entries.len() == 0 {
        assert(after.drop_first() =~= entries);
    } else if text_before(entries[0].0, key) {
        lemma_irreflexive(key);
        lemma_lookup_placed(entries.drop_first(), key, value, wanted);
        assert(after.drop_first() =~= placed(entries.drop_first(), key, value));
    } else if entries[0].0 == key {
        assert(after.drop_first() =~= entries.drop_first());
    } else {
        assert(after.drop_first() =~= entries);
    }
}

/// How many of the first keys come before a given one.
proof fn first_after<V>(entries: Seq<(Seq<char>, V)>, key: Seq<char>) -> (i: int)
    ensures
        0 <= i <= entries.len(),
        forall|j: int| 0 <= j < i ==> text_before((#[trigger] entries[j]).0, key),
        i < entries.len() ==> !text_before(entries[i].0, key),
    decreases entries.len(),
{
    if entries.len() == 0 {
        0
    } else {
        let first = entries.drop_last();
        let i = first_after(first, key);
        assert forall|j: int| 0 <= j < i implies text_before((#[trigger] entries[j]).0, key) by {
            assert(first[j] == entries[j]);
        }
        if i == entries.len() - 1 && text_before(entries[i].0, key) {
            i + 1
        } else {
            i
        }
    }
}

proof fn lemma_placed_increases<V>(entries: Seq<(Seq<char>, V)>, key: Seq<char>, value: V)
    requires
        keys_increase(entries),
    ensures
        keys_increase(placed(entries, key, value)),
{
    let after = placed(entries, key, value);
    let p = first_after(entries, key);
    lemma_placed(entries, p, key, value);
    assert forall|j: int| p < j < entries.len() implies text_before(
        key,
        (#[trigger] entries[j]).0,
    ) by {
        assert(text_before(entries[p].0, entries[j].0));
        if entries[p].0 != key {
            lemma_total(entries[p].0, key);
            lemma_bytes_transitive(
                encode_utf8(key),
                encode_utf8(entries[p].0),
                encode_utf8(entries[j].0),
            );
        }
    }
    if p < entries.len() && entries[p].0 != key {
        lemma_total(entries[p].0, key);
    }
    let shift: int = if p < entries.len() && entries[p].0 == key {
        0
    } else {
        1
    };
    assert forall|i: int, j: int| 0 <= i < j < after.len() implies text_before(
        (#[trigger] after[i]).0,
        (#[trigger] after[j]).0,
    ) by {
        if j < p {
            assert(text_before(entries[i].0, entries[j].0));
        } else if j == p {
            assert(text_before(entries[i].0, key));
        } else if i < p {
            assert(after[j] == entries[j - shift]);
            assert(text_before(entries[i].0, entries[j - shift].0));
        } else if i == p {
            assert(after[j] == entries[j - shift]);
        } else {
            assert(text_before(entries[i - shift].0, entries[j - shift].0));
        }
    }
}

/// A map's entries are in the order of their keys, no key occurs twice, and each key has the value
/// that it was given last.
pub proof fn law_entries_ordered<V>(entries: Seq<(Seq<char>, V)>, key: Seq<char>)
    ensures
        keys_increase(ordered(entries)),
        lookup(ordered(entries), key) == last_value(entries, key),
    decreases entries.len(),
{
    if entries.len() > 0 {
        law_entries_ordered(entries.drop_last(), key);
        let before = ordered(entries.drop_last());
        lemma_placed_increases(before, entries.last().0, entries.last().1);
        lemma_lookup_placed(before, entries.last().0, entries.last().1, key);
    }
}

/// An entry that no other one with the same key follows is the last one.
pub proof fn lemma_last_value<V>(entries: Seq<(Seq<char>, V)>, i: int)
    requires
        0 <= i < entries.len(),
        forall|j: int| i < j < entries.len() ==> (#[trigger] entries[j]).0 != entries[i].0,
    ensures
        last_value(entries, entries[i].0) == Some(entries[i].1),
    decreases entries.len(),
{
    if i < entries.len() - 1 {
        assert(entries[entries.len() - 1].0 != entries[i].0);
        lemma_last_value(entries.drop_last(), i);
    }
}

/// Entries that are in the order of their keys stay as they are.
pub proof fn law_ordered_entries_stay<V>(entries: Seq<(Seq<char>, V)>)
    requires
        keys_increase(entries),
    ensures
        ordered(entries) == entries,
    decreases entries.len(),
{
    if entries.len() > 0 {
        let before = entries.drop_last();
        let last = entries.last();
        assert forall|i: int, j: int| 0 <= i < j < before.len() implies text_before(
            (#[trigger] before[i]).0,
            (#[trigger] before[j]).0,
        ) by {
            assert(text_before(entries[i].0, entries[j].0));
        }
        law_ordered_entries_stay(before);
        assert forall|j: int| 0 <= j < before.len() implies text_before(
            (#[trigger] before[j]).0,
            last.0,
        ) by {
            assert(text_before(entries[j].0, entries[entries.len() - 1].0));
        }
        lemma_placed(before, before.len() as int, last.0, last.1);
        assert(before.insert(before.len() as int, last) =~= entries);
    } else {
        assert(ordered(entries) =~= entries);
    }
}

/// The text comes before another.
pub fn comes_before(a: &str, b: &str) -> (r: bool)
    ensures
        r == text_before(a@, b@),
{
    let x = a.as_bytes();
    let y = b.as_bytes();
    let mut k: usize = 0;
    assert(x@.skip(0) =~= x@);
    assert(y@.skip(0) =~= y@);
    while k < x.len() && k < y.len() && x[k] == y[k]
        invariant
            k <= x@.len(),
            k <= y@.len(),
            bytes_before(x@, y@) == bytes_before(x@.skip(k as int), y@.skip(k as int)),
        decreases x@.len() - k,
    {
        assert(x@.skip(k as int).drop_first() =~= x@.skip(k + 1));
        assert(y@.skip(k as int).drop_first() =~= y@.skip(k + 1));
        k = k + 1;
    }
    if k >= y.len() {
        false
    } else if k >= x.len() {
        true
    } else {
        x[k] < y[k]
    }
}

/// The order of texts is that of their bytes, the first difference deciding: what starts alike is
/// ordered by the first byte that differs, and a beginning comes before what continues it.
pub proof fn law_first_difference_decides(
    start: Seq<u8>,
    x: u8,
    a: Seq<u8>,
    y: u8,
    b: Seq<u8>,
)
    ensures
        x != y ==> bytes_before(start + seq![x] + a, start + seq![y] + b) == (x < y),
        bytes_before(start, start + seq![x] + a),
        !bytes_before(start + seq![x] + a, start),
    decreases start.len(),
{
    let u = start + seq![x] + a;
    let v = start + seq![y] + b;
    if start.len() > 0 {
        let rest = start.drop_first();
        law_first_difference_decides(rest, x, a, y, b);
        assert(u.drop_first() =~= rest + seq![x] + a);
        assert(v.drop_first() =~= rest + seq![y] + b);
    }
}

/// Where no entry has a key, there is no last one with it.
pub proof fn lemma_no_value<V>(entries: Seq<(Seq<char>, V)>, key: Seq<char>)
    requires
        forall|j: int| 0 <= j < entries.len() ==> (#[trigger] entries[j]).0 != key,
    ensures
        last_value(entries, key) is None,
    decreases entries.len(),
{
    if entries.len() > 0 {
        assert(entries[entries.len() - 1].0 != key);
        assert forall|j: int| 0 <= j < entries.drop_last().len() implies (
        #[trigger] entries.drop_last()[j]).0 != key by {
            assert(entries[j].0 != key);
        }
        lemma_no_value(entries.drop_last(), key);
    }
}

} // verus!
