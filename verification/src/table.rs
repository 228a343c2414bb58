//! Records in a table: what the bytes of a table stand for, and the four
//! things the store does with one table.

use crate::codec::{fits, Record};
use crate::pages::{lists_entries, table_entries, table_region, Table};
use vstd::pervasive::unreached;
use vstd::prelude::*;

verus! {

/// Every entry is the bytes of a record that fits in a record's bytes
/// when written anew, kept under the record's own id.
pub open spec fn holds_records<E: Record>(entries: Map<u64, Seq<u8>>) -> bool {
    forall|k: u64| #[trigger]
        entries.contains_key(k) ==> (E::decoding(entries[k]) matches Some(model) && E::key(model)
            == k && fits::<E>(model))
}

/// Every key is below `limit`.
pub open spec fn keys_below<V>(entries: Map<u64, V>, limit: u64) -> bool {
    forall|k: u64| #[trigger] entries.contains_key(k) ==> k < limit
}

/// The records that the entries of a table stand for.
pub open spec fn records<E: Record>(entries: Map<u64, Seq<u8>>) -> Map<u64, E::V> {
    Map::new(|k: u64| entries.contains_key(k), |k: u64| E::decoding(entries[k]).unwrap())
}

/// `list` holds every record of the map once, by ascending id.
pub open spec fn lists_records<E: Record>(list: Seq<E>, records: Map<u64, E::V>) -> bool {
    &&& forall|i: int|
        0 <= i < list.len() ==> records.contains_key(E::key((#[trigger] list[i])@))
            && records[E::key(list[i]@)] == list[i]@
    &&& forall|i: int, j: int|
        0 <= i < j < list.len() ==> E::key((#[trigger] list[i])@) < E::key((#[trigger] list[j])@)
    &&& forall|k: u64| #[trigger]
        records.contains_key(k) ==> exists|i: int|
            0 <= i < list.len() && E::key((#[trigger] list[i])@) == k
}

/// The values of a list of records.
pub open spec fn views_of<E: View>(list: Seq<E>) -> Seq<E::V> {
    Seq::new(list.len(), |i: int| list[i]@)
}

/// `views` holds every record of the table once, by ascending id.
pub open spec fn in_id_order<E: Record>(views: Seq<E::V>, table: Map<u64, E::V>) -> bool {
    &&& forall|i: int|
        0 <= i < views.len() ==> table.contains_key(E::key(#[trigger] views[i])) && table[E::key(
            views[i],
        )] == views[i]
    &&& forall|i: int, j: int|
        0 <= i < j < views.len() ==> E::key(#[trigger] views[i]) < E::key(#[trigger] views[j])
    &&& forall|k: u64| #[trigger]
        table.contains_key(k) ==> exists|i: int|
            0 <= i < views.len() && E::key(#[trigger] views[i]) == k
}


/// Without its last record, a list in id order lists the table without
/// that record.
pub proof fn lemma_in_id_order_shorter<E: Record>(views: Seq<E::V>, table: Map<u64, E::V>)
    requires
        in_id_order::<E>(views, table),
        views.len() > 0,
    ensures
        in_id_order::<E>(views.drop_last(), table.remove(E::key(views.last()))),
        table.contains_key(E::key(views.last())),
        table[E::key(views.last())] == views.last(),
{
    let k = E::key(views.last());
    let shorter = views.drop_last();
    let rest = table.remove(k);
    assert(table.contains_key(E::key(views[views.len() - 1])));
    assert forall|i: int| 0 <= i < shorter.len() implies rest.contains_key(
        E::key(#[trigger] shorter[i]),
    ) && rest[E::key(shorter[i])] == shorter[i] by {
        assert(shorter[i] == views[i]);
        assert(E::key(views[i]) < E::key(views[views.len() - 1]));
    }
    assert forall|i: int, j: int| 0 <= i < j < shorter.len() implies E::key(
        #[trigger] shorter[i],
    ) < E::key(#[trigger] shorter[j]) by {
        assert(shorter[i] == views[i]);
        assert(shorter[j] == views[j]);
    }
    assert forall|key: u64| #[trigger] rest.contains_key(key) implies exists|i: int|
        0 <= i < shorter.len() && E::key(#[trigger] shorter[i]) == key by {
        assert(table.contains_key(key));
        let i = choose|i: int| 0 <= i < views.len() && E::key(#[trigger] views[i]) == key;
        assert(shorter[i] == views[i]);
    }
}

/// A table that can be listed is finite, and its list is as long as the
/// table has ids.
pub proof fn lemma_in_id_order_len<E: Record>(views: Seq<E::V>, table: Map<u64, E::V>)
    requires
        in_id_order::<E>(views, table),
    ensures
        table.dom().finite(),
        views.len() == table.dom().len(),
    decreases views.len(),
{
    if views.len() == 0 {
        assert(table.dom() =~= Set::<u64>::empty());
    } else {
        let k = E::key(views.last());
        lemma_in_id_order_shorter::<E>(views, table);
        lemma_in_id_order_len::<E>(views.drop_last(), table.remove(k));
        assert(table.dom() =~= table.remove(k).dom().insert(k));
    }
}

/// A table has one list in id order and no other.
pub proof fn lemma_in_id_order_unique<E: Record>(
    first: Seq<E::V>,
    second: Seq<E::V>,
    table: Map<u64, E::V>,
)
    requires
        in_id_order::<E>(first, table),
        in_id_order::<E>(second, table),
    ensures
        first == second,
    decreases first.len(),
{
    lemma_in_id_order_len::<E>(first, table);
    lemma_in_id_order_len::<E>(second, table);
    if first.len() == 0 {
        assert(first =~= second);
    } else {
        let a = E::key(first.last());
        let b = E::key(second.last());
        lemma_in_id_order_shorter::<E>(first, table);
        lemma_in_id_order_shorter::<E>(second, table);
        let i = choose|i: int| 0 <= i < second.len() && E::key(#[trigger] second[i]) == a;
        let j = choose|j: int| 0 <= j < first.len() && E::key(#[trigger] first[j]) == b;
        assert(a <= b) by {
            if i < second.len() - 1 {
                assert(E::key(second[i]) < E::key(second[second.len() - 1]));
            }
        }
        assert(b <= a) by {
            if j < first.len() - 1 {
                assert(E::key(first[j]) < E::key(first[first.len() - 1]));
            }
        }
        lemma_in_id_order_unique::<E>(first.drop_last(), second.drop_last(), table.remove(a));
        assert(first =~= first.drop_last().push(first.last()));
        assert(second =~= second.drop_last().push(second.last()));
    }
}

/// The records kept under the ids below `bound`, by ascending id.
pub open spec fn listing_below<E: Record>(table: Map<u64, E::V>, bound: nat) -> Seq<E::V>
    decreases bound,
{
    if bound == 0 {
        Seq::empty()
    } else if table.contains_key((bound - 1) as u64) {
        listing_below::<E>(table, (bound - 1) as nat).push(table[(bound - 1) as u64])
    } else {
        listing_below::<E>(table, (bound - 1) as nat)
    }
}

/// The records of a table by ascending id.
pub open spec fn listing<E: Record>(table: Map<u64, E::V>) -> Seq<E::V> {
    listing_below::<E>(table, 0x1_0000_0000_0000_0000)
}

/// Every record is kept under its own id.
pub open spec fn self_keyed<E: Record>(table: Map<u64, E::V>) -> bool {
    forall|k: u64| #[trigger] table.contains_key(k) ==> E::key(table[k]) == k
}

/// The listing below a bound holds the records under the ids below the
/// bound, once each and by ascending id.
pub proof fn lemma_listing_below<E: Record>(table: Map<u64, E::V>, bound: nat)
    requires
        self_keyed::<E>(table),
        bound <= 0x1_0000_0000_0000_0000,
    ensures
        forall|i: int|
            0 <= i < listing_below::<E>(table, bound).len() ==> {
                let view = #[trigger] listing_below::<E>(table, bound)[i];
                table.contains_key(E::key(view)) && table[E::key(view)] == view && E::key(view)
                    < bound
            },
        forall|i: int, j: int|
            0 <= i < j < listing_below::<E>(table, bound).len() ==> E::key(
                #[trigger] listing_below::<E>(table, bound)[i],
            ) < E::key(#[trigger] listing_below::<E>(table, bound)[j]),
        forall|k: u64| #[trigger]
            table.contains_key(k) && k < bound ==> exists|i: int|
                0 <= i < listing_below::<E>(table, bound).len() && E::key(
                    #[trigger] listing_below::<E>(table, bound)[i],
                ) == k,
    decreases bound,
{
    if bound > 0 {
        let top = (bound - 1) as u64;
        let lower = listing_below::<E>(table, (bound - 1) as nat);
        let views = listing_below::<E>(table, bound);
        lemma_listing_below::<E>(table, (bound - 1) as nat);
        assert forall|k: u64| #[trigger] table.contains_key(k) && k < bound implies exists|i: int|
            0 <= i < views.len() && E::key(#[trigger] views[i]) == k by {
            if k == top {
                assert(E::key(views[views.len() - 1]) == k);
            } else {
                let i = choose|i: int| 0 <= i < lower.len() && E::key(#[trigger] lower[i]) == k;
                assert(views[i] == lower[i]);
            }
        }
        assert forall|i: int, j: int| 0 <= i < j < views.len() implies E::key(
            #[trigger] views[i],
        ) < E::key(#[trigger] views[j]) by {
            assert(views[i] == lower[i]);
            if j < lower.len() {
                assert(views[j] == lower[j]);
            }
        }
        assert forall|i: int| 0 <= i < views.len() implies {
            let view = #[trigger] views[i];
            table.contains_key(E::key(view)) && table[E::key(view)] == view && E::key(view)
                < bound
        } by {
            if i < lower.len() {
                assert(views[i] == lower[i]);
            }
        }
    }
}

/// The listing of a table whose records are kept under their own ids holds
/// every record once, by ascending id; so the table is finite and has as
/// many ids as the listing has items.
pub proof fn lemma_listing<E: Record>(table: Map<u64, E::V>)
    requires
        self_keyed::<E>(table),
    ensures
        in_id_order::<E>(listing::<E>(table), table),
        table.dom().finite(),
        listing::<E>(table).len() == table.dom().len(),
{
    lemma_listing_below::<E>(table, 0x1_0000_0000_0000_0000);
    lemma_in_id_order_len::<E>(listing::<E>(table), table);
}

/// What a list of records that lists a table tells of the table: it is
/// finite, has as many ids as the list has items, and the list is its
/// listing.
pub proof fn lemma_lists_records<E: Record>(list: Seq<E>, table: Map<u64, E::V>)
    requires
        lists_records::<E>(list, table),
    ensures
        in_id_order::<E>(views_of(list), table),
        views_of(list) == listing::<E>(table),
        table.dom().finite(),
        list.len() == table.dom().len(),
{
    let views = views_of(list);
    assert forall|k: u64| #[trigger] table.contains_key(k) implies exists|i: int|
        0 <= i < views.len() && E::key(#[trigger] views[i]) == k by {
        let i = choose|i: int| 0 <= i < list.len() && E::key((#[trigger] list[i])@) == k;
        assert(E::key(views[i]) == k);
    }
    assert forall|i: int, j: int| 0 <= i < j < views.len() implies E::key(#[trigger] views[i])
        < E::key(#[trigger] views[j]) by {
        assert(E::key(list[i]@) < E::key(list[j]@));
    }
    assert forall|i: int| 0 <= i < views.len() implies table.contains_key(
        E::key(#[trigger] views[i]),
    ) && table[E::key(views[i])] == views[i] by {
        assert(table.contains_key(E::key(list[i]@)));
    }
    assert(in_id_order::<E>(views, table));
    assert forall|k: u64| #[trigger] table.contains_key(k) implies E::key(table[k]) == k by {
        let i = choose|i: int| 0 <= i < views.len() && E::key(#[trigger] views[i]) == k;
    }
    lemma_listing::<E>(table);
    lemma_in_id_order_unique::<E>(views, listing::<E>(table), table);
}

/// Storing the bytes of a record that fits adds the record, and leaves a
/// table of records a table of records.
pub proof fn lemma_records_insert<E: Record>(entries: Map<u64, Seq<u8>>, model: E::V)
    requires
        fits::<E>(model),
    ensures
        records::<E>(entries.insert(E::key(model), E::encoding(model))) == records::<E>(
            entries,
        ).insert(E::key(model), model),
        holds_records::<E>(entries) ==> holds_records::<E>(
            entries.insert(E::key(model), E::encoding(model)),
        ),
{
    E::lemma_round_trip(model);
    let after = entries.insert(E::key(model), E::encoding(model));
    assert(records::<E>(after) =~= records::<E>(entries).insert(E::key(model), model));
    if holds_records::<E>(entries) {
        assert forall|k: u64| #[trigger] after.contains_key(k) implies (E::decoding(
            after[k],
        ) matches Some(m) && E::key(m) == k && fits::<E>(m)) by {
            if k != E::key(model) {
                assert(entries.contains_key(k));
            }
        }
    }
}

/// Taking an entry out takes its record out, and leaves a table of records
/// a table of records.
pub proof fn lemma_records_remove<E: Record>(entries: Map<u64, Seq<u8>>, id: u64)
    ensures
        records::<E>(entries.remove(id)) == records::<E>(entries).remove(id),
        holds_records::<E>(entries) ==> holds_records::<E>(entries.remove(id)),
{
    let after = entries.remove(id);
    assert(records::<E>(after) =~= records::<E>(entries).remove(id));
    if holds_records::<E>(entries) {
        assert forall|k: u64| #[trigger] after.contains_key(k) implies (E::decoding(
            after[k],
        ) matches Some(m) && E::key(m) == k && fits::<E>(m)) by {
            assert(entries.contains_key(k));
        }
    }
}

/// A map whose entries can be listed is finite.
pub proof fn lemma_listed_is_finite(pairs: Seq<(u64, Vec<u8>)>, entries: Map<u64, Seq<u8>>)
    requires
        lists_entries(pairs, entries),
    ensures
        entries.dom().finite(),
    decreases pairs.len(),
{
    if pairs.len() == 0 {
        assert(entries.dom() =~= Set::<u64>::empty());
    } else {
        let k = pairs.last().0;
        let shorter = pairs.drop_last();
        let rest = entries.remove(k);
        assert forall|i: int| 0 <= i < shorter.len() implies rest.contains_key(
            (#[trigger] shorter[i]).0,
        ) && rest[shorter[i].0] == shorter[i].1@ by {
            assert(shorter[i] == pairs[i]);
            assert(pairs[i].0 < pairs[pairs.len() - 1].0);
        }
        assert forall|i: int, j: int| 0 <= i < j < shorter.len() implies (#[trigger] shorter[i]).0
            < (#[trigger] shorter[j]).0 by {
            assert(shorter[i] == pairs[i]);
            assert(shorter[j] == pairs[j]);
        }
        assert forall|key: u64| #[trigger] rest.contains_key(key) implies exists|i: int|
            0 <= i < shorter.len() && (#[trigger] shorter[i]).0 == key by {
            assert(entries.contains_key(key));
            let i = choose|i: int| 0 <= i < pairs.len() && (#[trigger] pairs[i]).0 == key;
            assert(shorter[i] == pairs[i]);
        }
        lemma_listed_is_finite(shorter, rest);
        assert(entries.contains_key(pairs[pairs.len() - 1].0));
        assert(entries.dom() =~= rest.dom().insert(k));
    }
}

/// Whether the table holds nothing but records of kind `E` that fit, each
/// under its own id, and every id below `limit`.
pub fn inspect<E: Record>(table: &Table, limit: u64) -> (sound: bool)
    ensures
        sound <==> holds_records::<E>(table_entries(*table)) && keys_below(
            table_entries(*table),
            limit,
        ),
        table_entries(*table).dom().finite(),
{
    let ghost entries = table_entries(*table);
    let pairs = table.listing();
    proof {
        lemma_listed_is_finite(pairs@, entries);
    }
    let mut i: usize = 0;
    while i < pairs.len()
        invariant
            i <= pairs@.len(),
            entries == table_entries(*table),
            entries.dom().finite(),
            lists_entries(pairs@, entries),
            forall|j: int|
                0 <= j < i ==> (#[trigger] pairs@[j]).0 < limit && (E::decoding(
                    pairs@[j].1@,
                ) matches Some(m) && E::key(m) == pairs@[j].0 && fits::<E>(m)),
        decreases pairs@.len() - i,
    {
        let key = pairs[i].0;
        assert(entries.contains_key(pairs@[i as int].0));
        if key >= limit {
            return false;
        }
        match E::decode(pairs[i].1.as_slice()) {
            Some(record) => {
                if record.id() != key || record.encode().is_none() {
                    return false;
                }
            },
            None => {
                return false;
            },
        }
        i += 1;
    }
    assert forall|k: u64| #[trigger] entries.contains_key(k) implies k < limit && (E::decoding(
        entries[k],
    ) matches Some(m) && E::key(m) == k && fits::<E>(m)) by {
        let j = choose|j: int| 0 <= j < pairs@.len() && (#[trigger] pairs@[j]).0 == k;
        assert(entries[pairs@[j].0] == pairs@[j].1@);
    }
    true
}

/// Every record of the table, by ascending id.
pub fn load_all<E: Record>(table: &Table) -> (list: Vec<E>)
    requires
        holds_records::<E>(table_entries(*table)),
    ensures
        lists_records::<E>(list@, records::<E>(table_entries(*table))),
{
    let ghost entries = table_entries(*table);
    let pairs = table.listing();
    let mut list: Vec<E> = Vec::new();
    let mut i: usize = 0;
    while i < pairs.len()
        invariant
            i <= pairs@.len(),
            list@.len() == i,
            entries == table_entries(*table),
            holds_records::<E>(entries),
            lists_entries(pairs@, entries),
            forall|j: int|
                0 <= j < i ==> E::key((#[trigger] list@[j])@) == pairs@[j].0 && E::decoding(
                    pairs@[j].1@,
                ) == Some(list@[j]@),
        decreases pairs@.len() - i,
    {
        assert(entries.contains_key(pairs@[i as int].0));
        let record = match E::decode(pairs[i].1.as_slice()) {
            Some(record) => record,
            None => unreached(),
        };
        list.push(record);
        i += 1;
    }
    proof {
        let kept = records::<E>(entries);
        assert forall|j: int| 0 <= j < list@.len() implies kept.contains_key(
            E::key((#[trigger] list@[j])@),
        ) && kept[E::key(list@[j]@)] == list@[j]@ by {
            assert(entries.contains_key(pairs@[j].0));
        }
        assert forall|a: int, b: int| 0 <= a < b < list@.len() implies E::key(
            (#[trigger] list@[a])@,
        ) < E::key((#[trigger] list@[b])@) by {
            assert(pairs@[a].0 < pairs@[b].0);
        }
        assert forall|k: u64| #[trigger] kept.contains_key(k) implies exists|j: int|
            0 <= j < list@.len() && E::key((#[trigger] list@[j])@) == k by {
            assert(entries.contains_key(k));
            let j = choose|j: int| 0 <= j < pairs@.len() && (#[trigger] pairs@[j]).0 == k;
            assert(E::key(list@[j]@) == k);
        }
    }
    list
}

/// The record kept under `id`, if there is one.
pub fn fetch<E: Record>(table: &Table, id: u64) -> (found: Option<E>)
    requires
        holds_records::<E>(table_entries(*table)),
    ensures
        found is Some <==> records::<E>(table_entries(*table)).contains_key(id),
        found matches Some(record) ==> record@ == records::<E>(table_entries(*table))[id],
{
    match table.get(id) {
        Some(bytes) => match E::decode(bytes.as_slice()) {
            Some(record) => Some(record),
            None => unreached(),
        },
        None => None,
    }
}

/// Stores the record under its id, replacing what was there, unless its
/// bytes do not fit; then the table is left as it was.
pub fn put<E: Record>(table: &mut Table, record: &E) -> (stored: bool)
    ensures
        stored <==> fits::<E>(record@),
        stored ==> table_entries(*final(table)) == table_entries(*old(table)).insert(
            E::key(record@),
            E::encoding(record@),
        ),
        !stored ==> *final(table) == *old(table),
        table_region(*final(table)) == table_region(*old(table)),
{
    match record.encode() {
        Some(bytes) => {
            let id = record.id();
            table.insert(id, bytes);
            true
        },
        None => false,
    }
}

} // verus!
