//! Arrays of objects shown as tables: the columns are the objects' keys,
//! each once, in the order they are first seen; a row without a key shows
//! nothing under it.
use vstd::prelude::*;
use crate::table::{Table, Value};
use crate::text::{owned, str_eq, views};

verus! {

/// The keys of an object's entries, in order.
pub open spec fn entry_keys(row: Seq<(String, Value)>) -> Seq<Seq<char>> {
    row.map_values(|e: (String, Value)| e.0@)
}

/// `acc` followed by each of `keys` that it does not hold yet, in order.
pub open spec fn add_keys(acc: Seq<Seq<char>>, keys: Seq<Seq<char>>) -> Seq<Seq<char>>
    decreases keys.len(),
{
    if keys.len() == 0 {
        acc
    } else {
        let next = if acc.contains(keys[0]) {
            acc
        } else {
            acc.push(keys[0])
        };
        add_keys(next, keys.drop_first())
    }
}

/// The keys of the objects, each once, in the order they are first seen.
pub open spec fn union_keys(objects: Seq<Vec<(String, Value)>>) -> Seq<Seq<char>>
    decreases objects.len(),
{
    if objects.len() == 0 {
        Seq::empty()
    } else {
        add_keys(union_keys(objects.drop_last()), entry_keys(objects.last()@))
    }
}

/// Whether `cols` holds `key`.
fn holds_key(cols: &Vec<String>, key: &String) -> (r: bool)
    ensures
        r == views(cols@).contains(key@),
{
    let mut i: usize = 0;
    while i < cols.len()
        invariant
            i <= cols@.len(),
            forall|j: int| 0 <= j < i ==> cols@[j]@ != key@,
        decreases cols@.len() - i,
    {
        if str_eq(cols[i].as_str(), key.as_str()) {
            assert(views(cols@)[i as int] == key@);
            return true;
        }
        i = i + 1;
    }
    assert(!views(cols@).contains(key@)) by {
        if views(cols@).contains(key@) {
            let j = choose|j: int| 0 <= j < views(cols@).len() && views(cols@)[j] == key@;
            assert(cols@[j]@ == key@);
        }
    }
    false
}

/// The columns of a table of objects: their keys, each once, in the order
/// they are first seen.
pub fn object_columns(objects: &[Vec<(String, Value)>]) -> (cols: Vec<String>)
    ensures
        views(cols@) == union_keys(objects@),
{
    let mut cols: Vec<String> = Vec::new();
    let mut i: usize = 0;
    assert(views(cols@) =~= union_keys(objects@.take(0)));
    while i < objects.len()
        invariant
            i <= objects@.len(),
            views(cols@) == union_keys(objects@.take(i as int)),
        decreases objects@.len() - i,
    {
        let row = &objects[i];
        let ghost keys = entry_keys(row@);
        let ghost base = views(cols@);
        let mut j: usize = 0;
        assert(keys.skip(0) =~= keys);
        while j < row.len()
            invariant
                j <= row@.len(),
                keys == entry_keys(row@),
                add_keys(views(cols@), keys.skip(j as int)) == add_keys(base, keys),
            decreases row@.len() - j,
        {
            let key = &row[j].0;
            let ghost before = views(cols@);
            assert(keys.skip(j as int)[0] == key@);
            assert(keys.skip(j as int).drop_first() =~= keys.skip(j + 1));
            if !holds_key(&cols, key) {
                cols.push(owned(key.as_str()));
                assert(views(cols@) =~= before.push(key@));
            }
            j = j + 1;
        }
        assert(keys.skip(j as int) =~= Seq::<Seq<char>>::empty());
        assert(objects@.take(i + 1).drop_last() =~= objects@.take(i as int));
        i = i + 1;
    }
    assert(objects@.take(objects@.len() as int) =~= objects@);
    cols
}

/// A table of objects: under the columns of their keys, each object a row.
pub fn table_of_objects(objects: Vec<Vec<(String, Value)>>) -> (t: Table)
    ensures
        views(t.columns@) == union_keys(objects@),
        t.rows@ == objects@,
{
    let columns = object_columns(objects.as_slice());
    Table { columns, rows: objects }
}

proof fn lemma_add_keys(acc: Seq<Seq<char>>, keys: Seq<Seq<char>>)
    ensures
        forall|x: Seq<char>| #[trigger] add_keys(acc, keys).contains(x) <==> (acc.contains(x) || keys.contains(x)),
        acc.no_duplicates() ==> add_keys(acc, keys).no_duplicates(),
    decreases keys.len(),
{
    if keys.len() > 0 {
        let next = if acc.contains(keys[0]) {
            acc
        } else {
            acc.push(keys[0])
        };
        lemma_add_keys(next, keys.drop_first());
        let rest = keys.drop_first();
        assert forall|x: Seq<char>| #[trigger] add_keys(acc, keys).contains(x) <==> (acc.contains(x)
            || keys.contains(x)) by {
            assert(add_keys(acc, keys) == add_keys(next, rest));
            assert(add_keys(next, rest).contains(x) <==> (next.contains(x) || rest.contains(x)));
            assert(next.contains(x) <==> (acc.contains(x) || x == keys[0])) by {
                if next.contains(x) && !acc.contains(x) {
                    let k = choose|k: int| 0 <= k < next.len() && next[k] == x;
                    assert(k == acc.len());
                }
                if x == keys[0] && !acc.contains(x) {
                    assert(next[next.len() - 1] == x);
                }
                if acc.contains(x) {
                    let k = choose|k: int| 0 <= k < acc.len() && acc[k] == x;
                    assert(next[k] == x);
                }
            }
            assert(keys.contains(x) <==> (x == keys[0] || rest.contains(x))) by {
                if keys.contains(x) && x != keys[0] {
                    let k = choose|k: int| 0 <= k < keys.len() && keys[k] == x;
                    assert(rest[k - 1] == x);
                }
                if rest.contains(x) {
                    let k = choose|k: int| 0 <= k < rest.len() && rest[k] == x;
                    assert(keys[k + 1] == x);
                }
                if x == keys[0] {
                    assert(keys[0] == x);
                }
            }
        }
        if acc.no_duplicates() {
            assert(next.no_duplicates());
        }
    }
}

/// The columns of a table of objects name every key of every object, name
/// nothing else, and name each key once.
pub proof fn law_columns_are_the_keys(objects: Seq<Vec<(String, Value)>>)
    ensures
        union_keys(objects).no_duplicates(),
        forall|x: Seq<char>| #[trigger] union_keys(objects).contains(x) <==> exists|o: int|
            0 <= o < objects.len() && #[trigger] entry_keys(objects[o]@).contains(x),
    decreases objects.len(),
{
    if objects.len() > 0 {
        let init = objects.drop_last();
        law_columns_are_the_keys(init);
        lemma_add_keys(union_keys(init), entry_keys(objects.last()@));
        assert forall|x: Seq<char>| #[trigger] union_keys(objects).contains(x) <==> exists|o: int|
            0 <= o < objects.len() && #[trigger] entry_keys(objects[o]@).contains(x) by {
            if union_keys(init).contains(x) {
                let o = choose|o: int| 0 <= o < init.len() && #[trigger] entry_keys(init[o]@).contains(x);
                assert(objects[o] == init[o]);
            }
            if entry_keys(objects.last()@).contains(x) {
                assert(entry_keys(objects[objects.len() - 1]@).contains(x));
            }
            if exists|o: int| 0 <= o < objects.len() && #[trigger] entry_keys(objects[o]@).contains(x) {
                let o = choose|o: int| 0 <= o < objects.len() && #[trigger] entry_keys(objects[o]@).contains(x);
                if o < objects.len() - 1 {
                    assert(init[o] == objects[o]);
                    assert(union_keys(init).contains(x));
                }
            }
        }
    }
}

} // verus!
