//! Ordered tables keyed by text.

use vstd::prelude::*;
use vstd::utf8::encode_utf8;

verus! {

/// Whether two byte strings agree before position `n` and differ or end there.
pub open spec fn diverge_at(a: Seq<u8>, b: Seq<u8>, n: int) -> bool {
    &&& 0 <= n <= a.len()
    &&& n <= b.len()
    &&& forall|k: int| 0 <= k < n ==> a[k] == b[k]
    &&& n == a.len() || n == b.len() || a[n] != b[n]
}

/// Lexicographic order of byte strings.
pub open spec fn bytes_before(a: Seq<u8>, b: Seq<u8>) -> bool {
    exists|n: int| #[trigger] diverge_at(a, b, n) && n < b.len() && (n == a.len() || a[n] < b[n])
}

/// Order of texts by the bytes of their UTF-8 encoding.
pub open spec fn text_before(a: Seq<char>, b: Seq<char>) -> bool {
    bytes_before(encode_utf8(a), encode_utf8(b))
}

/// Relative position of two texts.
#[derive(Clone, Copy, PartialEq, Eq, Structural)]
pub enum Rank {
    /// The first text comes first.
    Before,
    /// The texts are the same.
    Same,
    /// The second text comes first.
    After,
}

proof fn lemma_not_before_self(a: Seq<u8>)
    ensures
        !bytes_before(a, a),
{
}

/// The order of texts is transitive.
pub proof fn lemma_before_transitive(a: Seq<char>, b: Seq<char>, c: Seq<char>)
    requires
        text_before(a, b),
        text_before(b, c),
    ensures
        text_before(a, c),
{
    let (x, y, z) = (encode_utf8(a), encode_utf8(b), encode_utf8(c));
    let n = choose|n: int| #[trigger] diverge_at(x, y, n) && n < y.len() && (n == x.len() || x[n] < y[n]);
    let m = choose|m: int| #[trigger] diverge_at(y, z, m) && m < z.len() && (m == y.len() || y[m] < z[m]);
    if n < m {
        assert(diverge_at(x, z, n));
    } else if m < n {
        assert(diverge_at(x, z, m));
    } else {
        assert(diverge_at(x, z, n));
    }
}

/// No text comes before itself, and no two texts come before each other.
pub proof fn lemma_before_asymmetric(a: Seq<char>, b: Seq<char>)
    requires
        text_before(a, b),
    ensures
        a != b,
        !text_before(b, a),
{
    lemma_not_before_self(encode_utf8(a));
    if text_before(b, a) {
        lemma_before_transitive(a, b, a);
    }
}

/// No text comes before itself.
pub proof fn lemma_before_irreflexive(a: Seq<char>)
    ensures
        !text_before(a, a),
{
    lemma_not_before_self(encode_utf8(a));
}

/// Compares two texts.
pub fn rank(a: &str, b: &str) -> (result: Rank)
    ensures
        match result {
            Rank::Before => text_before(a@, b@),
            Rank::Same => a@ == b@,
            Rank::After => text_before(b@, a@),
        },
{
    let left = a.as_bytes();
    let right = b.as_bytes();
    let mut i: usize = 0;
    while i < left.len() && i < right.len() && left[i] == right[i]
        invariant
            left@ == encode_utf8(a@),
            right@ == encode_utf8(b@),
            i <= left@.len(),
            i <= right@.len(),
            forall|k: int| 0 <= k < i ==> left@[k] == right@[k],
        decreases left@.len() - i,
    {
        i += 1;
    }
    assert(diverge_at(left@, right@, i as int));
    assert(diverge_at(right@, left@, i as int));
    if i == left.len() {
        if i == right.len() {
            proof {
                assert(left@ =~= right@);
                vstd::utf8::encode_utf8_decode_utf8(a@);
                vstd::utf8::encode_utf8_decode_utf8(b@);
            }
            Rank::Same
        } else {
            Rank::Before
        }
    } else if i == right.len() {
        Rank::After
    } else if left[i] < right[i] {
        Rank::Before
    } else {
        Rank::After
    }
}

/// One row of a [`Table`].
#[derive(Debug, PartialEq, Eq)]
pub struct Row<V> {
    /// Key of the row.
    pub key: String,
    /// Value of the row.
    pub value: V,
}

/// Map from text keys to values, kept in key order.
#[derive(Debug, PartialEq, Eq)]
pub struct Table<V> {
    rows: Vec<Row<V>>,
}

/// Whether rows stand in strictly ascending key order.
pub open spec fn rows_ordered<V>(rows: Seq<Row<V>>) -> bool {
    forall|i: int, j: int|
        0 <= i < j < rows.len() ==> text_before(#[trigger] rows[i].key@, #[trigger] rows[j].key@)
}

/// Whether some row has the key.
pub open spec fn rows_have<V>(rows: Seq<Row<V>>, key: Seq<char>) -> bool {
    exists|i: int| 0 <= i < rows.len() && #[trigger] rows[i].key@ == key
}

/// Map that a sequence of rows with distinct keys stands for.
pub open spec fn rows_map<V>(rows: Seq<Row<V>>) -> Map<Seq<char>, V> {
    Map::new(
        |key: Seq<char>| rows_have(rows, key),
        |key: Seq<char>| rows[choose|i: int| 0 <= i < rows.len() && #[trigger] rows[i].key@ == key].value,
    )
}

impl<V: Clone> Clone for Table<V> {
    fn clone(&self) -> (result: Self)
        ensures
            result.rows().len() == self.rows().len(),
            forall|k: int|
                0 <= k < self.rows().len() ==> (#[trigger] result.rows()[k]).key == self.rows()[k].key && cloned(
                    self.rows()[k].value,
                    result.rows()[k].value,
                ),
    {
        proof {
            use_type_invariant(self);
        }
        let mut rows: Vec<Row<V>> = Vec::new();
        let mut k: usize = 0;
        while k < self.rows.len()
            invariant
                k <= self.rows@.len(),
                rows@.len() == k,
                rows_ordered(self.rows@),
                forall|j: int|
                    0 <= j < k ==> (#[trigger] rows@[j]).key == self.rows@[j].key && cloned(
                        self.rows@[j].value,
                        rows@[j].value,
                    ),
            decreases self.rows@.len() - k,
        {
            let row = Row { key: self.rows[k].key.clone(), value: self.rows[k].value.clone() };
            rows.push(row);
            k += 1;
        }
        proof {
            assert forall|i: int, j: int| 0 <= i < j < rows@.len() implies text_before(
                #[trigger] rows@[i].key@,
                #[trigger] rows@[j].key@,
            ) by {
                assert(text_before(self.rows@[i].key@, self.rows@[j].key@));
            }
        }
        Table { rows }
    }
}

/// Whether a list holds the keys of a map, each once, in ascending order.
pub open spec fn lists_keys<V>(keys: Seq<String>, map: Map<Seq<char>, V>) -> bool {
    &&& forall|i: int, j: int| 0 <= i < j < keys.len() ==> text_before(#[trigger] keys[i]@, #[trigger] keys[j]@)
    &&& forall|key: Seq<char>| #[trigger]
        map.contains_key(key) <==> exists|k: int| 0 <= k < keys.len() && #[trigger] keys[k]@ == key
}

pub(crate) proof fn lemma_row_in_map<V>(rows: Seq<Row<V>>, i: int)
    requires
        rows_ordered(rows),
        0 <= i < rows.len(),
    ensures
        rows_map(rows).contains_key(rows[i].key@),
        rows_map(rows)[rows[i].key@] == rows[i].value,
{
    let key = rows[i].key@;
    let j = choose|j: int| 0 <= j < rows.len() && #[trigger] rows[j].key@ == key;
    if j < i {
        lemma_before_asymmetric(rows[j].key@, rows[i].key@);
    } else if i < j {
        lemma_before_asymmetric(rows[i].key@, rows[j].key@);
    }
}

impl<V> Table<V> {
    #[verifier::type_invariant]
    pub(crate) open spec fn ordered(self) -> bool {
        rows_ordered(self.rows())
    }

    /// Rows in key order.
    pub closed spec fn rows(self) -> Seq<Row<V>> {
        self.rows@
    }
}

impl<V> View for Table<V> {
    type V = Map<Seq<char>, V>;

    closed spec fn view(&self) -> Map<Seq<char>, V> {
        rows_map(self.rows@)
    }
}

impl<V> Table<V> {
    /// Creates an empty table.
    pub fn new() -> (table: Self)
        ensures
            table@ == Map::<Seq<char>, V>::empty(),
            table.rows().len() == 0,
    {
        let table = Table { rows: Vec::new() };
        assert(table@ =~= Map::<Seq<char>, V>::empty());
        table
    }

    /// Returns the number of rows.
    pub fn len(&self) -> (count: usize)
        ensures
            count == self.rows().len(),
            count == self@.len(),
            self@.dom().finite(),
            rows_ordered(self.rows()),
    {
        proof {
            use_type_invariant(self);
            lemma_map_size(self.rows@);
        }
        self.rows.len()
    }

    /// Index of the first row whose key does not come before `key`.
    fn position(&self, key: &str) -> (index: usize)
        ensures
            index <= self.rows().len(),
            forall|k: int| 0 <= k < index ==> text_before(#[trigger] self.rows()[k].key@, key@),
            index < self.rows().len() ==> !text_before(self.rows()[index as int].key@, key@),
    {
        proof {
            use_type_invariant(self);
        }
        let mut low: usize = 0;
        let mut high: usize = self.rows.len();
        while low < high
            invariant
                low <= high <= self.rows@.len(),
                rows_ordered(self.rows@),
                forall|k: int| 0 <= k < low ==> text_before(#[trigger] self.rows@[k].key@, key@),
                high < self.rows@.len() ==> !text_before(self.rows@[high as int].key@, key@),
            decreases high - low,
        {
            let middle: usize = low + (high - low) / 2;
            match rank(self.rows[middle].key.as_str(), key) {
                Rank::Before => {
                    proof {
                        assert forall|k: int| 0 <= k < middle + 1 implies text_before(
                            #[trigger] self.rows@[k].key@,
                            key@,
                        ) by {
                            if k < middle {
                                lemma_before_transitive(self.rows@[k].key@, self.rows@[middle as int].key@, key@);
                            }
                        }
                    }
                    low = middle + 1;
                },
                Rank::Same => {
                    proof {
                        lemma_not_before_self(encode_utf8(key@));
                    }
                    high = middle;
                },
                Rank::After => {
                    proof {
                        lemma_before_asymmetric(key@, self.rows@[middle as int].key@);
                    }
                    high = middle;
                },
            }
        }
        low
    }

    /// Looks a key up.
    pub fn get(&self, key: &str) -> (value: Option<&V>)
        ensures
            match value {
                Some(value) => self@.contains_key(key@) && *value == self@[key@],
                None => !self@.contains_key(key@),
            },
    {
        proof {
            use_type_invariant(self);
        }
        let index: usize = self.position(key);
        if index < self.rows.len() {
            if let Rank::Same = rank(self.rows[index].key.as_str(), key) {
                proof {
                    lemma_row_in_map(self.rows@, index as int);
                }
                return Some(&self.rows[index].value);
            }
        }
        proof {
            lemma_absent(self.rows@, key@, index as int);
        }
        None
    }

    /// Decides whether a key is present.
    pub fn contains(&self, key: &str) -> (result: bool)
        ensures
            result == self@.contains_key(key@),
    {
        self.get(key).is_some()
    }

    /// Key of the row at an index.
    pub fn key_at(&self, index: usize) -> (key: &String)
        requires
            index < self.rows().len(),
        ensures
            *key == self.rows()[index as int].key,
    {
        &self.rows[index].key
    }

    /// Value of the row at an index.
    pub fn value_at(&self, index: usize) -> (value: &V)
        requires
            index < self.rows().len(),
        ensures
            *value == self.rows()[index as int].value,
    {
        &self.rows[index].value
    }

    /// Keys in order.
    pub fn keys(&self) -> (keys: Vec<String>)
        ensures
            lists_keys(keys@, self@),
            keys@.len() == self.rows().len(),
            forall|k: int| 0 <= k < keys@.len() ==> #[trigger] keys@[k] == self.rows()[k].key,
    {
        let count: usize = self.len();
        let mut keys: Vec<String> = Vec::new();
        let mut k: usize = 0;
        while k < count
            invariant
                k <= count == self.rows().len(),
                keys@.len() == k,
                forall|j: int| 0 <= j < k ==> #[trigger] keys@[j] == self.rows()[j].key,
            decreases count - k,
        {
            keys.push(self.key_at(k).clone());
            k += 1;
        }
        proof {
            let rows = self.rows();
            assert forall|i: int, j: int| 0 <= i < j < keys@.len() implies text_before(
                #[trigger] keys@[i]@,
                #[trigger] keys@[j]@,
            ) by {
                assert(text_before(rows[i].key@, rows[j].key@));
            }
            assert forall|key: Seq<char>| #[trigger] self@.contains_key(key) <==> exists|k: int|
                0 <= k < keys@.len() && #[trigger] keys@[k]@ == key by {
                if rows_have(rows, key) {
                    let k = choose|k: int| 0 <= k < rows.len() && #[trigger] rows[k].key@ == key;
                    assert(keys@[k]@ == key);
                }
                if exists|k: int| 0 <= k < keys@.len() && #[trigger] keys@[k]@ == key {
                    let k = choose|k: int| 0 <= k < keys@.len() && #[trigger] keys@[k]@ == key;
                    assert(rows[k].key@ == key);
                }
            }
        }
        keys
    }

    /// Adds or replaces a row.
    pub fn insert(&mut self, key: String, value: V)
        ensures
            final(self)@ == old(self)@.insert(key@, value),
    {
        proof {
            use_type_invariant(&*self);
        }
        let index: usize = self.position(key.as_str());
        let ghost before = self.rows@;
        let mut rows: Vec<Row<V>> = Vec::new();
        std::mem::swap(&mut rows, &mut self.rows);
        if index < rows.len() {
            if let Rank::Same = rank(rows[index].key.as_str(), key.as_str()) {
                let ghost name = key@;
                rows.set(index, Row { key, value });
                proof {
                    lemma_replace(before, index as int, rows@[index as int]);
                }
                self.rows = rows;
                return;
            }
        }
        proof {
            assert(index < before.len() ==> text_before(key@, before[index as int].key@));
            lemma_insert(before, index as int, Row { key, value });
        }
        rows.insert(index, Row { key, value });
        self.rows = rows;
    }

    /// Removes a row and returns its value, where the key is present.
    pub fn remove(&mut self, key: &str) -> (value: Option<V>)
        ensures
            final(self)@ == old(self)@.remove(key@),
            match value {
                Some(value) => old(self)@.contains_key(key@) && value == old(self)@[key@],
                None => !old(self)@.contains_key(key@),
            },
    {
        proof {
            use_type_invariant(&*self);
        }
        let index: usize = self.position(key);
        let ghost before = self.rows@;
        let mut rows: Vec<Row<V>> = Vec::new();
        std::mem::swap(&mut rows, &mut self.rows);
        if index < rows.len() {
            if let Rank::Same = rank(rows[index].key.as_str(), key) {
                proof {
                    lemma_row_in_map(before, index as int);
                    lemma_remove(before, index as int);
                }
                let row = rows.remove(index);
                self.rows = rows;
                return Some(row.value);
            }
        }
        proof {
            lemma_absent(before, key@, index as int);
            assert(rows_map(before).remove(key@) =~= rows_map(before));
        }
        self.rows = rows;
        None
    }
}

proof fn lemma_absent<V>(rows: Seq<Row<V>>, key: Seq<char>, index: int)
    requires
        rows_ordered(rows),
        0 <= index <= rows.len(),
        forall|k: int| 0 <= k < index ==> text_before(#[trigger] rows[k].key@, key),
        index < rows.len() ==> !text_before(rows[index].key@, key) && rows[index].key@ != key,
        index < rows.len() ==> text_before(key, rows[index].key@),
    ensures
        !rows_have(rows, key),
{
    assert forall|k: int| 0 <= k < rows.len() implies #[trigger] rows[k].key@ != key by {
        if k < index {
            lemma_before_asymmetric(rows[k].key@, key);
        } else if k > index {
            lemma_before_transitive(key, rows[index].key@, rows[k].key@);
            lemma_before_asymmetric(key, rows[k].key@);
        }
    }
}

pub(crate) proof fn lemma_map_size<V>(rows: Seq<Row<V>>)
    requires
        rows_ordered(rows),
    ensures
        rows_map(rows).dom().finite(),
        rows_map(rows).len() == rows.len(),
    decreases rows.len(),
{
    if rows.len() == 0 {
        assert(rows_map(rows).dom() =~= Set::<Seq<char>>::empty());
    } else {
        let rest = rows.drop_last();
        lemma_map_size(rest);
        let key = rows.last().key@;
        assert(!rows_have(rest, key)) by {
            assert forall|k: int| 0 <= k < rest.len() implies #[trigger] rest[k].key@ != key by {
                lemma_before_asymmetric(rows[k].key@, rows[rows.len() - 1].key@);
            }
        }
        assert(rows_map(rows).dom() =~= rows_map(rest).dom().insert(key)) by {
            assert forall|name: Seq<char>| rows_have(rows, name) == (rows_have(rest, name) || name == key) by {
                if rows_have(rows, name) {
                    let i = choose|i: int| 0 <= i < rows.len() && #[trigger] rows[i].key@ == name;
                    if i < rest.len() {
                        assert(rest[i].key@ == name);
                    }
                }
                if rows_have(rest, name) {
                    let i = choose|i: int| 0 <= i < rest.len() && #[trigger] rest[i].key@ == name;
                    assert(rows[i].key@ == name);
                }
                assert(rows[rows.len() - 1].key@ == key);
            }
        }
    }
}

pub(crate) proof fn lemma_last_row<V>(rows: Seq<Row<V>>)
    requires
        rows_ordered(rows),
        rows.len() > 0,
    ensures
        rows_ordered(rows.drop_last()),
        rows_map(rows).contains_key(rows.last().key@),
        rows_map(rows)[rows.last().key@] == rows.last().value,
        rows_map(rows).remove(rows.last().key@) == rows_map(rows.drop_last()),
{
    let rest = rows.drop_last();
    let key = rows.last().key@;
    lemma_row_in_map(rows, rows.len() - 1);
    assert forall|name: Seq<char>| rows_map(rows).remove(key).contains_key(name) == #[trigger] rows_map(
        rest,
    ).contains_key(name) by {
        if rows_map(rows).remove(key).contains_key(name) {
            let i = choose|i: int| 0 <= i < rows.len() && #[trigger] rows[i].key@ == name;
            assert(rest[i].key@ == name);
        }
        if rows_map(rest).contains_key(name) {
            let i = choose|i: int| 0 <= i < rest.len() && #[trigger] rest[i].key@ == name;
            assert(rows[i].key@ == name);
            lemma_before_asymmetric(rows[i].key@, rows[rows.len() - 1].key@);
        }
    }
    assert forall|name: Seq<char>| #[trigger] rows_map(rest).contains_key(name) implies rows_map(rows).remove(key)[name]
        == rows_map(rest)[name] by {
        let i = choose|i: int| 0 <= i < rest.len() && #[trigger] rest[i].key@ == name;
        lemma_row_in_map(rest, i);
        assert(rows[i].key@ == name);
        lemma_row_in_map(rows, i);
        assert(rows_map(rows).remove(key).contains_key(name));
    }
    assert(rows_map(rows).remove(key) =~= rows_map(rest));
}

proof fn lemma_same_lookup<V>(rows: Seq<Row<V>>, other: Seq<Row<V>>, i: int, j: int)
    requires
        rows_ordered(rows),
        rows_ordered(other),
        0 <= i < rows.len(),
        0 <= j < other.len(),
        rows[i] == other[j],
    ensures
        rows_map(rows)[rows[i].key@] == rows_map(other)[rows[i].key@],
        rows_map(rows).contains_key(rows[i].key@),
        rows_map(other).contains_key(rows[i].key@),
{
    lemma_row_in_map(rows, i);
    lemma_row_in_map(other, j);
}

proof fn lemma_replace<V>(rows: Seq<Row<V>>, index: int, row: Row<V>)
    requires
        rows_ordered(rows),
        0 <= index < rows.len(),
        rows[index].key@ == row.key@,
    ensures
        rows_ordered(rows.update(index, row)),
        rows_map(rows.update(index, row)) == rows_map(rows).insert(row.key@, row.value),
{
    let after = rows.update(index, row);
    assert forall|i: int, j: int| 0 <= i < j < after.len() implies text_before(
        #[trigger] after[i].key@,
        #[trigger] after[j].key@,
    ) by {
        assert(text_before(rows[i].key@, rows[j].key@));
    }
    assert forall|name: Seq<char>| rows_have(after, name) == rows_have(rows, name) by {
        if rows_have(rows, name) {
            let i = choose|i: int| 0 <= i < rows.len() && #[trigger] rows[i].key@ == name;
            assert(after[i].key@ == name);
        }
        if rows_have(after, name) {
            let i = choose|i: int| 0 <= i < after.len() && #[trigger] after[i].key@ == name;
            assert(rows[i].key@ == name);
        }
    }
    lemma_row_in_map(after, index);
    lemma_row_in_map(rows, index);
    assert forall|name: Seq<char>| rows_have(rows, name) && name != row.key@ implies
        #[trigger] rows_map(after)[name] == rows_map(rows)[name] by {
        let i = choose|i: int| 0 <= i < rows.len() && #[trigger] rows[i].key@ == name;
        lemma_same_lookup(rows, after, i, i);
    }
    assert(rows_map(after) =~= rows_map(rows).insert(row.key@, row.value));
}

proof fn lemma_insert<V>(rows: Seq<Row<V>>, index: int, row: Row<V>)
    requires
        rows_ordered(rows),
        0 <= index <= rows.len(),
        forall|k: int| 0 <= k < index ==> text_before(#[trigger] rows[k].key@, row.key@),
        index < rows.len() ==> text_before(row.key@, rows[index].key@),
    ensures
        rows_ordered(rows.insert(index, row)),
        rows_map(rows.insert(index, row)) == rows_map(rows).insert(row.key@, row.value),
{
    let after = rows.insert(index, row);
    assert forall|k: int| index <= k < rows.len() implies text_before(row.key@, #[trigger] rows[k].key@) by {
        if k > index {
            lemma_before_transitive(row.key@, rows[index].key@, rows[k].key@);
        }
    }
    assert forall|i: int, j: int| 0 <= i < j < after.len() implies text_before(
        #[trigger] after[i].key@,
        #[trigger] after[j].key@,
    ) by {
        let oi = if i < index { i } else { i - 1 };
        let oj = if j < index { j } else { j - 1 };
        if i == index {
            assert(after[j] == rows[oj]);
        } else if j == index {
            assert(after[i] == rows[oi]);
        } else {
            assert(after[i] == rows[oi] && after[j] == rows[oj]);
        }
    }
    lemma_row_in_map(after, index);
    assert forall|name: Seq<char>| rows_have(after, name) == (rows_have(rows, name) || name == row.key@) by {
        if rows_have(rows, name) {
            let i = choose|i: int| 0 <= i < rows.len() && #[trigger] rows[i].key@ == name;
            let j = if i < index { i } else { i + 1 };
            assert(after[j] == rows[i]);
        }
        if rows_have(after, name) {
            let j = choose|j: int| 0 <= j < after.len() && #[trigger] after[j].key@ == name;
            if j != index {
                let i = if j < index { j } else { j - 1 };
                assert(after[j] == rows[i]);
            }
        }
    }
    assert forall|name: Seq<char>| rows_have(rows, name) && name != row.key@ implies
        #[trigger] rows_map(after)[name] == rows_map(rows)[name] by {
        let i = choose|i: int| 0 <= i < rows.len() && #[trigger] rows[i].key@ == name;
        let j = if i < index { i } else { i + 1 };
        assert(after[j] == rows[i]);
        lemma_same_lookup(rows, after, i, j);
    }
    assert(rows_map(after) =~= rows_map(rows).insert(row.key@, row.value));
}

proof fn lemma_remove<V>(rows: Seq<Row<V>>, index: int)
    requires
        rows_ordered(rows),
        0 <= index < rows.len(),
    ensures
        rows_ordered(rows.remove(index)),
        rows_map(rows.remove(index)) == rows_map(rows).remove(rows[index].key@),
{
    let after = rows.remove(index);
    let key = rows[index].key@;
    assert forall|i: int, j: int| 0 <= i < j < after.len() implies text_before(
        #[trigger] after[i].key@,
        #[trigger] after[j].key@,
    ) by {
        let oi = if i < index { i } else { i + 1 };
        let oj = if j < index { j } else { j + 1 };
        assert(after[i] == rows[oi] && after[j] == rows[oj]);
    }
    assert forall|name: Seq<char>| rows_have(after, name) == (rows_have(rows, name) && name != key) by {
        if rows_have(after, name) {
            let j = choose|j: int| 0 <= j < after.len() && #[trigger] after[j].key@ == name;
            let i = if j < index { j } else { j + 1 };
            assert(after[j] == rows[i]);
            if i < index {
                lemma_before_asymmetric(rows[i].key@, key);
            } else {
                lemma_before_asymmetric(key, rows[i].key@);
            }
        }
        if rows_have(rows, name) && name != key {
            let i = choose|i: int| 0 <= i < rows.len() && #[trigger] rows[i].key@ == name;
            let j = if i < index { i } else { i - 1 };
            assert(after[j] == rows[i]);
        }
    }
    assert forall|name: Seq<char>| rows_have(rows, name) && name != key implies
        #[trigger] rows_map(after)[name] == rows_map(rows)[name] by {
        let i = choose|i: int| 0 <= i < rows.len() && #[trigger] rows[i].key@ == name;
        let j = if i < index { i } else { i - 1 };
        assert(after[j] == rows[i]);
        lemma_same_lookup(rows, after, i, j);
    }
    assert(rows_map(after) =~= rows_map(rows).remove(key));
}

/// The rows of a table are what it maps: each row is what its key maps to, and
/// every key of the table belongs to a row.
pub proof fn lemma_table_rows<V>(table: &Table<V>, i: int, key: Seq<char>)
    ensures
        table@ == rows_map(table.rows()),
        0 <= i < table.rows().len() && rows_ordered(table.rows()) ==> table@.contains_key(table.rows()[i].key@)
            && table@[table.rows()[i].key@] == table.rows()[i].value,
        table@.contains_key(key) <==> rows_have(table.rows(), key),
{
    if 0 <= i < table.rows().len() && rows_ordered(table.rows()) {
        lemma_row_in_map(table.rows(), i);
    }
}

/// Of two texts exactly one comes first, unless they are the same text.
pub proof fn law_texts_are_ordered(a: Seq<char>, b: Seq<char>)
    ensures
        a == b ==> !text_before(a, b) && !text_before(b, a),
        a != b ==> text_before(a, b) != text_before(b, a),
{
    let (x, y) = (encode_utf8(a), encode_utf8(b));
    if a == b {
        lemma_before_irreflexive(a);
    } else {
        vstd::utf8::encode_utf8_decode_utf8(a);
        vstd::utf8::encode_utf8_decode_utf8(b);
        assert(x != y);
        let n = lemma_divergence(x, y, 0);
        assert(diverge_at(y, x, n));
        if n == x.len() && n == y.len() {
            assert(x =~= y);
        }
        if text_before(a, b) {
            lemma_before_asymmetric(a, b);
        }
    }
}

proof fn lemma_divergence(a: Seq<u8>, b: Seq<u8>, from: int) -> (n: int)
    requires
        0 <= from <= a.len(),
        from <= b.len(),
        forall|k: int| 0 <= k < from ==> a[k] == b[k],
    ensures
        diverge_at(a, b, n),
    decreases a.len() - from,
{
    if from == a.len() || from == b.len() || a[from] != b[from] {
        from
    } else {
        lemma_divergence(a, b, from + 1)
    }
}

/// Texts are ordered by the first byte in which they differ, and a text comes
/// before those that it begins.
pub proof fn law_texts_are_ordered_by_their_bytes(a: Seq<char>, b: Seq<char>, n: int)
    requires
        0 <= n <= encode_utf8(a).len(),
        n < encode_utf8(b).len(),
        encode_utf8(a).take(n) == encode_utf8(b).take(n),
        n == encode_utf8(a).len() || encode_utf8(a)[n] < encode_utf8(b)[n],
    ensures
        text_before(a, b),
{
    let (x, y) = (encode_utf8(a), encode_utf8(b));
    assert forall|k: int| 0 <= k < n implies x[k] == y[k] by {
        assert(x.take(n)[k] == y.take(n)[k]);
    }
    assert(diverge_at(x, y, n));
}

/// A list of keys holds every key of the map once, each before those behind it.
pub proof fn law_keys_are_listed_once<V>(keys: Seq<String>, map: Map<Seq<char>, V>)
    requires
        lists_keys(keys, map),
    ensures
        forall|i: int, j: int| 0 <= i < j < keys.len() ==> #[trigger] keys[i]@ != #[trigger] keys[j]@,
        forall|i: int, j: int| 0 <= i < j < keys.len() ==> text_before(#[trigger] keys[i]@, #[trigger] keys[j]@),
        forall|k: int| 0 <= k < keys.len() ==> map.contains_key(#[trigger] keys[k]@),
        forall|key: Seq<char>| map.contains_key(key) ==> exists|k: int| 0 <= k < keys.len() && #[trigger] keys[k]@ == key,
{
    assert forall|i: int, j: int| 0 <= i < j < keys.len() implies #[trigger] keys[i]@ != #[trigger] keys[j]@ by {
        lemma_before_asymmetric(keys[i]@, keys[j]@);
    }
}

/// The rows of a table stand for its map: each row is found by its key, and
/// nothing else is.
pub proof fn law_rows_are_found_by_key<V>(rows: Seq<Row<V>>, key: Seq<char>)
    requires
        rows_ordered(rows),
    ensures
        rows_map(rows).contains_key(key) <==> exists|k: int| 0 <= k < rows.len() && #[trigger] rows[k].key@ == key,
        forall|k: int| 0 <= k < rows.len() && (#[trigger] rows[k]).key@ == key ==> rows_map(rows)[key] == rows[k].value,
{
    assert forall|k: int| 0 <= k < rows.len() && (#[trigger] rows[k]).key@ == key implies rows_map(rows)[key]
        == rows[k].value by {
        lemma_row_in_map(rows, k);
    }
}

} // verus!
