//! A table of header fields: names mapped to values, no name twice,
//! kept in the order in which the names first came.
use vstd::prelude::*;
use crate::text::str_eq;

verus! {

/// One header field as the contracts see it: its name and its value.
pub type FieldView = (Seq<char>, Seq<char>);

/// Whether `key` names some field of `e`.
pub open spec fn has_key(e: Seq<FieldView>, key: Seq<char>) -> bool {
    exists|i: int| 0 <= i < e.len() && (#[trigger] e[i]).0 == key
}

/// Whether `i` is where `key` first names a field of `e`.
pub open spec fn is_first_key(e: Seq<FieldView>, key: Seq<char>, i: int) -> bool {
    &&& 0 <= i < e.len()
    &&& e[i].0 == key
    &&& forall|j: int| 0 <= j < i ==> (#[trigger] e[j]).0 != key
}

/// Where `key` first names a field of `e` (meaningful when `has_key(e, key)`).
pub open spec fn key_index(e: Seq<FieldView>, key: Seq<char>) -> int {
    choose|i: int| is_first_key(e, key, i)
}

/// The value that `e` gives to `key`, if any: that of the first field so
/// named.
pub open spec fn lookup(e: Seq<FieldView>, key: Seq<char>) -> Option<Seq<char>> {
    if has_key(e, key) {
        Some(e[key_index(e, key)].1)
    } else {
        None
    }
}

/// No name occurs twice.
pub open spec fn distinct_keys(e: Seq<FieldView>) -> bool {
    forall|i: int, j: int| 0 <= i < j < e.len() ==> (#[trigger] e[i]).0 != (#[trigger] e[j]).0
}

/// The fields after `key` is set to `value`: the value is replaced in place
/// where the name is already there, else the field is added at the end.
pub open spec fn with_field(e: Seq<FieldView>, key: Seq<char>, value: Seq<char>) -> Seq<FieldView> {
    if has_key(e, key) {
        e.update(key_index(e, key), (key, value))
    } else {
        e.push((key, value))
    }
}

proof fn lemma_first_key_from(e: Seq<FieldView>, key: Seq<char>, w: int)
    requires
        0 <= w < e.len(),
        e[w].0 == key,
    ensures
        exists|i: int| is_first_key(e, key, i),
    decreases w,
{
    if exists|j: int| 0 <= j < w && (#[trigger] e[j]).0 == key {
        let j = choose|j: int| 0 <= j < w && (#[trigger] e[j]).0 == key;
        lemma_first_key_from(e, key, j);
    } else {
        assert(is_first_key(e, key, w));
    }
}

/// A name that names some field first names exactly one, at `key_index`.
pub proof fn lemma_key_index(e: Seq<FieldView>, key: Seq<char>)
    requires
        has_key(e, key),
    ensures
        is_first_key(e, key, key_index(e, key)),
        forall|i: int| #[trigger] is_first_key(e, key, i) ==> i == key_index(e, key),
{
    let w = choose|i: int| 0 <= i < e.len() && (#[trigger] e[i]).0 == key;
    lemma_first_key_from(e, key, w);
    let k = key_index(e, key);
    assert forall|i: int| #[trigger] is_first_key(e, key, i) implies i == k by {
        if i < k {
            assert(e[i].0 != key);
        } else if k < i {
            assert(e[k].0 != key);
        }
    }
}

/// Law: a table gives a value for a name exactly when some field has that
/// name, and the value it gives is that of a field with the name, the first
/// one.
pub proof fn lemma_lookup_entry(e: Seq<FieldView>, key: Seq<char>)
    ensures
        lookup(e, key) is None <==> forall|i: int| 0 <= i < e.len() ==> (#[trigger] e[i]).0 != key,
        lookup(e, key) matches Some(v) ==> exists|i: int|
            0 <= i < e.len() && #[trigger] e[i] == (key, v) && forall|j: int|
                0 <= j < i ==> (#[trigger] e[j]).0 != key,
{
    if has_key(e, key) {
        lemma_key_index(e, key);
        let k = key_index(e, key);
        assert(e[k] == (key, e[k].1));
    }
}

/// Law: setting a field in a table that names no field twice leaves a
/// table that names no field twice.
pub proof fn lemma_with_field_distinct(e: Seq<FieldView>, key: Seq<char>, value: Seq<char>)
    requires
        distinct_keys(e),
    ensures
        distinct_keys(with_field(e, key, value)),
{
    let n = with_field(e, key, value);
    if has_key(e, key) {
        lemma_key_index(e, key);
        assert forall|a: int, b: int| 0 <= a < b < n.len() implies (#[trigger] n[a]).0 != (#[trigger] n[b]).0 by {
            assert(e[a].0 != e[b].0);
        }
    } else {
        assert forall|a: int, b: int| 0 <= a < b < n.len() implies (#[trigger] n[a]).0 != (#[trigger] n[b]).0 by {
            if b == e.len() {
                assert(e[a].0 != key);
            } else {
                assert(e[a].0 != e[b].0);
            }
        }
    }
}

/// Law: once a field is set, the table gives the value set for its name and
/// the value it gave before for every other name (what `get` reads of what
/// `insert` wrote).
pub proof fn lemma_lookup_with_field(
    e: Seq<FieldView>,
    key: Seq<char>,
    value: Seq<char>,
    other: Seq<char>,
)
    ensures
        lookup(with_field(e, key, value), key) == Some(value),
        other != key ==> lookup(with_field(e, key, value), other) == lookup(e, other),
{
    let n = with_field(e, key, value);
    if has_key(e, key) {
        lemma_key_index(e, key);
    }
    let k = if has_key(e, key) {
        key_index(e, key)
    } else {
        e.len() as int
    };
    assert(n.len() == e.len() || n.len() == e.len() + 1);
    assert(forall|j: int| 0 <= j < n.len() && j != k ==> #[trigger] n[j] == e[j]);
    assert(n[k] == (key, value));
    assert(is_first_key(n, key, k));
    lemma_key_index(n, key);
    if other != key {
        if has_key(e, other) {
            lemma_key_index(e, other);
            let j = key_index(e, other);
            assert(is_first_key(n, other, j)) by {
                assert forall|l: int| 0 <= l < j implies (#[trigger] n[l]).0 != other by {
                    if l != k {
                        assert(n[l] == e[l]);
                    }
                }
            }
            lemma_key_index(n, other);
        } else {
            assert(!has_key(n, other)) by {
                if has_key(n, other) {
                    let i = choose|i: int| 0 <= i < n.len() && (#[trigger] n[i]).0 == other;
                    if i != k {
                        assert(n[i] == e[i]);
                    }
                }
            }
        }
    }
}

/// The header fields of a request or a response.
pub struct Headers {
    entries: Vec<(String, String)>,
}

impl View for Headers {
    type V = Seq<FieldView>;

    closed spec fn view(&self) -> Seq<FieldView> {
        fields_view(self.entries@)
    }
}

impl Headers {
    #[verifier::type_invariant]
    closed spec fn inv(self) -> bool {
        distinct_keys(self@)
    }

    /// An empty table.
    pub fn new() -> (res: Headers)
        ensures
            res@ == Seq::<FieldView>::empty(),
    {
        let res = Headers { entries: Vec::new() };
        assert(res@ =~= Seq::<FieldView>::empty());
        res
    }

    /// The number of fields.
    pub fn len(&self) -> (res: usize)
        ensures
            res == self@.len(),
    {
        self.entries.len()
    }

    /// Whether the table holds no field.
    pub fn is_empty(&self) -> (res: bool)
        ensures
            res == (self@.len() == 0),
    {
        self.entries.len() == 0
    }

    /// Where `key` stands, if it is there.
    fn position(&self, key: &str) -> (res: Option<usize>)
        ensures
            res matches Some(i) ==> has_key(self@, key@) && i == key_index(self@, key@) && i
                < self@.len(),
            res is None ==> !has_key(self@, key@),
    {
        let mut i: usize = 0;
        while i < self.entries.len()
            invariant
                i <= self.entries@.len(),
                self@.len() == self.entries@.len(),
                forall|j: int| 0 <= j < i ==> (#[trigger] self@[j]).0 != key@,
            decreases self.entries@.len() - i,
        {
            if str_eq(self.entries[i].0.as_str(), key) {
                proof {
                    assert(is_first_key(self@, key@, i as int));
                    lemma_key_index(self@, key@);
                }
                return Some(i);
            }
            i = i + 1;
        }
        None
    }

    /// The value of the field named `key` (std's `HashMap::get`).
    pub fn get(&self, key: &str) -> (res: Option<&String>)
        ensures
            res matches Some(v) ==> lookup(self@, key@) == Some(v@),
            res is None ==> lookup(self@, key@) is None,
    {
        match self.position(key) {
            Some(i) => Some(&self.entries[i].1),
            None => None,
        }
    }

    /// Whether a field is named `key`.
    pub fn contains_key(&self, key: &str) -> (res: bool)
        ensures
            res == has_key(self@, key@),
    {
        self.position(key).is_some()
    }

    /// Sets the field `key` to `value` and gives back the value it had
    /// (std's `HashMap::insert`).
    pub fn insert(&mut self, key: String, value: String) -> (res: Option<String>)
        ensures
            final(self)@ == with_field(old(self)@, key@, value@),
            res matches Some(v) ==> lookup(old(self)@, key@) == Some(v@),
            res is None ==> lookup(old(self)@, key@) is None,
    {
        proof {
            use_type_invariant(&*self);
        }
        let pos = self.position(key.as_str());
        let ghost before = self@;
        let ghost k = key@;
        let ghost v = value@;
        let mut entries: Vec<(String, String)> = Vec::new();
        std::mem::swap(&mut self.entries, &mut entries);
        assert(fields_view(entries@) == before);
        match pos {
            Some(i) => {
                proof {
                    lemma_key_index(before, k);
                }
                let mut field = (key, value);
                entries.set_and_swap(i, &mut field);
                assert(fields_view(entries@) =~= before.update(i as int, (k, v)));
                proof {
                    lemma_with_field_distinct(before, k, v);
                }
                self.entries = entries;
                let (_, old_value) = field;
                Some(old_value)
            },
            None => {
                entries.push((key, value));
                assert(fields_view(entries@) =~= before.push((k, v)));
                proof {
                    lemma_with_field_distinct(before, k, v);
                }
                self.entries = entries;
                None
            },
        }
    }

    /// Takes every field out, in order, and leaves the table empty
    /// (std's `HashMap::drain`, in the table's own order).
    pub fn drain(&mut self) -> (res: Vec<(String, String)>)
        ensures
            final(self)@ == Seq::<FieldView>::empty(),
            fields_view(res@) == old(self)@,
    {
        let mut out: Vec<(String, String)> = Vec::new();
        std::mem::swap(&mut self.entries, &mut out);
        assert(self@ =~= Seq::<FieldView>::empty());
        assert(fields_view(out@) =~= old(self)@);
        out
    }
}

/// The view of a vector of name–value pairs.
pub open spec fn fields_view(v: Seq<(String, String)>) -> Seq<FieldView> {
    Seq::new(v.len(), |i: int| (v[i].0@, v[i].1@))
}

} // verus!
