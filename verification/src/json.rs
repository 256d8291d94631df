//! Schema-free metadata values, the keyed bags that hold them, and the
//! passage to and from `serde_json`.

use crate::text::{from_chars, str_eq};
use vstd::prelude::*;

verus! {

/// A schema-free metadata value.
#[derive(Debug, PartialEq, Eq)]
pub enum Datum {
    Null,
    Boolean(bool),
    Integer(i64),
    /// A number that is no 64-bit signed integer, held by its decimal text.
    Number(String),
    Text(String),
    List(Vec<Datum>),
    Mapping(Vec<(String, Datum)>),
}

/// The mathematical content of a [`Datum`].
#[verifier::ext_equal]
pub ghost enum DatumView {
    Null,
    Boolean(bool),
    Integer(int),
    Number(Seq<char>),
    Text(Seq<char>),
    List(Seq<DatumView>),
    Mapping(Seq<(Seq<char>, DatumView)>),
}

/// A keyed bag as specifications see it: keys with values, in order.
pub type BagView = Seq<(Seq<char>, DatumView)>;

impl View for Datum {
    type V = DatumView;

    open spec fn view(&self) -> DatumView
        decreases self,
    {
        match self {
            Datum::Null => DatumView::Null,
            Datum::Boolean(b) => DatumView::Boolean(*b),
            Datum::Integer(n) => DatumView::Integer(*n as int),
            Datum::Number(s) => DatumView::Number(s@),
            Datum::Text(s) => DatumView::Text(s@),
            Datum::List(items) => DatumView::List(
                Seq::new(
                    items.len() as nat,
                    |i: int|
                        if 0 <= i < items.len() {
                            items[i].view()
                        } else {
                            DatumView::Null
                        },
                ),
            ),
            Datum::Mapping(entries) => DatumView::Mapping(
                Seq::new(
                    entries.len() as nat,
                    |i: int|
                        (
                            entries[i].0@,
                            if 0 <= i < entries.len() {
                                entries[i].1.view()
                            } else {
                                DatumView::Null
                            },
                        ),
                ),
            ),
        }
    }
}

/// The contents of a list of values.
pub open spec fn items_view(items: Seq<Datum>) -> Seq<DatumView> {
    Seq::new(items.len(), |i: int| items[i]@)
}

/// The contents of a bag of keyed values.
pub open spec fn entries_view(entries: Seq<(String, Datum)>) -> BagView {
    Seq::new(entries.len(), |i: int| (entries[i].0@, entries[i].1@))
}

/// A list value holds the contents of its items.
pub proof fn lemma_list_view(items: Vec<Datum>)
    ensures
        Datum::List(items)@ == DatumView::List(items_view(items@)),
{
    assert(Datum::List(items)@->List_0 =~= items_view(items@));
}

/// A mapping value holds the contents of its entries.
pub proof fn lemma_mapping_view(entries: Vec<(String, Datum)>)
    ensures
        Datum::Mapping(entries)@ == DatumView::Mapping(entries_view(entries@)),
{
    assert(Datum::Mapping(entries)@->Mapping_0 =~= entries_view(entries@));
}

/// Some entry of `bag` has the key `key`.
pub open spec fn has_key<V>(bag: Seq<(Seq<char>, V)>, key: Seq<char>) -> bool {
    exists|i: int| 0 <= i < bag.len() && (#[trigger] bag[i]).0 == key
}

/// `i` is the first position in `bag` whose key is `key`.
pub open spec fn first_index<V>(bag: Seq<(Seq<char>, V)>, key: Seq<char>, i: int) -> bool {
    &&& 0 <= i < bag.len()
    &&& bag[i].0 == key
    &&& forall|j: int| 0 <= j < i ==> (#[trigger] bag[j]).0 != key
}

/// The first position in `bag` whose key is `key`.
pub open spec fn key_index<V>(bag: Seq<(Seq<char>, V)>, key: Seq<char>) -> int {
    choose|i: int| first_index(bag, key, i)
}

/// The value that `bag` holds for `key`: that of the first entry with
/// this key.
pub open spec fn lookup<V>(bag: Seq<(Seq<char>, V)>, key: Seq<char>) -> Option<V> {
    if has_key(bag, key) {
        Some(bag[key_index(bag, key)].1)
    } else {
        None
    }
}

/// `bag` with `value` stored under `key`: in place of the value of the
/// first entry with this key, or as a new last entry.
pub open spec fn with_entry<V>(bag: Seq<(Seq<char>, V)>, key: Seq<char>, value: V) -> Seq<
    (Seq<char>, V),
> {
    if has_key(bag, key) {
        bag.update(key_index(bag, key), (key, value))
    } else {
        bag.push((key, value))
    }
}

/// A first position, once found, is the one that `key_index` names.
pub proof fn lemma_first_index<V>(bag: Seq<(Seq<char>, V)>, key: Seq<char>, i: int)
    requires
        first_index(bag, key, i),
    ensures
        has_key(bag, key),
        key_index(bag, key) == i,
        lookup(bag, key) == Some(bag[i].1),
{
    assert(bag[i].0 == key);
    let k = key_index(bag, key);
    assert(first_index(bag, key, k));
    if k < i {
        assert(bag[k].0 != key);
    }
    if i < k {
        assert(bag[i].0 != key);
    }
}

/// A bag that has a key has a first position with it.
pub proof fn lemma_has_key<V>(bag: Seq<(Seq<char>, V)>, key: Seq<char>)
    requires
        has_key(bag, key),
    ensures
        first_index(bag, key, key_index(bag, key)),
{
    let i = choose|i: int| 0 <= i < bag.len() && (#[trigger] bag[i]).0 == key;
    lemma_first_before(bag, key, i);
}

/// Before or at any position with the key lies a first one.
proof fn lemma_first_before<V>(bag: Seq<(Seq<char>, V)>, key: Seq<char>, i: int)
    requires
        0 <= i < bag.len(),
        bag[i].0 == key,
    ensures
        exists|k: int| first_index(bag, key, k),
    decreases i,
{
    if exists|j: int| 0 <= j < i && (#[trigger] bag[j]).0 == key {
        let j = choose|j: int| 0 <= j < i && (#[trigger] bag[j]).0 == key;
        lemma_first_before(bag, key, j);
    } else {
        assert(first_index(bag, key, i));
    }
}

/// After storing under `key`, the bag holds the stored value there and
/// what it held before under every other key.
pub proof fn lemma_with_entry_lookup<V>(
    bag: Seq<(Seq<char>, V)>,
    key: Seq<char>,
    value: V,
    other: Seq<char>,
)
    ensures
        lookup(with_entry(bag, key, value), key) == Some(value),
        other != key ==> lookup(with_entry(bag, key, value), other) == lookup(bag, other),
        has_key(with_entry(bag, key, value), other) <==> (other == key || has_key(bag, other)),
{
    let after = with_entry(bag, key, value);
    if has_key(bag, key) {
        let k = key_index(bag, key);
        lemma_has_key(bag, key);
        assert(after.len() == bag.len());
        assert forall|j: int| 0 <= j < bag.len() implies (#[trigger] after[j]).0 == bag[j].0 by {}
        assert(first_index(after, key, k));
        lemma_first_index(after, key, k);
        if other != key {
            if has_key(bag, other) {
                let m = key_index(bag, other);
                lemma_has_key(bag, other);
                assert(first_index(after, other, m)) by {
                    assert forall|j: int| 0 <= j < m implies (#[trigger] after[j]).0 != other by {
                        assert(bag[j].0 != other);
                    }
                }
                lemma_first_index(after, other, m);
            } else {
                assert forall|j: int| 0 <= j < after.len() implies (#[trigger] after[j]).0
                    != other by {
                    assert(bag[j].0 != other);
                }
            }
        }
    } else {
        let n = bag.len() as int;
        assert(after[n].0 == key);
        assert(first_index(after, key, n)) by {
            assert forall|j: int| 0 <= j < n implies (#[trigger] after[j]).0 != key by {
                assert(bag[j].0 != key);
            }
        }
        lemma_first_index(after, key, n);
        if other != key {
            if has_key(bag, other) {
                let m = key_index(bag, other);
                lemma_has_key(bag, other);
                assert(first_index(after, other, m)) by {
                    assert(after[m] == bag[m]);
                    assert forall|j: int| 0 <= j < m implies (#[trigger] after[j]).0 != other by {
                        assert(bag[j].0 != other);
                    }
                }
                lemma_first_index(after, other, m);
            } else {
                assert forall|j: int| 0 <= j < after.len() implies (#[trigger] after[j]).0
                    != other by {
                    if j < n {
                        assert(bag[j].0 != other);
                    }
                }
            }
        }
    }
}

impl Datum {
    /// A copy with the same contents.
    pub fn duplicate(&self) -> (out: Datum)
        ensures
            out@ == self@,
        decreases self,
    {
        match self {
            Datum::Null => Datum::Null,
            Datum::Boolean(b) => Datum::Boolean(*b),
            Datum::Integer(n) => Datum::Integer(*n),
            Datum::Number(s) => Datum::Number(s.clone()),
            Datum::Text(s) => Datum::Text(s.clone()),
            Datum::List(items) => {
                let mut out: Vec<Datum> = Vec::new();
                let mut i: usize = 0;
                while i < items.len()
                    invariant
                        i <= items.len(),
                        out.len() == i,
                        *self == Datum::List(*items),
                        forall|j: int| 0 <= j < i ==> out[j]@ == items[j]@,
                    decreases items.len() - i,
                {
                    proof {
                        assert(decreases_to!(*items => items[i as int]));
                        assert(decreases_to!(*self => self->List_0));
                    }
                    out.push(items[i].duplicate());
                    i = i + 1;
                }
                proof {
                    lemma_list_view(out);
                    lemma_list_view(*items);
                    assert(items_view(out@) =~= items_view(items@));
                }
                Datum::List(out)
            },
            Datum::Mapping(entries) => {
                let mut out: Vec<(String, Datum)> = Vec::new();
                let mut i: usize = 0;
                while i < entries.len()
                    invariant
                        i <= entries.len(),
                        out.len() == i,
                        *self == Datum::Mapping(*entries),
                        forall|j: int|
                            0 <= j < i ==> out[j].0@ == entries[j].0@ && out[j].1@ == entries[j].1@,
                    decreases entries.len() - i,
                {
                    proof {
                        assert(decreases_to!(*entries => entries[i as int]));
                        assert(decreases_to!(*self => self->Mapping_0));
                        assert(decreases_to!(entries[i as int] => entries[i as int].1));
                    }
                    out.push((entries[i].0.clone(), entries[i].1.duplicate()));
                    i = i + 1;
                }
                proof {
                    lemma_mapping_view(out);
                    lemma_mapping_view(*entries);
                    assert(entries_view(out@) =~= entries_view(entries@));
                }
                Datum::Mapping(out)
            },
        }
    }

    /// The text of a text value.
    pub fn as_string(&self) -> (r: Option<&String>)
        ensures
            match r {
                Some(s) => self@ == DatumView::Text(s@),
                None => !(self@ is Text),
            },
    {
        match self {
            Datum::Text(s) => Some(s),
            _ => None,
        }
    }

    /// The number of an integer value.
    pub fn as_integer(&self) -> (r: Option<i64>)
        ensures
            match r {
                Some(n) => self@ == DatumView::Integer(n as int),
                None => !(self@ is Integer),
            },
    {
        match self {
            Datum::Integer(n) => Some(*n),
            _ => None,
        }
    }

    /// The truth value of a boolean value.
    pub fn as_boolean(&self) -> (r: Option<bool>)
        ensures
            match r {
                Some(b) => self@ == DatumView::Boolean(b),
                None => !(self@ is Boolean),
            },
    {
        match self {
            Datum::Boolean(b) => Some(*b),
            _ => None,
        }
    }

    /// The items of a list value.
    pub fn as_list(&self) -> (r: Option<&Vec<Datum>>)
        ensures
            match r {
                Some(items) => self@ == DatumView::List(items_view(items@)),
                None => !(self@ is List),
            },
    {
        match self {
            Datum::List(items) => {
                proof {
                    lemma_list_view(*items);
                }
                Some(items)
            },
            _ => None,
        }
    }

    /// The entries of a mapping value.
    pub fn as_mapping(&self) -> (r: Option<&Vec<(String, Datum)>>)
        ensures
            match r {
                Some(entries) => self@ == DatumView::Mapping(entries_view(entries@)),
                None => !(self@ is Mapping),
            },
    {
        match self {
            Datum::Mapping(entries) => {
                proof {
                    lemma_mapping_view(*entries);
                }
                Some(entries)
            },
            _ => None,
        }
    }

    /// The count that this value holds.
    pub fn as_count(&self) -> (r: Option<usize>)
        ensures
            r == count_of(self@),
    {
        match self {
            Datum::Integer(n) => {
                if *n < 0 || *n as u64 > usize::MAX as u64 {
                    None
                } else {
                    Some(*n as usize)
                }
            },
            Datum::Number(s) => {
                let digits = crate::text::to_chars(s.as_str());
                crate::text::count_of_text_exec(&digits)
            },
            _ => None,
        }
    }

    /// A text value with the characters of `s`.
    pub fn text(s: &str) -> (out: Datum)
        ensures
            out@ == DatumView::Text(s@),
    {
        Datum::Text(s.to_owned())
    }

    /// The value of a count: an integer where it fits in 64 signed bits,
    /// else the number by its decimal text.
    pub fn count(n: usize) -> (out: Datum)
        ensures
            out@ == count_view(n as nat),
    {
        if n as u64 <= 0x7fff_ffff_ffff_ffffu64 {
            Datum::Integer(n as i64)
        } else {
            let digits = crate::text::decimal_nat_exec(n as u64);
            Datum::Number(from_chars(&digits))
        }
    }

    /// The value that `serde_json` holds, as a value of this library.
    pub fn from_json(value: serde_json::Value) -> (out: Datum)
        ensures
            out@ == datum_form(value),
    {
        from_serde(value)
    }

    /// This value as `serde_json` holds it.
    pub fn to_json(&self) -> (out: serde_json::Value)
        ensures
            out == serde_form(self@),
    {
        to_serde(self)
    }
}

/// The count that a value holds: an integer from 0 up, or a number whose
/// text writes a count, where the machine holds it.
pub open spec fn count_of(v: DatumView) -> Option<usize> {
    match v {
        DatumView::Integer(n) => if 0 <= n <= usize::MAX {
            Some(n as usize)
        } else {
            None
        },
        DatumView::Number(s) => crate::text::count_of_text(s),
        _ => None,
    }
}

/// The contents of the value of a count.
pub open spec fn count_view(n: nat) -> DatumView {
    if n <= i64::MAX {
        DatumView::Integer(n as int)
    } else {
        DatumView::Number(crate::text::decimal_nat(n))
    }
}

/// The position of the first entry of `entries` with the key `key`.
pub fn find_key(entries: &Vec<(String, Datum)>, key: &str) -> (r: Option<usize>)
    ensures
        match r {
            Some(i) => first_index(entries_view(entries@), key@, i as int),
            None => !has_key(entries_view(entries@), key@),
        },
{
    let mut i: usize = 0;
    while i < entries.len()
        invariant
            i <= entries.len(),
            forall|j: int| 0 <= j < i ==> (#[trigger] entries_view(entries@)[j]).0 != key@,
        decreases entries.len() - i,
    {
        if str_eq(entries[i].0.as_str(), key) {
            assert(entries_view(entries@)[i as int].0 == key@);
            return Some(i);
        }
        assert(entries_view(entries@)[i as int].0 != key@);
        i = i + 1;
    }
    None
}

/// The value that `entries` hold for `key`.
pub fn get<'a>(entries: &'a Vec<(String, Datum)>, key: &str) -> (r: Option<&'a Datum>)
    ensures
        match r {
            Some(v) => lookup(entries_view(entries@), key@) == Some(v@),
            None => lookup(entries_view(entries@), key@) is None,
        },
{
    match find_key(entries, key) {
        Some(i) => {
            proof {
                lemma_first_index(entries_view(entries@), key@, i as int);
            }
            Some(&entries[i].1)
        },
        None => None,
    }
}

/// Stores `value` under `key`, over the value of the first entry with this
/// key or in a new last entry.
pub fn insert(entries: &mut Vec<(String, Datum)>, key: &str, value: Datum)
    ensures
        entries_view(final(entries)@) == with_entry(entries_view(old(entries)@), key@, value@),
{
    let ghost before = entries_view(entries@);
    match find_key(entries, key) {
        Some(i) => {
            proof {
                lemma_first_index(before, key@, i as int);
            }
            entries[i].1 = value;
            assert(entries[i as int].0@ == key@);
            assert(entries_view(entries@) =~= before.update(i as int, (key@, value@)));
        },
        None => {
            entries.push((key.to_owned(), value));
            assert(entries_view(entries@) =~= before.push((key@, value@)));
        },
    }
}

/// A copy of `entries` with the same contents.
pub fn duplicate_entries(entries: &Vec<(String, Datum)>) -> (out: Vec<(String, Datum)>)
    ensures
        entries_view(out@) == entries_view(entries@),
{
    let mut out: Vec<(String, Datum)> = Vec::new();
    let mut i: usize = 0;
    while i < entries.len()
        invariant
            i <= entries.len(),
            out.len() == i,
            forall|j: int| 0 <= j < i ==> out[j].0@ == entries[j].0@ && out[j].1@ == entries[j].1@,
        decreases entries.len() - i,
    {
        out.push((entries[i].0.clone(), entries[i].1.duplicate()));
        i = i + 1;
    }
    assert(entries_view(out@) =~= entries_view(entries@));
    out
}

/// `serde_json::Value`, carried through without a look inside.
#[verifier::external_type_specification]
#[verifier::external_body]
pub struct ExJsonValue(serde_json::Value);

/// `serde_json::Error`, carried through without a look inside.
#[verifier::external_type_specification]
#[verifier::external_body]
pub struct ExJsonError(serde_json::Error);

/// What `serde_json` reads from a text as one JSON document: its value,
/// or nothing where the text is no such document.
pub uninterp spec fn json_document(text: Seq<char>) -> Option<DatumView>;

/// What a `serde_json::Value` holds, as the contents of a [`Datum`].
pub uninterp spec fn datum_form(value: serde_json::Value) -> DatumView;

/// The `serde_json::Value` that stands for the contents of a [`Datum`].
pub uninterp spec fn serde_form(value: DatumView) -> serde_json::Value;

/// Moves a `serde_json::Value` into a [`Datum`], variant by variant: a
/// number that `as_i64` gives becomes an integer, any other number its
/// printed text, and an object its entries in the order the map yields
/// them. The result is what `datum_form` names for the value.
#[verifier::external_body]
fn from_serde(value: serde_json::Value) -> (out: Datum)
    ensures
        out@ == datum_form(value),
{
    match value {
        serde_json::Value::Null => Datum::Null,
        serde_json::Value::Bool(b) => Datum::Boolean(b),
        serde_json::Value::Number(n) => match n.as_i64() {
            Some(i) => Datum::Integer(i),
            None => Datum::Number(n.to_string()),
        },
        serde_json::Value::String(s) => Datum::Text(s),
        serde_json::Value::Array(items) => Datum::List(items.into_iter().map(from_serde).collect()),
        serde_json::Value::Object(map) => Datum::Mapping(
            map.into_iter().map(|(k, v)| (k, from_serde(v))).collect(),
        ),
    }
}

/// Moves a [`Datum`] into a `serde_json::Value`, variant by variant; the
/// text of a number is read back with `str::parse`, and a text that is no
/// number becomes null. The result is what `serde_form` names for the
/// contents of the value.
#[verifier::external_body]
pub(crate) fn to_serde(value: &Datum) -> (out: serde_json::Value)
    ensures
        out == serde_form(value@),
{
    match value {
        Datum::Null => serde_json::Value::Null,
        Datum::Boolean(b) => serde_json::Value::Bool(*b),
        Datum::Integer(n) => serde_json::Value::Number((*n).into()),
        Datum::Number(s) => s.parse().map_or(serde_json::Value::Null, serde_json::Value::Number),
        Datum::Text(s) => serde_json::Value::String(s.clone()),
        Datum::List(items) => serde_json::Value::Array(items.iter().map(to_serde).collect()),
        Datum::Mapping(entries) => serde_json::Value::Object(
            entries.iter().map(|e| (e.0.clone(), to_serde(&e.1))).collect(),
        ),
    }
}

/// Parses `text` with `serde_json::from_str` as one JSON value. The result
/// is the document that `json_document` names for this text; an error
/// comes exactly where there is none.
#[verifier::external_body]
pub(crate) fn parse_json(text: &str) -> (r: Result<Datum, serde_json::Error>)
    ensures
        match r {
            Ok(v) => json_document(text@) == Some(v@),
            Err(_) => json_document(text@) is None,
        },
{
    serde_json::from_str::<serde_json::Value>(text).map(from_serde)
}

} // verus!
