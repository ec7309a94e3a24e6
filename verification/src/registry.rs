//! The channel registry: named channels, each holding one typed value.
use vstd::prelude::*;

use crate::errors::RegistryError;
use crate::trade_types::{Contract, Price, Quantity, Side};

verus! {

/// A value held by a channel, tagged with its type.
#[derive(Debug)]
pub enum ChannelValue {
    Bool(bool),
    I32(i32),
    I64(i64),
    U32(u32),
    U64(u64),
    Text(String),
    I32List(Vec<i32>),
    Side(Side),
    Price(Price),
    Quantity(Quantity),
    Contract(Contract),
}

/// A type whose values can travel through channels.
///
/// The spec functions describe an implementation; each implementation in this
/// library defines them, and where one does not they stay unspecified.
pub trait ChannelType: Sized {
    /// The channel value that `self` becomes.
    open spec fn to_value_spec(self) -> ChannelValue {
        arbitrary()
    }

    /// Whether a channel value holds a value of this type.
    open spec fn holds(v: ChannelValue) -> bool {
        arbitrary()
    }

    /// Whether `x` is the value of this type that `v` holds.
    open spec fn decodes(v: ChannelValue, x: Self) -> bool {
        arbitrary()
    }

    /// The name of the type, reported when a channel holds another type.
    open spec fn type_label_spec() -> Seq<char> {
        arbitrary()
    }

    fn type_label() -> (r: &'static str)
        ensures
            r@ == Self::type_label_spec(),
    ;

    fn to_value(self) -> (r: ChannelValue)
        ensures
            r == self.to_value_spec(),
            Self::holds(r),
            Self::decodes(r, self),
    ;

    fn from_value(v: &ChannelValue) -> (r: Option<Self>)
        ensures
            r is Some <==> Self::holds(*v),
            r matches Some(x) ==> Self::decodes(*v, x),
    ;
}

impl ChannelType for bool {
    open spec fn to_value_spec(self) -> ChannelValue {
        ChannelValue::Bool(self)
    }

    open spec fn holds(v: ChannelValue) -> bool {
        v is Bool
    }

    open spec fn decodes(v: ChannelValue, x: bool) -> bool {
        v == x.to_value_spec()
    }

    open spec fn type_label_spec() -> Seq<char> {
        "bool"@
    }

    fn type_label() -> (r: &'static str) {
        "bool"
    }

    fn to_value(self) -> (r: ChannelValue) {
        ChannelValue::Bool(self)
    }

    fn from_value(v: &ChannelValue) -> (r: Option<bool>) {
        match v {
            ChannelValue::Bool(b) => Some(*b),
            _ => None,
        }
    }
}

impl ChannelType for i32 {
    open spec fn to_value_spec(self) -> ChannelValue {
        ChannelValue::I32(self)
    }

    open spec fn holds(v: ChannelValue) -> bool {
        v is I32
    }

    open spec fn decodes(v: ChannelValue, x: i32) -> bool {
        v == x.to_value_spec()
    }

    open spec fn type_label_spec() -> Seq<char> {
        "i32"@
    }

    fn type_label() -> (r: &'static str) {
        "i32"
    }

    fn to_value(self) -> (r: ChannelValue) {
        ChannelValue::I32(self)
    }

    fn from_value(v: &ChannelValue) -> (r: Option<i32>) {
        match v {
            ChannelValue::I32(x) => Some(*x),
            _ => None,
        }
    }
}

impl ChannelType for i64 {
    open spec fn to_value_spec(self) -> ChannelValue {
        ChannelValue::I64(self)
    }

    open spec fn holds(v: ChannelValue) -> bool {
        v is I64
    }

    open spec fn decodes(v: ChannelValue, x: i64) -> bool {
        v == x.to_value_spec()
    }

    open spec fn type_label_spec() -> Seq<char> {
        "i64"@
    }

    fn type_label() -> (r: &'static str) {
        "i64"
    }

    fn to_value(self) -> (r: ChannelValue) {
        ChannelValue::I64(self)
    }

    fn from_value(v: &ChannelValue) -> (r: Option<i64>) {
        match v {
            ChannelValue::I64(x) => Some(*x),
            _ => None,
        }
    }
}

impl ChannelType for u32 {
    open spec fn to_value_spec(self) -> ChannelValue {
        ChannelValue::U32(self)
    }

    open spec fn holds(v: ChannelValue) -> bool {
        v is U32
    }

    open spec fn decodes(v: ChannelValue, x: u32) -> bool {
        v == x.to_value_spec()
    }

    open spec fn type_label_spec() -> Seq<char> {
        "u32"@
    }

    fn type_label() -> (r: &'static str) {
        "u32"
    }

    fn to_value(self) -> (r: ChannelValue) {
        ChannelValue::U32(self)
    }

    fn from_value(v: &ChannelValue) -> (r: Option<u32>) {
        match v {
            ChannelValue::U32(x) => Some(*x),
            _ => None,
        }
    }
}

impl ChannelType for u64 {
    open spec fn to_value_spec(self) -> ChannelValue {
        ChannelValue::U64(self)
    }

    open spec fn holds(v: ChannelValue) -> bool {
        v is U64
    }

    open spec fn decodes(v: ChannelValue, x: u64) -> bool {
        v == x.to_value_spec()
    }

    open spec fn type_label_spec() -> Seq<char> {
        "u64"@
    }

    fn type_label() -> (r: &'static str) {
        "u64"
    }

    fn to_value(self) -> (r: ChannelValue) {
        ChannelValue::U64(self)
    }

    fn from_value(v: &ChannelValue) -> (r: Option<u64>) {
        match v {
            ChannelValue::U64(x) => Some(*x),
            _ => None,
        }
    }
}

impl ChannelType for String {
    open spec fn to_value_spec(self) -> ChannelValue {
        ChannelValue::Text(self)
    }

    open spec fn holds(v: ChannelValue) -> bool {
        v is Text
    }

    open spec fn decodes(v: ChannelValue, x: String) -> bool {
        v == x.to_value_spec()
    }

    open spec fn type_label_spec() -> Seq<char> {
        "alloc::string::String"@
    }

    fn type_label() -> (r: &'static str) {
        "alloc::string::String"
    }

    fn to_value(self) -> (r: ChannelValue) {
        ChannelValue::Text(self)
    }

    fn from_value(v: &ChannelValue) -> (r: Option<String>) {
        match v {
            ChannelValue::Text(s) => Some(s.clone()),
            _ => None,
        }
    }
}

impl ChannelType for Vec<i32> {
    open spec fn to_value_spec(self) -> ChannelValue {
        ChannelValue::I32List(self)
    }

    open spec fn holds(v: ChannelValue) -> bool {
        v is I32List
    }

    open spec fn decodes(v: ChannelValue, x: Vec<i32>) -> bool {
        v matches ChannelValue::I32List(l) && l@ == x@
    }

    open spec fn type_label_spec() -> Seq<char> {
        "alloc::vec::Vec<i32>"@
    }

    fn type_label() -> (r: &'static str) {
        "alloc::vec::Vec<i32>"
    }

    fn to_value(self) -> (r: ChannelValue) {
        ChannelValue::I32List(self)
    }

    fn from_value(v: &ChannelValue) -> (r: Option<Vec<i32>>) {
        match v {
            ChannelValue::I32List(x) => {
                let c = x.clone();
                assert(c@ =~= x@);
                Some(c)
            },
            _ => None,
        }
    }
}

impl ChannelType for Side {
    open spec fn to_value_spec(self) -> ChannelValue {
        ChannelValue::Side(self)
    }

    open spec fn holds(v: ChannelValue) -> bool {
        v is Side
    }

    open spec fn decodes(v: ChannelValue, x: Side) -> bool {
        v == x.to_value_spec()
    }

    open spec fn type_label_spec() -> Seq<char> {
        "trade_types::Side"@
    }

    fn type_label() -> (r: &'static str) {
        "trade_types::Side"
    }

    fn to_value(self) -> (r: ChannelValue) {
        ChannelValue::Side(self)
    }

    fn from_value(v: &ChannelValue) -> (r: Option<Side>) {
        match v {
            ChannelValue::Side(x) => Some(*x),
            _ => None,
        }
    }
}

impl ChannelType for Price {
    open spec fn to_value_spec(self) -> ChannelValue {
        ChannelValue::Price(self)
    }

    open spec fn holds(v: ChannelValue) -> bool {
        v is Price
    }

    open spec fn decodes(v: ChannelValue, x: Price) -> bool {
        v == x.to_value_spec()
    }

    open spec fn type_label_spec() -> Seq<char> {
        "trade_types::Price"@
    }

    fn type_label() -> (r: &'static str) {
        "trade_types::Price"
    }

    fn to_value(self) -> (r: ChannelValue) {
        ChannelValue::Price(self)
    }

    fn from_value(v: &ChannelValue) -> (r: Option<Price>) {
        match v {
            ChannelValue::Price(x) => Some(*x),
            _ => None,
        }
    }
}

impl ChannelType for Quantity {
    open spec fn to_value_spec(self) -> ChannelValue {
        ChannelValue::Quantity(self)
    }

    open spec fn holds(v: ChannelValue) -> bool {
        v is Quantity
    }

    open spec fn decodes(v: ChannelValue, x: Quantity) -> bool {
        v == x.to_value_spec()
    }

    open spec fn type_label_spec() -> Seq<char> {
        "trade_types::Quantity"@
    }

    fn type_label() -> (r: &'static str) {
        "trade_types::Quantity"
    }

    fn to_value(self) -> (r: ChannelValue) {
        ChannelValue::Quantity(self)
    }

    fn from_value(v: &ChannelValue) -> (r: Option<Quantity>) {
        match v {
            ChannelValue::Quantity(x) => Some(*x),
            _ => None,
        }
    }
}

impl ChannelType for Contract {
    open spec fn to_value_spec(self) -> ChannelValue {
        ChannelValue::Contract(self)
    }

    open spec fn holds(v: ChannelValue) -> bool {
        v is Contract
    }

    open spec fn decodes(v: ChannelValue, x: Contract) -> bool {
        v == x.to_value_spec()
    }

    open spec fn type_label_spec() -> Seq<char> {
        "trade_types::Contract"@
    }

    fn type_label() -> (r: &'static str) {
        "trade_types::Contract"
    }

    fn to_value(self) -> (r: ChannelValue) {
        ChannelValue::Contract(self)
    }

    fn from_value(v: &ChannelValue) -> (r: Option<Contract>) {
        match v {
            ChannelValue::Contract(x) => Some(x.clone()),
            _ => None,
        }
    }
}

/// No two entries share a key.
pub closed spec fn distinct_keys(s: Seq<(String, ChannelValue)>) -> bool {
    forall|i: int, j: int|
        0 <= i < s.len() && 0 <= j < s.len() && i != j ==> (#[trigger] s[i]).0@ != (#[trigger] s[j]).0@
}

/// The position of the entry with the given key, if there is one.
closed spec fn index_in(s: Seq<(String, ChannelValue)>, key: Seq<char>) -> Option<int> {
    if exists|i: int| 0 <= i < s.len() && (#[trigger] s[i]).0@ == key {
        Some(choose|i: int| 0 <= i < s.len() && (#[trigger] s[i]).0@ == key)
    } else {
        None
    }
}

/// The entries as a map from key to value.
closed spec fn channels_of(s: Seq<(String, ChannelValue)>) -> Map<Seq<char>, ChannelValue> {
    Map::new(|k: Seq<char>| index_in(s, k) is Some, |k: Seq<char>| s[index_in(s, k)->0].1)
}

proof fn lemma_index_in(s: Seq<(String, ChannelValue)>, i: int)
    requires
        distinct_keys(s),
        0 <= i < s.len(),
    ensures
        index_in(s, s[i].0@) == Some(i),
{
    let k = s[i].0@;
    assert(exists|j: int| 0 <= j < s.len() && (#[trigger] s[j]).0@ == k);
}

proof fn lemma_replace_entry(s: Seq<(String, ChannelValue)>, i: int, e: (String, ChannelValue))
    requires
        distinct_keys(s),
        0 <= i < s.len(),
        e.0@ == s[i].0@,
    ensures
        distinct_keys(s.update(i, e)),
        channels_of(s.update(i, e)) == channels_of(s).insert(e.0@, e.1),
{
    let t = s.update(i, e);
    assert(distinct_keys(t)) by {
        assert forall|a: int, b: int|
            0 <= a < t.len() && 0 <= b < t.len() && a != b implies (#[trigger] t[a]).0@ != (
            #[trigger] t[b]).0@ by {
            assert(s[a].0@ != s[b].0@);
        }
    }
    lemma_index_in(t, i);
    assert forall|k: Seq<char>| k != e.0@ implies index_in(t, k) == index_in(s, k) by {
        if index_in(s, k) is Some {
            let j = index_in(s, k)->0;
            assert(s[j].0@ == k);
            assert(j != i);
            lemma_index_in(t, j);
        }
        if index_in(t, k) is Some {
            let j = index_in(t, k)->0;
            assert(t[j].0@ == k);
            assert(j != i);
            assert(s[j].0@ == k);
        }
    }
    assert(channels_of(t) =~= channels_of(s).insert(e.0@, e.1)) by {
        assert forall|k: Seq<char>| k != e.0@ && index_in(t, k) is Some implies t[index_in(
            t,
            k,
        )->0].1 == s[index_in(s, k)->0].1 by {
            let j = index_in(t, k)->0;
            assert(t[j].0@ == k);
            assert(j != i);
        }
    }
}

proof fn lemma_push_entry(s: Seq<(String, ChannelValue)>, e: (String, ChannelValue))
    requires
        distinct_keys(s),
        index_in(s, e.0@) is None,
    ensures
        distinct_keys(s.push(e)),
        channels_of(s.push(e)) == channels_of(s).insert(e.0@, e.1),
{
    let t = s.push(e);
    let n = s.len() as int;
    assert(distinct_keys(t)) by {
        assert forall|a: int, b: int|
            0 <= a < t.len() && 0 <= b < t.len() && a != b implies (#[trigger] t[a]).0@ != (
            #[trigger] t[b]).0@ by {
            if a < n && b < n {
                assert(s[a].0@ != s[b].0@);
            } else if a < n {
                assert(s[a].0@ != e.0@);
            } else {
                assert(s[b].0@ != e.0@);
            }
        }
    }
    lemma_index_in(t, n);
    assert forall|k: Seq<char>| k != e.0@ implies index_in(t, k) == index_in(s, k) by {
        if index_in(s, k) is Some {
            let j = index_in(s, k)->0;
            assert(s[j].0@ == k);
            assert(t[j] == s[j]);
            lemma_index_in(t, j);
        }
        if index_in(t, k) is Some {
            let j = index_in(t, k)->0;
            assert(t[j].0@ == k);
            assert(j != n);
            assert(s[j].0@ == k);
        }
    }
    assert(channels_of(t) =~= channels_of(s).insert(e.0@, e.1)) by {
        assert forall|k: Seq<char>| k != e.0@ && index_in(t, k) is Some implies t[index_in(
            t,
            k,
        )->0].1 == s[index_in(s, k)->0].1 by {
            let j = index_in(t, k)->0;
            assert(t[j].0@ == k);
            assert(j != n);
        }
    }
}

/// The registry of named channels: each channel holds one typed value.
pub struct ChannelRegistry {
    store: Vec<(String, ChannelValue)>,
}

impl ChannelRegistry {
    #[verifier::type_invariant]
    closed spec fn keys_distinct(self) -> bool {
        distinct_keys(self.store@)
    }

    /// The channels as a map from key to the value held.
    pub closed spec fn channels(self) -> Map<Seq<char>, ChannelValue> {
        channels_of(self.store@)
    }

    /// Finds the entry with the given key.
    fn find(&self, key: &str) -> (r: Option<usize>)
        ensures
            r matches Some(i) ==> index_in(self.store@, key@) == Some(i as int) && i
                < self.store@.len(),
            r is None ==> index_in(self.store@, key@) is None,
    {
        proof {
            use_type_invariant(self);
        }
        let wanted = key.to_owned();
        let n = self.store.len();
        for i in 0..n
            invariant
                n == self.store@.len(),
                wanted@ == key@,
                distinct_keys(self.store@),
                forall|j: int| 0 <= j < i ==> (#[trigger] self.store@[j]).0@ != key@,
        {
            if self.store[i].0 == wanted {
                proof {
                    lemma_index_in(self.store@, i as int);
                }
                return Some(i);
            }
        }
        None
    }
}

impl View for ChannelRegistry {
    type V = Map<Seq<char>, ChannelValue>;

    open spec fn view(&self) -> Map<Seq<char>, ChannelValue> {
        self.channels()
    }
}

/// `r` is what reading channel `key` as a `T` gives, for a registry whose channels are `m`:
/// the value when the channel holds a `T`, `KeyNotFound` naming the key when there
/// is no such channel, and `TypeMismatch` naming the key and `T` otherwise.
pub open spec fn is_read_result<T: ChannelType>(
    m: Map<Seq<char>, ChannelValue>,
    key: Seq<char>,
    r: Result<T, RegistryError>,
) -> bool {
    if !m.contains_key(key) {
        r matches Err(RegistryError::KeyNotFound(k)) && k@ == key
    } else if T::holds(m[key]) {
        r matches Ok(x) && T::decodes(m[key], x)
    } else {
        r matches Err(RegistryError::TypeMismatch { key: k, expected, found }) && k@ == key
            && expected@ == T::type_label_spec() && found@ == "unknown"@
    }
}

impl ChannelRegistry {
    /// Creates an empty registry.
    pub fn new() -> (r: ChannelRegistry)
        ensures
            r@ == Map::<Seq<char>, ChannelValue>::empty(),
    {
        let r = ChannelRegistry { store: Vec::new() };
        assert(r@ =~= Map::<Seq<char>, ChannelValue>::empty());
        r
    }

    /// Whether a channel with the given key exists.
    pub fn has(&self, key: &str) -> (r: bool)
        ensures
            r == self@.contains_key(key@),
    {
        self.find(key).is_some()
    }

    /// Stores `value` under `key`: creates the channel, or replaces the entry for
    /// an existing key whatever it held.
    fn store_value(&mut self, key: &str, v: ChannelValue)
        ensures
            final(self)@ == old(self)@.insert(key@, v),
    {
        proof {
            use_type_invariant(&*self);
        }
        let found = self.find(key);
        let mut store: Vec<(String, ChannelValue)> = Vec::new();
        std::mem::swap(&mut store, &mut self.store);
        let ghost s = store@;
        let entry = (key.to_owned(), v);
        match found {
            Some(i) => {
                proof {
                    lemma_replace_entry(s, i as int, entry);
                }
                store.set(i, entry);
            },
            None => {
                proof {
                    lemma_push_entry(s, entry);
                }
                store.push(entry);
            },
        }
        self.store = store;
    }

    /// Puts a value into the channel `key`, creating the channel or replacing
    /// whatever it held.
    pub fn put<T: ChannelType>(&mut self, key: &str, value: T)
        ensures
            final(self)@ == old(self)@.insert(key@, value.to_value_spec()),
            final(self)@ == after_call(old(self)@, RegistryCall::Put(key@, value.to_value_spec())),
            T::holds(value.to_value_spec()),
            T::decodes(value.to_value_spec(), value),
    {
        let v = value.to_value();
        self.store_value(key, v);
    }

    /// Reads the value of channel `key` as a `T`.
    ///
    /// Fails with `KeyNotFound` when there is no such channel, and with
    /// `TypeMismatch` when the channel holds a value of another type.
    pub fn get<T: ChannelType>(&self, key: &str) -> (r: Result<T, RegistryError>)
        ensures
            is_read_result(self@, key@, r),
    {
        match self.find(key) {
            None => Err(RegistryError::KeyNotFound(key.to_owned())),
            Some(i) => match T::from_value(&self.store[i].1) {
                Some(x) => Ok(x),
                None => Err(
                    RegistryError::TypeMismatch {
                        key: key.to_owned(),
                        expected: T::type_label(),
                        found: "unknown",
                    },
                ),
            },
        }
    }
}

impl ChannelRegistry {
    /// Makes sure channel `key` exists, creating it with `T`'s default value if
    /// it does not, and returns the value it holds.
    ///
    /// Fails with `TypeMismatch` (found "Unexpected Type") when the channel exists
    /// but holds a value of another type; the registry is then unchanged.
    pub fn ensure<T: ChannelType + Default>(&mut self, key: &str) -> (r: Result<T, RegistryError>)
        ensures
            old(self)@.contains_key(key@) ==> final(self)@ == old(self)@,
            old(self)@.contains_key(key@) && T::holds(old(self)@[key@]) ==> (r matches Ok(x)
                && T::decodes(old(self)@[key@], x)),
            old(self)@.contains_key(key@) && !T::holds(old(self)@[key@]) ==> (r matches Err(
                RegistryError::TypeMismatch { key: k, expected, found },
            ) && k@ == key@ && expected@ == T::type_label_spec() && found@ == "Unexpected Type"@),
            !old(self)@.contains_key(key@) ==> (r matches Ok(x) && final(self)@.contains_key(key@)
                && final(self)@ == old(self)@.insert(key@, final(self)@[key@]) && T::holds(
                final(self)@[key@],
            ) && T::decodes(final(self)@[key@], x)),
            !old(self)@.contains_key(key@) ==> exists|d: T|
                #![trigger d.to_value_spec()]
                call_ensures(T::default, (), d) && final(self)@ == old(self)@.insert(
                    key@,
                    d.to_value_spec(),
                ),
            exists|d: ChannelValue|
                final(self)@ == #[trigger] after_call(old(self)@, RegistryCall::Ensure(key@, d)),
    {
        match self.find(key) {
            Some(i) => {
                proof {
                    let kept = RegistryCall::Ensure(key@, ChannelValue::Bool(false));
                    assert(after_call(old(self)@, kept) == self@);
                }
                match T::from_value(&self.store[i].1) {
                    Some(x) => Ok(x),
                    None => Err(
                        RegistryError::TypeMismatch {
                            key: key.to_owned(),
                            expected: T::type_label(),
                            found: "Unexpected Type",
                        },
                    ),
                }
            },
            None => {
                let d = T::default();
                let v = d.to_value();
                let back = T::from_value(&v);
                self.store_value(key, v);
                proof {
                    assert(after_call(old(self)@, RegistryCall::Ensure(key@, v)) == self@);
                }
                match back {
                    Some(x) => Ok(x),
                    None => Err(RegistryError::KeyNotFound(key.to_owned())),
                }
            },
        }
    }

    /// Writes `value` into the existing channel `key`, which must hold a `T`.
    ///
    /// Fails with `KeyNotFound` when there is no such channel and with
    /// `TypeMismatch` when it holds another type; the registry is then unchanged.
    pub fn write<T: ChannelType>(&mut self, key: &str, value: T) -> (r: Result<(), RegistryError>)
        ensures
            !old(self)@.contains_key(key@) ==> final(self)@ == old(self)@ && (r matches Err(
                RegistryError::KeyNotFound(k),
            ) && k@ == key@),
            old(self)@.contains_key(key@) && !T::holds(old(self)@[key@]) ==> final(self)@
                == old(self)@ && (r matches Err(RegistryError::TypeMismatch { key: k, expected, found })
                && k@ == key@ && expected@ == T::type_label_spec() && found@ == "unknown"@),
            old(self)@.contains_key(key@) && T::holds(old(self)@[key@]) ==> r is Ok && final(self)@
                == old(self)@.insert(key@, value.to_value_spec()),
            final(self)@ == after_call(
                old(self)@,
                RegistryCall::Write(
                    key@,
                    value.to_value_spec(),
                old(self)@.contains_key(key@) && T::holds(old(self)@[key@]),
                ),
            ),
    {
        match self.find(key) {
            None => Err(RegistryError::KeyNotFound(key.to_owned())),
            Some(i) => {
                let fits = T::from_value(&self.store[i].1).is_some();
                if fits {
                    self.put(key, value);
                    Ok(())
                } else {
                    Err(
                        RegistryError::TypeMismatch {
                            key: key.to_owned(),
                            expected: T::type_label(),
                            found: "unknown",
                        },
                    )
                }
            },
        }
    }
}

impl Default for ChannelRegistry {
    /// An empty registry.
    fn default() -> (r: ChannelRegistry)
        ensures
            r@ == Map::<Seq<char>, ChannelValue>::empty(),
    {
        ChannelRegistry::new()
    }
}

/// What a channel reads after a `put` is what was put: reading channel `key`
/// as a `T` from `m` with `x` put under `key` succeeds and gives back `x`
/// (for list values, a list with the same elements).
pub proof fn lemma_read_after_put<T: ChannelType>(
    m: Map<Seq<char>, ChannelValue>,
    key: Seq<char>,
    x: T,
    r: Result<T, RegistryError>,
)
    requires
        T::holds(x.to_value_spec()),
        T::decodes(x.to_value_spec(), x),
        is_read_result(m.insert(key, x.to_value_spec()), key, r),
    ensures
        r matches Ok(y) && T::decodes(x.to_value_spec(), y),
{
}

/// A `put` on one channel leaves every other channel as it was.
pub proof fn lemma_put_keeps_other_channels<T: ChannelType>(
    m: Map<Seq<char>, ChannelValue>,
    key: Seq<char>,
    other: Seq<char>,
    x: T,
)
    requires
        other != key,
    ensures
        m.insert(key, x.to_value_spec()).contains_key(other) == m.contains_key(other),
        m.contains_key(other) ==> m.insert(key, x.to_value_spec())[other] == m[other],
{
}

/// The channels after putting the values `puts` (key and value) one after
/// the other into channels `m`.
pub open spec fn put_run(
    m: Map<Seq<char>, ChannelValue>,
    puts: Seq<(Seq<char>, ChannelValue)>,
) -> Map<Seq<char>, ChannelValue>
    decreases puts.len(),
{
    if puts.len() == 0 {
        m
    } else {
        put_run(m, puts.drop_last()).insert(puts.last().0, puts.last().1)
    }
}

/// The channels a run of puts leaves: a channel exists afterwards exactly
/// when it existed before or was put, and a channel that was put holds the
/// value of its last put; puts never remove a channel.
pub proof fn lemma_put_run(
    m: Map<Seq<char>, ChannelValue>,
    puts: Seq<(Seq<char>, ChannelValue)>,
    key: Seq<char>,
)
    ensures
        put_run(m, puts).contains_key(key) <==> (m.contains_key(key) || exists|k: int|
            0 <= k < puts.len() && (#[trigger] puts[k]).0 == key),
        (forall|k: int| 0 <= k < puts.len() ==> (#[trigger] puts[k]).0 != key) ==> put_run(
            m,
            puts,
        ).contains_key(key) == m.contains_key(key) && (m.contains_key(key) ==> put_run(m, puts)[key]
            == m[key]),
        forall|k: int|
            0 <= k < puts.len() && (#[trigger] puts[k]).0 == key && (forall|k2: int|
                k < k2 < puts.len() ==> puts[k2].0 != key) ==> put_run(m, puts)[key] == puts[k].1,
    decreases puts.len(),
{
    if puts.len() > 0 {
        let init = puts.drop_last();
        lemma_put_run(m, init, key);
        if puts.last().0 != key {
            assert forall|k: int| 0 <= k < init.len() && (#[trigger] init[k]).0 == key implies 0 <= k
                < puts.len() && puts[k].0 == key by {
                assert(puts[k] == init[k]);
            }
            assert forall|k: int| 0 <= k < puts.len() && (#[trigger] puts[k]).0 == key implies 0
                <= k < init.len() && init[k].0 == key by {
                assert(puts[k] == init[k]);
            }
            assert forall|k: int|
                0 <= k < puts.len() && (#[trigger] puts[k]).0 == key && (forall|k2: int|
                    k < k2 < puts.len() ==> puts[k2].0 != key) implies put_run(m, puts)[key]
                == puts[k].1 by {
                assert(puts[k] == init[k]);
                assert forall|k2: int| k < k2 < init.len() implies init[k2].0 != key by {
                    assert(init[k2] == puts[k2]);
                }
            }
        } else {
            assert(puts[puts.len() - 1].0 == key);
        }
    }
}

/// A call on a registry, as the history of its channels sees it.
pub enum RegistryCall {
    /// `put` of a value into a channel.
    Put(Seq<char>, ChannelValue),
    /// `ensure` of a channel, with the value it creates where the channel is
    /// missing.
    Ensure(Seq<char>, ChannelValue),
    /// `write` of a value into a channel; the flag says whether the channel
    /// holds a value of the written type. A `write` never creates a channel.
    Write(Seq<char>, ChannelValue, bool),
    /// `has` or `get` of a channel.
    Look(Seq<char>),
}

/// The channels after the call `c` on channels `m`.
pub open spec fn after_call(m: Map<Seq<char>, ChannelValue>, c: RegistryCall) -> Map<
    Seq<char>,
    ChannelValue,
> {
    match c {
        RegistryCall::Put(k, v) => m.insert(k, v),
        RegistryCall::Ensure(k, d) => if m.contains_key(k) {
            m
        } else {
            m.insert(k, d)
        },
        RegistryCall::Write(k, v, fits) => if fits && m.contains_key(k) {
            m.insert(k, v)
        } else {
            m
        },
        RegistryCall::Look(k) => m,
    }
}

/// The channels after the calls `cs`, one after the other, on channels `m`.
pub open spec fn after_calls(m: Map<Seq<char>, ChannelValue>, cs: Seq<RegistryCall>) -> Map<
    Seq<char>,
    ChannelValue,
>
    decreases cs.len(),
{
    if cs.len() == 0 {
        m
    } else {
        after_call(after_calls(m, cs.drop_last()), cs.last())
    }
}

/// Whether the call `c` is a `put` or an `ensure` of channel `key`.
pub open spec fn names_for_creation(c: RegistryCall, key: Seq<char>) -> bool {
    match c {
        RegistryCall::Put(k, _) => k == key,
        RegistryCall::Ensure(k, _) => k == key,
        _ => false,
    }
}

/// No call removes a channel: after a run of calls, a channel exists exactly
/// when it existed before or a `put` or an `ensure` of it was among the calls.
/// From a new registry, a channel exists exactly when it was put or ensured.
pub proof fn lemma_registry_history(
    m: Map<Seq<char>, ChannelValue>,
    cs: Seq<RegistryCall>,
    key: Seq<char>,
)
    ensures
        after_calls(m, cs).contains_key(key) <==> (m.contains_key(key) || exists|k: int|
            0 <= k < cs.len() && names_for_creation(#[trigger] cs[k], key)),
    decreases cs.len(),
{
    if cs.len() > 0 {
        let init = cs.drop_last();
        lemma_registry_history(m, init, key);
        let last = cs.len() - 1;
        assert(cs[last] == cs.last());
        if exists|k: int| 0 <= k < init.len() && names_for_creation(#[trigger] init[k], key) {
            let k = choose|k: int| 0 <= k < init.len() && names_for_creation(#[trigger] init[k], key);
            assert(cs[k] == init[k]);
        }
        if exists|k: int| 0 <= k < cs.len() && names_for_creation(#[trigger] cs[k], key) {
            let k = choose|k: int| 0 <= k < cs.len() && names_for_creation(#[trigger] cs[k], key);
            if k < last {
                assert(init[k] == cs[k]);
            }
        }
    }
}

/// Reading a channel fails with `KeyNotFound` exactly when the channel does
/// not exist (see `ChannelRegistry::get` and `ChannelRegistry::has`).
pub proof fn lemma_not_found_iff_missing<T: ChannelType>(
    m: Map<Seq<char>, ChannelValue>,
    key: Seq<char>,
    r: Result<T, RegistryError>,
)
    requires
        is_read_result(m, key, r),
    ensures
        (r matches Err(RegistryError::KeyNotFound(_))) <==> !m.contains_key(key),
{
}

/// Reading a channel as the type of the value it holds gives that value:
/// where channel `key` holds the `bool`, `i32`, `i64`, `u32` or `u64` value
/// `x`, reading it as that type gives `Ok(x)`, and reading it as another of
/// these types fails with `TypeMismatch`.
pub proof fn lemma_read_gives_held_value(
    m: Map<Seq<char>, ChannelValue>,
    key: Seq<char>,
    rb: Result<bool, RegistryError>,
    ri: Result<i32, RegistryError>,
    rl: Result<i64, RegistryError>,
    ru: Result<u32, RegistryError>,
    rv: Result<u64, RegistryError>,
)
    requires
        m.contains_key(key),
        is_read_result(m, key, rb),
        is_read_result(m, key, ri),
        is_read_result(m, key, rl),
        is_read_result(m, key, ru),
        is_read_result(m, key, rv),
    ensures
        forall|x: bool| m[key] == ChannelValue::Bool(x) ==> rb == Ok::<bool, RegistryError>(x),
        forall|x: i32| m[key] == ChannelValue::I32(x) ==> ri == Ok::<i32, RegistryError>(x),
        forall|x: i64| m[key] == ChannelValue::I64(x) ==> rl == Ok::<i64, RegistryError>(x),
        forall|x: u32| m[key] == ChannelValue::U32(x) ==> ru == Ok::<u32, RegistryError>(x),
        forall|x: u64| m[key] == ChannelValue::U64(x) ==> rv == Ok::<u64, RegistryError>(x),
        m[key] is Bool ==> (ri matches Err(RegistryError::TypeMismatch { .. })) && (rl matches Err(
            RegistryError::TypeMismatch { .. },
        )),
        m[key] is I32 ==> (rb matches Err(RegistryError::TypeMismatch { .. })) && (rl matches Err(
            RegistryError::TypeMismatch { .. },
        )),
{
}

} // verus!
