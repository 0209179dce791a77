//! JSON values: the executable type, its mathematical model, and reading and writing JSON text.
use vstd::prelude::*;
use vstd::string::*;

use crate::text::same_text;

verus! {

/// What a JSON number is: an integer, or any other number, which is carried but never read.
pub enum JsonNumber {
    Integer(int),
    Real(serde_json::Number),
}

/// The mathematical model of a JSON value. The members of a record have no order.
pub enum Json {
    Null,
    Bool(bool),
    Number(JsonNumber),
    Text(Seq<char>),
    List(Seq<Json>),
    Record(Map<Seq<char>, Json>),
}

/// A JSON value.
#[derive(Debug)]
pub enum JsonValue {
    Null,
    Bool(bool),
    Number(serde_json::Number),
    String(String),
    Array(Vec<JsonValue>),
    Object(Object),
}

/// The members of a JSON object. No two of them have the same key.
#[derive(Debug)]
pub struct Object {
    entries: Vec<(String, JsonValue)>,
}

// ---------------------------------------------------------------------------
// The model of a value
// ---------------------------------------------------------------------------

/// The model of a number.
pub open spec fn number_model(number: serde_json::Number) -> JsonNumber {
    match integer_in(number) {
        Some(n) => JsonNumber::Integer(n),
        None => JsonNumber::Real(number),
    }
}

/// The models of the values in a list.
pub open spec fn list_model(items: Seq<JsonValue>) -> Seq<Json>
    decreases items,
{
    Seq::new(
        items.len(),
        |i: int|
            if 0 <= i < items.len() {
                items[i].model()
            } else {
                Json::Null
            },
    )
}

/// The record that a sequence of entries makes up.
pub open spec fn entries_model(entries: Seq<(String, JsonValue)>) -> Map<Seq<char>, Json>
    decreases entries,
{
    if entries.len() == 0 {
        Map::empty()
    } else {
        entries_model(entries.drop_last()).insert(entries.last().0@, entries.last().1.model())
    }
}

/// No key occurs twice.
pub open spec fn distinct_keys(entries: Seq<(String, JsonValue)>) -> bool {
    forall|i: int, j: int|
        0 <= i < j < entries.len() ==> #[trigger] entries[i].0@ != #[trigger] entries[j].0@
}

impl JsonValue {
    /// The model of this value.
    pub open spec fn model(self) -> Json
        decreases self,
    {
        match self {
            JsonValue::Null => Json::Null,
            JsonValue::Bool(b) => Json::Bool(b),
            JsonValue::Number(n) => Json::Number(number_model(n)),
            JsonValue::String(s) => Json::Text(s@),
            JsonValue::Array(items) => Json::List(list_model(items@)),
            JsonValue::Object(object) => Json::Record(object.model()),
        }
    }
}

impl Object {
    /// The entries in the order in which their keys were first added.
    pub closed spec fn listed(self) -> Seq<(String, JsonValue)> {
        self.entries@
    }

    /// The model of this object.
    pub closed spec fn model(self) -> Map<Seq<char>, Json>
        decreases self,
    {
        entries_model(self.entries@)
    }

    /// A member is smaller than its object.
    pub proof fn lemma_entry_smaller(self, i: int)
        requires
            0 <= i < self.listed().len(),
        ensures
            decreases_to!(self => self.listed()[i].1),
    {
        assert(decreases_to!(self.entries => self.entries@[i]));
        assert(decreases_to!(self => self.entries@[i].1));
    }

    #[verifier::type_invariant]
    spec fn wf(self) -> bool {
        distinct_keys(self.entries@)
    }
}

impl View for JsonValue {
    type V = Json;

    open spec fn view(&self) -> Json {
        self.model()
    }
}

impl View for Object {
    type V = Map<Seq<char>, Json>;

    open spec fn view(&self) -> Map<Seq<char>, Json> {
        self.model()
    }
}

proof fn lemma_lookup(entries: Seq<(String, JsonValue)>, key: Seq<char>)
    requires
        distinct_keys(entries),
    ensures
        entries_model(entries).contains_key(key) <==> exists|i: int|
            0 <= i < entries.len() && #[trigger] entries[i].0@ == key,
        forall|i: int|
            0 <= i < entries.len() && #[trigger] entries[i].0@ == key ==> entries_model(entries)[key]
                == entries[i].1@,
    decreases entries.len(),
{
    if entries.len() > 0 {
        let shorter = entries.drop_last();
        assert forall|i: int, j: int| 0 <= i < j < shorter.len() implies #[trigger] shorter[i].0@
            != #[trigger] shorter[j].0@ by {
            assert(entries[i].0@ != entries[j].0@);
        }
        lemma_lookup(shorter, key);
        let last = entries.len() - 1;
        assert forall|i: int| 0 <= i < entries.len() && #[trigger] entries[i].0@ == key implies entries_model(
            entries,
        )[key] == entries[i].1@ by {
            if i < last {
                assert(shorter[i].0@ == key);
                assert(entries[i].0@ != entries[last].0@);
            }
        }
        if entries_model(entries).contains_key(key) {
            if entries[last].0@ != key {
                let i = choose|i: int| 0 <= i < shorter.len() && #[trigger] shorter[i].0@ == key;
                assert(entries[i].0@ == key);
            }
        }
        if exists|i: int| 0 <= i < entries.len() && #[trigger] entries[i].0@ == key {
            let i = choose|i: int| 0 <= i < entries.len() && #[trigger] entries[i].0@ == key;
            if i < last {
                assert(shorter[i].0@ == key);
            }
        }
    }
}

proof fn lemma_replace(entries: Seq<(String, JsonValue)>, at: int, entry: (String, JsonValue))
    requires
        distinct_keys(entries),
        0 <= at < entries.len(),
        entries[at].0@ == entry.0@,
    ensures
        entries_model(entries.update(at, entry)) == entries_model(entries).insert(
            entry.0@,
            entry.1@,
        ),
    decreases entries.len(),
{
    let shorter = entries.drop_last();
    let last = entries.last();
    if at == entries.len() - 1 {
        assert(entries.update(at, entry).drop_last() =~= shorter);
        assert(entries_model(shorter).insert(last.0@, last.1@).insert(entry.0@, entry.1@)
            =~= entries_model(shorter).insert(entry.0@, entry.1@));
    } else {
        assert forall|i: int, j: int| 0 <= i < j < shorter.len() implies #[trigger] shorter[i].0@
            != #[trigger] shorter[j].0@ by {
            assert(entries[i].0@ != entries[j].0@);
        }
        assert(shorter[at].0@ == entry.0@);
        lemma_replace(shorter, at, entry);
        assert(entries.update(at, entry).drop_last() =~= shorter.update(at, entry));
        assert(entries[at].0@ != entries[entries.len() - 1].0@);
        assert(entries_model(shorter).insert(entry.0@, entry.1@).insert(last.0@, last.1@)
            =~= entries_model(shorter).insert(last.0@, last.1@).insert(entry.0@, entry.1@));
    }
}

impl Object {
    /// An object without members.
    pub fn new() -> (r: Object)
        ensures
            r@ == Map::<Seq<char>, Json>::empty(),
            r.listed() == Seq::<(String, JsonValue)>::empty(),
    {
        Object { entries: Vec::new() }
    }

    fn position(&self, key: &str) -> (r: Option<usize>)
        ensures
            match r {
                Some(i) => i < self.entries@.len() && self.entries@[i as int].0@ == key@,
                None => forall|i: int|
                    0 <= i < self.entries@.len() ==> #[trigger] self.entries@[i].0@ != key@,
            },
    {
        let mut i: usize = 0;
        while i < self.entries.len()
            invariant
                i <= self.entries@.len(),
                forall|j: int| 0 <= j < i ==> #[trigger] self.entries@[j].0@ != key@,
            decreases self.entries@.len() - i,
        {
            if same_text(self.entries[i].0.as_str(), key) {
                return Some(i);
            }
            i += 1;
        }
        None
    }

    /// The value of a member.
    pub fn get(&self, key: &str) -> (r: Option<&JsonValue>)
        ensures
            seen(r) == (if self@.contains_key(key@) {
                Some(self@[key@])
            } else {
                None
            }),
    {
        proof {
            use_type_invariant(self);
            lemma_lookup(self.entries@, key@);
        }
        match self.position(key) {
            Some(i) => {
                assert(self.entries@[i as int].0@ == key@);
                Some(&self.entries[i].1)
            },
            None => None,
        }
    }

    /// The object with one member set.
    pub fn with(self, key: &str, value: JsonValue) -> (r: Object)
        ensures
            r@ == self@.insert(key@, value@),
    {
        proof {
            use_type_invariant(&self);
        }
        let found = self.position(key);
        let Object { entries } = self;
        let mut entries = entries;
        let ghost before = entries@;
        let entry = (key.to_owned(), value);
        match found {
            Some(i) => {
                proof {
                    lemma_replace(before, i as int, entry);
                    let after = before.update(i as int, entry);
                    assert forall|j: int, k: int| 0 <= j < k < after.len() implies #[trigger] after[j].0@
                        != #[trigger] after[k].0@ by {
                        assert(before[j].0@ != before[k].0@);
                    }
                }
                entries.set(i, entry);
            },
            None => {
                proof {
                    let after = before.push(entry);
                    assert(after.drop_last() =~= before);
                    assert forall|j: int, k: int| 0 <= j < k < after.len() implies #[trigger] after[j].0@
                        != #[trigger] after[k].0@ by {
                        assert(before[j].0@ != key@);
                        if k < before.len() {
                            assert(before[j].0@ != before[k].0@);
                        }
                    }
                }
                entries.push(entry);
            },
        }
        Object { entries }
    }

    /// The object with one member set, where there is a value for it.
    pub fn with_some(self, key: &str, value: Option<JsonValue>) -> (r: Object)
        ensures
            r@ == put_some(self@, key@, seen_owned(value)),
    {
        match value {
            Some(value) => self.with(key, value),
            None => self,
        }
    }

    /// The members, in the order in which their keys were first added.
    pub fn entries(&self) -> (r: &Vec<(String, JsonValue)>)
        ensures
            r@ == self.listed(),
            distinct_keys(r@),
            self@ == entries_model(r@),
    {
        proof {
            use_type_invariant(self);
        }
        &self.entries
    }
}

// ---------------------------------------------------------------------------
// Reading a value
// ---------------------------------------------------------------------------

/// The model of a value that may be missing.
pub open spec fn seen(value: Option<&JsonValue>) -> Option<Json> {
    match value {
        Some(v) => Some(v@),
        None => None,
    }
}

/// The model of an owned value that may be missing.
pub open spec fn seen_owned(value: Option<JsonValue>) -> Option<Json> {
    match value {
        Some(v) => Some(v@),
        None => None,
    }
}

/// The characters of a text that may be missing.
pub open spec fn seen_text(text: Option<&str>) -> Option<Seq<char>> {
    match text {
        Some(t) => Some(t@),
        None => None,
    }
}

/// The characters of an owned text that may be missing.
pub open spec fn seen_string(text: Option<String>) -> Option<Seq<char>> {
    match text {
        Some(t) => Some(t@),
        None => None,
    }
}

/// The models behind a conversion's result.
pub open spec fn outcome(result: Result<JsonValue, String>) -> Result<Json, Seq<char>> {
    match result {
        Ok(value) => Ok(value@),
        Err(message) => Err(message@),
    }
}

/// The models behind a conversion's result that is a text.
pub open spec fn text_outcome(result: Result<String, String>) -> Result<Seq<char>, Seq<char>> {
    match result {
        Ok(text) => Ok(text@),
        Err(message) => Err(message@),
    }
}

/// The models behind a conversion's result that is a list.
pub open spec fn list_outcome(result: Result<Vec<JsonValue>, String>) -> Result<Seq<Json>, Seq<char>> {
    match result {
        Ok(items) => Ok(list_model(items@)),
        Err(message) => Err(message@),
    }
}

/// A record with one member set, where there is a value for it.
pub open spec fn put_some(
    record: Map<Seq<char>, Json>,
    key: Seq<char>,
    value: Option<Json>,
) -> Map<Seq<char>, Json> {
    match value {
        Some(v) => record.insert(key, v),
        None => record,
    }
}

/// The value of a member; only a record has members.
pub open spec fn field(value: Json, key: Seq<char>) -> Option<Json> {
    match value {
        Json::Record(record) => if record.contains_key(key) {
            Some(record[key])
        } else {
            None
        },
        _ => None,
    }
}

/// The text in a value that may be missing.
pub open spec fn text_in(value: Option<Json>) -> Option<Seq<char>> {
    match value {
        Some(Json::Text(text)) => Some(text),
        _ => None,
    }
}

/// A text that has at least one character.
pub open spec fn filled(text: Option<Seq<char>>) -> Option<Seq<char>> {
    match text {
        Some(t) => if t.len() > 0 {
            Some(t)
        } else {
            None
        },
        None => None,
    }
}

/// The list in a value that may be missing.
pub open spec fn list_in(value: Option<Json>) -> Option<Seq<Json>> {
    match value {
        Some(Json::List(items)) => Some(items),
        _ => None,
    }
}

/// The integer in a value that may be missing.
pub open spec fn integer_of(value: Option<Json>) -> Option<int> {
    match value {
        Some(Json::Number(JsonNumber::Integer(n))) => Some(n),
        _ => None,
    }
}

/// The integer between 0 and `u64::MAX` in a value that may be missing.
pub open spec fn count_in(value: Option<Json>) -> Option<u64> {
    match integer_of(value) {
        Some(n) => if 0 <= n <= u64::MAX {
            Some(n as u64)
        } else {
            None
        },
        None => None,
    }
}

/// The integer between `i64::MIN` and `i64::MAX` in a value that may be missing.
pub open spec fn signed_in(value: Option<Json>) -> Option<i64> {
    match integer_of(value) {
        Some(n) => if i64::MIN <= n <= i64::MAX {
            Some(n as i64)
        } else {
            None
        },
        None => None,
    }
}

/// The truth value in a value that may be missing.
pub open spec fn flag_in(value: Option<Json>) -> Option<bool> {
    match value {
        Some(Json::Bool(b)) => Some(b),
        _ => None,
    }
}

/// What an optional value holds, or a default.
pub open spec fn either<A>(value: Option<A>, default: A) -> A {
    match value {
        Some(v) => v,
        None => default,
    }
}

/// The text of a member.
pub open spec fn text_field(value: Json, key: Seq<char>) -> Option<Seq<char>> {
    text_in(field(value, key))
}

/// The text of a member, or the empty text.
pub open spec fn text_or_empty(value: Json, key: Seq<char>) -> Seq<char> {
    either(text_field(value, key), Seq::empty())
}

/// The list of a member.
pub open spec fn list_field(value: Json, key: Seq<char>) -> Option<Seq<Json>> {
    list_in(field(value, key))
}

impl JsonValue {
    /// The value of a member, where this is an object that has it.
    pub fn get(&self, key: &str) -> (r: Option<&JsonValue>)
        ensures
            seen(r) == field(self@, key@),
    {
        match self {
            JsonValue::Object(object) => object.get(key),
            _ => None,
        }
    }

    /// The text, where this is a string.
    pub fn as_str(&self) -> (r: Option<&str>)
        ensures
            seen_text(r) == text_in(Some(self@)),
    {
        match self {
            JsonValue::String(text) => Some(text.as_str()),
            _ => None,
        }
    }

    /// The elements, where this is an array.
    pub fn as_array(&self) -> (r: Option<&Vec<JsonValue>>)
        ensures
            match r {
                Some(items) => self@ == Json::List(list_model(items@)),
                None => list_in(Some(self@)) is None,
            },
    {
        match self {
            JsonValue::Array(items) => Some(items),
            _ => None,
        }
    }

    /// The truth value, where this is one.
    pub fn as_bool(&self) -> (r: Option<bool>)
        ensures
            r == flag_in(Some(self@)),
    {
        match self {
            JsonValue::Bool(b) => Some(*b),
            _ => None,
        }
    }

    /// The number, where this is an integer that a `u64` holds.
    pub fn as_u64(&self) -> (r: Option<u64>)
        ensures
            r == count_in(Some(self@)),
    {
        match self {
            JsonValue::Number(n) => number_as_u64(n),
            _ => None,
        }
    }

    /// The number, where this is an integer that an `i64` holds.
    pub fn as_i64(&self) -> (r: Option<i64>)
        ensures
            r == signed_in(Some(self@)),
    {
        match self {
            JsonValue::Number(n) => number_as_i64(n),
            _ => None,
        }
    }

    /// Whether this is an object.
    pub fn is_object(&self) -> (r: bool)
        ensures
            r == (self@ is Record),
    {
        match self {
            JsonValue::Object(_) => true,
            _ => false,
        }
    }

    /// The text of a member.
    pub fn get_text(&self, key: &str) -> (r: Option<&str>)
        ensures
            seen_text(r) == text_field(self@, key@),
    {
        match self.get(key) {
            Some(value) => value.as_str(),
            None => None,
        }
    }

    /// The text of a member, where it has at least one character.
    pub fn get_filled_text(&self, key: &str) -> (r: Option<&str>)
        ensures
            seen_text(r) == filled(text_field(self@, key@)),
    {
        match self.get_text(key) {
            Some(text) => if text.is_empty() {
                None
            } else {
                Some(text)
            },
            None => None,
        }
    }

    /// The text of a member, or the empty text.
    pub fn get_text_or_empty(&self, key: &str) -> (r: String)
        ensures
            r@ == text_or_empty(self@, key@),
    {
        match self.get_text(key) {
            Some(text) => text.to_owned(),
            None => String::new(),
        }
    }

    /// The elements of a member.
    pub fn get_array(&self, key: &str) -> (r: Option<&Vec<JsonValue>>)
        ensures
            match r {
                Some(items) => field(self@, key@) == Some(Json::List(list_model(items@))),
                None => list_field(self@, key@) is None,
            },
    {
        match self.get(key) {
            Some(value) => value.as_array(),
            None => None,
        }
    }

    /// The integer of a member, where a `u64` holds it.
    pub fn get_u64(&self, key: &str) -> (r: Option<u64>)
        ensures
            r == count_in(field(self@, key@)),
    {
        match self.get(key) {
            Some(value) => value.as_u64(),
            None => None,
        }
    }

    /// The truth value of a member.
    pub fn get_bool(&self, key: &str) -> (r: Option<bool>)
        ensures
            r == flag_in(field(self@, key@)),
    {
        match self.get(key) {
            Some(value) => value.as_bool(),
            None => None,
        }
    }

    /// A copy of this value.
    pub fn duplicate(&self) -> (r: JsonValue)
        ensures
            r@ == self@,
        decreases self,
    {
        match self {
            JsonValue::Null => JsonValue::Null,
            JsonValue::Bool(b) => JsonValue::Bool(*b),
            JsonValue::Number(n) => JsonValue::Number(copy_number(n)),
            JsonValue::String(s) => JsonValue::String(s.clone()),
            JsonValue::Array(items) => JsonValue::Array(duplicate_all(items)),
            JsonValue::Object(object) => JsonValue::Object(object.duplicate()),
        }
    }

    /// A string value.
    pub fn text(text: &str) -> (r: JsonValue)
        ensures
            r@ == Json::Text(text@),
    {
        JsonValue::String(text.to_owned())
    }

    /// An integer value.
    pub fn count(n: u64) -> (r: JsonValue)
        ensures
            r@ == Json::Number(JsonNumber::Integer(n as int)),
    {
        JsonValue::Number(number_from_u64(n))
    }

    /// An integer value that may be negative.
    pub fn signed(n: i64) -> (r: JsonValue)
        ensures
            r@ == Json::Number(JsonNumber::Integer(n as int)),
    {
        JsonValue::Number(number_from_i64(n))
    }
}

/// Whether an optional text is this text.
pub fn text_is(text: Option<&str>, expected: &str) -> (r: bool)
    ensures
        r == (seen_text(text) == Some(expected@)),
{
    match text {
        Some(t) => same_text(t, expected),
        None => false,
    }
}

/// One value more at the end of a list.
pub proof fn lemma_list_push(items: Seq<JsonValue>, item: JsonValue)
    ensures
        list_model(items.push(item)) == list_model(items).push(item@),
{
    assert(list_model(items.push(item)) =~= list_model(items).push(item@));
}

/// Two lists, one after the other.
pub proof fn lemma_list_append(first: Seq<JsonValue>, second: Seq<JsonValue>)
    ensures
        list_model(first + second) == list_model(first) + list_model(second),
{
    assert(list_model(first + second) =~= list_model(first) + list_model(second));
}

/// Copies of the values in a list.
pub fn duplicate_all(items: &Vec<JsonValue>) -> (r: Vec<JsonValue>)
    ensures
        list_model(r@) == list_model(items@),
    decreases items,
{
    let mut copies: Vec<JsonValue> = Vec::new();
    let mut i: usize = 0;
    while i < items.len()
        invariant
            i <= items@.len(),
            copies@.len() == i,
            forall|j: int| 0 <= j < i ==> #[trigger] copies@[j].model() == items@[j].model(),
        decreases items@.len() - i,
    {
        assert(decreases_to!(*items => items@[i as int]));
        copies.push(items[i].duplicate());
        i += 1;
    }
    assert forall|j: int| 0 <= j < i implies #[trigger] list_model(copies@)[j] == list_model(items@)[j] by {
        assert(copies@[j].model() == items@[j].model());
    }
    assert(list_model(copies@) =~= list_model(items@));
    copies
}

impl Object {
    /// A copy of this object.
    pub fn duplicate(&self) -> (r: Object)
        ensures
            r@ == self@,
        decreases self,
    {
        proof {
            use_type_invariant(self);
        }
        let mut copies: Vec<(String, JsonValue)> = Vec::new();
        let mut i: usize = 0;
        while i < self.entries.len()
            invariant
                i <= self.entries@.len(),
                copies@.len() == i,
                forall|j: int| 0 <= j < i ==> (#[trigger] copies@[j]).0@ == self.entries@[j].0@,
                entries_model(copies@) == entries_model(self.entries@.take(i as int)),
            decreases self.entries@.len() - i,
        {
            assert(decreases_to!(self.entries => self.entries@[i as int]));
            assert(decreases_to!(self => self.entries@[i as int].1));
            let copy = (self.entries[i].0.clone(), self.entries[i].1.duplicate());
            proof {
                assert(copies@.push(copy).drop_last() =~= copies@);
                assert(self.entries@.take(i + 1).drop_last() =~= self.entries@.take(i as int));
            }
            copies.push(copy);
            i += 1;
        }
        proof {
            assert(self.entries@.take(i as int) =~= self.entries@);
            assert forall|j: int, k: int| 0 <= j < k < copies@.len() implies #[trigger] copies@[j].0@
                != #[trigger] copies@[k].0@ by {
                assert(self.entries@[j].0@ != self.entries@[k].0@);
            }
        }
        Object { entries: copies }
    }
}

/// A copy of a value that may be missing.
pub fn duplicate_some(value: Option<&JsonValue>) -> (r: Option<JsonValue>)
    ensures
        seen_owned(r) == seen(value),
{
    match value {
        Some(v) => Some(v.duplicate()),
        None => None,
    }
}

// ---------------------------------------------------------------------------
// The JSON library: numbers, and JSON text in and out
// ---------------------------------------------------------------------------

/// `serde_json::Number`, which a value carries.
#[verifier::external_type_specification]
#[verifier::external_body]
pub struct ExNumber(serde_json::Number);

/// `serde_json::Value`, which the parser makes and the printer takes.
#[verifier::external_type_specification]
#[verifier::external_body]
pub struct ExValue(serde_json::Value);

/// The integer that a number holds, or `None` for a number that is not an integer.
pub uninterp spec fn integer_in(number: serde_json::Number) -> Option<int>;

/// What a `serde_json::Value` holds.
pub uninterp spec fn held(value: serde_json::Value) -> Json;

/// What parsing a text as JSON gives: the value, or the parser's message.
pub uninterp spec fn parsed(text: Seq<char>) -> Result<Json, Seq<char>>;

/// The compact JSON text of a value.
pub uninterp spec fn printed(value: Json) -> Seq<char>;

/// Trusted: `serde_json::Number::as_u64`, the integer where it is between 0 and `u64::MAX`.
#[verifier::external_body]
fn number_as_u64(number: &serde_json::Number) -> (r: Option<u64>)
    ensures
        r == count_in(Some(Json::Number(number_model(*number)))),
{
    number.as_u64()
}

/// Trusted: `serde_json::Number::as_i64`, the integer where it is between `i64::MIN` and
/// `i64::MAX`.
#[verifier::external_body]
fn number_as_i64(number: &serde_json::Number) -> (r: Option<i64>)
    ensures
        r == signed_in(Some(Json::Number(number_model(*number)))),
{
    number.as_i64()
}

/// Trusted: `serde_json::Number` from a `u64` holds that integer.
#[verifier::external_body]
fn number_from_u64(n: u64) -> (r: serde_json::Number)
    ensures
        integer_in(r) == Some(n as int),
{
    serde_json::Number::from(n)
}

/// Trusted: `serde_json::Number` from an `i64` holds that integer.
#[verifier::external_body]
fn number_from_i64(n: i64) -> (r: serde_json::Number)
    ensures
        integer_in(r) == Some(n as int),
{
    serde_json::Number::from(n)
}

/// Trusted: the clone of a `serde_json::Number` is the same number.
#[verifier::external_body]
fn copy_number(number: &serde_json::Number) -> (r: serde_json::Number)
    ensures
        r == *number,
{
    number.clone()
}

/// Whether a conversion succeeded with this value.
pub open spec fn gives(result: Result<Json, Seq<char>>, value: Json) -> bool {
    result is Ok && result->Ok_0 == value
}

/// Whether a value nests no deeper than `depth` and holds no number but integers.
pub open spec fn fits(value: Json, depth: nat) -> bool
    decreases depth,
{
    match value {
        Json::Number(number) => number is Integer,
        Json::List(items) => depth > 0 && forall|i: int|
            0 <= i < items.len() ==> fits(#[trigger] items[i], (depth - 1) as nat),
        Json::Record(record) => depth > 0 && forall|key: Seq<char>|
            record.contains_key(key) ==> fits(#[trigger] record[key], (depth - 1) as nat),
        _ => true,
    }
}

/// Whether parsing gives a value back once it is printed, where it nests no deeper than the parser
/// allows and holds no number but integers.
pub open spec fn prints_back(value: Json) -> bool {
    fits(value, 127) ==> gives(parsed(printed(value)), value)
}

/// Trusted: `serde_json::from_str`, whose result depends on the text alone. An error is handed
/// on as the message that it displays.
#[verifier::external_body]
fn parse_outside(text: &str) -> (r: Result<serde_json::Value, String>)
    ensures
        parsed(text@) == (match r {
            Ok(value) => Ok(held(value)),
            Err(message) => Err(message@),
        }),
{
    match serde_json::from_str::<serde_json::Value>(text) {
        Ok(value) => Ok(value),
        Err(error) => Err(error.to_string()),
    }
}

/// Trusted: `serde_json::to_string`, which succeeds on every `serde_json::Value` and whose text
/// depends on the value alone. Parsing gives back what was printed, within the parser's limit on
/// nesting and for integers; a number that is not an integer may come back rounded.
#[verifier::external_body]
fn print_outside(value: &serde_json::Value) -> (r: Result<String, String>)
    ensures
        r is Ok,
        r->Ok_0@ == printed(held(*value)),
        fits(held(*value), 127) ==> gives(parsed(r->Ok_0@), held(*value)),
{
    match serde_json::to_string(value) {
        Ok(text) => Ok(text),
        Err(error) => Err(error.to_string()),
    }
}

/// Trusted: takes a `serde_json::Value` apart, variant by variant, into a value of this library.
#[verifier::external_body]
fn take_outside(value: serde_json::Value) -> (r: JsonValue)
    ensures
        r@ == held(value),
{
    match value {
        serde_json::Value::Null => JsonValue::Null,
        serde_json::Value::Bool(b) => JsonValue::Bool(b),
        serde_json::Value::Number(n) => JsonValue::Number(n),
        serde_json::Value::String(s) => JsonValue::String(s),
        serde_json::Value::Array(items) => {
            JsonValue::Array(items.into_iter().map(take_outside).collect())
        },
        serde_json::Value::Object(members) => JsonValue::Object(
            Object { entries: members.into_iter().map(|(k, v)| (k, take_outside(v))).collect() },
        ),
    }
}

/// Trusted: builds the `serde_json::Value` for a value of this library, variant by variant.
#[verifier::external_body]
fn make_outside(value: &JsonValue) -> (r: serde_json::Value)
    ensures
        held(r) == value@,
{
    match value {
        JsonValue::Null => serde_json::Value::Null,
        JsonValue::Bool(b) => serde_json::Value::Bool(*b),
        JsonValue::Number(n) => serde_json::Value::Number(n.clone()),
        JsonValue::String(s) => serde_json::Value::String(s.clone()),
        JsonValue::Array(items) => {
            serde_json::Value::Array(items.iter().map(make_outside).collect())
        },
        JsonValue::Object(object) => serde_json::Value::Object(
            object.entries.iter().map(|(k, v)| (k.clone(), make_outside(v))).collect(),
        ),
    }
}

/// Parses a text as JSON.
pub fn parse_json(text: &str) -> (r: Result<JsonValue, String>)
    ensures
        outcome(r) == parsed(text@),
{
    match parse_outside(text) {
        Ok(value) => Ok(take_outside(value)),
        Err(message) => Err(message),
    }
}

/// Prints a value as compact JSON text. Parsing the text gives the value back, where it nests
/// no deeper than the parser allows and holds no number but integers.
pub fn print_json(value: &JsonValue) -> (r: Result<String, String>)
    ensures
        r is Ok,
        r->Ok_0@ == printed(value@),
        prints_back(value@),
{
    print_outside(&make_outside(value))
}

} // verus!
