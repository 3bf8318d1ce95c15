//! JSON values, as the host and the ecobee API exchange them.

use vstd::prelude::*;

use crate::binary64::{Binary64, Real};
use crate::text::same;

verus! {

/// A JSON number: an integer of either sign, or a double.
pub enum Number {
    PosInt(u64),
    NegInt(i64),
    Float(Binary64),
}

/// A JSON value.
pub enum Json {
    Null,
    Bool(bool),
    Number(Number),
    Str(String),
    Array(Vec<Json>),
    Object(Object),
}

/// A JSON object: named members, no name twice.
pub struct Object {
    entries: Vec<(String, Json)>,
}

/// What a number is.
pub enum NumberView {
    PosInt(u64),
    NegInt(i64),
    Float(Real),
}

/// What a value is. The order in which an object holds its members is no part of it.
#[verifier::ext_equal]
pub enum JsonView {
    Null,
    Bool(bool),
    Number(NumberView),
    Str(Seq<char>),
    Array(Seq<JsonView>),
    Object(Map<Seq<char>, JsonView>),
}

impl View for Number {
    type V = NumberView;

    open spec fn view(&self) -> NumberView {
        match self {
            Number::PosInt(n) => NumberView::PosInt(*n),
            Number::NegInt(n) => NumberView::NegInt(*n),
            Number::Float(x) => NumberView::Float(x@),
        }
    }
}

impl View for Json {
    type V = JsonView;

    closed spec fn view(&self) -> JsonView {
        view_value(*self)
    }
}

impl DeepView for Json {
    type V = JsonView;

    open spec fn deep_view(&self) -> JsonView {
        self@
    }
}

impl View for Object {
    type V = Map<Seq<char>, JsonView>;

    closed spec fn view(&self) -> Map<Seq<char>, JsonView> {
        view_members(*self)
    }
}

impl DeepView for Object {
    type V = Map<Seq<char>, JsonView>;

    open spec fn deep_view(&self) -> Map<Seq<char>, JsonView> {
        self@
    }
}

/// Whether some entry has the name.
spec fn has_name(entries: Seq<(String, Json)>, name: Seq<char>) -> bool {
    exists|i: int| 0 <= i < entries.len() && (#[trigger] entries[i]).0@ == name
}

/// Where the entry with the name stands.
spec fn position(entries: Seq<(String, Json)>, name: Seq<char>) -> int {
    choose|i: int| 0 <= i < entries.len() && (#[trigger] entries[i]).0@ == name
}

closed spec fn view_value(value: Json) -> JsonView
    decreases value,
{
    match value {
        Json::Null => JsonView::Null,
        Json::Bool(b) => JsonView::Bool(b),
        Json::Number(n) => JsonView::Number(n@),
        Json::Str(s) => JsonView::Str(s@),
        Json::Array(items) => JsonView::Array(
            Seq::new(
                items@.len(),
                |i: int|
                    if 0 <= i < items@.len() {
                        view_value(items@[i])
                    } else {
                        JsonView::Null
                    },
            ),
        ),
        Json::Object(o) => JsonView::Object(view_members(o)),
    }
}

closed spec fn view_members(o: Object) -> Map<Seq<char>, JsonView>
    decreases o,
{
    Map::new(
        |name: Seq<char>| has_name(o.entries@, name),
        |name: Seq<char>|
            {
                let i = position(o.entries@, name);
                if 0 <= i < o.entries@.len() {
                    view_value(o.entries@[i].1)
                } else {
                    JsonView::Null
                }
            },
    )
}

/// The member of an object with a name.
pub open spec fn member(o: Map<Seq<char>, JsonView>, name: Seq<char>) -> Option<JsonView> {
    if o.contains_key(name) {
        Some(o[name])
    } else {
        None
    }
}

/// The member of an object with a name, or null.
pub open spec fn at(o: Map<Seq<char>, JsonView>, name: Seq<char>) -> JsonView {
    match member(o, name) {
        Some(v) => v,
        None => JsonView::Null,
    }
}

impl JsonView {
    /// The member with a name, or null.
    pub open spec fn at(self, name: Seq<char>) -> JsonView {
        match self.get(name) {
            Some(v) => v,
            None => JsonView::Null,
        }
    }

    /// The member with a name, where the value is an object.
    pub open spec fn get(self, name: Seq<char>) -> Option<JsonView> {
        match self {
            JsonView::Object(o) => member(o, name),
            _ => None,
        }
    }

    /// The text, where the value is one.
    pub open spec fn as_str(self) -> Option<Seq<char>> {
        match self {
            JsonView::Str(s) => Some(s),
            _ => None,
        }
    }

    /// The boolean, where the value is one.
    pub open spec fn as_bool(self) -> Option<bool> {
        match self {
            JsonView::Bool(b) => Some(b),
            _ => None,
        }
    }

    /// The integer, where the value is one that an `i64` holds.
    pub open spec fn as_i64(self) -> Option<i64> {
        match self {
            JsonView::Number(NumberView::PosInt(n)) => if n <= i64::MAX {
                Some(n as i64)
            } else {
                None
            },
            JsonView::Number(NumberView::NegInt(n)) => Some(n),
            _ => None,
        }
    }

    /// The double nearest to the value, where it is a number.
    pub open spec fn as_double(self) -> Option<Real> {
        match self {
            JsonView::Number(NumberView::PosInt(n)) => Some(Real::from_int(n as int)),
            JsonView::Number(NumberView::NegInt(n)) => Some(Real::from_int(n as int)),
            JsonView::Number(NumberView::Float(x)) => Some(x),
            _ => None,
        }
    }

    /// The items, where the value is an array.
    pub open spec fn as_array(self) -> Option<Seq<JsonView>> {
        match self {
            JsonView::Array(items) => Some(items),
            _ => None,
        }
    }

    /// The members, where the value is an object.
    pub open spec fn as_object(self) -> Option<Map<Seq<char>, JsonView>> {
        match self {
            JsonView::Object(o) => Some(o),
            _ => None,
        }
    }

    /// The value of an integer.
    pub open spec fn integer(n: i64) -> JsonView {
        if n < 0 {
            JsonView::Number(NumberView::NegInt(n))
        } else {
            JsonView::Number(NumberView::PosInt(n as u64))
        }
    }

    /// The value of a double.
    pub open spec fn double(x: Real) -> JsonView {
        JsonView::Number(NumberView::Float(x))
    }
}

impl Json {
    proof fn lemma_view(&self)
        ensures
            self@ == view_value(*self),
            self matches Json::Null ==> self@ == JsonView::Null,
            self matches Json::Bool(b) ==> self@ == JsonView::Bool(*b),
            self matches Json::Number(n) ==> self@ == JsonView::Number(n@),
            self matches Json::Str(s) ==> self@ == JsonView::Str(s@),
            self matches Json::Object(o) ==> self@ == JsonView::Object(o@),
            self matches Json::Array(items) ==> self@ == JsonView::Array(items.deep_view()),
    {
        match self {
            Json::Array(items) => {
                assert(self@->Array_0 =~= items.deep_view());
            },
            _ => {},
        }
    }

    /// An empty value.
    pub fn null() -> (r: Json)
        ensures
            r@ == JsonView::Null,
    {
        Json::Null
    }

    /// A boolean.
    pub fn boolean(b: bool) -> (r: Json)
        ensures
            r@ == JsonView::Bool(b),
    {
        Json::Bool(b)
    }

    /// An integer.
    pub fn integer(n: i64) -> (r: Json)
        ensures
            r@ == JsonView::integer(n),
    {
        if n < 0 {
            Json::Number(Number::NegInt(n))
        } else {
            Json::Number(Number::PosInt(n as u64))
        }
    }

    /// A double.
    pub fn double(x: Binary64) -> (r: Json)
        ensures
            r@ == JsonView::double(x@),
    {
        Json::Number(Number::Float(x))
    }

    /// A text.
    pub fn text(s: &str) -> (r: Json)
        ensures
            r@ == JsonView::Str(s@),
    {
        Json::Str(s.to_owned())
    }

    /// An array.
    pub fn array(items: Vec<Json>) -> (r: Json)
        ensures
            r@ == JsonView::Array(items.deep_view()),
    {
        let r = Json::Array(items);
        proof {
            r.lemma_view();
        }
        r
    }

    /// An object.
    pub fn object(o: Object) -> (r: Json)
        ensures
            r@ == JsonView::Object(o@),
    {
        Json::Object(o)
    }

    /// The member with a name, where the value is an object.
    pub fn get(&self, name: &str) -> (r: Option<&Json>)
        ensures
            r.deep_view() == self@.get(name@),
    {
        match self {
            Json::Object(o) => o.get(name),
            _ => None,
        }
    }

    /// The text, where the value is one.
    pub fn as_str(&self) -> (r: Option<&str>)
        ensures
            r.deep_view() == self@.as_str(),
    {
        match self {
            Json::Str(s) => Some(s.as_str()),
            _ => None,
        }
    }

    /// The boolean, where the value is one.
    pub fn as_bool(&self) -> (r: Option<bool>)
        ensures
            r == self@.as_bool(),
    {
        match self {
            Json::Bool(b) => Some(*b),
            _ => None,
        }
    }

    /// The integer, where the value is one that an `i64` holds.
    pub fn as_i64(&self) -> (r: Option<i64>)
        ensures
            r == self@.as_i64(),
    {
        match self {
            Json::Number(Number::PosInt(n)) => if *n <= i64::MAX as u64 {
                Some(*n as i64)
            } else {
                None
            },
            Json::Number(Number::NegInt(n)) => Some(*n),
            _ => None,
        }
    }

    /// The double nearest to the value, where it is a number.
    pub fn as_double(&self) -> (r: Option<Binary64>)
        ensures
            r is Some <==> self@.as_double() is Some,
            r matches Some(x) ==> self@.as_double() == Some(x@),
    {
        match self {
            Json::Number(Number::PosInt(n)) => Some(Binary64::from_u64(*n)),
            Json::Number(Number::NegInt(n)) => Some(Binary64::from_i64(*n)),
            Json::Number(Number::Float(x)) => Some(x.copy()),
            _ => None,
        }
    }

    /// The items, where the value is an array.
    pub fn as_array(&self) -> (r: Option<&Vec<Json>>)
        ensures
            r.deep_view() == self@.as_array(),
    {
        proof {
            self.lemma_view();
        }
        match self {
            Json::Array(items) => Some(items),
            _ => None,
        }
    }

    /// The members, where the value is an object.
    pub fn as_object(&self) -> (r: Option<&Object>)
        ensures
            r.deep_view() == self@.as_object(),
    {
        match self {
            Json::Object(o) => Some(o),
            _ => None,
        }
    }

    /// The text of the member with a name.
    pub fn str_at(&self, name: &str) -> (r: Option<&str>)
        ensures
            r.deep_view() == self@.at(name@).as_str(),
    {
        match self.get(name) {
            Some(v) => v.as_str(),
            None => None,
        }
    }

    /// The integer of the member with a name.
    pub fn i64_at(&self, name: &str) -> (r: Option<i64>)
        ensures
            r == self@.at(name@).as_i64(),
    {
        match self.get(name) {
            Some(v) => v.as_i64(),
            None => None,
        }
    }

    /// The integer two names down.
    pub fn i64_under(&self, outer: &str, inner: &str) -> (r: Option<i64>)
        ensures
            r == self@.at(outer@).at(inner@).as_i64(),
    {
        match self.get(outer) {
            Some(v) => v.i64_at(inner),
            None => None,
        }
    }

    /// The text two names down.
    pub fn str_under(&self, outer: &str, inner: &str) -> (r: Option<&str>)
        ensures
            r.deep_view() == self@.at(outer@).at(inner@).as_str(),
    {
        match self.get(outer) {
            Some(v) => v.str_at(inner),
            None => None,
        }
    }

    /// The items of the member with a name.
    pub fn array_at(&self, name: &str) -> (r: Option<&Vec<Json>>)
        ensures
            r.deep_view() == self@.at(name@).as_array(),
    {
        match self.get(name) {
            Some(v) => v.as_array(),
            None => None,
        }
    }

    /// The same value again.
    pub fn copy(&self) -> (r: Json)
        ensures
            r@ == self@,
        decreases self,
    {
        proof {
            self.lemma_view();
        }
        match self {
            Json::Null => Json::Null,
            Json::Bool(b) => Json::Bool(*b),
            Json::Number(Number::PosInt(n)) => Json::Number(Number::PosInt(*n)),
            Json::Number(Number::NegInt(n)) => Json::Number(Number::NegInt(*n)),
            Json::Number(Number::Float(x)) => Json::Number(Number::Float(x.copy())),
            Json::Str(s) => Json::Str(s.clone()),
            Json::Array(items) => {
                let mut copies: Vec<Json> = Vec::new();
                let mut i: usize = 0;
                while i < items.len()
                    invariant
                        self == Json::Array(*items),
                        i <= items@.len(),
                        copies@.len() == i,
                        forall|j: int| 0 <= j < i ==> (#[trigger] copies@[j])@ == items@[j]@,
                    decreases items@.len() - i,
                {
                    assert(decreases_to!(*self => self->Array_0));
                    assert(decreases_to!(*items => items@));
                    assert(decreases_to!(items@ => items@[i as int]));
                    copies.push(items[i].copy());
                    i = i + 1;
                }
                assert(copies.deep_view() =~= items.deep_view());
                Json::array(copies)
            },
            Json::Object(o) => Json::Object(o.copy()),
        }
    }
}

impl Object {
    #[verifier::type_invariant]
    spec fn names_differ(self) -> bool {
        forall|i: int, j: int|
            0 <= i < j < self.entries@.len() ==> (#[trigger] self.entries@[i]).0@ != (
            #[trigger] self.entries@[j]).0@
    }

    /// Each entry is a member, and there are no others.
    proof fn lemma_members(self)
        requires
            self.names_differ(),
        ensures
            forall|i: int|
                0 <= i < self.entries@.len() ==> {
                    &&& self@.contains_key((#[trigger] self.entries@[i]).0@)
                    &&& self@[self.entries@[i].0@] == self.entries@[i].1@
                },
            forall|name: Seq<char>| #[trigger]
                self@.contains_key(name) <==> has_name(self.entries@, name),
    {
        assert forall|i: int| 0 <= i < self.entries@.len() implies {
            &&& self@.contains_key((#[trigger] self.entries@[i]).0@)
            &&& self@[self.entries@[i].0@] == self.entries@[i].1@
        } by {
            let name = self.entries@[i].0@;
            assert(has_name(self.entries@, name));
            let j = position(self.entries@, name);
            assert(0 <= j < self.entries@.len() && self.entries@[j].0@ == name);
            assert(i == j);
        }
    }

    /// An object with no members.
    pub fn new() -> (r: Object)
        ensures
            r@ == Map::<Seq<char>, JsonView>::empty(),
    {
        let r = Object { entries: Vec::new() };
        proof {
            r.lemma_members();
            assert(r@ =~= Map::empty());
        }
        r
    }

    /// The member with a name.
    pub fn get(&self, name: &str) -> (r: Option<&Json>)
        ensures
            r.deep_view() == member(self@, name@),
    {
        proof {
            use_type_invariant(self);
            self.lemma_members();
        }
        match self.find(name) {
            Some(i) => Some(&self.entries[i].1),
            None => None,
        }
    }

    /// The text of the member with a name.
    pub fn str_at(&self, name: &str) -> (r: Option<&str>)
        ensures
            r.deep_view() == at(self@, name@).as_str(),
    {
        match self.get(name) {
            Some(v) => v.as_str(),
            None => None,
        }
    }

    /// The integer of the member with a name.
    pub fn i64_at(&self, name: &str) -> (r: Option<i64>)
        ensures
            r == at(self@, name@).as_i64(),
    {
        match self.get(name) {
            Some(v) => v.as_i64(),
            None => None,
        }
    }

    /// The boolean of the member with a name.
    pub fn bool_at(&self, name: &str) -> (r: Option<bool>)
        ensures
            r == at(self@, name@).as_bool(),
    {
        match self.get(name) {
            Some(v) => v.as_bool(),
            None => None,
        }
    }

    /// The double nearest to the member with a name.
    pub fn double_at(&self, name: &str) -> (r: Option<Binary64>)
        ensures
            r is Some <==> at(self@, name@).as_double() is Some,
            r matches Some(x) ==> at(self@, name@).as_double() == Some(x@),
    {
        match self.get(name) {
            Some(v) => v.as_double(),
            None => None,
        }
    }

    /// The members one by one, each with its name.
    pub fn entries(&self) -> (r: &Vec<(String, Json)>)
        ensures
            forall|i: int|
                0 <= i < r@.len() ==> member(self@, (#[trigger] r@[i]).0@) == Some(r@[i].1@),
            forall|name: Seq<char>| #[trigger]
                self@.contains_key(name) ==> exists|i: int|
                    0 <= i < r@.len() && (#[trigger] r@[i]).0@ == name,
            forall|i: int, j: int|
                0 <= i < j < r@.len() ==> (#[trigger] r@[i]).0@ != (#[trigger] r@[j]).0@,
    {
        proof {
            use_type_invariant(self);
            self.lemma_members();
        }
        &self.entries
    }

    /// Where the entry with a name stands.
    fn find(&self, name: &str) -> (r: Option<usize>)
        ensures
            r matches Some(i) ==> i < self.entries@.len() && self.entries@[i as int].0@ == name@,
            r is None ==> !has_name(self.entries@, name@),
    {
        let mut i: usize = 0;
        while i < self.entries.len()
            invariant
                i <= self.entries@.len(),
                forall|j: int| 0 <= j < i ==> (#[trigger] self.entries@[j]).0@ != name@,
            decreases self.entries@.len() - i,
        {
            if same(self.entries[i].0.as_str(), name) {
                return Some(i);
            }
            i = i + 1;
        }
        None
    }

    /// Gives a member a value, whether or not it had one.
    pub fn insert(&mut self, name: &str, value: Json)
        ensures
            final(self)@ == old(self)@.insert(name@, value@),
    {
        proof {
            use_type_invariant(&*self);
            self.lemma_members();
        }
        let ghost before = *self;
        let found = self.find(name);
        let mut entries: Vec<(String, Json)> = Vec::new();
        std::mem::swap(&mut entries, &mut self.entries);
        let ghost n = entries@.len();
        match found {
            Some(i) => {
                entries.set(i, (name.to_owned(), value));
                let ghost after = Object { entries };
                proof {
                    assert(after.names_differ());
                    after.lemma_members();
                    assert(after@ =~= before@.insert(name@, value@)) by {
                        lemma_same_members(before, after, name@, i as int);
                    }
                }
            },
            None => {
                entries.push((name.to_owned(), value));
                let ghost after = Object { entries };
                proof {
                    assert(after.names_differ());
                    after.lemma_members();
                    assert(after@ =~= before@.insert(name@, value@)) by {
                        lemma_same_members(before, after, name@, n as int);
                    }
                }
            },
        }
        self.entries = entries;
    }

    /// Takes a member away, and gives its value back where it had one.
    pub fn remove(&mut self, name: &str) -> (r: Option<Json>)
        ensures
            final(self)@ == old(self)@.remove(name@),
            r.deep_view() == member(old(self)@, name@),
    {
        proof {
            use_type_invariant(&*self);
            self.lemma_members();
        }
        let ghost before = *self;
        match self.find(name) {
            Some(i) => {
                let mut entries: Vec<(String, Json)> = Vec::new();
                std::mem::swap(&mut entries, &mut self.entries);
                let entry = entries.remove(i);
                let ghost after = Object { entries };
                proof {
                    assert(after.names_differ());
                    after.lemma_members();
                    lemma_one_less(before, after, name@, i as int);
                }
                self.entries = entries;
                Some(entry.1)
            },
            None => {
                proof {
                    assert(self@.remove(name@) =~= self@);
                }
                None
            },
        }
    }

    /// The same object again.
    pub fn copy(&self) -> (r: Object)
        ensures
            r@ == self@,
        decreases self,
    {
        let ghost entries = self.entries@;
        let mut copies: Vec<(String, Json)> = Vec::new();
        proof {
            use_type_invariant(self);
            self.lemma_members();
        }
        let mut i: usize = 0;
        while i < self.entries.len()
            invariant
                i <= self.entries@.len(),
                copies@.len() == i,
                forall|j: int|
                    0 <= j < i ==> (#[trigger] copies@[j]).0@ == self.entries@[j].0@
                        && copies@[j].1@ == self.entries@[j].1@,
            decreases self.entries@.len() - i,
        {
            assert(decreases_to!(self.entries@ => self.entries@[i as int]));
            assert(decreases_to!(self.entries@[i as int] => self.entries@[i as int].1));
            let entry = &self.entries[i];
            copies.push((entry.0.clone(), entry.1.copy()));
            i = i + 1;
        }
        let ghost r = Object { entries: copies };
        proof {
            assert(r.names_differ());
            r.lemma_members();
            assert forall|name: Seq<char>| has_name(copies@, name) == has_name(entries, name) by {
                if has_name(copies@, name) {
                    let j = position(copies@, name);
                    assert(entries[j].0@ == name);
                }
                if has_name(entries, name) {
                    let j = position(entries, name);
                    assert(copies@[j].0@ == name);
                }
            }
            assert forall|name: Seq<char>| self@.contains_key(name) implies r@[name]
                == self@[name] by {
                let j = position(entries, name);
                assert(entries[j].0@ == name);
                assert(copies@[j].0@ == name);
            }
            assert(r@ =~= self@);
        }
        Object { entries: copies }
    }
}

/// The first item whose member with a name is a text.
pub open spec fn first_with(items: Seq<JsonView>, name: Seq<char>, text: Seq<char>) -> Option<
    JsonView,
>
    decreases items.len(),
{
    if items.len() == 0 {
        None
    } else if items[0].at(name).as_str() == Some(text) {
        Some(items[0])
    } else {
        first_with(items.skip(1), name, text)
    }
}

/// Finds the first item whose member with a name is a text.
pub fn find_with<'a>(items: &'a Vec<Json>, name: &str, text: &str) -> (r: Option<&'a Json>)
    ensures
        r.deep_view() == first_with(items.deep_view(), name@, text@),
{
    let ghost all = items.deep_view();
    let mut i: usize = 0;
    assert(all.skip(0) =~= all);
    while i < items.len()
        invariant
            i <= items@.len(),
            all == items.deep_view(),
            first_with(all, name@, text@) == first_with(all.skip(i as int), name@, text@),
        decreases items@.len() - i,
    {
        assert(all.skip(i as int)[0] == items@[i as int]@);
        assert(all.skip(i as int).skip(1) =~= all.skip(i + 1));
        match items[i].str_at(name) {
            Some(s) => if same(s, text) {
                return Some(&items[i]);
            },
            None => {},
        }
        i = i + 1;
    }
    None
}

/// Writing one entry, whether new or not, changes the member with its name and no other.
proof fn lemma_same_members(before: Object, after: Object, name: Seq<char>, at: int)
    requires
        before.names_differ(),
        after.names_differ(),
        0 <= at < after.entries@.len(),
        after.entries@[at].0@ == name,
        after.entries@.len() == before.entries@.len() || (after.entries@.len()
            == before.entries@.len() + 1 && at == before.entries@.len()),
        at < before.entries@.len() ==> before.entries@[at].0@ == name,
        forall|i: int|
            0 <= i < before.entries@.len() && i != at ==> after.entries@[i]
                == before.entries@[i],
    ensures
        after@ =~= before@.insert(name, after.entries@[at].1@),
{
    before.lemma_members();
    after.lemma_members();
    assert forall|k: Seq<char>|
        after@.contains_key(k) == before@.insert(name, after.entries@[at].1@).contains_key(k) by {
        if has_name(after.entries@, k) && k != name {
            let i = position(after.entries@, k);
            assert(before.entries@[i].0@ == k);
        }
        if has_name(before.entries@, k) && k != name {
            let i = position(before.entries@, k);
            assert(after.entries@[i].0@ == k);
        }
    }
    assert forall|k: Seq<char>| after@.contains_key(k) implies after@[k] == before@.insert(
        name,
        after.entries@[at].1@,
    )[k] by {
        let i = position(after.entries@, k);
        assert(after.entries@[i].0@ == k);
        if k != name {
            assert(before.entries@[i].0@ == k);
        }
    }
}

/// Dropping one entry drops the member with its name and no other.
proof fn lemma_one_less(before: Object, after: Object, name: Seq<char>, at: int)
    requires
        before.names_differ(),
        after.names_differ(),
        0 <= at < before.entries@.len(),
        before.entries@[at].0@ == name,
        after.entries@ == before.entries@.remove(at),
    ensures
        after@ =~= before@.remove(name),
{
    before.lemma_members();
    after.lemma_members();
    assert forall|k: Seq<char>| after@.contains_key(k) == before@.remove(name).contains_key(k) by {
        if has_name(after.entries@, k) {
            let i = position(after.entries@, k);
            let j = if i < at {
                i
            } else {
                i + 1
            };
            assert(after.entries@[i].0@ == k);
            assert(before.entries@[j].0@ == k);
        }
        if has_name(before.entries@, k) && k != name {
            let i = position(before.entries@, k);
            let j = if i < at {
                i
            } else {
                i - 1
            };
            assert(after.entries@[j].0@ == k);
        }
    }
    assert forall|k: Seq<char>| after@.contains_key(k) implies after@[k] == before@.remove(
        name,
    )[k] by {
        let i = position(after.entries@, k);
        assert(after.entries@[i].0@ == k);
        let j = if i < at {
            i
        } else {
            i + 1
        };
        assert(before.entries@[j].0@ == k);
    }
}

} // verus!
