//! The value tree.

use vstd::prelude::*;
use crate::number::is_decimal_text;

verus! {

/// A JSON value as a mathematical object.
pub enum JsonValue {
    /// The text between the quotes, as it stood in the input.
    String(Seq<char>),
    /// The text of a number with a decimal point.
    Number(Seq<char>),
    /// A number without a decimal point.
    Integer(nat),
    /// The elements in the order of the input.
    Array(Seq<JsonValue>),
    /// The value of each key.
    Object(Map<Seq<char>, JsonValue>),
    Boolean(bool),
    Null,
}

/// A parsed JSON value. Two values are equal where they are the same
/// mathematical object.
#[derive(Debug)]
pub enum Json {
    /// The text between the quotes, as it stood in the input.
    String(String),
    /// A number with a decimal point, kept as its text: a digit, then digits
    /// among which one `.` stands. Its value is what the text reads as.
    Number(String),
    /// A number without a decimal point.
    Integer(usize),
    /// The elements in the order of the input.
    Array(Vec<Json>),
    /// The members. A parser puts each key there once, with the value of its
    /// last member in the input; in a list with a key twice the last member
    /// counts. The order of the members means nothing: `==` and
    /// [`Json::get`] do not depend on it.
    Object(Vec<(String, Json)>),
    Boolean(bool),
    Null,
}

/// The mapping that a list of members stands for: a later member replaces an
/// earlier one with the same key.
pub open spec fn members_map(members: Seq<(Seq<char>, JsonValue)>) -> Map<Seq<char>, JsonValue>
    decreases members.len(),
{
    if members.len() == 0 {
        Map::empty()
    } else {
        members_map(members.drop_last()).insert(members.last().0, members.last().1)
    }
}

/// The members as mathematical objects.
pub open spec fn member_views(members: Seq<(String, Json)>) -> Seq<(Seq<char>, JsonValue)> {
    Seq::new(members.len(), |i: int| (members[i].0@, members[i].1@))
}

/// The elements as mathematical objects.
pub open spec fn element_views(items: Seq<Json>) -> Seq<JsonValue> {
    Seq::new(items.len(), |i: int| items[i]@)
}

/// Whether no two of the members have the same key.
pub open spec fn distinct_keys(members: Seq<(String, Json)>) -> bool {
    forall|i: int, j: int|
        0 <= i < j < members.len() ==> (#[trigger] members[i]).0@ != (#[trigger] members[j]).0@
}

/// Whether each of the members has a well-formed value.
pub open spec fn members_wf(members: Seq<(String, Json)>) -> bool {
    forall|i: int| 0 <= i < members.len() ==> (#[trigger] members[i]).1.wf()
}

impl View for Json {
    type V = JsonValue;

    open spec fn view(&self) -> JsonValue
        decreases self, 1nat,
    {
        match self {
            Json::String(text) => JsonValue::String(text@),
            Json::Number(text) => JsonValue::Number(text@),
            Json::Integer(n) => JsonValue::Integer(*n as nat),
            Json::Array(_) => JsonValue::Array(self.elements()),
            Json::Object(_) => JsonValue::Object(members_map(self.members())),
            Json::Boolean(b) => JsonValue::Boolean(*b),
            Json::Null => JsonValue::Null,
        }
    }
}

impl Json {
    /// Whether the value is one that a parser can have built: the text of
    /// each `Number` is that of a number with one decimal point, and no
    /// object holds a key twice.
    pub open spec fn wf(&self) -> bool
        decreases self,
    {
        match self {
            Json::Number(text) => is_decimal_text(text@),
            Json::Array(items) => forall|i: int|
                0 <= i < items.len() ==> (#[trigger] items[i]).wf(),
            Json::Object(members) => {
                &&& forall|i: int| 0 <= i < members.len() ==> (#[trigger] members[i]).1.wf()
                &&& distinct_keys(members@)
            },
            _ => true,
        }
    }

    /// The elements of an array as mathematical objects; of another value,
    /// none.
    pub open spec fn elements(&self) -> Seq<JsonValue>
        decreases self, 0nat,
    {
        match self {
            Json::Array(items) => Seq::new(
                items.len() as nat,
                |i: int|
                    if 0 <= i < items.len() {
                        items[i].view()
                    } else {
                        JsonValue::Null
                    },
            ),
            _ => Seq::empty(),
        }
    }

    /// The members of an object as mathematical objects; of another value,
    /// none.
    pub open spec fn members(&self) -> Seq<(Seq<char>, JsonValue)>
        decreases self, 0nat,
    {
        match self {
            Json::Object(members) => Seq::new(
                members.len() as nat,
                |i: int|
                    if 0 <= i < members.len() {
                        (members[i].0@, members[i].1.view())
                    } else {
                        (Seq::empty(), JsonValue::Null)
                    },
            ),
            _ => Seq::empty(),
        }
    }

    /// The value of `key` in an object; `None` where the object has no such
    /// key, and for a value that is no object.
    pub fn get(&self, key: &str) -> (r: Option<&Json>)
        ensures
            match self@ {
                JsonValue::Object(map) => match r {
                    Some(value) => map.dom().contains(key@) && value@ == map[key@],
                    None => !map.dom().contains(key@),
                },
                _ => r is None,
            },
    {
        match self {
            Json::Object(members) => {
                let wanted = key.to_owned();
                let found = find_last(members, &wanted);
                proof {
                    Json::lemma_object_view(*members);
                    lemma_find_last(members@, key@, found);
                }
                match found {
                    Some(at) => Some(&members[at].1),
                    None => None,
                }
            },
            _ => None,
        }
    }

    /// An array of well-formed elements is well formed.
    pub proof fn lemma_array_wf(items: Vec<Json>)
        requires
            forall|i: int| 0 <= i < items.len() ==> (#[trigger] items[i]).wf(),
        ensures
            Json::Array(items).wf(),
    {
    }

    /// An object is well formed where the value of each of its members is
    /// and no two members have the same key.
    pub proof fn lemma_object_wf(members: Vec<(String, Json)>)
        requires
            members_wf(members@),
            distinct_keys(members@),
        ensures
            Json::Object(members).wf(),
    {
    }

    /// An array is, as a mathematical object, the sequence of its elements.
    pub proof fn lemma_array_view(items: Vec<Json>)
        ensures
            Json::Array(items)@ == JsonValue::Array(element_views(items@)),
    {
        reveal_with_fuel(Json::elements, 2);
        assert(Json::Array(items).elements() =~= element_views(items@));
    }

    /// An object is, as a mathematical object, what the list of its members
    /// stands for.
    pub proof fn lemma_object_view(members: Vec<(String, Json)>)
        ensures
            Json::Object(members)@ == JsonValue::Object(members_map(member_views(members@))),
    {
        reveal_with_fuel(Json::members, 2);
        assert(Json::Object(members).members() =~= member_views(members@));
    }
}

/// A key has a value in the mapping where a member has that key.
pub proof fn lemma_members_map_keys(members: Seq<(Seq<char>, JsonValue)>, key: Seq<char>)
    ensures
        members_map(members).dom().contains(key) <==> exists|i: int|
            0 <= i < members.len() && (#[trigger] members[i]).0 == key,
    decreases members.len(),
{
    if members.len() > 0 {
        let front = members.drop_last();
        lemma_members_map_keys(front, key);
        if members_map(members).dom().contains(key) {
            if members.last().0 == key {
                assert(members[members.len() - 1].0 == key);
            } else {
                let i = choose|i: int| 0 <= i < front.len() && (#[trigger] front[i]).0 == key;
                assert(members[i].0 == key);
            }
        }
        if exists|i: int| 0 <= i < members.len() && (#[trigger] members[i]).0 == key {
            let i = choose|i: int| 0 <= i < members.len() && (#[trigger] members[i]).0 == key;
            if i < members.len() - 1 {
                assert(front[i].0 == key);
            }
        }
    }
}

/// Of the members with one key the last one gives the key its value: the
/// value of a member is that of its key in the mapping where no later member
/// has the same key.
pub proof fn theorem_last_member_wins(members: Seq<(Seq<char>, JsonValue)>, at: int)
    requires
        0 <= at < members.len(),
        forall|i: int| at < i < members.len() ==> (#[trigger] members[i]).0 != members[at].0,
    ensures
        members_map(members).dom().contains(members[at].0),
        members_map(members)[members[at].0] == members[at].1,
    decreases members.len(),
{
    if at < members.len() - 1 {
        let front = members.drop_last();
        assert(front[at] == members[at]);
        assert forall|i: int| at < i < front.len() implies (#[trigger] front[i]).0
            != front[at].0 by {
            assert(front[i] == members[i]);
        }
        theorem_last_member_wins(front, at);
        assert(members[members.len() - 1].0 != members[at].0);
    }
}

/// The index of the last member with the key `key`, if there is one.
pub fn find_last(members: &Vec<(String, Json)>, key: &String) -> (r: Option<usize>)
    ensures
        match r {
            Some(at) => {
                &&& at < members.len()
                &&& members[at as int].0@ == key@
                &&& forall|j: int| at < j < members.len() ==> (#[trigger] members[j]).0@ != key@
            },
            None => forall|j: int| 0 <= j < members.len() ==> (#[trigger] members[j]).0@ != key@,
        },
{
    let mut i: usize = members.len();
    while i > 0
        invariant
            i <= members.len(),
            forall|j: int| i <= j < members.len() ==> (#[trigger] members[j]).0@ != key@,
        decreases i,
    {
        i = i - 1;
        if members[i].0 == *key {
            return Some(i);
        }
    }
    None
}

/// What `find_last` finds is what the key has in the mapping.
pub proof fn lemma_find_last(members: Seq<(String, Json)>, key: Seq<char>, found: Option<usize>)
    requires
        match found {
            Some(at) => {
                &&& at < members.len()
                &&& members[at as int].0@ == key
                &&& forall|j: int| at < j < members.len() ==> (#[trigger] members[j]).0@ != key
            },
            None => forall|j: int| 0 <= j < members.len() ==> (#[trigger] members[j]).0@ != key,
        },
    ensures
        match found {
            Some(at) => members_map(member_views(members)).dom().contains(key) && members_map(
                member_views(members),
            )[key] == members[at as int].1@,
            None => !members_map(member_views(members)).dom().contains(key),
        },
{
    let views = member_views(members);
    match found {
        Some(at) => {
            assert forall|j: int| at < j < views.len() implies (#[trigger] views[j]).0
                != views[at as int].0 by {
                assert(members[j].0@ != key);
            }
            theorem_last_member_wins(views, at as int);
        },
        None => {
            lemma_members_map_keys(views, key);
            if exists|j: int| 0 <= j < views.len() && (#[trigger] views[j]).0 == key {
                let j = choose|j: int| 0 <= j < views.len() && (#[trigger] views[j]).0 == key;
                assert(members[j].0@ != key);
            }
        },
    }
}

/// Replacing the value of a member, where no other member has its key, is an
/// insertion into the mapping.
pub proof fn lemma_members_map_update(
    members: Seq<(Seq<char>, JsonValue)>,
    at: int,
    value: JsonValue,
)
    requires
        0 <= at < members.len(),
        forall|i: int| 0 <= i < members.len() && i != at ==> (#[trigger] members[i]).0 != members[at].0,
    ensures
        members_map(members.update(at, (members[at].0, value))) == members_map(members).insert(
            members[at].0,
            value,
        ),
    decreases members.len(),
{
    let key = members[at].0;
    let updated = members.update(at, (key, value));
    if at == members.len() - 1 {
        assert(updated.drop_last() =~= members.drop_last());
        assert(members_map(updated) =~= members_map(members).insert(key, value));
    } else {
        let front = members.drop_last();
        assert(updated.drop_last() =~= front.update(at, (key, value)));
        assert(front[at] == members[at]);
        assert forall|i: int| 0 <= i < front.len() && i != at implies (#[trigger] front[i]).0
            != front[at].0 by {
            assert(front[i] == members[i]);
        }
        lemma_members_map_update(front, at, value);
        assert(members.last().0 != key);
        assert(members_map(updated) =~= members_map(members).insert(key, value));
    }
}

/// Gives `key` the value `value` among the members of an object: in place of
/// its earlier value, or as a new member.
pub(crate) fn insert_member(members: &mut Vec<(String, Json)>, key: String, value: Json)
    requires
        distinct_keys(old(members)@),
    ensures
        distinct_keys(final(members)@),
        members_map(member_views(final(members)@)) == members_map(
            member_views(old(members)@),
        ).insert(key@, value@),
        members_wf(old(members)@) && value.wf() ==> members_wf(final(members)@),
{
    let mut i: usize = 0;
    while i < members.len()
        invariant
            *members == *old(members),
            distinct_keys(members@),
            0 <= i <= members.len(),
            forall|j: int| 0 <= j < i ==> (#[trigger] members[j]).0@ != key@,
        decreases members.len() - i,
    {
        if members[i].0 == key {
            proof {
                let views = member_views(members@);
                assert forall|j: int| 0 <= j < views.len() && j != i implies (#[trigger] views[j]).0
                    != views[i as int].0 by {
                    if j < i {
                        assert(members[j].0@ != members[i as int].0@);
                    } else {
                        assert(members[i as int].0@ != members[j].0@);
                    }
                }
                lemma_members_map_update(views, i as int, value@);
                assert(member_views(members@.update(i as int, (key, value))) =~= views.update(
                    i as int,
                    (key@, value@),
                ));
            }
            members.set(i, (key, value));
            return ;
        }
        i = i + 1;
    }
    proof {
        assert(member_views(members@.push((key, value))) =~= member_views(members@).push(
            (key@, value@),
        ));
        assert(member_views(members@).push((key@, value@)).drop_last() =~= member_views(
            members@,
        ));
    }
    members.push((key, value));
}

} // verus!
