//! When two values are equal: as what they mean, whatever the order of the
//! members of their objects.

use vstd::prelude::*;
use vstd::std_specs::cmp::PartialEqSpecImpl;
use crate::value::{
    element_views, find_last, lemma_find_last, lemma_members_map_keys, member_views, members_map,
    Json, JsonValue,
};

verus! {

/// Whether the elements of two arrays are equal, each to the one at its
/// place.
fn elements_equal(a: &Json, b: &Json) -> (r: bool)
    requires
        a is Array,
        b is Array,
    ensures
        r == (a@ == b@),
    decreases a, 0nat,
{
    match (a, b) {
        (Json::Array(xs), Json::Array(ys)) => {
            proof {
                Json::lemma_array_view(*xs);
                Json::lemma_array_view(*ys);
            }
            if xs.len() != ys.len() {
                assert(element_views(xs@).len() != element_views(ys@).len());
                return false;
            }
            let mut i: usize = 0;
            while i < xs.len()
                invariant
                    *a == Json::Array(*xs),
                    *b == Json::Array(*ys),
                    a@ == JsonValue::Array(element_views(xs@)),
                    b@ == JsonValue::Array(element_views(ys@)),
                    xs.len() == ys.len(),
                    i <= xs.len(),
                    forall|j: int| 0 <= j < i ==> (#[trigger] xs[j])@ == ys[j]@,
                decreases xs.len() - i,
            {
                if !values_equal(&xs[i], &ys[i]) {
                    assert(element_views(xs@)[i as int] != element_views(ys@)[i as int]);
                    return false;
                }
                i = i + 1;
            }
            assert(element_views(xs@) =~= element_views(ys@));
            true
        },
        _ => false,
    }
}

/// Whether two objects give the same keys the same values.
fn members_equal(a: &Json, b: &Json) -> (r: bool)
    requires
        a is Object,
        b is Object,
    ensures
        r == (a@ == b@),
    decreases a, 0nat,
{
    match (a, b) {
        (Json::Object(ms), Json::Object(ns)) => {
            let ghost ours = members_map(member_views(ms@));
            let ghost theirs = members_map(member_views(ns@));
            proof {
                Json::lemma_object_view(*ms);
                Json::lemma_object_view(*ns);
            }
            let mut i: usize = 0;
            while i < ms.len()
                invariant
                    *a == Json::Object(*ms),
                    *b == Json::Object(*ns),
                    ours == members_map(member_views(ms@)),
                    theirs == members_map(member_views(ns@)),
                    a@ == JsonValue::Object(ours),
                    b@ == JsonValue::Object(theirs),
                    i <= ms.len(),
                    forall|j: int|
                        0 <= j < i ==> theirs.dom().contains((#[trigger] ms[j]).0@) && ours[ms[j].0@]
                            == theirs[ms[j].0@],
                decreases ms.len() - i,
            {
                let here = find_last(ms, &ms[i].0);
                let there = find_last(ns, &ms[i].0);
                proof {
                    lemma_find_last(ms@, ms[i as int].0@, here);
                    lemma_find_last(ns@, ms[i as int].0@, there);
                }
                match (here, there) {
                    (Some(here), Some(there)) => {
                        if !values_equal(&ms[here].1, &ns[there].1) {
                            assert(ours[ms[i as int].0@] != theirs[ms[i as int].0@]);
                            return false;
                        }
                    },
                    _ => {
                        assert(ours.dom().contains(ms[i as int].0@));
                        return false;
                    },
                }
                i = i + 1;
            }
            let mut k: usize = 0;
            while k < ns.len()
                invariant
                    ours == members_map(member_views(ms@)),
                    theirs == members_map(member_views(ns@)),
                    a@ == JsonValue::Object(ours),
                    b@ == JsonValue::Object(theirs),
                    k <= ns.len(),
                    forall|j: int|
                        0 <= j < ms.len() ==> theirs.dom().contains((#[trigger] ms[j]).0@)
                            && ours[ms[j].0@] == theirs[ms[j].0@],
                    forall|j: int| 0 <= j < k ==> ours.dom().contains((#[trigger] ns[j]).0@),
                decreases ns.len() - k,
            {
                let here = find_last(ms, &ns[k].0);
                proof {
                    lemma_find_last(ms@, ns[k as int].0@, here);
                    lemma_members_map_keys(member_views(ns@), ns[k as int].0@);
                    assert(member_views(ns@)[k as int].0 == ns[k as int].0@);
                }
                if here.is_none() {
                    assert(theirs.dom().contains(ns[k as int].0@));
                    return false;
                }
                k = k + 1;
            }
            proof {
                assert forall|key: Seq<char>| #[trigger]
                    ours.dom().contains(key) implies theirs.dom().contains(key) && ours[key]
                    == theirs[key] by {
                    lemma_members_map_keys(member_views(ms@), key);
                    let j = choose|j: int|
                        0 <= j < member_views(ms@).len() && (#[trigger] member_views(ms@)[j]).0
                            == key;
                    assert(ms[j].0@ == key);
                }
                assert forall|key: Seq<char>| #[trigger]
                    theirs.dom().contains(key) implies ours.dom().contains(key) by {
                    lemma_members_map_keys(member_views(ns@), key);
                    let j = choose|j: int|
                        0 <= j < member_views(ns@).len() && (#[trigger] member_views(ns@)[j]).0
                            == key;
                    assert(ns[j].0@ == key);
                }
                assert(ours =~= theirs);
            }
            true
        },
        _ => false,
    }
}

/// Whether two values are equal as what they mean.
pub fn values_equal(a: &Json, b: &Json) -> (r: bool)
    ensures
        r == (a@ == b@),
    decreases a, 1nat,
{
    match (a, b) {
        (Json::String(x), Json::String(y)) => *x == *y,
        (Json::Number(x), Json::Number(y)) => *x == *y,
        (Json::Integer(x), Json::Integer(y)) => *x == *y,
        (Json::Boolean(x), Json::Boolean(y)) => *x == *y,
        (Json::Null, Json::Null) => true,
        (Json::Array(_), Json::Array(_)) => elements_equal(a, b),
        (Json::Object(_), Json::Object(_)) => members_equal(a, b),
        _ => false,
    }
}

impl PartialEq for Json {
    /// Two values are equal where they mean the same: the members of an
    /// object are compared key by key, in whatever order they stand.
    fn eq(&self, other: &Json) -> (r: bool) {
        values_equal(self, other)
    }
}

impl PartialEqSpecImpl for Json {
    open spec fn obeys_eq_spec() -> bool {
        true
    }

    open spec fn eq_spec(&self, other: &Json) -> bool {
        self@ == other@
    }
}

} // verus!
