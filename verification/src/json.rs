//! The mathematical model of a JSON document.

use vstd::prelude::*;

verus! {

/// A JSON document.
///
/// A number without fraction and exponent that fits in 64 bits is an `Integer`, except `-0`; every
/// other number is a `Float`, held as the bit pattern of its double precision value. The members of
/// an object carry no order.
#[verifier::ext_equal]
pub enum Json {
    Null,
    Bool(bool),
    Integer(int),
    Float(u64),
    Text(Seq<char>),
    Array(Seq<Json>),
    Object(Map<Seq<char>, Json>),
}

impl Json {
    /// The member called `key`, if this is an object that has one.
    pub open spec fn member(self, key: Seq<char>) -> Option<Json> {
        match self {
            Json::Object(members) => if members.dom().contains(key) {
                Some(members[key])
            } else {
                None
            },
            _ => None,
        }
    }

    /// This object with its member `key` set to `value`, every other member kept.
    pub open spec fn with_member(self, key: Seq<char>, value: Json) -> Json {
        match self {
            Json::Object(members) => Json::Object(members.insert(key, value)),
            _ => self,
        }
    }

    /// The number of tokens this document states, if it is an integer in the range of a count.
    pub open spec fn as_count(self) -> Option<u64> {
        match self {
            Json::Integer(n) => if 0 <= n <= u64::MAX {
                Some(n as u64)
            } else {
                None
            },
            _ => None,
        }
    }

    /// Whether arrays and objects are nested at most `levels` deep.
    pub open spec fn nests_within(self, levels: nat) -> bool
        decreases levels,
    {
        match self {
            Json::Array(items) => levels > 0 && forall|i: int|
                0 <= i < items.len() ==> (#[trigger] items[i]).nests_within((levels - 1) as nat),
            Json::Object(members) => levels > 0 && forall|key: Seq<char>| #[trigger]
                members.dom().contains(key) ==> members[key].nests_within((levels - 1) as nat),
            _ => true,
        }
    }

    /// Whether no number anywhere in this document is a `Float`.
    pub open spec fn without_floats(self) -> bool
        decreases self,
    {
        match self {
            Json::Float(_) => false,
            Json::Array(items) => forall|i: int|
                0 <= i < items.len() ==> (#[trigger] items[i]).without_floats(),
            Json::Object(members) => forall|key: Seq<char>| #[trigger]
                members.dom().contains(key) ==> members[key].without_floats(),
            _ => true,
        }
    }

    /// Whether this document and `other` differ at most in the values of their floats.
    pub open spec fn same_but_floats(self, other: Json) -> bool
        decreases self,
    {
        match (self, other) {
            (Json::Float(_), Json::Float(_)) => true,
            (Json::Array(a), Json::Array(b)) => {
                &&& a.len() == b.len()
                &&& forall|i: int| 0 <= i < a.len() ==> (#[trigger] a[i]).same_but_floats(b[i])
            },
            (Json::Object(a), Json::Object(b)) => {
                &&& a.dom() == b.dom()
                &&& forall|key: Seq<char>| #[trigger]
                    a.dom().contains(key) ==> a[key].same_but_floats(b[key])
            },
            _ => self == other,
        }
    }
}

/// Setting a member to the value it has changes nothing.
pub(crate) proof fn lemma_with_own_member(document: Json, key: Seq<char>)
    ensures
        document.member(key) matches Some(value) ==> document.with_member(key, value) == document,
{
    if let Json::Object(members) = document {
        if members.dom().contains(key) {
            assert(members.insert(key, members[key]) =~= members);
        }
    }
}

/// Documents that differ only in floats have the same member names, and members that differ only in
/// floats.
pub(crate) proof fn lemma_member_same_but_floats(a: Json, b: Json, key: Seq<char>)
    requires
        a.same_but_floats(b),
    ensures
        match (a.member(key), b.member(key)) {
            (Some(x), Some(y)) => x.same_but_floats(y),
            (None, None) => true,
            _ => false,
        },
{
}

/// A member that was set is found, whatever it is; one that was taken out is not, and neither is one
/// of a document that is no object. Setting a member leaves those of other names as they are.
pub proof fn law_members_are_found_as_they_were_set(
    members: Map<Seq<char>, Json>,
    key: Seq<char>,
    value: Json,
    other: Seq<char>,
)
    ensures
        Json::Object(members.insert(key, value)).member(key) == Some(value),
        Json::Object(members.remove(key)).member(key) is None,
        value !is Object ==> value.member(key) is None,
        Json::Object(members).with_member(key, value).member(key) == Some(value),
        key != other ==> Json::Object(members).with_member(key, value).member(other) == Json::Object(
            members,
        ).member(other),
        key != other ==> Json::Object(members.insert(key, value)).member(other) == Json::Object(
            members,
        ).member(other),
{
}

/// Every integer from zero to the largest that 64 bits hold is a count, and nothing else is.
pub proof fn law_counts_are_unsigned_integers(n: u64, document: Json)
    ensures
        Json::Integer(n as int).as_count() == Some(n),
        document.as_count() matches Some(count) ==> document == Json::Integer(count as int),
{
}

/// A document without floats differs from no other in floats alone.
pub proof fn law_documents_without_floats_are_told_apart(a: Json, b: Json)
    requires
        a.without_floats(),
        a.same_but_floats(b),
    ensures
        a == b,
    decreases a,
{
    match (a, b) {
        (Json::Array(x), Json::Array(y)) => {
            assert forall|i: int| 0 <= i < x.len() implies x[i] == y[i] by {
                law_documents_without_floats_are_told_apart(x[i], y[i]);
            }
            assert(x =~= y);
        },
        (Json::Object(x), Json::Object(y)) => {
            assert forall|key: Seq<char>| #[trigger] x.dom().contains(key) implies x[key] == y[key] by {
                law_documents_without_floats_are_told_apart(x[key], y[key]);
            }
            assert(x =~= y);
        },
        _ => {},
    }
}

} // verus!
