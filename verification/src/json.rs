//! JSON values, as far as attestation evidence is looked into.

use vstd::prelude::*;

use crate::text::same_text;

verus! {

/// A JSON value. An object lists its members in order; a number is its text.
#[derive(Debug, PartialEq, Eq)]
pub enum JsonValue {
    Null,
    Bool(bool),
    Number(String),
    Text(String),
    Array(Vec<JsonValue>),
    Object(Vec<(String, JsonValue)>),
}

/// The value of the first member with the given name.
pub open spec fn member(members: Seq<(String, JsonValue)>, name: Seq<char>) -> Option<JsonValue>
    decreases members.len(),
{
    if members.len() == 0 {
        None
    } else if members[0].0@ == name {
        Some(members[0].1)
    } else {
        member(members.drop_first(), name)
    }
}

/// The value of a field; `None` where the value is no object or has no such
/// member.
pub open spec fn field(value: JsonValue, name: Seq<char>) -> Option<JsonValue> {
    match value {
        JsonValue::Object(members) => member(members@, name),
        _ => None,
    }
}

proof fn lemma_member_at(members: Seq<(String, JsonValue)>, name: Seq<char>, at: int)
    requires
        0 <= at <= members.len(),
        forall|i: int| 0 <= i < at ==> (#[trigger] members[i]).0@ != name,
    ensures
        at < members.len() && members[at].0@ == name ==> member(members, name) == Some(
            members[at].1,
        ),
        at == members.len() ==> member(members, name) is None,
    decreases members.len(),
{
    if at > 0 {
        let rest = members.drop_first();
        assert(members[0].0@ != name);
        assert forall|i: int| 0 <= i < at - 1 implies (#[trigger] rest[i]).0@ != name by {
            assert(rest[i] == members[i + 1]);
        }
        lemma_member_at(rest, name, at - 1);
    }
}

/// Takes the value of a field out of a JSON value.
pub fn take_field(value: JsonValue, name: &str) -> (r: Option<JsonValue>)
    ensures
        r == field(value, name@),
{
    match value {
        JsonValue::Object(mut members) => {
            let ghost all = members@;
            let mut i: usize = 0;
            while i < members.len()
                invariant
                    members@ == all,
                    i <= all.len(),
                    forall|j: int| 0 <= j < i ==> (#[trigger] all[j]).0@ != name@,
                ensures
                    members@ == all,
                    i <= all.len(),
                    forall|j: int| 0 <= j < i ==> (#[trigger] all[j]).0@ != name@,
                    i < all.len() ==> all[i as int].0@ == name@,
                decreases all.len() - i,
            {
                if same_text(members[i].0.as_str(), name) {
                    break;
                }
                i += 1;
            }
            proof {
                lemma_member_at(all, name@, i as int);
            }
            if i < members.len() {
                let (_, found) = members.remove(i);
                Some(found)
            } else {
                None
            }
        },
        _ => None,
    }
}

/// A field of an object has the value of the first member with its name, and
/// there is one exactly where a member has that name.
pub proof fn field_is_first_member(members: Vec<(String, JsonValue)>, name: Seq<char>, at: int)
    requires
        0 <= at < members@.len(),
        members@[at].0@ == name,
        forall|i: int| 0 <= i < at ==> (#[trigger] members@[i]).0@ != name,
    ensures
        field(JsonValue::Object(members), name) == Some(members@[at].1),
{
    lemma_member_at(members@, name, at);
}

/// A value has no field of a name that no member has; and what is no object has
/// no field at all.
pub proof fn absent_field_is_none(value: JsonValue, name: Seq<char>)
    requires
        value matches JsonValue::Object(members) ==> forall|i: int|
            0 <= i < members@.len() ==> (#[trigger] members@[i]).0@ != name,
    ensures
        field(value, name) is None,
{
    if let JsonValue::Object(members) = value {
        lemma_member_at(members@, name, members@.len() as int);
    }
}

} // verus!
