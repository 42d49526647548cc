//! The members of an object: keys in the order of their first declaration,
//! each with its effective value.

use crate::hocon::value::{member_views, ConfigValue, Members, ValueView};
use vstd::prelude::*;

verus! {

/// The index of the first member from `from` on whose key is `key`.
pub open spec fn find_key(members: Members, key: Seq<char>, from: int) -> Option<int>
    decreases members.len() - from,
{
    if from < 0 || from >= members.len() {
        None
    } else if members[from].0 == key {
        Some(from)
    } else {
        find_key(members, key, from + 1)
    }
}

/// Whether `members` has a member whose key is `key`.
pub open spec fn has_key(members: Members, key: Seq<char>) -> bool {
    find_key(members, key, 0) is Some
}

/// No key occurs twice in `members`.
pub open spec fn distinct_keys(members: Members) -> bool {
    forall|i: int, j: int|
        0 <= i < j < members.len() ==> (#[trigger] members[i]).0 != (#[trigger] members[j]).0
}

/// What `find_key` finds is a member with that key, and the first one.
pub proof fn lemma_find_key(members: Members, key: Seq<char>, from: int)
    requires
        0 <= from,
    ensures
        match find_key(members, key, from) {
            Some(i) => from <= i < members.len() && members[i].0 == key && forall|j: int|
                from <= j < i ==> (#[trigger] members[j]).0 != key,
            None => forall|j: int| from <= j < members.len() ==> (#[trigger] members[j]).0 != key,
        },
    decreases members.len() - from,
{
    if from < members.len() && members[from].0 != key {
        lemma_find_key(members, key, from + 1);
    }
}

/// The members with one more member behind them.
pub proof fn lemma_member_views_push(members: Seq<(String, ConfigValue)>, member: (String, ConfigValue))
    ensures
        member_views(members.push(member)) == member_views(members).push((member.0@, member.1@)),
{
    assert(member_views(members.push(member)) =~= member_views(members).push(
        (member.0@, member.1@),
    ));
}

/// The index of the member whose key is `key`, if there is one.
pub fn find_member(members: &Vec<(String, ConfigValue)>, key: &String) -> (r: Option<usize>)
    ensures
        match r {
            Some(i) => i < members.len() && find_key(member_views(members@), key@, 0) == Some(
                i as int,
            ),
            None => find_key(member_views(members@), key@, 0) is None,
        },
{
    let ghost views = member_views(members@);
    let mut i: usize = 0;
    while i < members.len()
        invariant
            i <= members.len(),
            views == member_views(members@),
            find_key(views, key@, 0) == find_key(views, key@, i as int),
        decreases members.len() - i,
    {
        if members[i].0 == *key {
            return Some(i);
        }
        i += 1;
    }
    None
}

} // verus!
