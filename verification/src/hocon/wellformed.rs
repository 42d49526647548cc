//! The invariant of configuration values: in every object, no key occurs twice.
//!
//! The grammar establishes the invariant, and pushing, merging,
//! redeclaring and resolving preserve it.

use crate::hocon::lookup::{head_key, tail_path};
use crate::hocon::members::{distinct_keys, find_key, has_key, lemma_find_key};
use crate::hocon::merge::{added, declared, declared_all, kept};
use crate::hocon::resolve::{
    lemma_resolved_items, lemma_resolved_members, resolved_items, resolved_members, Variables,
};
use crate::hocon::value::{Members, ValueView};
use vstd::prelude::*;

verus! {

impl ValueView {
    /// In every object of the value, no key occurs twice.
    pub open spec fn wf(self) -> bool
        decreases self, 0nat,
    {
        match self {
            ValueView::Array(items) => items_wf(items, items.len()),
            ValueView::Object(members) => distinct_keys(members) && members_wf(
                members,
                members.len(),
            ),
            ValueView::Reference { prev: Some(p), .. } => p.wf(),
            ValueView::Link { prev, value } => prev.wf() && value.wf(),
            _ => true,
        }
    }
}

/// The first `n` of `items` are well-formed.
pub open spec fn items_wf(items: Seq<ValueView>, n: nat) -> bool
    decreases items, n,
{
    if n == 0 || n > items.len() {
        true
    } else {
        items_wf(items, (n - 1) as nat) && items[n - 1].wf()
    }
}

/// The values of the first `n` of `members` are well-formed.
pub open spec fn members_wf(members: Members, n: nat) -> bool
    decreases members, n,
{
    if n == 0 || n > members.len() {
        true
    } else {
        members_wf(members, (n - 1) as nat) && members[n - 1].1.wf()
    }
}

/// The first `n` items are well-formed if and only if each of them is.
pub proof fn lemma_items_wf(items: Seq<ValueView>, n: nat)
    requires
        n <= items.len(),
    ensures
        items_wf(items, n) <==> forall|i: int| 0 <= i < n ==> (#[trigger] items[i]).wf(),
    decreases n,
{
    if n > 0 {
        lemma_items_wf(items, (n - 1) as nat);
    }
}

/// The first `n` members are well-formed if and only if the value of each of them is.
pub proof fn lemma_members_wf(members: Members, n: nat)
    requires
        n <= members.len(),
    ensures
        members_wf(members, n) <==> forall|i: int| 0 <= i < n ==> (#[trigger] members[i]).1.wf(),
    decreases n,
{
    if n > 0 {
        lemma_members_wf(members, (n - 1) as nat);
    }
}

/// An array is well-formed if and only if each of its elements is.
pub proof fn lemma_array_wf(items: Seq<ValueView>)
    ensures
        ValueView::Array(items).wf() <==> forall|i: int|
            0 <= i < items.len() ==> (#[trigger] items[i]).wf(),
{
    lemma_items_wf(items, items.len());
}

/// An object is well-formed if and only if its keys differ from each other
/// and each of its values is well-formed.
pub proof fn lemma_object_wf(members: Members)
    ensures
        ValueView::Object(members).wf() <==> distinct_keys(members) && forall|i: int|
            0 <= i < members.len() ==> (#[trigger] members[i]).1.wf(),
{
    lemma_members_wf(members, members.len());
}

/// Pushing keeps values well-formed, and so does taking the visible value
/// of a chain or the one before it.
pub proof fn lemma_pushed_wf(a: ValueView, b: ValueView)
    requires
        a.wf(),
        b.wf(),
    ensures
        a.pushed(b).wf(),
        a.latest().wf(),
        a.prev_latest().wf(),
{
    assert(b.displacing(a).wf());
    if let ValueView::Link { prev, value } = a {
        assert(prev.wf());
        if let ValueView::Link { prev: older, value: shown } = *prev {
            assert(shown.wf());
        }
    }
}

/// The members that a merge adds are members of the right object whose keys
/// the left one does not have, in the order in which the right one has them.
pub proof fn lemma_added(left: Members, right: Members, n: nat)
    requires
        n <= right.len(),
        distinct_keys(right),
    ensures
        distinct_keys(added(left, right, n)),
        forall|k: int|
            0 <= k < added(left, right, n).len() ==> exists|j: int|
                0 <= j < n && right[j] == #[trigger] added(left, right, n)[k] && !has_key(
                    left,
                    right[j].0,
                ),
    decreases n,
{
    if n > 0 {
        lemma_added(left, right, (n - 1) as nat);
        let before = added(left, right, (n - 1) as nat);
        let now = added(left, right, n);
        assert forall|k: int| 0 <= k < now.len() implies exists|j: int|
            0 <= j < n && right[j] == #[trigger] now[k] && !has_key(left, right[j].0) by {
            if k < before.len() {
                let j = choose|j: int|
                    0 <= j < n - 1 && right[j] == before[k] && !has_key(left, right[j].0);
                assert(right[j] == now[k]);
            } else {
                assert(right[n - 1] == now[k]);
            }
        }
        assert forall|k1: int, k2: int| 0 <= k1 < k2 < now.len() implies (#[trigger] now[k1]).0
            != (#[trigger] now[k2]).0 by {
            if k2 < before.len() {
                assert(before[k1].0 != before[k2].0);
            } else {
                let j = choose|j: int|
                    0 <= j < n - 1 && right[j] == before[k1] && !has_key(left, right[j].0);
                assert(right[j].0 != right[n - 1].0);
            }
        }
    }
}

/// Merging keeps values well-formed.
pub proof fn lemma_merged_wf(a: ValueView, b: ValueView)
    requires
        a.wf(),
        b.wf(),
    ensures
        a.merged(b).wf(),
    decreases a,
{
    match a {
        ValueView::Object(left) => match b {
            ValueView::Object(right) => {
                lemma_object_wf(left);
                lemma_object_wf(right);
                let extra = added(left, right, right.len());
                let all = kept(left, right) + extra;
                lemma_object_wf(all);
                lemma_added(left, right, right.len());
                assert(a.merged(b) == ValueView::Object(all));
                assert forall|i: int| 0 <= i < all.len() implies (#[trigger] all[i]).1.wf() by {
                    if i < left.len() {
                        assert(all[i] == kept(left, right)[i]);
                        assert(left[i].1.wf());
                        match find_key(right, left[i].0, 0) {
                            Some(j) => {
                                lemma_find_key(right, left[i].0, 0);
                                assert(right[j].1.wf());
                                lemma_merged_wf(left[i].1, right[j].1);
                            },
                            None => {},
                        }
                    } else {
                        let k = i - left.len();
                        assert(all[i] == extra[k]);
                        let j = choose|j: int|
                            0 <= j < right.len() && right[j] == extra[k] && !has_key(
                                left,
                                right[j].0,
                            );
                        assert(right[j].1.wf());
                    }
                }
                assert forall|i: int, j: int| 0 <= i < j < all.len() implies (#[trigger] all[i]).0
                    != (#[trigger] all[j]).0 by {
                    if j < left.len() {
                        assert(all[i] == kept(left, right)[i]);
                        assert(all[j] == kept(left, right)[j]);
                        assert(left[i].0 != left[j].0);
                    } else if i < left.len() {
                        let k = j - left.len();
                        assert(all[i] == kept(left, right)[i]);
                        assert(all[j] == extra[k]);
                        let r = choose|r: int|
                            0 <= r < right.len() && right[r] == extra[k] && !has_key(
                                left,
                                right[r].0,
                            );
                        lemma_find_key(left, right[r].0, 0);
                        assert(left[i].0 != right[r].0);
                    } else {
                        assert(all[i] == extra[i - left.len()]);
                        assert(all[j] == extra[j - left.len()]);
                        assert(extra[i - left.len()].0 != extra[j - left.len()].0);
                    }
                }
            },
            _ => {},
        },
        ValueView::Link { prev, value } => {
            if !(b is Link) {
                lemma_merged_wf(*value, b);
                lemma_pushed_wf(a, value.merged(b));
            }
        },
        _ => {},
    }
}

/// Redeclaring keeps values well-formed.
pub proof fn lemma_redeclared_wf(held: ValueView, new: ValueView)
    requires
        held.wf(),
        new.wf(),
    ensures
        held.redeclared(new).wf(),
    decreases new, 1nat,
{
    match (held, new) {
        (ValueView::Object(members), ValueView::Object(declarations)) => {
            lemma_object_wf(members);
            lemma_object_wf(declarations);
            lemma_declared_all_wf(members, declarations, declarations.len());
            lemma_object_wf(declared_all(members, declarations, declarations.len()));
        },
        _ => {
            lemma_pushed_wf(held, new);
        },
    }
}

/// Declaring a key keeps the keys distinct and the values well-formed.
pub proof fn lemma_declared_wf(members: Members, key: Seq<char>, value: ValueView)
    requires
        distinct_keys(members),
        forall|i: int| 0 <= i < members.len() ==> (#[trigger] members[i]).1.wf(),
        value.wf(),
    ensures
        distinct_keys(declared(members, key, value)),
        forall|i: int|
            0 <= i < declared(members, key, value).len() ==> (#[trigger] declared(
                members,
                key,
                value,
            )[i]).1.wf(),
    decreases value, 2nat,
{
    lemma_find_key(members, key, 0);
    let now = declared(members, key, value);
    match find_key(members, key, 0) {
        Some(at) => {
            assert(members[at].1.wf());
            lemma_redeclared_wf(members[at].1, value);
            assert forall|i: int| 0 <= i < now.len() implies (#[trigger] now[i]).1.wf() by {
                if i != at {
                    assert(now[i] == members[i]);
                }
            }
            assert forall|i: int, j: int| 0 <= i < j < now.len() implies (#[trigger] now[i]).0
                != (#[trigger] now[j]).0 by {
                assert(now[i].0 == members[i].0);
                assert(now[j].0 == members[j].0);
            }
        },
        None => {
            assert forall|i: int| 0 <= i < now.len() implies (#[trigger] now[i]).1.wf() by {
                if i < members.len() {
                    assert(now[i] == members[i]);
                }
            }
            assert forall|i: int, j: int| 0 <= i < j < now.len() implies (#[trigger] now[i]).0
                != (#[trigger] now[j]).0 by {
                assert(now[i] == members[i]);
                if j < members.len() {
                    assert(now[j] == members[j]);
                }
            }
        },
    }
}

/// Declaring keys one after the other keeps the keys distinct and the values well-formed.
pub proof fn lemma_declared_all_wf(members: Members, declarations: Members, n: nat)
    requires
        distinct_keys(members),
        forall|i: int| 0 <= i < members.len() ==> (#[trigger] members[i]).1.wf(),
        forall|i: int| 0 <= i < declarations.len() ==> (#[trigger] declarations[i]).1.wf(),
        n <= declarations.len(),
    ensures
        distinct_keys(declared_all(members, declarations, n)),
        forall|i: int|
            0 <= i < declared_all(members, declarations, n).len() ==> (#[trigger] declared_all(
                members,
                declarations,
                n,
            )[i]).1.wf(),
    decreases declarations, n,
{
    if n > 0 {
        lemma_declared_all_wf(members, declarations, (n - 1) as nat);
        assert(declarations[n - 1].1.wf());
        lemma_declared_wf(
            declared_all(members, declarations, (n - 1) as nat),
            declarations[n - 1].0,
            declarations[n - 1].1,
        );
    }
}

/// What is found in a well-formed value is well-formed.
pub proof fn lemma_lookup_wf(root: ValueView, path: Seq<char>)
    requires
        root.wf(),
    ensures
        root.lookup(path) matches Some(v) ==> v.wf(),
    decreases path.len(),
{
    if let ValueView::Object(members) = root {
        lemma_object_wf(members);
        if let Some(i) = find_key(members, head_key(path), 0) {
            lemma_find_key(members, head_key(path), 0);
            assert(members[i].1.wf());
            lemma_pushed_wf(members[i].1, members[i].1);
            if let Some(rest) = tail_path(path) {
                if rest.len() < path.len() {
                    lemma_lookup_wf(members[i].1.latest(), rest);
                }
            }
        }
    }
}

/// One pass of resolution against a well-formed root keeps values well-formed.
pub proof fn lemma_resolved_once_wf(v: ValueView, root: ValueView, vars: Variables)
    requires
        v.wf(),
        root.wf(),
    ensures
        v.resolved_once(root, vars) matches Ok(done) ==> done.wf(),
    decreases v,
{
    match v {
        ValueView::Reference { prev, path, missing } => {
            lemma_lookup_wf(root, path);
            if let Some(p) = prev {
                lemma_pushed_wf(*p, *p);
            }
        },
        ValueView::Link { prev, value } => {
            lemma_resolved_once_wf(*prev, root, vars);
            lemma_resolved_once_wf(*value, root, vars);
            if let Ok(older) = prev.resolved_once(root, vars) {
                if let Ok(newer) = value.resolved_once(root, vars) {
                    lemma_pushed_wf(older, newer);
                }
            }
        },
        ValueView::Array(items) => {
            if let Ok(done) = resolved_items(items, root, vars, items.len()) {
                lemma_array_wf(items);
                lemma_array_wf(done);
                lemma_resolved_items(items, root, vars, items.len());
                assert forall|i: int| 0 <= i < done.len() implies (#[trigger] done[i]).wf() by {
                    assert(items[i].wf());
                    lemma_resolved_once_wf(items[i], root, vars);
                }
            }
        },
        ValueView::Object(members) => {
            if let Ok(done) = resolved_members(members, root, vars, members.len()) {
                lemma_object_wf(members);
                lemma_object_wf(done);
                lemma_resolved_members(members, root, vars, members.len());
                assert forall|i: int| 0 <= i < done.len() implies (#[trigger] done[i]).1.wf() by {
                    assert(members[i].1.wf());
                    lemma_resolved_once_wf(members[i].1, root, vars);
                }
                assert forall|i: int, j: int| 0 <= i < j < done.len() implies (#[trigger] done[i]).0
                    != (#[trigger] done[j]).0 by {
                    assert(members[i].0 != members[j].0);
                }
            }
        },
        _ => {},
    }
}

/// Resolution keeps values well-formed.
pub proof fn lemma_resolved_wf(v: ValueView, vars: Variables, passes: nat)
    requires
        v.wf(),
    ensures
        v.resolved(vars, passes) matches Ok(done) ==> done.wf(),
    decreases passes,
{
    if v.references() != 0 && passes != 0 {
        lemma_resolved_once_wf(v, v, vars);
        if let Ok(next) = v.resolved_once(v, vars) {
            lemma_resolved_wf(next, vars, (passes - 1) as nat);
        }
    }
}

} // verus!
