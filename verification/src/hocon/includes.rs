//! Directives that name files to be spliced in, and what is known of
//! values that hold none.
//!
//! A value that names no file keeps naming none when it is pushed, merged,
//! redeclared, looked into or resolved.

use crate::hocon::lookup::{head_key, tail_path};
use crate::hocon::members::{find_key, lemma_find_key};
use crate::hocon::merge::{added, declared, declared_all, kept};
use crate::hocon::resolve::{
    lemma_resolved_items, lemma_resolved_members, resolved_items, resolved_members, Variables,
};
use crate::hocon::value::{Members, ValueView};
use vstd::prelude::*;

verus! {

impl ValueView {
    /// Whether a file is still to be included somewhere in the value.
    pub open spec fn has_include(self) -> bool
        decreases self, 0nat,
    {
        match self {
            ValueView::Include(_) => true,
            ValueView::Array(items) => any_item_includes(items, items.len()),
            ValueView::Object(members) => any_member_includes(members, members.len()),
            ValueView::Reference { prev: Some(p), .. } => p.has_include(),
            ValueView::Link { prev, value } => prev.has_include() || value.has_include(),
            _ => false,
        }
    }
}

/// Whether a file is still to be included somewhere in the first `n` of `items`.
pub open spec fn any_item_includes(items: Seq<ValueView>, n: nat) -> bool
    decreases items, n,
{
    if n == 0 || n > items.len() {
        false
    } else {
        any_item_includes(items, (n - 1) as nat) || items[n - 1].has_include()
    }
}

/// Whether a file is still to be included somewhere in the values of the
/// first `n` of `members`.
pub open spec fn any_member_includes(members: Members, n: nat) -> bool
    decreases members, n,
{
    if n == 0 || n > members.len() {
        false
    } else {
        any_member_includes(members, (n - 1) as nat) || members[n - 1].1.has_include()
    }
}

/// The first `n` items name a file if and only if one of them does.
pub proof fn lemma_any_item_includes(items: Seq<ValueView>, n: nat)
    requires
        n <= items.len(),
    ensures
        any_item_includes(items, n) <==> exists|i: int|
            0 <= i < n && (#[trigger] items[i]).has_include(),
    decreases n,
{
    if n > 0 {
        lemma_any_item_includes(items, (n - 1) as nat);
        if items[n - 1].has_include() {
            assert(0 <= n - 1 < n && items[n - 1].has_include());
        }
    }
}

/// The first `n` members name a file if and only if the value of one of them does.
pub proof fn lemma_any_member_includes(members: Members, n: nat)
    requires
        n <= members.len(),
    ensures
        any_member_includes(members, n) <==> exists|i: int|
            0 <= i < n && (#[trigger] members[i]).1.has_include(),
    decreases n,
{
    if n > 0 {
        lemma_any_member_includes(members, (n - 1) as nat);
        if members[n - 1].1.has_include() {
            assert(0 <= n - 1 < n && members[n - 1].1.has_include());
        }
    }
}

/// `done` is `value` with its files spliced in: it names no file any more,
/// it is `value` itself where `value` named none, and it is well-formed
/// where `value` was.
pub open spec fn spliced(value: ValueView, done: ValueView) -> bool {
    &&& !done.has_include()
    &&& !value.has_include() ==> done == value
    &&& value.wf() ==> done.wf()
}

/// The members that a merge adds are members of the right object.
pub proof fn lemma_added_from_right(left: Members, right: Members, n: nat)
    requires
        n <= right.len(),
    ensures
        forall|k: int|
            0 <= k < added(left, right, n).len() ==> exists|j: int|
                0 <= j < n && right[j] == #[trigger] added(left, right, n)[k],
    decreases n,
{
    if n > 0 {
        lemma_added_from_right(left, right, (n - 1) as nat);
        let before = added(left, right, (n - 1) as nat);
        let now = added(left, right, n);
        assert forall|k: int| 0 <= k < now.len() implies exists|j: int|
            0 <= j < n && right[j] == #[trigger] now[k] by {
            if k < before.len() {
                let j = choose|j: int| 0 <= j < n - 1 && right[j] == before[k];
                assert(right[j] == now[k]);
            } else {
                assert(right[n - 1] == now[k]);
            }
        }
    }
}

/// An array names no file if and only if none of its elements does.
pub proof fn lemma_array_names_no_file(items: Seq<ValueView>)
    ensures
        !ValueView::Array(items).has_include() <==> forall|i: int|
            0 <= i < items.len() ==> !(#[trigger] items[i]).has_include(),
{
    lemma_any_item_includes(items, items.len());
}

/// An object names no file if and only if none of its values does.
pub proof fn lemma_object_names_no_file(members: Members)
    ensures
        !ValueView::Object(members).has_include() <==> forall|i: int|
            0 <= i < members.len() ==> !(#[trigger] members[i]).1.has_include(),
{
    lemma_any_member_includes(members, members.len());
}

/// A value that names no file, pushed onto another that names none, gives
/// a chain that names none.
pub proof fn lemma_pushed_names_no_file(a: ValueView, b: ValueView)
    requires
        !a.has_include(),
        !b.has_include(),
    ensures
        !a.pushed(b).has_include(),
        !a.latest().has_include(),
{
    assert(!b.displacing(a).has_include());
}

/// A value whose visible value is a directive names a file.
pub proof fn lemma_directive_names_file(v: ValueView)
    requires
        v.latest() is Include,
    ensures
        v.has_include(),
{
    if let ValueView::Link { prev, value } = v {
        assert(value.has_include());
    }
}

/// Redeclaring a value that names no file with one that names none gives
/// one that names none.
pub proof fn lemma_redeclared_names_no_file(held: ValueView, new: ValueView)
    requires
        !held.has_include(),
        !new.has_include(),
    ensures
        !held.redeclared(new).has_include(),
    decreases new, 1nat,
{
    match (held, new) {
        (ValueView::Object(members), ValueView::Object(declarations)) => {
            lemma_object_names_no_file(members);
            lemma_object_names_no_file(declarations);
            lemma_declared_all_names_no_file(members, declarations, declarations.len());
            lemma_object_names_no_file(
                declared_all(members, declarations, declarations.len()),
            );
        },
        _ => {
            lemma_pushed_names_no_file(held, new);
        },
    }
}

/// Declaring a key with a value that names no file, among members that
/// name none, gives members that name none.
pub proof fn lemma_declared_names_no_file(members: Members, key: Seq<char>, value: ValueView)
    requires
        forall|i: int| 0 <= i < members.len() ==> !(#[trigger] members[i]).1.has_include(),
        !value.has_include(),
    ensures
        forall|i: int|
            0 <= i < declared(members, key, value).len() ==> !(#[trigger] declared(
                members,
                key,
                value,
            )[i]).1.has_include(),
    decreases value, 2nat,
{
    lemma_find_key(members, key, 0);
    let now = declared(members, key, value);
    match find_key(members, key, 0) {
        Some(at) => {
            assert(!members[at].1.has_include());
            lemma_redeclared_names_no_file(members[at].1, value);
            assert forall|i: int| 0 <= i < now.len() implies !(#[trigger] now[i]).1.has_include() by {
                if i != at {
                    assert(now[i] == members[i]);
                }
            }
        },
        None => {
            assert forall|i: int| 0 <= i < now.len() implies !(#[trigger] now[i]).1.has_include() by {
                if i < members.len() {
                    assert(now[i] == members[i]);
                }
            }
        },
    }
}

/// Declaring keys one after the other with values that name no file,
/// among members that name none, gives members that name none.
pub proof fn lemma_declared_all_names_no_file(members: Members, declarations: Members, n: nat)
    requires
        forall|i: int| 0 <= i < members.len() ==> !(#[trigger] members[i]).1.has_include(),
        forall|i: int|
            0 <= i < declarations.len() ==> !(#[trigger] declarations[i]).1.has_include(),
        n <= declarations.len(),
    ensures
        forall|i: int|
            0 <= i < declared_all(members, declarations, n).len() ==> !(#[trigger] declared_all(
                members,
                declarations,
                n,
            )[i]).1.has_include(),
    decreases declarations, n,
{
    if n > 0 {
        lemma_declared_all_names_no_file(members, declarations, (n - 1) as nat);
        assert(!declarations[n - 1].1.has_include());
        assert(declared_all(members, declarations, n) == declared(
            declared_all(members, declarations, (n - 1) as nat),
            declarations[n - 1].0,
            declarations[n - 1].1,
        ));
        lemma_declared_names_no_file(
            declared_all(members, declarations, (n - 1) as nat),
            declarations[n - 1].0,
            declarations[n - 1].1,
        );
    }
}

/// A value that names no file, merged with another that names none, names none.
pub proof fn lemma_merged_names_no_file(a: ValueView, b: ValueView)
    requires
        !a.has_include(),
        !b.has_include(),
    ensures
        !a.merged(b).has_include(),
    decreases a,
{
    match a {
        ValueView::Object(left) => match b {
            ValueView::Object(right) => {
                lemma_object_names_no_file(left);
                lemma_object_names_no_file(right);
                lemma_object_names_no_file(
                    kept(left, right) + added(left, right, right.len()),
                );
                lemma_added_from_right(left, right, right.len());
                let all = kept(left, right) + added(left, right, right.len());
                assert(a.merged(b) == ValueView::Object(all));
                assert forall|i: int| 0 <= i < all.len() implies !(#[trigger] all[i]).1.has_include() by {
                    if i < left.len() {
                        assert(all[i] == kept(left, right)[i]);
                        assert(!left[i].1.has_include());
                        match find_key(right, left[i].0, 0) {
                            Some(j) => {
                                lemma_find_key(right, left[i].0, 0);
                                assert(!right[j].1.has_include());
                                lemma_merged_names_no_file(left[i].1, right[j].1);
                            },
                            None => {},
                        }
                    } else {
                        let k = i - left.len();
                        assert(all[i] == added(left, right, right.len())[k]);
                        let j = choose|j: int|
                            0 <= j < right.len() && right[j] == added(left, right, right.len())[k];
                        assert(!right[j].1.has_include());
                    }
                }
            },
            _ => {},
        },
        ValueView::Link { prev, value } => {
            if !(b is Link) {
                lemma_merged_names_no_file(*value, b);
                lemma_pushed_names_no_file(a, value.merged(b));
            }
        },
        _ => {},
    }
}

/// What is found in a value that names no file names none.
pub proof fn lemma_lookup_names_no_file(root: ValueView, path: Seq<char>)
    requires
        !root.has_include(),
    ensures
        root.lookup(path) matches Some(v) ==> !v.has_include(),
    decreases path.len(),
{
    if let ValueView::Object(members) = root {
        lemma_object_names_no_file(members);
        if let Some(i) = find_key(members, head_key(path), 0) {
            lemma_find_key(members, head_key(path), 0);
            assert(!members[i].1.has_include());
            if let Some(rest) = tail_path(path) {
                if rest.len() < path.len() {
                    lemma_lookup_names_no_file(members[i].1.latest(), rest);
                }
            }
        }
    }
}

/// One pass of resolution against a root that names no file leaves a
/// value that names none as one that names none.
pub proof fn lemma_resolved_once_names_no_file(v: ValueView, root: ValueView, vars: Variables)
    requires
        !v.has_include(),
        !root.has_include(),
    ensures
        v.resolved_once(root, vars) matches Ok(done) ==> !done.has_include(),
    decreases v,
{
    match v {
        ValueView::Reference { prev, path, missing } => {
            lemma_lookup_names_no_file(root, path);
            if let Some(p) = prev {
                lemma_pushed_names_no_file(*p, *p);
            }
        },
        ValueView::Link { prev, value } => {
            lemma_resolved_once_names_no_file(*prev, root, vars);
            lemma_resolved_once_names_no_file(*value, root, vars);
            if let Ok(older) = prev.resolved_once(root, vars) {
                if let Ok(newer) = value.resolved_once(root, vars) {
                    lemma_pushed_names_no_file(older, newer);
                }
            }
        },
        ValueView::Array(items) => {
            if let Ok(done) = resolved_items(items, root, vars, items.len()) {
                lemma_array_names_no_file(items);
                lemma_array_names_no_file(done);
                lemma_resolved_items(items, root, vars, items.len());
                assert forall|i: int| 0 <= i < done.len() implies !(#[trigger] done[i]).has_include() by {
                    assert(!items[i].has_include());
                    lemma_resolved_once_names_no_file(items[i], root, vars);
                }
            }
        },
        ValueView::Object(members) => {
            if let Ok(done) = resolved_members(members, root, vars, members.len()) {
                lemma_object_names_no_file(members);
                lemma_object_names_no_file(done);
                lemma_resolved_members(members, root, vars, members.len());
                assert forall|i: int| 0 <= i < done.len() implies !(#[trigger] done[i]).1.has_include() by {
                    assert(!members[i].1.has_include());
                    lemma_resolved_once_names_no_file(members[i].1, root, vars);
                }
            }
        },
        _ => {},
    }
}

/// Resolution leaves a value that names no file as one that names none.
pub proof fn lemma_resolved_names_no_file(v: ValueView, vars: Variables, passes: nat)
    requires
        !v.has_include(),
    ensures
        v.resolved(vars, passes) matches Ok(done) ==> !done.has_include(),
    decreases passes,
{
    if v.references() != 0 && passes != 0 {
        lemma_resolved_once_names_no_file(v, v, vars);
        if let Ok(next) = v.resolved_once(v, vars) {
            lemma_resolved_names_no_file(next, vars, (passes - 1) as nat);
        }
    }
}

} // verus!
