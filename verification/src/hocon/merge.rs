//! Merging: a fallback supplies defaults, a redeclaration takes precedence.
//!
//! `merged` is the fallback merge. The left value wins; two objects are
//! merged key by key, and keys that only the right one has are added behind
//! those of the left. A reference on the left remembers the value that it
//! displaces, so that an optional reference can fall back on it.
//!
//! `redeclared` is what a key holds after it is declared again in one
//! document. The new declaration wins; two objects are folded together
//! member by member, and any other value is pushed onto the history of the key.

use crate::hocon::members::{find_key, find_member, has_key, lemma_member_views_push};
use crate::hocon::value::{
    lemma_object_view, member_views, ConfigValue, Members, ValueView,
};
use crate::hocon::wellformed::{
    lemma_declared_wf, lemma_merged_wf, lemma_object_wf, lemma_redeclared_wf,
};
use vstd::prelude::*;

verus! {

/// The members of `right`, among its first `n`, whose keys `left` does not have.
pub open spec fn added(left: Members, right: Members, n: nat) -> Members
    decreases n,
{
    if n == 0 {
        Seq::empty()
    } else if has_key(left, right[n - 1].0) {
        added(left, right, (n - 1) as nat)
    } else {
        added(left, right, (n - 1) as nat).push(right[n - 1])
    }
}

/// The members of `left`, each merged with the member of `right` that has
/// the same key, where there is one.
pub open spec fn kept(left: Members, right: Members) -> Members
    decreases left,
{
    Seq::new(
        left.len(),
        |i: int|
            if 0 <= i < left.len() {
                (
                    left[i].0,
                    match find_key(right, left[i].0, 0) {
                        Some(j) => left[i].1.merged(right[j].1),
                        None => left[i].1,
                    },
                )
            } else {
                (Seq::empty(), ValueView::Null)
            },
    )
}

impl ValueView {
    /// This value with `other` as its fallback.
    pub open spec fn merged(self, other: ValueView) -> ValueView
        decreases self,
    {
        match self {
            ValueView::Object(left) => match other {
                ValueView::Object(right) => ValueView::Object(
                    kept(left, right) + added(left, right, right.len()),
                ),
                _ => self,
            },
            ValueView::Link { prev, value } => if other is Link {
                self
            } else {
                self.pushed(value.merged(other))
            },
            ValueView::Reference { path, missing, .. } => ValueView::Reference {
                prev: Some(Box::new(other)),
                path,
                missing,
            },
            _ => self,
        }
    }

    /// What a key holds that held this value and is declared again with `new`.
    pub open spec fn redeclared(self, new: ValueView) -> ValueView
        decreases new, 1nat,
    {
        match (self, new) {
            (ValueView::Object(members), ValueView::Object(declarations)) => ValueView::Object(
                declared_all(members, declarations, declarations.len()),
            ),
            _ => self.pushed(new),
        }
    }
}

/// `members` after `key` is declared with `value`: a new key goes to the
/// end, a known key keeps its place and has its value redeclared.
pub open spec fn declared(members: Members, key: Seq<char>, value: ValueView) -> Members
    decreases value, 2nat,
{
    match find_key(members, key, 0) {
        Some(i) => members.update(i, (key, members[i].1.redeclared(value))),
        None => members.push((key, value)),
    }
}

/// `members` after the first `n` of `declarations` are declared in order.
pub open spec fn declared_all(members: Members, declarations: Members, n: nat) -> Members
    decreases declarations, n,
{
    if n == 0 || n > declarations.len() {
        members
    } else {
        declared(
            declared_all(members, declarations, (n - 1) as nat),
            declarations[n - 1].0,
            declarations[n - 1].1,
        )
    }
}

/// No member among the first `n` of `right` has a key of `left`: all of them are added.
pub proof fn lemma_added_disjoint(left: Members, right: Members, n: nat)
    requires
        n <= right.len(),
        forall|j: int| 0 <= j < right.len() ==> !has_key(left, #[trigger] right[j].0),
    ensures
        added(left, right, n) == right.take(n as int),
    decreases n,
{
    if n > 0 {
        lemma_added_disjoint(left, right, (n - 1) as nat);
        assert(right.take(n as int) =~= right.take(n - 1).push(right[n - 1]));
    } else {
        assert(right.take(0) =~= Seq::<(Seq<char>, ValueView)>::empty());
    }
}

/// Merging is the union on disjoint keys: where two objects share no key,
/// the merged object has the members of the left one followed by those of
/// the right one, each with the value it had.
pub proof fn lemma_merge_disjoint(left: Members, right: Members)
    requires
        forall|i: int| 0 <= i < left.len() ==> !has_key(right, #[trigger] left[i].0),
        forall|j: int| 0 <= j < right.len() ==> !has_key(left, #[trigger] right[j].0),
    ensures
        ValueView::Object(left).merged(ValueView::Object(right)) == ValueView::Object(left + right),
{
    lemma_added_disjoint(left, right, right.len());
    assert(right.take(right.len() as int) =~= right);
    assert(kept(left, right) =~= left);
}

/// The members of `right` whose keys `left` does not have, in order.
fn added_members(left: &Vec<(String, ConfigValue)>, right: &Vec<(String, ConfigValue)>) -> (r: Vec<
    (String, ConfigValue),
>)
    ensures
        member_views(r@) == added(member_views(left@), member_views(right@), right@.len()),
{
    let mut out: Vec<(String, ConfigValue)> = Vec::new();
    let mut j: usize = 0;
    assert(member_views(out@) =~= Seq::<(Seq<char>, ValueView)>::empty());
    while j < right.len()
        invariant
            j <= right.len(),
            member_views(out@) == added(member_views(left@), member_views(right@), j as nat),
        decreases right.len() - j,
    {
        if find_member(left, &right[j].0).is_none() {
            proof {
                lemma_member_views_push(out@, (right[j as int].0, right[j as int].1));
            }
            let member = (right[j].0.clone(), right[j].1.clone());
            proof {
                lemma_member_views_push(out@, member);
            }
            out.push(member);
        }
        j += 1;
    }
    out
}

/// The members of `left`, each merged with the member of `right` that has
/// the same key, where there is one.
fn kept_members(left: &Vec<(String, ConfigValue)>, right: &Vec<(String, ConfigValue)>) -> (r: Vec<
    (String, ConfigValue),
>)
    ensures
        member_views(r@) == kept(member_views(left@), member_views(right@)),
    decreases left,
{
    let ghost lv = member_views(left@);
    let ghost rv = member_views(right@);
    let mut out: Vec<(String, ConfigValue)> = Vec::new();
    let mut i: usize = 0;
    while i < left.len()
        invariant
            i <= left.len(),
            lv == member_views(left@),
            rv == member_views(right@),
            out.len() == i,
            forall|k: int|
                0 <= k < i ==> (#[trigger] out[k]).0@ == kept(lv, rv)[k].0 && out[k].1@ == kept(
                    lv,
                    rv,
                )[k].1,
        decreases left.len() - i,
    {
        let value = match find_member(right, &left[i].0) {
            Some(j) => left[i].1.merged(&right[j].1),
            None => left[i].1.clone(),
        };
        out.push((left[i].0.clone(), value));
        i += 1;
    }
    assert(member_views(out@) =~= kept(lv, rv));
    out
}

impl ConfigValue {
    /// This value with `other` as its fallback.
    pub fn merged(&self, other: &ConfigValue) -> (r: ConfigValue)
        ensures
            r@ == self@.merged(other@),
            self@.wf() && other@.wf() ==> r@.wf(),
        decreases self,
    {
        proof {
            if self@.wf() && other@.wf() {
                lemma_merged_wf(self@, other@);
            }
        }
        match self {
            ConfigValue::Object(left) => match other {
                ConfigValue::Object(right) => {
                    proof {
                        lemma_object_view(*left);
                        lemma_object_view(*right);
                    }
                    let mut out = kept_members(left, right);
                    let mut rest = added_members(left, right);
                    let ghost first = out@;
                    let ghost second = rest@;
                    out.append(&mut rest);
                    assert(member_views(out@) =~= member_views(first) + member_views(second));
                    ConfigValue::of_object(out)
                },
                _ => self.clone(),
            },
            ConfigValue::Link { prev, value } => match other {
                ConfigValue::Link { .. } => self.clone(),
                _ => {
                    let mut out = self.clone();
                    out.push(value.merged(other));
                    out
                },
            },
            ConfigValue::Reference { path, missing, .. } => ConfigValue::Reference {
                prev: Some(Box::new(other.clone())),
                path: path.clone(),
                missing: *missing,
            },
            _ => self.clone(),
        }
    }

    /// Gives this value `other` as its fallback: the left value wins,
    /// objects are merged key by key, and a reference remembers what it displaces.
    pub fn merge_with(&mut self, other: ConfigValue)
        ensures
            final(self)@ == old(self)@.merged(other@),
            old(self)@.wf() && other@.wf() ==> final(self)@.wf(),
    {
        let merged = self.merged(&other);
        *self = merged;
    }

    /// Gives this value `other` as its fallback; the same as [`Self::merge_with`].
    pub fn with_fallback(&mut self, other: ConfigValue)
        ensures
            final(self)@ == old(self)@.merged(other@),
            old(self)@.wf() && other@.wf() ==> final(self)@.wf(),
    {
        self.merge_with(other);
    }
}

/// Declares `key` with `value` in `members`: a new key goes to the end, a
/// known key keeps its place and has its value redeclared.
pub fn declare(members: &mut Vec<(String, ConfigValue)>, key: String, value: ConfigValue)
    ensures
        member_views(final(members)@) == declared(member_views(old(members)@), key@, value@),
        ValueView::Object(member_views(old(members)@)).wf() && value@.wf() ==> ValueView::Object(
            member_views(final(members)@),
        ).wf(),
    decreases value@, 2nat,
{
    proof {
        let held = member_views(members@);
        if ValueView::Object(held).wf() && value@.wf() {
            lemma_object_wf(held);
            lemma_declared_wf(held, key@, value@);
            lemma_object_wf(declared(held, key@, value@));
        }
    }
    let ghost before = member_views(members@);
    match find_member(members, &key) {
        Some(i) => {
            let held = members[i].1.clone();
            let renewed = redeclare(held, value);
            members[i] = (key, renewed);
            assert(member_views(members@) =~= before.update(
                i as int,
                (key@, before[i as int].1.redeclared(value@)),
            ));
        },
        None => {
            proof {
                lemma_member_views_push(members@, (key, value));
            }
            members.push((key, value));
        },
    }
}

/// Declares `declarations` in `members`, in order.
pub fn declare_all(
    members: &mut Vec<(String, ConfigValue)>,
    declarations: &Vec<(String, ConfigValue)>,
)
    ensures
        member_views(final(members)@) == declared_all(
            member_views(old(members)@),
            member_views(declarations@),
            declarations@.len(),
        ),
    decreases member_views(declarations@), declarations@.len(),
{
    let ghost before = member_views(members@);
    let ghost news = member_views(declarations@);
    let mut j: usize = 0;
    while j < declarations.len()
        invariant
            j <= declarations.len(),
            news == member_views(declarations@),
            member_views(members@) == declared_all(before, news, j as nat),
        decreases declarations.len() - j,
    {
        assert(news[j as int].1 == declarations[j as int].1@);
        assert(decreases_to!(news => news[j as int]));
        declare(members, declarations[j].0.clone(), declarations[j].1.clone());
        j += 1;
    }
}

/// What a key holds that held `held` and is declared again with `new`: two
/// objects are folded together member by member, and any other value is
/// pushed onto the history of the key.
pub fn redeclare(held: ConfigValue, new: ConfigValue) -> (r: ConfigValue)
    ensures
        r@ == held@.redeclared(new@),
        held@.wf() && new@.wf() ==> r@.wf(),
    decreases new@, 1nat,
{
    proof {
        if held@.wf() && new@.wf() {
            lemma_redeclared_wf(held@, new@);
        }
    }
    match (held, new) {
        (ConfigValue::Object(members), ConfigValue::Object(declarations)) => {
            proof {
                lemma_object_view(members);
                lemma_object_view(declarations);
            }
            let mut out = members;
            declare_all(&mut out, &declarations);
            ConfigValue::of_object(out)
        },
        (held, new) => {
            let mut out = held;
            out.push(new);
            out
        },
    }
}

} // verus!
