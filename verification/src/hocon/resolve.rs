//! Resolution of substitutions.
//!
//! One pass walks a value and substitutes every reference by what its path
//! names in the root, or else in the environment. An optional reference
//! that names nothing falls back on the value that it displaced, or on
//! `Null`; a required one that names nothing is an error. Passes are
//! repeated until no reference is left, within a bound that acyclic
//! documents do not reach.

use crate::hocon::error::{ConfigError, ConfigErrorView};
use crate::hocon::value::{
    lemma_array_view, lemma_object_view, member_views, views, ConfigValue, Members, ValueView,
};
use crate::hocon::wellformed::{lemma_resolved_once_wf, lemma_resolved_wf};
use crate::text::push_text;
use vstd::prelude::*;

verus! {

/// The environment that references fall back on: names and their values.
#[derive(Debug)]
pub struct Environment {
    pub vars: Vec<(String, String)>,
}

/// The mathematical content of an [`Environment`].
pub type Variables = Seq<(Seq<char>, Seq<char>)>;

impl View for Environment {
    type V = Variables;

    open spec fn view(&self) -> Variables {
        Seq::new(self.vars@.len(), |i: int| (self.vars@[i].0@, self.vars@[i].1@))
    }
}

/// The value of the first variable from `from` on whose name is `name`.
pub open spec fn variable(vars: Variables, name: Seq<char>, from: int) -> Option<Seq<char>>
    decreases vars.len() - from,
{
    if from < 0 || from >= vars.len() {
        None
    } else if vars[from].0 == name {
        Some(vars[from].1)
    } else {
        variable(vars, name, from + 1)
    }
}

impl Environment {
    /// An environment without variables.
    pub fn new() -> (r: Self)
        ensures
            r@ == Seq::<(Seq<char>, Seq<char>)>::empty(),
    {
        let r = Environment { vars: Vec::new() };
        assert(r@ =~= Seq::<(Seq<char>, Seq<char>)>::empty());
        r
    }

    /// Adds a variable behind those that are there.
    pub fn set(&mut self, name: String, value: String)
        ensures
            final(self)@ == old(self)@.push((name@, value@)),
    {
        self.vars.push((name, value));
        assert(self@ =~= old(self)@.push((name@, value@)));
    }

    /// The value of the variable called `name`.
    pub fn get(&self, name: &String) -> (r: Option<&String>)
        ensures
            match r {
                Some(value) => variable(self@, name@, 0) == Some(value@),
                None => variable(self@, name@, 0) is None,
            },
    {
        let mut i: usize = 0;
        while i < self.vars.len()
            invariant
                i <= self.vars.len(),
                variable(self@, name@, 0) == variable(self@, name@, i as int),
            decreases self.vars.len() - i,
        {
            if self.vars[i].0 == *name {
                return Some(&self.vars[i].1);
            }
            i += 1;
        }
        None
    }
}

/// What `path` names: a value of the root, or else a variable of the environment.
pub open spec fn referent(root: ValueView, vars: Variables, path: Seq<char>) -> Option<ValueView> {
    match root.lookup(path) {
        Some(v) => Some(v),
        None => match variable(vars, path, 0) {
            Some(text) => Some(ValueView::String(text)),
            None => None,
        },
    }
}

/// What takes the place of a reference. An error carries the path that names nothing.
pub open spec fn substituted(
    prev: Option<Box<ValueView>>,
    path: Seq<char>,
    missing: bool,
    root: ValueView,
    vars: Variables,
) -> Result<ValueView, Seq<char>> {
    match referent(root, vars, path) {
        Some(v) => Ok(v),
        None => if missing {
            Ok(
                match prev {
                    Some(p) => p.latest(),
                    None => ValueView::Null,
                },
            )
        } else {
            Err(path)
        },
    }
}

impl ValueView {
    /// The value after one pass of resolution against `root` and `vars`.
    /// An error carries the path of the first reference that names nothing.
    pub open spec fn resolved_once(self, root: ValueView, vars: Variables) -> Result<
        ValueView,
        Seq<char>,
    >
        decreases self, 0nat,
    {
        match self {
            ValueView::Reference { prev, path, missing } => substituted(
                prev,
                path,
                missing,
                root,
                vars,
            ),
            ValueView::Link { prev, value } => match prev.resolved_once(root, vars) {
                Ok(older) => match value.resolved_once(root, vars) {
                    Ok(newer) => Ok(older.pushed(newer)),
                    Err(path) => Err(path),
                },
                Err(path) => Err(path),
            },
            ValueView::Array(items) => match resolved_items(items, root, vars, items.len()) {
                Ok(done) => Ok(ValueView::Array(done)),
                Err(path) => Err(path),
            },
            ValueView::Object(members) => match resolved_members(
                members,
                root,
                vars,
                members.len(),
            ) {
                Ok(done) => Ok(ValueView::Object(done)),
                Err(path) => Err(path),
            },
            _ => Ok(self),
        }
    }

    /// The number of references in the value.
    pub open spec fn references(self) -> nat
        decreases self, 0nat,
    {
        match self {
            ValueView::Reference { .. } => 1,
            ValueView::Link { prev, value } => prev.references() + value.references(),
            ValueView::Array(items) => references_in_items(items, items.len()),
            ValueView::Object(members) => references_in_members(members, members.len()),
            _ => 0,
        }
    }

    /// The greatest number of passes that resolution makes on this value.
    pub open spec fn pass_bound(self) -> nat {
        if self.references() < usize::MAX {
            self.references() + 1
        } else {
            usize::MAX as nat
        }
    }

    /// The value after at most `passes` passes of resolution, each against
    /// the value as the pass before left it.
    pub open spec fn resolved(self, vars: Variables, passes: nat) -> Result<
        ValueView,
        ConfigErrorView,
    >
        decreases passes,
    {
        if self.references() == 0 {
            Ok(self)
        } else if passes == 0 {
            Err(ConfigErrorView::ResolveError(cycle_message()))
        } else {
            match self.resolved_once(self, vars) {
                Ok(next) => next.resolved(vars, (passes - 1) as nat),
                Err(path) => Err(ConfigErrorView::ResolveError(unresolved_message(path))),
            }
        }
    }
}

/// The first `n` of `items` after one pass of resolution.
pub open spec fn resolved_items(
    items: Seq<ValueView>,
    root: ValueView,
    vars: Variables,
    n: nat,
) -> Result<Seq<ValueView>, Seq<char>>
    decreases items, n,
{
    if n == 0 || n > items.len() {
        Ok(Seq::empty())
    } else {
        match resolved_items(items, root, vars, (n - 1) as nat) {
            Ok(done) => match items[n - 1].resolved_once(root, vars) {
                Ok(v) => Ok(done.push(v)),
                Err(path) => Err(path),
            },
            Err(path) => Err(path),
        }
    }
}

/// The first `n` of `members` after one pass of resolution.
pub open spec fn resolved_members(
    members: Members,
    root: ValueView,
    vars: Variables,
    n: nat,
) -> Result<Members, Seq<char>>
    decreases members, n,
{
    if n == 0 || n > members.len() {
        Ok(Seq::empty())
    } else {
        match resolved_members(members, root, vars, (n - 1) as nat) {
            Ok(done) => match members[n - 1].1.resolved_once(root, vars) {
                Ok(v) => Ok(done.push((members[n - 1].0, v))),
                Err(path) => Err(path),
            },
            Err(path) => Err(path),
        }
    }
}

/// The number of references in the first `n` of `items`.
pub open spec fn references_in_items(items: Seq<ValueView>, n: nat) -> nat
    decreases items, n,
{
    if n == 0 || n > items.len() {
        0
    } else {
        references_in_items(items, (n - 1) as nat) + items[n - 1].references()
    }
}

/// The number of references in the values of the first `n` of `members`.
pub open spec fn references_in_members(members: Members, n: nat) -> nat
    decreases members, n,
{
    if n == 0 || n > members.len() {
        0
    } else {
        references_in_members(members, (n - 1) as nat) + members[n - 1].1.references()
    }
}

/// The message of the error for a required reference that names nothing.
pub open spec fn unresolved_message(path: Seq<char>) -> Seq<char> {
    "Cannot resolve the reference: "@ + path
}

/// The message of the error for references that do not come to an end.
pub open spec fn cycle_message() -> Seq<char> {
    "Cannot resolve the references: they form a cycle"@
}

/// What one pass leaves of the first `n` items is what it leaves of each of them.
pub proof fn lemma_resolved_items(items: Seq<ValueView>, root: ValueView, vars: Variables, n: nat)
    requires
        n <= items.len(),
        resolved_items(items, root, vars, n) is Ok,
    ensures
        resolved_items(items, root, vars, n)->Ok_0.len() == n,
        forall|i: int|
            0 <= i < n ==> (#[trigger] items[i]).resolved_once(root, vars) == Ok::<
                ValueView,
                Seq<char>,
            >(resolved_items(items, root, vars, n)->Ok_0[i]),
    decreases n,
{
    if n > 0 {
        lemma_resolved_items(items, root, vars, (n - 1) as nat);
    }
}

/// What one pass leaves of the first `n` members is, under each key, what
/// it leaves of the value of that key.
pub proof fn lemma_resolved_members(members: Members, root: ValueView, vars: Variables, n: nat)
    requires
        n <= members.len(),
        resolved_members(members, root, vars, n) is Ok,
    ensures
        resolved_members(members, root, vars, n)->Ok_0.len() == n,
        forall|i: int|
            0 <= i < n ==> (#[trigger] members[i]).1.resolved_once(root, vars) == Ok::<
                ValueView,
                Seq<char>,
            >(resolved_members(members, root, vars, n)->Ok_0[i].1) && resolved_members(
                members,
                root,
                vars,
                n,
            )->Ok_0[i].0 == members[i].0,
    decreases n,
{
    if n > 0 {
        lemma_resolved_members(members, root, vars, (n - 1) as nat);
    }
}

impl ValueView {
    /// Every reference in the value names, in `root` or in `vars`, or falls
    /// back on, a value that holds no reference itself.
    pub open spec fn names_settled_values(self, root: ValueView, vars: Variables) -> bool
        decreases self, 0nat,
    {
        match self {
            ValueView::Reference { prev, path, missing } => substituted(
                prev,
                path,
                missing,
                root,
                vars,
            ) matches Ok(w) && w.references() == 0,
            ValueView::Link { prev, value } => prev.names_settled_values(root, vars)
                && value.names_settled_values(root, vars),
            ValueView::Array(items) => items_name_settled_values(items, root, vars, items.len()),
            ValueView::Object(members) => members_name_settled_values(
                members,
                root,
                vars,
                members.len(),
            ),
            _ => true,
        }
    }
}

/// Every reference in the first `n` of `items` names a value that holds no reference.
pub open spec fn items_name_settled_values(
    items: Seq<ValueView>,
    root: ValueView,
    vars: Variables,
    n: nat,
) -> bool
    decreases items, n,
{
    if n == 0 || n > items.len() {
        true
    } else {
        items_name_settled_values(items, root, vars, (n - 1) as nat)
            && items[n - 1].names_settled_values(root, vars)
    }
}

/// Every reference in the values of the first `n` of `members` names a
/// value that holds no reference.
pub open spec fn members_name_settled_values(
    members: Members,
    root: ValueView,
    vars: Variables,
    n: nat,
) -> bool
    decreases members, n,
{
    if n == 0 || n > members.len() {
        true
    } else {
        members_name_settled_values(members, root, vars, (n - 1) as nat)
            && members[n - 1].1.names_settled_values(root, vars)
    }
}

/// One pass leaves no reference in a value all of whose references name
/// values that hold none.
pub proof fn lemma_one_pass_settles(v: ValueView, root: ValueView, vars: Variables)
    requires
        v.names_settled_values(root, vars),
    ensures
        v.resolved_once(root, vars) matches Ok(done) && done.references() == 0,
    decreases v, 0nat,
{
    match v {
        ValueView::Link { prev, value } => {
            lemma_one_pass_settles(*prev, root, vars);
            lemma_one_pass_settles(*value, root, vars);
        },
        ValueView::Array(items) => {
            lemma_one_pass_settles_items(items, root, vars, items.len());
        },
        ValueView::Object(members) => {
            lemma_one_pass_settles_members(members, root, vars, members.len());
        },
        _ => {},
    }
}

/// One pass leaves no reference in the first `n` of `items`, all of whose
/// references name values that hold none.
pub proof fn lemma_one_pass_settles_items(
    items: Seq<ValueView>,
    root: ValueView,
    vars: Variables,
    n: nat,
)
    requires
        n <= items.len(),
        items_name_settled_values(items, root, vars, n),
    ensures
        resolved_items(items, root, vars, n) matches Ok(done) && done.len() == n
            && references_in_items(done, n) == 0,
    decreases items, n,
{
    if n > 0 {
        lemma_one_pass_settles_items(items, root, vars, (n - 1) as nat);
        lemma_one_pass_settles(items[n - 1], root, vars);
        let before = resolved_items(items, root, vars, (n - 1) as nat)->Ok_0;
        let last = items[n - 1].resolved_once(root, vars)->Ok_0;
        lemma_references_in_items_push(before, last, (n - 1) as nat);
    }
}

/// One pass leaves no reference in the values of the first `n` of
/// `members`, all of whose references name values that hold none.
pub proof fn lemma_one_pass_settles_members(
    members: Members,
    root: ValueView,
    vars: Variables,
    n: nat,
)
    requires
        n <= members.len(),
        members_name_settled_values(members, root, vars, n),
    ensures
        resolved_members(members, root, vars, n) matches Ok(done) && done.len() == n
            && references_in_members(done, n) == 0,
    decreases members, n,
{
    if n > 0 {
        lemma_one_pass_settles_members(members, root, vars, (n - 1) as nat);
        lemma_one_pass_settles(members[n - 1].1, root, vars);
        let before = resolved_members(members, root, vars, (n - 1) as nat)->Ok_0;
        let last = members[n - 1].1.resolved_once(root, vars)->Ok_0;
        lemma_references_in_members_push(before, (members[n - 1].0, last), (n - 1) as nat);
    }
}

/// The references among the first `n` items do not change when an item is
/// put behind them.
pub proof fn lemma_references_in_items_push(items: Seq<ValueView>, more: ValueView, n: nat)
    requires
        n <= items.len(),
    ensures
        references_in_items(items.push(more), n) == references_in_items(items, n),
    decreases n,
{
    if n > 0 {
        lemma_references_in_items_push(items, more, (n - 1) as nat);
        assert(items.push(more)[n - 1] == items[n - 1]);
    }
}

/// The references among the first `n` members do not change when a member
/// is put behind them.
pub proof fn lemma_references_in_members_push(
    members: Members,
    more: (Seq<char>, ValueView),
    n: nat,
)
    requires
        n <= members.len(),
    ensures
        references_in_members(members.push(more), n) == references_in_members(members, n),
    decreases n,
{
    if n > 0 {
        lemma_references_in_members_push(members, more, (n - 1) as nat);
        assert(members.push(more)[n - 1] == members[n - 1]);
    }
}

/// A document all of whose references name values that hold no reference
/// is resolved within the bound on the passes: by one pass, where it holds
/// a reference at all.
pub proof fn lemma_settled_document_resolves(doc: ValueView, vars: Variables)
    requires
        doc.names_settled_values(doc, vars),
    ensures
        doc.resolved(vars, doc.pass_bound()) matches Ok(done) && done.references() == 0,
{
    if doc.references() != 0 {
        lemma_one_pass_settles(doc, doc, vars);
        let next = doc.resolved_once(doc, vars)->Ok_0;
        assert(doc.pass_bound() >= 1);
        assert(next.resolved(vars, (doc.pass_bound() - 1) as nat) == Ok::<
            ValueView,
            ConfigErrorView,
        >(next));
    }
}

/// A resolution that succeeds leaves no reference.
pub proof fn lemma_resolved_has_no_reference(v: ValueView, vars: Variables, passes: nat)
    ensures
        v.resolved(vars, passes) matches Ok(done) ==> done.references() == 0,
    decreases passes,
{
    if v.references() != 0 && passes != 0 {
        if let Ok(next) = v.resolved_once(v, vars) {
            lemma_resolved_has_no_reference(next, vars, (passes - 1) as nat);
        }
    }
}

/// A resolution that ends within some number of passes, with a value or
/// with a reference that names nothing, ends in the same way within any
/// greater number: the bound on the passes decides for cycles only.
pub proof fn lemma_resolved_with_more_passes(v: ValueView, vars: Variables, n: nat, m: nat)
    requires
        n <= m,
        v.resolved(vars, n) != Err::<ValueView, ConfigErrorView>(
            ConfigErrorView::ResolveError(cycle_message()),
        ),
    ensures
        v.resolved(vars, m) == v.resolved(vars, n),
    decreases n,
{
    if v.references() != 0 {
        if n == 0 {
        } else if let Ok(next) = v.resolved_once(v, vars) {
            lemma_resolved_with_more_passes(next, vars, (n - 1) as nat, (m - 1) as nat);
        } else {
            lemma_messages_differ(v.resolved_once(v, vars)->Err_0);
        }
    }
}

/// The message for a cycle is not the message for a reference that names nothing.
proof fn lemma_messages_differ(path: Seq<char>)
    ensures
        unresolved_message(path) != cycle_message(),
{
    reveal_strlit("Cannot resolve the reference: ");
    reveal_strlit("Cannot resolve the references: they form a cycle");
    let a = unresolved_message(path);
    let b = cycle_message();
    if a == b {
        assert(a[28] == ':');
        assert(b[28] == 's');
    }
}

/// The sum of two counts, or the greatest count where the sum is beyond it.
fn capped_sum(a: usize, b: usize) -> (r: usize)
    ensures
        r == if a + b <= usize::MAX {
            (a + b) as usize
        } else {
            usize::MAX
        },
{
    if a > usize::MAX - b {
        usize::MAX
    } else {
        a + b
    }
}

/// A count of references, cut off at the greatest `usize`.
pub open spec fn capped(n: nat) -> usize {
    if n <= usize::MAX {
        n as usize
    } else {
        usize::MAX
    }
}

fn count_in_items(items: &Vec<ConfigValue>) -> (r: usize)
    ensures
        r == capped(references_in_items(views(items@), items@.len())),
    decreases items,
{
    let mut total: usize = 0;
    let mut i: usize = 0;
    while i < items.len()
        invariant
            i <= items.len(),
            total == capped(references_in_items(views(items@), i as nat)),
        decreases items.len() - i,
    {
        total = capped_sum(total, items[i].count_references());
        i += 1;
    }
    total
}

fn count_in_members(members: &Vec<(String, ConfigValue)>) -> (r: usize)
    ensures
        r == capped(references_in_members(member_views(members@), members@.len())),
    decreases members,
{
    let mut total: usize = 0;
    let mut i: usize = 0;
    while i < members.len()
        invariant
            i <= members.len(),
            total == capped(references_in_members(member_views(members@), i as nat)),
        decreases members.len() - i,
    {
        total = capped_sum(total, members[i].1.count_references());
        i += 1;
    }
    total
}

/// The error for a required reference to `path` that names nothing.
fn unresolved(path: &String) -> (r: ConfigError)
    ensures
        r@ == ConfigErrorView::ResolveError(unresolved_message(path@)),
{
    let mut message = String::new();
    push_text(&mut message, "Cannot resolve the reference: ");
    push_text(&mut message, path.as_str());
    ConfigError::ResolveError(message)
}

/// Whether `e` is the error for a required reference to `path` that names nothing.
pub open spec fn is_unresolved(e: ConfigErrorView, path: Seq<char>) -> bool {
    e == ConfigErrorView::ResolveError(unresolved_message(path))
}

/// `e` is the error of a pass of resolution whose outcome is `expected`.
pub open spec fn pass_fails<T>(expected: Result<T, Seq<char>>, e: ConfigErrorView) -> bool {
    expected matches Err(path) && is_unresolved(e, path)
}

/// `r` is what one pass of resolution, whose outcome is `expected`, returns.
pub open spec fn pass_returns(
    r: Result<ConfigValue, ConfigError>,
    expected: Result<ValueView, Seq<char>>,
) -> bool {
    match r {
        Ok(v) => expected == Ok::<ValueView, Seq<char>>(v@),
        Err(e) => pass_fails(expected, e@),
    }
}

fn resolve_items(items: &Vec<ConfigValue>, root: &ConfigValue, env: &Environment) -> (r: Result<
    Vec<ConfigValue>,
    ConfigError,
>)
    ensures
        match r {
            Ok(done) => resolved_items(views(items@), root@, env@, items@.len()) == Ok::<
                Seq<ValueView>,
                Seq<char>,
            >(views(done@)),
            Err(e) => pass_fails(
                resolved_items(views(items@), root@, env@, items@.len()),
                e@,
            ),
        },
    decreases items,
{
    let mut out: Vec<ConfigValue> = Vec::new();
    let mut i: usize = 0;
    assert(views(out@) =~= Seq::<ValueView>::empty());
    while i < items.len()
        invariant
            i <= items.len(),
            resolved_items(views(items@), root@, env@, i as nat) == Ok::<
                Seq<ValueView>,
                Seq<char>,
            >(views(out@)),
        decreases items.len() - i,
    {
        match items[i].resolved_once(root, env) {
            Ok(v) => {
                let ghost before = out@;
                out.push(v);
                assert(views(out@) =~= views(before).push(v@));
            },
            Err(e) => {
                proof {
                    lemma_items_error(views(items@), root@, env@, (i + 1) as nat, items@.len());
                }
                return Err(e);
            },
        }
        i += 1;
    }
    Ok(out)
}

fn resolve_members(
    members: &Vec<(String, ConfigValue)>,
    root: &ConfigValue,
    env: &Environment,
) -> (r: Result<Vec<(String, ConfigValue)>, ConfigError>)
    ensures
        match r {
            Ok(done) => resolved_members(member_views(members@), root@, env@, members@.len())
                == Ok::<Members, Seq<char>>(member_views(done@)),
            Err(e) => pass_fails(
                resolved_members(member_views(members@), root@, env@, members@.len()),
                e@,
            ),
        },
    decreases members,
{
    let mut out: Vec<(String, ConfigValue)> = Vec::new();
    let mut i: usize = 0;
    assert(member_views(out@) =~= Seq::<(Seq<char>, ValueView)>::empty());
    while i < members.len()
        invariant
            i <= members.len(),
            resolved_members(member_views(members@), root@, env@, i as nat) == Ok::<
                Members,
                Seq<char>,
            >(member_views(out@)),
        decreases members.len() - i,
    {
        match members[i].1.resolved_once(root, env) {
            Ok(v) => {
                let ghost before = out@;
                let key = members[i].0.clone();
                out.push((key, v));
                assert(member_views(out@) =~= member_views(before).push((key@, v@)));
            },
            Err(e) => {
                proof {
                    lemma_members_error(
                        member_views(members@),
                        root@,
                        env@,
                        (i + 1) as nat,
                        members@.len(),
                    );
                }
                return Err(e);
            },
        }
        i += 1;
    }
    Ok(out)
}

/// An error among the first `n` items is the error of every longer run of them.
proof fn lemma_items_error(
    items: Seq<ValueView>,
    root: ValueView,
    vars: Variables,
    n: nat,
    m: nat,
)
    requires
        n <= m <= items.len(),
        resolved_items(items, root, vars, n) is Err,
    ensures
        resolved_items(items, root, vars, m) == resolved_items(items, root, vars, n),
    decreases m,
{
    if n < m {
        lemma_items_error(items, root, vars, n, (m - 1) as nat);
    }
}

/// An error among the first `n` members is the error of every longer run of them.
proof fn lemma_members_error(members: Members, root: ValueView, vars: Variables, n: nat, m: nat)
    requires
        n <= m <= members.len(),
        resolved_members(members, root, vars, n) is Err,
    ensures
        resolved_members(members, root, vars, m) == resolved_members(members, root, vars, n),
    decreases m,
{
    if n < m {
        lemma_members_error(members, root, vars, n, (m - 1) as nat);
    }
}

impl ConfigValue {
    /// The number of references in the value, cut off at the greatest `usize`.
    pub fn count_references(&self) -> (r: usize)
        ensures
            r == capped(self@.references()),
        decreases self,
    {
        match self {
            ConfigValue::Reference { .. } => 1,
            ConfigValue::Link { prev, value } => capped_sum(
                prev.count_references(),
                value.count_references(),
            ),
            ConfigValue::Array(items) => {
                proof {
                    lemma_array_view(*items);
                }
                count_in_items(items)
            },
            ConfigValue::Object(members) => {
                proof {
                    lemma_object_view(*members);
                }
                count_in_members(members)
            },
            _ => 0,
        }
    }

    /// The value after one pass of resolution against `root` and `env`.
    pub fn resolved_once(&self, root: &ConfigValue, env: &Environment) -> (r: Result<
        ConfigValue,
        ConfigError,
    >)
        ensures
            pass_returns(r, self@.resolved_once(root@, env@)),
            r matches Ok(done) ==> (self@.wf() && root@.wf() ==> done@.wf()),
        decreases self,
    {
        proof {
            if self@.wf() && root@.wf() {
                lemma_resolved_once_wf(self@, root@, env@);
            }
        }
        match self {
            ConfigValue::Reference { prev, path, missing } => {
                match root.get_value(path.as_str()) {
                    Some(found) => Ok(found.clone()),
                    None => match env.get(path) {
                        Some(text) => Ok(ConfigValue::String(text.clone())),
                        None => {
                            if *missing {
                                match prev {
                                    Some(p) => Ok(p.latest().clone()),
                                    None => Ok(ConfigValue::Null),
                                }
                            } else {
                                Err(unresolved(path))
                            }
                        },
                    },
                }
            },
            ConfigValue::Link { prev, value } => {
                let mut older = prev.resolved_once(root, env)?;
                let newer = value.resolved_once(root, env)?;
                older.push(newer);
                Ok(older)
            },
            ConfigValue::Array(items) => {
                proof {
                    lemma_array_view(*items);
                }
                match resolve_items(items, root, env) {
                    Ok(done) => Ok(ConfigValue::of_array(done)),
                    Err(e) => Err(e),
                }
            },
            ConfigValue::Object(members) => {
                proof {
                    lemma_object_view(*members);
                }
                match resolve_members(members, root, env) {
                    Ok(done) => Ok(ConfigValue::of_object(done)),
                    Err(e) => Err(e),
                }
            },
            other => Ok(other.clone()),
        }
    }

    /// One pass of resolution, in place, against `source` where there is
    /// one. Without a source, and where the pass fails, the value stays as it is.
    pub fn resolve(&mut self, source: Option<&ConfigValue>, env: &Environment) -> (r: Result<
        (),
        ConfigError,
    >)
        ensures
            match source {
                Some(root) => match r {
                    Ok(()) => old(self)@.resolved_once(root@, env@) == Ok::<ValueView, Seq<char>>(
                        final(self)@,
                    ),
                    Err(e) => final(self)@ == old(self)@ && pass_fails(
                        old(self)@.resolved_once(root@, env@),
                        e@,
                    ),
                },
                None => r is Ok && final(self)@ == old(self)@,
            },
            old(self)@.wf() && (source matches Some(root) ==> root@.wf()) ==> final(self)@.wf(),
    {
        match source {
            Some(root) => {
                match self.resolved_once(root, env) {
                    Ok(done) => {
                        *self = done;
                        Ok(())
                    },
                    Err(e) => Err(e),
                }
            },
            None => Ok(()),
        }
    }

    /// Resolution to the fixed point: passes are made, each against the
    /// value as the pass before left it, until no reference is left. More
    /// passes than the value has references, and one, are never made:
    /// references that are still there after that many form a cycle.
    /// Where resolution fails, the value stays as it is.
    pub fn resolve_all(&mut self, env: &Environment) -> (r: Result<(), ConfigError>)
        ensures
            match r {
                Ok(()) => old(self)@.resolved(env@, old(self)@.pass_bound()) == Ok::<
                    ValueView,
                    ConfigErrorView,
                >(final(self)@) && final(self)@.references() == 0,
                Err(e) => final(self)@ == old(self)@ && old(self)@.resolved(
                    env@,
                    old(self)@.pass_bound(),
                ) == Err::<ValueView, ConfigErrorView>(e@),
            },
            old(self)@.wf() ==> final(self)@.wf(),
    {
        proof {
            if self@.wf() {
                lemma_resolved_wf(self@, env@, self@.pass_bound());
            }
        }
        self.resolve_passes(env)
    }

    /// Makes the passes of [`Self::resolve_all`].
    fn resolve_passes(&mut self, env: &Environment) -> (r: Result<(), ConfigError>)
        ensures
            match r {
                Ok(()) => old(self)@.resolved(env@, old(self)@.pass_bound()) == Ok::<
                    ValueView,
                    ConfigErrorView,
                >(final(self)@) && final(self)@.references() == 0,
                Err(e) => final(self)@ == old(self)@ && old(self)@.resolved(
                    env@,
                    old(self)@.pass_bound(),
                ) == Err::<ValueView, ConfigErrorView>(e@),
            },
    {
        let first = self.count_references();
        let mut passes: usize = if first < usize::MAX {
            first + 1
        } else {
            usize::MAX
        };
        let mut current = self.clone();
        loop
            invariant
                current@.resolved(env@, passes as nat) == self@.resolved(env@, self@.pass_bound()),
                self@ == old(self)@,
            decreases passes,
        {
            if current.count_references() == 0 {
                *self = current;
                return Ok(());
            }
            if passes == 0 {
                let mut message = String::new();
                push_text(&mut message, "Cannot resolve the references: they form a cycle");
                return Err(ConfigError::ResolveError(message));
            }
            match current.resolved_once(&current, env) {
                Ok(next) => {
                    current = next;
                    passes = passes - 1;
                },
                Err(e) => {
                    return Err(e);
                },
            }
        }
    }
}

} // verus!
