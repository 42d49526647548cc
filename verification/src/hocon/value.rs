//! The values of a configuration document.

use crate::hocon::number::ConfigNumberValue;
use vstd::prelude::*;
use vstd::std_specs::cmp::PartialEqSpecImpl;

verus! {

/// The unit of a duration.
#[derive(Debug, Clone, Copy, PartialEq, Eq, Structural)]
pub enum TimeUnit {
    Nanosecond,
    Microsecond,
    Millisecond,
    Second,
    Minute,
    Hour,
    Day,
}

/// A value of a configuration document.
#[allow(inconsistent_fields)]
#[derive(Debug)]
pub enum ConfigValue {
    Null,
    Bool(bool),
    String(String),
    Number(ConfigNumberValue),
    /// A duration; magnitude and unit are kept as they were written.
    Duration { magnitude: u64, unit: TimeUnit },
    Array(Vec<ConfigValue>),
    /// The members of an object, in the order of their first declaration.
    Object(Vec<(String, ConfigValue)>),
    /// A substitution that has not been resolved. `missing` marks the
    /// optional form; `prev` is the value that this reference displaced.
    Reference { prev: Option<Box<ConfigValue>>, path: String, missing: bool },
    /// A file that has not been included yet.
    Include(String),
    /// A value together with the one that it replaced.
    Link { prev: Box<ConfigValue>, value: Box<ConfigValue> },
}

/// The mathematical content of a [`ConfigValue`].
#[allow(inconsistent_fields)]
pub enum ValueView {
    Null,
    Bool(bool),
    String(Seq<char>),
    /// `mantissa` divided by ten to the power of `scale`.
    Number { mantissa: int, scale: nat },
    Duration { magnitude: nat, unit: TimeUnit },
    Array(Seq<ValueView>),
    Object(Seq<(Seq<char>, ValueView)>),
    Reference { prev: Option<Box<ValueView>>, path: Seq<char>, missing: bool },
    Include(Seq<char>),
    Link { prev: Box<ValueView>, value: Box<ValueView> },
}

/// The members of an object, as the contracts see them.
pub type Members = Seq<(Seq<char>, ValueView)>;

/// The content of a value.
pub open spec fn content(v: ConfigValue) -> ValueView
    decreases v,
{
    match v {
        ConfigValue::Null => ValueView::Null,
        ConfigValue::Bool(b) => ValueView::Bool(b),
        ConfigValue::String(s) => ValueView::String(s@),
        ConfigValue::Number(n) => ValueView::Number { mantissa: n.mantissa(), scale: n.scale() },
        ConfigValue::Duration { magnitude, unit } => ValueView::Duration {
            magnitude: magnitude as nat,
            unit,
        },
        ConfigValue::Array(items) => ValueView::Array(
            Seq::new(
                items.len() as nat,
                |i: int|
                    if 0 <= i < items.len() {
                        content(items[i])
                    } else {
                        ValueView::Null
                    },
            ),
        ),
        ConfigValue::Object(members) => ValueView::Object(
            Seq::new(
                members.len() as nat,
                |i: int|
                    if 0 <= i < members.len() {
                        (members[i].0@, content(members[i].1))
                    } else {
                        (Seq::empty(), ValueView::Null)
                    },
            ),
        ),
        ConfigValue::Reference { prev, path, missing } => ValueView::Reference {
            prev: match prev {
                Some(p) => Some(Box::new(content(*p))),
                None => None,
            },
            path: path@,
            missing,
        },
        ConfigValue::Include(name) => ValueView::Include(name@),
        ConfigValue::Link { prev, value } => ValueView::Link {
            prev: Box::new(content(*prev)),
            value: Box::new(content(*value)),
        },
    }
}

impl View for ConfigValue {
    type V = ValueView;

    open spec fn view(&self) -> ValueView {
        content(*self)
    }
}

/// The contents of the elements of an array.
pub open spec fn views(items: Seq<ConfigValue>) -> Seq<ValueView> {
    Seq::new(items.len(), |i: int| items[i]@)
}

/// The contents of the members of an object.
pub open spec fn member_views(members: Seq<(String, ConfigValue)>) -> Members {
    Seq::new(members.len(), |i: int| (members[i].0@, members[i].1@))
}

/// The content of an array is the contents of its elements.
pub proof fn lemma_array_view(items: Vec<ConfigValue>)
    ensures
        ConfigValue::Array(items)@ == ValueView::Array(views(items@)),
{
    assert(ConfigValue::Array(items)@->Array_0 =~= views(items@));
}

/// The content of an object is the contents of its members.
pub proof fn lemma_object_view(members: Vec<(String, ConfigValue)>)
    ensures
        ConfigValue::Object(members)@ == ValueView::Object(member_views(members@)),
{
    assert(ConfigValue::Object(members)@->Object_0 =~= member_views(members@));
}

/// Copies the elements of an array.
fn clone_items(items: &Vec<ConfigValue>) -> (r: Vec<ConfigValue>)
    ensures
        views(r@) == views(items@),
    decreases items,
{
    let mut out: Vec<ConfigValue> = Vec::new();
    let mut i: usize = 0;
    while i < items.len()
        invariant
            i <= items.len(),
            out.len() == i,
            forall|j: int| 0 <= j < i ==> out[j]@ == items[j]@,
        decreases items.len() - i,
    {
        out.push(items[i].clone());
        i += 1;
    }
    assert(views(out@) =~= views(items@));
    out
}

/// Copies the members of an object.
fn clone_members(members: &Vec<(String, ConfigValue)>) -> (r: Vec<(String, ConfigValue)>)
    ensures
        member_views(r@) == member_views(members@),
    decreases members,
{
    let mut out: Vec<(String, ConfigValue)> = Vec::new();
    let mut i: usize = 0;
    while i < members.len()
        invariant
            i <= members.len(),
            out.len() == i,
            forall|j: int| 0 <= j < i ==> out[j].0@ == members[j].0@ && out[j].1@ == members[j].1@,
        decreases members.len() - i,
    {
        out.push((members[i].0.clone(), members[i].1.clone()));
        i += 1;
    }
    assert(member_views(out@) =~= member_views(members@));
    out
}

impl Clone for ConfigValue {
    fn clone(&self) -> (r: ConfigValue)
        ensures
            r@ == self@,
        decreases self,
    {
        match self {
            ConfigValue::Null => ConfigValue::Null,
            ConfigValue::Bool(b) => ConfigValue::Bool(*b),
            ConfigValue::String(s) => ConfigValue::String(s.clone()),
            ConfigValue::Number(n) => ConfigValue::Number(*n),
            ConfigValue::Duration { magnitude, unit } => ConfigValue::Duration {
                magnitude: *magnitude,
                unit: *unit,
            },
            ConfigValue::Array(items) => {
                let copy = clone_items(items);
                proof {
                    lemma_array_view(*items);
                    lemma_array_view(copy);
                }
                ConfigValue::Array(copy)
            },
            ConfigValue::Object(members) => {
                let copy = clone_members(members);
                proof {
                    lemma_object_view(*members);
                    lemma_object_view(copy);
                }
                ConfigValue::Object(copy)
            },
            ConfigValue::Reference { prev, path, missing } => ConfigValue::Reference {
                prev: match prev {
                    Some(p) => Some(Box::new((**p).clone())),
                    None => None,
                },
                path: path.clone(),
                missing: *missing,
            },
            ConfigValue::Include(name) => ConfigValue::Include(name.clone()),
            ConfigValue::Link { prev, value } => ConfigValue::Link {
                prev: Box::new((**prev).clone()),
                value: Box::new((**value).clone()),
            },
        }
    }
}

/// Whether two arrays have the same content.
fn eq_items(a: &Vec<ConfigValue>, b: &Vec<ConfigValue>) -> (r: bool)
    ensures
        r == (views(a@) == views(b@)),
    decreases a,
{
    if a.len() != b.len() {
        assert(views(a@).len() != views(b@).len());
        return false;
    }
    let mut i: usize = 0;
    while i < a.len()
        invariant
            i <= a.len() == b.len(),
            forall|j: int| 0 <= j < i ==> a[j]@ == b[j]@,
        decreases a.len() - i,
    {
        if !a[i].eq(&b[i]) {
            assert(views(a@)[i as int] != views(b@)[i as int]);
            return false;
        }
        i += 1;
    }
    assert(views(a@) =~= views(b@));
    true
}

/// Whether two objects have the same members in the same order.
fn eq_members(a: &Vec<(String, ConfigValue)>, b: &Vec<(String, ConfigValue)>) -> (r: bool)
    ensures
        r == (member_views(a@) == member_views(b@)),
    decreases a,
{
    if a.len() != b.len() {
        assert(member_views(a@).len() != member_views(b@).len());
        return false;
    }
    let mut i: usize = 0;
    while i < a.len()
        invariant
            i <= a.len() == b.len(),
            forall|j: int| 0 <= j < i ==> a[j].0@ == b[j].0@ && a[j].1@ == b[j].1@,
        decreases a.len() - i,
    {
        if !(a[i].0 == b[i].0 && a[i].1.eq(&b[i].1)) {
            assert(member_views(a@)[i as int] != member_views(b@)[i as int]);
            return false;
        }
        i += 1;
    }
    assert(member_views(a@) =~= member_views(b@));
    true
}

impl PartialEq for ConfigValue {
    fn eq(&self, other: &ConfigValue) -> (r: bool)
        decreases self,
    {
        match (self, other) {
            (ConfigValue::Null, ConfigValue::Null) => true,
            (ConfigValue::Bool(a), ConfigValue::Bool(b)) => *a == *b,
            (ConfigValue::String(a), ConfigValue::String(b)) => *a == *b,
            (ConfigValue::Number(a), ConfigValue::Number(b)) => {
                let (m1, s1) = a.parts();
                let (m2, s2) = b.parts();
                m1 == m2 && s1 == s2
            },
            (
                ConfigValue::Duration { magnitude: m1, unit: u1 },
                ConfigValue::Duration { magnitude: m2, unit: u2 },
            ) => *m1 == *m2 && *u1 == *u2,
            (ConfigValue::Array(a), ConfigValue::Array(b)) => {
                proof {
                    lemma_array_view(*a);
                    lemma_array_view(*b);
                }
                eq_items(a, b)
            },
            (ConfigValue::Object(a), ConfigValue::Object(b)) => {
                proof {
                    lemma_object_view(*a);
                    lemma_object_view(*b);
                }
                eq_members(a, b)
            },
            (
                ConfigValue::Reference { prev: mine, path: a, missing: m1 },
                ConfigValue::Reference { prev: theirs, path: b, missing: m2 },
            ) => *a == *b && *m1 == *m2 && match (mine, theirs) {
                (Some(x), Some(y)) => (**x).eq(&**y),
                (None, None) => true,
                _ => false,
            },
            (ConfigValue::Include(a), ConfigValue::Include(b)) => *a == *b,
            (
                ConfigValue::Link { prev: mine, value: v1 },
                ConfigValue::Link { prev: theirs, value: v2 },
            ) => (**mine).eq(&**theirs) && (**v1).eq(&**v2),
            _ => false,
        }
    }
}

impl PartialEqSpecImpl for ConfigValue {
    open spec fn obeys_eq_spec() -> bool {
        true
    }

    open spec fn eq_spec(&self, other: &ConfigValue) -> bool {
        self@ == other@
    }
}

impl ConfigValue {
    /// A reference to `path`; `missing` marks the optional form.
    pub fn of_reference(prev: Option<Box<ConfigValue>>, path: String, missing: bool) -> (r: Self)
        ensures
            r@ == (ValueView::Reference {
                prev: match prev {
                    Some(p) => Some(Box::new((*p)@)),
                    None => None,
                },
                path: path@,
                missing,
            }),
    {
        ConfigValue::Reference { prev, path, missing }
    }

    /// An array of `items`.
    pub fn of_array(items: Vec<ConfigValue>) -> (r: Self)
        ensures
            r@ == ValueView::Array(views(items@)),
    {
        proof {
            lemma_array_view(items);
        }
        ConfigValue::Array(items)
    }

    /// An object of `members`.
    pub fn of_object(members: Vec<(String, ConfigValue)>) -> (r: Self)
        ensures
            r@ == ValueView::Object(member_views(members@)),
    {
        proof {
            lemma_object_view(members);
        }
        ConfigValue::Object(members)
    }
}

impl ConfigValue {
    /// The value that a reference displaced; `None` for a reference that
    /// displaced nothing, and for what is no reference.
    pub fn ref_prev(&self) -> (r: Option<&ConfigValue>)
        ensures
            match r {
                Some(p) => self@ matches ValueView::Reference { prev: Some(q), .. } && *q == p@,
                None => !(self@ matches ValueView::Reference { prev: Some(_), .. }),
            },
    {
        match self {
            ConfigValue::Reference { prev: Some(p), .. } => Some(&**p),
            _ => None,
        }
    }

    /// The path of a reference.
    pub fn ref_name(&self) -> (r: Option<&String>)
        ensures
            match r {
                Some(name) => self@ matches ValueView::Reference { path, .. } && path == name@,
                None => !(self@ is Reference),
            },
    {
        match self {
            ConfigValue::Reference { path, .. } => Some(path),
            _ => None,
        }
    }

    /// Whether a reference is optional.
    pub fn ref_missing(&self) -> (r: Option<bool>)
        ensures
            match r {
                Some(optional) => self@ matches ValueView::Reference { missing, .. } && missing
                    == optional,
                None => !(self@ is Reference),
            },
    {
        match self {
            ConfigValue::Reference { missing, .. } => Some(*missing),
            _ => None,
        }
    }

    /// The name of the file that a directive names.
    pub fn get_include_value(&self) -> (r: Option<&String>)
        ensures
            match r {
                Some(name) => self@ == ValueView::Include(name@),
                None => !(self@ is Include),
            },
    {
        match self {
            ConfigValue::Include(name) => Some(name),
            _ => None,
        }
    }

    /// The members of an object.
    pub fn get_object_value(&self) -> (r: Option<&Vec<(String, ConfigValue)>>)
        ensures
            match r {
                Some(members) => self@ == ValueView::Object(member_views(members@)),
                None => !(self@ is Object),
            },
    {
        match self {
            ConfigValue::Object(members) => {
                proof {
                    lemma_object_view(*members);
                }
                Some(members)
            },
            _ => None,
        }
    }

    /// The elements of an array.
    pub fn get_array_value(&self) -> (r: Option<&Vec<ConfigValue>>)
        ensures
            match r {
                Some(items) => self@ == ValueView::Array(views(items@)),
                None => !(self@ is Array),
            },
    {
        match self {
            ConfigValue::Array(items) => {
                proof {
                    lemma_array_view(*items);
                }
                Some(items)
            },
            _ => None,
        }
    }

    /// The two parts of a chain: the value that was replaced, and the one
    /// that replaced it.
    pub fn get_value_link(&self) -> (r: Option<(&ConfigValue, &ConfigValue)>)
        ensures
            match r {
                Some((prev, value)) => self@ == (ValueView::Link {
                    prev: Box::new(prev@),
                    value: Box::new(value@),
                }),
                None => !(self@ is Link),
            },
    {
        match self {
            ConfigValue::Link { prev, value } => Some((&**prev, &**value)),
            _ => None,
        }
    }
}

} // verus!
