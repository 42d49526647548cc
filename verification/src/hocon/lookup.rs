//! Lookup by dotted path.
//!
//! A path is split at its dots. Each part but the last names a member of an
//! object whose visible value is looked into; the last names the member
//! whose visible value is returned. A key that is missing on the way gives
//! no value, and no error.

use crate::hocon::members::{find_key, find_member};
use crate::hocon::value::{lemma_object_view, member_views, ConfigValue, ValueView};
use crate::hocon::wellformed::lemma_lookup_wf;
use crate::text::{chars_of, string_of};
use vstd::prelude::*;
use vstd::slice::slice_subrange;

verus! {

/// The index of the first dot of `path` from `from` on, or the length of `path`.
pub open spec fn dot_index(path: Seq<char>, from: int) -> int
    decreases path.len() - from,
{
    if from < 0 || from >= path.len() {
        path.len() as int
    } else if path[from] == '.' {
        from
    } else {
        dot_index(path, from + 1)
    }
}

/// The first key of `path`: what stands before its first dot.
pub open spec fn head_key(path: Seq<char>) -> Seq<char> {
    path.take(dot_index(path, 0))
}

/// What stands behind the first dot of `path`, if it has a dot.
pub open spec fn tail_path(path: Seq<char>) -> Option<Seq<char>> {
    if dot_index(path, 0) < path.len() {
        Some(path.skip(dot_index(path, 0) + 1))
    } else {
        None
    }
}

impl ValueView {
    /// The value found at `path`, if every key on the way is there.
    pub open spec fn lookup(self, path: Seq<char>) -> Option<ValueView>
        decreases path.len(),
    {
        match self {
            ValueView::Object(members) => match find_key(members, head_key(path), 0) {
                Some(i) => match tail_path(path) {
                    Some(rest) => {
                        if rest.len() < path.len() {
                            members[i].1.latest().lookup(rest)
                        } else {
                            None
                        }
                    },
                    None => Some(members[i].1.latest()),
                },
                None => None,
            },
            _ => None,
        }
    }

    /// Whether the value is an object that has `key` among its members.
    pub open spec fn has_member(self, key: Seq<char>) -> bool {
        self matches ValueView::Object(members) && find_key(members, key, 0) is Some
    }
}

/// The index of the first dot of `path`, or its length.
pub fn first_dot(path: &[char]) -> (r: usize)
    ensures
        r == dot_index(path@, 0),
        r <= path@.len(),
{
    let mut i: usize = 0;
    while i < path.len() && path[i] != '.'
        invariant
            i <= path@.len(),
            dot_index(path@, 0) == dot_index(path@, i as int),
        decreases path@.len() - i,
    {
        i += 1;
    }
    i
}

impl ConfigValue {
    /// The value found at `path`, given as characters.
    pub fn get_value_at<'a>(&'a self, path: &[char]) -> (r: Option<&'a ConfigValue>)
        ensures
            match r {
                Some(v) => self@.lookup(path@) == Some(v@) && (self@.wf() ==> v@.wf()),
                None => self@.lookup(path@) is None,
            },
    {
        proof {
            if self@.wf() {
                lemma_lookup_wf(self@, path@);
            }
        }
        self.descend(path)
    }

    /// Descends the object tree along `path`.
    fn descend<'a>(&'a self, path: &[char]) -> (r: Option<&'a ConfigValue>)
        ensures
            match r {
                Some(v) => self@.lookup(path@) == Some(v@),
                None => self@.lookup(path@) is None,
            },
    {
        let mut current: &'a ConfigValue = self;
        let mut rest: &[char] = path;
        loop
            invariant
                current@.lookup(rest@) == self@.lookup(path@),
            decreases rest@.len(),
        {
            match current {
                ConfigValue::Object(members) => {
                    proof {
                        lemma_object_view(*members);
                    }
                    let dot = first_dot(rest);
                    let key = string_of(slice_subrange(rest, 0, dot));
                    assert(key@ == head_key(rest@));
                    match find_member(members, &key) {
                        Some(i) => {
                            let found = members[i].1.latest();
                            if dot < rest.len() {
                                let ghost before = rest@;
                                rest = slice_subrange(rest, dot + 1, rest.len());
                                assert(rest@ == before.skip(dot + 1));
                                current = found;
                            } else {
                                return Some(found);
                            }
                        },
                        None => {
                            return None;
                        },
                    }
                },
                _ => {
                    return None;
                },
            }
        }
    }

    /// The value found at `path`: the path is split at its dots, the object
    /// tree is descended key by key, and at each step the visible value of
    /// the key is taken.
    pub fn get_value<'a>(&'a self, path: &str) -> (r: Option<&'a ConfigValue>)
        ensures
            match r {
                Some(v) => self@.lookup(path@) == Some(v@) && (self@.wf() ==> v@.wf()),
                None => self@.lookup(path@) is None,
            },
    {
        let chars = chars_of(path);
        self.get_value_at(chars.as_slice())
    }

    /// Whether the value is an object that has `key` among its members.
    pub fn contains(&self, key: &str) -> (r: bool)
        ensures
            r == self@.has_member(key@),
    {
        match self {
            ConfigValue::Object(members) => {
                proof {
                    lemma_object_view(*members);
                }
                let chars = chars_of(key);
                let owned = string_of(chars.as_slice());
                find_member(members, &owned).is_some()
            },
            _ => false,
        }
    }
}

} // verus!
