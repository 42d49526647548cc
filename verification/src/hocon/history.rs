//! The history of a key that was declared more than once.
//!
//! A redeclared value is not thrown away: the new value is pushed onto a
//! `Link` whose `prev` is the old one. The chain is linear and never cyclic.

use crate::hocon::value::{views, ConfigValue, ValueView};
use crate::hocon::wellformed::lemma_pushed_wf;
use vstd::prelude::*;

verus! {

impl ValueView {
    /// The value that is visible: the head of a chain, or the value itself.
    pub open spec fn latest(self) -> ValueView {
        match self {
            ValueView::Link { value, .. } => *value,
            _ => self,
        }
    }

    /// The value that the visible one replaced; the value itself where it replaced none.
    pub open spec fn prev_latest(self) -> ValueView {
        match self {
            ValueView::Link { prev, .. } => prev.latest(),
            _ => self,
        }
    }

    /// The declarations that the chain records, oldest first.
    pub open spec fn history(self) -> Seq<ValueView>
        decreases self,
    {
        match self {
            ValueView::Link { prev, value } => prev.history().push(*value),
            _ => seq![self],
        }
    }

    /// The value as it is pushed onto `onto`: a reference remembers what it displaces.
    pub open spec fn displacing(self, onto: ValueView) -> ValueView {
        match self {
            ValueView::Reference { path, missing, .. } => ValueView::Reference {
                prev: Some(Box::new(onto)),
                path,
                missing,
            },
            _ => self,
        }
    }

    /// The chain that `cv` makes when it is declared on top of this value.
    pub open spec fn pushed(self, cv: ValueView) -> ValueView {
        ValueView::Link { prev: Box::new(self), value: Box::new(cv.displacing(self)) }
    }

    /// This value with the first `n` of `items` pushed onto it in order.
    pub open spec fn pushed_all(self, items: Seq<ValueView>, n: nat) -> ValueView
        decreases n,
    {
        if n == 0 {
            self
        } else {
            self.pushed_all(items, (n - 1) as nat).pushed(items[n - 1])
        }
    }

    /// This value with the history of `other` declared on top of it, where
    /// `other` is a chain; this value unchanged where it is not.
    pub open spec fn combined(self, other: ValueView) -> ValueView {
        if other is Link {
            self.pushed_all(other.history(), other.history().len())
        } else {
            self
        }
    }
}

impl ConfigValue {
    /// The value that is visible: the head of a chain, or the value itself.
    pub fn latest(&self) -> (r: &Self)
        ensures
            r@ == self@.latest(),
            self@.wf() ==> r@.wf(),
    {
        proof {
            if self@.wf() {
                lemma_pushed_wf(self@, self@);
            }
        }
        match self {
            ConfigValue::Link { value, .. } => &**value,
            cv => cv,
        }
    }

    /// The value that the visible one replaced; the value itself where it replaced none.
    pub fn prev_latest(&self) -> (r: &Self)
        ensures
            r@ == self@.prev_latest(),
            self@.wf() ==> r@.wf(),
    {
        proof {
            if self@.wf() {
                lemma_pushed_wf(self@, self@);
            }
        }
        match self {
            ConfigValue::Link { prev, .. } => prev.latest(),
            cv => cv,
        }
    }

    /// The declarations that the chain records, oldest first.
    pub fn to_vec(&self) -> (r: Vec<ConfigValue>)
        ensures
            views(r@) == self@.history(),
        decreases self,
    {
        match self {
            ConfigValue::Link { prev, value } => {
                let mut out = prev.to_vec();
                let ghost before = out@;
                out.push((**value).clone());
                assert(views(out@) =~= views(before).push((**value)@));
                out
            },
            cv => {
                let mut out: Vec<ConfigValue> = Vec::new();
                out.push(cv.clone());
                assert(views(out@) =~= seq![cv@]);
                out
            },
        }
    }

    /// Declares `cv` on top of this value: this value becomes a chain whose
    /// head is `cv` and whose `prev` is what it was before. A reference that
    /// is pushed remembers the value that it displaces.
    pub fn push(&mut self, cv: ConfigValue)
        ensures
            final(self)@ == old(self)@.pushed(cv@),
            old(self)@.wf() && cv@.wf() ==> final(self)@.wf(),
    {
        proof {
            if self@.wf() && cv@.wf() {
                lemma_pushed_wf(self@, cv@);
            }
        }
        let mut old_value = ConfigValue::Null;
        core::mem::swap(self, &mut old_value);
        assert(old_value == *old(self));
        let ghost declared = cv@;
        let head = match cv {
            ConfigValue::Reference { path, missing, .. } => ConfigValue::Reference {
                prev: Some(Box::new(old_value.clone())),
                path,
                missing,
            },
            other => other,
        };
        assert(head@ == declared.displacing(old_value@));
        *self = ConfigValue::Link { prev: Box::new(old_value), value: Box::new(head) };
    }

    /// Declares the history of `other` on top of this value, where `other`
    /// is a chain; leaves this value unchanged where it is not.
    pub fn combine(&mut self, other: &ConfigValue)
        ensures
            final(self)@ == old(self)@.combined(other@),
    {
        match other {
            ConfigValue::Link { .. } => {
                let items = other.to_vec();
                let mut i: usize = 0;
                while i < items.len()
                    invariant
                        i <= items.len(),
                        views(items@) == other@.history(),
                        self@ == old(self)@.pushed_all(other@.history(), i as nat),
                    decreases items.len() - i,
                {
                    self.push(items[i].clone());
                    i += 1;
                }
            },
            _ => {},
        }
    }
}

} // verus!
