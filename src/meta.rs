//! Front-matter metadata values and how criteria compare against them.
use crate::pattern::{regex_finds, Pattern};
use crate::text::str_eq;
use vstd::prelude::*;

verus! {

/// A structured metadata value, as YAML describes one.
#[derive(Debug, PartialEq)]
pub enum MetaValue {
    Null,
    Bool(bool),
    /// A number, kept in its written form.
    Number(String),
    Str(String),
    Sequence(Vec<MetaValue>),
    /// Key and value pairs, in the order they were written.
    Mapping(Vec<(MetaValue, MetaValue)>),
}

/// `entries[i]` is the first entry whose key is the string `key`.
pub open spec fn first_key_at(entries: Seq<(MetaValue, MetaValue)>, key: Seq<char>, i: int) -> bool {
    &&& 0 <= i < entries.len()
    &&& key_is(entries[i].0, key)
    &&& forall|j: int| 0 <= j < i ==> !key_is(#[trigger] entries[j].0, key)
}

/// `k` is the string `key`.
pub open spec fn key_is(k: MetaValue, key: Seq<char>) -> bool {
    k matches MetaValue::Str(s) && s@ == key
}

/// The field `key` of a mapping; `Null` when the value is not a mapping or
/// has no such field.
pub open spec fn field_of(v: MetaValue, key: Seq<char>) -> MetaValue {
    match v {
        MetaValue::Mapping(entries) => if exists|i: int|
            0 <= i < entries@.len() && key_is(#[trigger] entries@[i].0, key) {
            entries@[choose|i: int| first_key_at(entries@, key, i)].1
        } else {
            MetaValue::Null
        },
        _ => MetaValue::Null,
    }
}

impl MetaValue {
    /// The field `key` of a mapping, or `Null`.
    pub fn field(&self, key: &str) -> (r: &MetaValue)
        ensures
            *r == field_of(*self, key@),
    {
        match self {
            MetaValue::Mapping(entries) => {
                let mut i: usize = 0;
                while i < entries.len()
                    invariant
                        *self == MetaValue::Mapping(*entries),
                        i <= entries@.len(),
                        forall|j: int| 0 <= j < i ==> !key_is(#[trigger] entries@[j].0, key@),
                    decreases entries@.len() - i,
                {
                    if let MetaValue::Str(k) = &entries[i].0 {
                        if str_eq(k.as_str(), key) {
                            proof {
                                assert(key_is(entries@[i as int].0, key@));
                                assert(first_key_at(entries@, key@, i as int));
                                let c = choose|c: int| first_key_at(entries@, key@, c);
                                assert(first_key_at(entries@, key@, c));
                                if c < i {
                                    assert(!key_is(entries@[c].0, key@));
                                } else if i < c {
                                    assert(!key_is(entries@[i as int].0, key@));
                                }
                            }
                            return &entries[i].1;
                        }
                    }
                    i = i + 1;
                }
                &NULL_VALUE
            },
            _ => &NULL_VALUE,
        }
    }
}

const NULL_VALUE: MetaValue = MetaValue::Null;

/// How a metadata field is compared.
pub enum MetaOp {
    /// Exact string equality.
    Eq(String),
    /// The regex matches somewhere in the string.
    Regex(Pattern),
}

/// A comparison, as text.
pub enum MetaOpModel {
    Eq(Seq<char>),
    Regex(Seq<char>),
}

impl View for MetaOp {
    type V = MetaOpModel;

    open spec fn view(&self) -> MetaOpModel {
        match self {
            MetaOp::Eq(s) => MetaOpModel::Eq(s@),
            MetaOp::Regex(p) => MetaOpModel::Regex(p.source()),
        }
    }
}

/// Whether a string satisfies a comparison.
pub open spec fn str_match(op: MetaOpModel, s: Seq<char>) -> bool {
    match op {
        MetaOpModel::Eq(rhs) => s == rhs,
        MetaOpModel::Regex(p) => regex_finds(p, s),
    }
}

/// Folds two tri-state outcomes: true wins over false, false over
/// uncomparable.
pub open spec fn combine(acc: Option<bool>, x: Option<bool>) -> Option<bool> {
    if acc == Some(true) || x == Some(true) {
        Some(true)
    } else if acc == Some(false) || x == Some(false) {
        Some(false)
    } else {
        None
    }
}

/// The tri-state outcome of a comparison: `Some(true)`, `Some(false)`, or
/// `None` when the value cannot be compared. A string compares by `op`; null
/// is never equal; an empty sequence is false and any other sequence folds
/// its elements with `combine`; anything else is uncomparable.
pub open spec fn value_match(op: MetaOpModel, v: MetaValue) -> Option<bool>
    decreases v,
{
    match v {
        MetaValue::Str(s) => Some(str_match(op, s@)),
        MetaValue::Null => Some(false),
        MetaValue::Sequence(items) => if items@.len() == 0 {
            Some(false)
        } else {
            items_match(op, items@)
        },
        _ => None,
    }
}

/// The fold of `combine` over the outcomes of `items`, from the left and
/// starting from uncomparable.
pub open spec fn items_match(op: MetaOpModel, items: Seq<MetaValue>) -> Option<bool>
    decreases items,
{
    if items.len() == 0 {
        None
    } else {
        combine(items_match(op, items.drop_last()), value_match(op, items.last()))
    }
}

impl MetaOp {
    /// Compares a metadata value.
    pub fn matches(&self, v: &MetaValue) -> (r: Option<bool>)
        ensures
            r == value_match(self@, *v),
        decreases v,
    {
        match v {
            MetaValue::Str(s) => {
                let r = match self {
                    MetaOp::Eq(rhs) => str_eq(s.as_str(), rhs.as_str()),
                    MetaOp::Regex(p) => p.is_match(s.as_str()),
                };
                assert(Some(r) == value_match(self@, *v));
                Some(r)
            },
            MetaValue::Null => Some(false),
            MetaValue::Sequence(items) => {
                if items.len() == 0 {
                    return Some(false);
                }
                proof {
                    assert forall|j: int| 0 <= j < items@.len() implies decreases_to!(*v => #[trigger] items@[j]) by {
                        vstd::std_specs::vec::axiom_vec_index_decreases(*items, j);
                    }
                }
                let mut acc: Option<bool> = None;
                let mut i: usize = 0;
                while i < items.len()
                    invariant
                        *v == MetaValue::Sequence(*items),
                        items@.len() > 0,
                        forall|j: int| 0 <= j < items@.len() ==> decreases_to!(*v => #[trigger] items@[j]),
                        i <= items@.len(),
                        acc == items_match(self@, items@.take(i as int)),
                    decreases items@.len() - i,
                {
                    let x = self.matches(&items[i]);
                    acc = match (acc, x) {
                        (Some(true), _) | (_, Some(true)) => Some(true),
                        (Some(false), _) | (_, Some(false)) => Some(false),
                        (None, None) => None,
                    };
                    proof {
                        assert(items@.take(i + 1).drop_last() =~= items@.take(i as int));
                    }
                    i = i + 1;
                }
                assert(items@.take(i as int) =~= items@);
                acc
            },
            _ => None,
        }
    }
}

} // verus!
