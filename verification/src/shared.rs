//! Values shared between several owners.

use vstd::prelude::*;

use std::rc::Rc;

verus! {

/// A value with shared ownership.
pub type Shared<T> = Rc<T>;

/// Puts `value` under shared ownership.
pub fn shared<V>(value: V) -> (r: Shared<V>)
    ensures
        *r == value,
{
    Rc::new(value)
}

/// A copy of a shared value, for sole ownership.
pub fn unshare_clone<V: Clone>(shared_value: Shared<V>) -> (r: V)
    ensures
        vstd::pervasive::cloned(*shared_value, r),
{
    (*shared_value).clone()
}

} // verus!
