use vstd::prelude::*;

use std::task::Waker;

verus! {

/// `std::task::Waker`. In contracts a waker stands for the task that it wakes:
/// two wakers are equal where they wake the same task.
#[verifier::external_type_specification]
#[verifier::external_body]
pub struct ExWaker(std::task::Waker);

/// `Waker::clone`: the clone wakes the same task.
pub assume_specification[ <Waker as Clone>::clone ](waker: &Waker) -> (r: Waker)
    ensures
        r == *waker,
;

/// `Waker::will_wake`: where it returns true, both wakers wake the same task.
/// It does its best only, so that nothing follows where it returns false.
pub assume_specification[ Waker::will_wake ](waker: &Waker, other: &Waker) -> (r: bool)
    ensures
        r ==> *waker == *other,
;

} // verus!
