//! The wake and acknowledgment primitives, which come from `tokio`.
//!
//! Nothing here is proved: each item states what is taken on trust about
//! `tokio` or `std`.

use std::sync::Arc;
use tokio::sync::oneshot::Sender;
use tokio::sync::Notify;
use vstd::prelude::*;

verus! {

/// `tokio::sync::Notify`, the handle on which a listener waits and through
/// which it is woken. Its state is not modelled.
#[verifier::external_type_specification]
#[verifier::external_body]
pub struct ExNotify(Notify);

/// `tokio::sync::oneshot::Sender`, the sending half of a channel that
/// carries one value. Whether the receiving half still exists is not
/// modelled.
#[verifier::external_type_specification]
#[verifier::external_body]
#[verifier::reject_recursive_types(T)]
pub struct ExSender<T>(Sender<T>);

/// `Notify::new` returns a handle; nothing is claimed of it.
pub assume_specification[ Notify::new ]() -> (handle: Notify);

/// `Notify::notify_one` wakes a waiting task or stores a permit for the
/// next one to wait. It returns nothing and nothing is claimed of it.
pub assume_specification[ Notify::notify_one ](handle: &Notify);

/// `Sender::send` hands the value to the receiving half. It fails where
/// that half is gone, which depends on what the receiver's owner did, so
/// the contract leaves open which of the two happens. The claim is the
/// documented one: a value that could not be sent comes back in the error.
pub assume_specification<T>[ Sender::<T>::send ](tx: Sender<T>, value: T) -> (sent: Result<(), T>)
    ensures
        sent matches Err(back) ==> back == value,
;

/// `Arc::clone` on a wake handle: the result points to the same `Notify`
/// as `handle`, so the two are the same handle.
#[verifier::external_body]
pub(crate) fn share(handle: &Arc<Notify>) -> (shared: Arc<Notify>)
    ensures
        shared == *handle,
{
    Arc::clone(handle)
}

} // verus!
