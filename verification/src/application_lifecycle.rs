//! The global application lifecycle of eww: telling the long-running tasks
//! that the application exits.

use vstd::prelude::*;
use tokio::sync::broadcast::Sender;

verus! {

/// tokio's broadcast `Sender`.
#[verifier::external_type_specification]
#[verifier::external_body]
#[verifier::reject_recursive_types(T)]
pub struct ExBroadcastSender<T>(Sender<T>);

/// Why the exit event could not be sent.
#[derive(Debug, Clone, Copy, PartialEq, Eq, Structural)]
pub enum LifecycleError {
    /// No task listens for the event.
    NoReceivers,
}

/// `broadcast::Sender::send` of tokio. It fails when there are no
/// receivers; otherwise it gives the number of receivers, at least one.
#[verifier::external_body]
fn broadcast_unit(sender: &Sender<()>) -> (r: Result<usize, ()>)
    ensures
        r matches Ok(n) ==> n > 0,
{
    match sender.send(()) {
        Ok(n) => Ok(n),
        Err(_) => Err(()),
    }
}

/// Notify all listening tasks of the termination of the eww application
/// process.
pub fn send_exit(sender: &Sender<()>) -> (r: Result<(), LifecycleError>)
    ensures
        r is Ok || r == Err::<(), LifecycleError>(LifecycleError::NoReceivers),
{
    match broadcast_unit(sender) {
        Ok(_) => Ok(()),
        Err(()) => Err(LifecycleError::NoReceivers),
    }
}

} // verus!
