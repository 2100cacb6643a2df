//! Types to manage messages that notify the eww client over the result of a
//! command.
//!
//! Communication between the daemon and eww client happens via IPC. If the
//! daemon needs to send messages back to the client as a response to a
//! command (mostly for CLI output), this happens via the `DaemonResponse`
//! types.

use vstd::prelude::*;
use tokio::sync::mpsc::{UnboundedReceiver, UnboundedSender};
use crate::text::{chars_of, join, join_with, string_of};

verus! {

/// tokio's `UnboundedReceiver`, the receiving half of an unbounded channel.
#[verifier::external_type_specification]
#[verifier::external_body]
#[verifier::reject_recursive_types(T)]
pub struct ExUnboundedReceiver<T>(UnboundedReceiver<T>);

/// Response that the app may send as a response to a event.
#[derive(Debug, PartialEq, Eq)]
pub enum DaemonResponse {
    Success(String),
    Failure(String),
}

impl DaemonResponse {
    /// The message of the response.
    pub fn to_display_string(&self) -> (s: String)
        ensures
            match self {
                DaemonResponse::Success(m) => s@ == m@,
                DaemonResponse::Failure(m) => s@ == m@,
            },
    {
        match self {
            DaemonResponse::Success(m) => m.clone(),
            DaemonResponse::Failure(m) => m.clone(),
        }
    }
}

/// Why a response could not be sent.
#[derive(Debug, Clone, Copy, PartialEq, Eq, Structural)]
pub enum DaemonResponseError {
    /// The receiving half of the channel is closed.
    ReceiverClosed,
}

/// The response for a list of formatted errors: success with an empty
/// message when there are none, and otherwise failure with the errors
/// joined by line feeds.
pub fn response_for_errors(errors: &Vec<String>) -> (r: DaemonResponse)
    ensures
        ({
            let joined = join(errors@.map_values(|e: String| e@), seq!['\n']);
            if errors@.len() == 0 {
                r matches DaemonResponse::Success(m) && m@.len() == 0
            } else {
                r matches DaemonResponse::Failure(m) && m@ == joined
            }
        }),
{
    let mut parts: Vec<Vec<char>> = Vec::new();
    let mut i: usize = 0;
    while i < errors.len()
        invariant
            0 <= i <= errors@.len(),
            parts@.len() == i,
            forall|k: int| 0 <= k < i ==> (#[trigger] parts@[k])@ == errors@[k]@,
        decreases errors.len() - i,
    {
        parts.push(chars_of(errors[i].as_str()));
        i = i + 1;
    }
    let joined = join_with(&parts, '\n');
    proof {
        assert(parts@.map_values(|p: Vec<char>| p@) =~= errors@.map_values(|e: String| e@));
    }
    if errors.len() == 0 {
        DaemonResponse::Success(String::new())
    } else {
        DaemonResponse::Failure(string_of(&joined))
    }
}

/// The response for the result of a command whose error, if any, was
/// formatted as `result`'s error.
pub fn response_for_result<T>(result: Result<T, String>) -> (r: DaemonResponse)
    ensures
        match result {
            Ok(_) => r matches DaemonResponse::Success(m) && m@.len() == 0,
            Err(e) => r matches DaemonResponse::Failure(m) && m@ == e@,
        },
{
    match result {
        Ok(_) => DaemonResponse::Success(String::new()),
        Err(e) => DaemonResponse::Failure(e),
    }
}

/// `UnboundedSender::send` of tokio. It fails when the receiving half is
/// closed, and then hands the value back.
#[verifier::external_body]
fn send_on(sender: &UnboundedSender<DaemonResponse>, response: DaemonResponse) -> (r: Result<(), DaemonResponse>)
    ensures
        r matches Err(v) ==> v == response,
{
    match sender.send(response) {
        Ok(()) => Ok(()),
        Err(e) => Err(e.0),
    }
}

/// `tokio::sync::mpsc::unbounded_channel`: the two halves of a new channel.
#[verifier::external_body]
fn new_channel() -> (UnboundedSender<DaemonResponse>, UnboundedReceiver<DaemonResponse>) {
    tokio::sync::mpsc::unbounded_channel()
}

/// The sending half of the channel that responses to a command go back on.
#[derive(Debug)]
pub struct DaemonResponseSender(pub UnboundedSender<DaemonResponse>);

/// A new channel for the responses to a command.
pub fn create_pair() -> (DaemonResponseSender, UnboundedReceiver<DaemonResponse>) {
    let (sender, recv) = new_channel();
    (DaemonResponseSender(sender), recv)
}

impl DaemonResponseSender {
    /// Sends `response`.
    pub fn send(&self, response: DaemonResponse) -> (r: Result<(), DaemonResponseError>)
        ensures
            r is Ok || r == Err::<(), DaemonResponseError>(DaemonResponseError::ReceiverClosed),
    {
        match send_on(&self.0, response) {
            Ok(()) => Ok(()),
            Err(_) => Err(DaemonResponseError::ReceiverClosed),
        }
    }

    /// Sends a success with the message `s`.
    pub fn send_success(&self, s: String) -> (r: Result<(), DaemonResponseError>)
        ensures
            r is Ok || r == Err::<(), DaemonResponseError>(DaemonResponseError::ReceiverClosed),
    {
        self.send(DaemonResponse::Success(s))
    }

    /// Sends a failure with the message `s`.
    pub fn send_failure(&self, s: String) -> (r: Result<(), DaemonResponseError>)
        ensures
            r is Ok || r == Err::<(), DaemonResponseError>(DaemonResponseError::ReceiverClosed),
    {
        self.send(DaemonResponse::Failure(s))
    }

    /// Given a list of formatted errors, respond with an error value if
    /// there are any errors, and respond with success otherwise; the
    /// response is the one of [`response_for_errors`].
    pub fn respond_with_error_list(&self, errors: &Vec<String>) -> (r: Result<(), DaemonResponseError>)
        ensures
            r is Ok || r == Err::<(), DaemonResponseError>(DaemonResponseError::ReceiverClosed),
    {
        self.send(response_for_errors(errors))
    }

    /// Respond with success for `Ok`, and with the formatted error for
    /// `Err`; the response is the one of [`response_for_result`].
    pub fn respond_with_result<T>(&self, result: Result<T, String>) -> (r: Result<(), DaemonResponseError>)
        ensures
            r is Ok || r == Err::<(), DaemonResponseError>(DaemonResponseError::ReceiverClosed),
    {
        self.send(response_for_result(result))
    }
}

} // verus!
