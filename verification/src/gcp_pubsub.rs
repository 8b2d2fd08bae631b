//! The configuration of the Google Cloud Pub/Sub backend, and the checks it
//! makes before it talks to the service.

use crate::config::joined;
use crate::error::QueueError;
use std::path::PathBuf;
use vstd::prelude::*;

verus! {

/// `std::path::PathBuf`, carried through as it is: nothing is claimed of what
/// a path holds.
#[verifier::external_type_specification]
#[verifier::external_body]
pub struct ExPathBuf(PathBuf);

/// The backend of queues over Google Cloud Pub/Sub.
#[derive(Debug, PartialEq, Eq)]
pub struct GcpPubSubBackend;

/// The options of a Pub/Sub queue: the topic to publish to, the subscription
/// to read from, and the file that holds the credentials, if one does.
#[derive(Clone, Debug, Eq, PartialEq)]
pub struct GcpPubSubConfig {
    pub topic_id: String,
    pub subscription_id: String,
    pub credentials_file: Option<PathBuf>,
}

/// The message that a missing topic or subscription is reported with.
pub open spec fn missing(kind: Seq<char>, id: Seq<char>) -> Seq<char> {
    kind + " "@ + id + " does not exist"@
}

impl GcpPubSubConfig {
    /// The file that the client reads its credentials from; with none
    /// configured, it takes them from the environment of the process.
    pub fn credentials_file(&self) -> (file: Option<&PathBuf>)
        ensures
            match self.credentials_file {
                Some(path) => file == Some(&path),
                None => file.is_none(),
            },
    {
        match &self.credentials_file {
            Some(path) => Some(path),
            None => None,
        }
    }
}

fn found(exists: bool, kind: &str, id: &str) -> (checked: Result<(), QueueError>)
    ensures
        exists ==> checked == Ok::<(), QueueError>(()),
        !exists ==> (checked matches Err(QueueError::Generic(message)) && message@ == missing(
            kind@,
            id@,
        )),
{
    if exists {
        return Ok(());
    }
    let message = joined(joined(joined(kind.to_owned(), " "), id), " does not exist");
    Err(QueueError::Generic(message))
}

/// Publishing to a topic that does not exist would wait without end, so a
/// send fails at once where the service says the topic is missing.
pub fn topic_found(exists: bool, topic_id: &str) -> (checked: Result<(), QueueError>)
    ensures
        exists ==> checked == Ok::<(), QueueError>(()),
        !exists ==> (checked matches Err(QueueError::Generic(message)) && message@ == missing(
            "topic"@,
            topic_id@,
        )),
{
    found(exists, "topic", topic_id)
}

/// A receive fails at once where the service says the subscription is
/// missing.
pub fn subscription_found(exists: bool, subscription_id: &str) -> (checked: Result<
    (),
    QueueError,
>)
    ensures
        exists ==> checked == Ok::<(), QueueError>(()),
        !exists ==> (checked matches Err(QueueError::Generic(message)) && message@ == missing(
            "subscription"@,
            subscription_id@,
        )),
{
    found(exists, "subscription", subscription_id)
}

} // verus!
