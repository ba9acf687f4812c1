//! Messages to and from the task that talks to Docker.
use vstd::prelude::*;

verus! {

/// A container, as Docker lists it: the fields that the list shows.
#[derive(Clone, Debug, PartialEq, Eq)]
pub struct Container {
    pub id: Option<String>,
    pub image: Option<String>,
    pub command: Option<String>,
    /// Seconds since the Unix epoch.
    pub created: Option<i64>,
    pub status: Option<String>,
    pub names: Option<Vec<String>>,
}

/// A request to the Docker task.
#[derive(Clone, Copy, Debug, PartialEq, Eq, Structural)]
pub enum MessageIn {
    /// List the containers: all of them, or only the running ones.
    GetContainers { all: bool },
}

/// An answer of the Docker task.
#[derive(Debug)]
pub enum MessageOut {
    GetContainers(Vec<Container>),
}

} // verus!
