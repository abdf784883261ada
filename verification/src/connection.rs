//! The connection state: the one active client handle, if any.

use vstd::prelude::*;
use crate::error::{RepoError, RepoResult};

verus! {

/// Either disconnected or connected through one client handle.
pub struct ApiState<C> {
    pub(crate) inner: Option<C>,
}

/// What the client of a connection state is.
pub(crate) broadcast proof fn lemma_client<C>(state: &ApiState<C>)
    ensures
        #[trigger] state.client() == state.inner,
{
}

impl<C> ApiState<C> {
    /// The active client handle, if the state is connected.
    pub closed spec fn client(&self) -> Option<C> {
        self.inner
    }

    /// The disconnected state.
    pub fn new() -> (state: Self)
        ensures
            state.client() is None,
    {
        Self { inner: None }
    }

    /// Whether a client is active.
    pub fn is_connected(&self) -> (connected: bool)
        ensures
            connected == self.client() is Some,
    {
        self.inner.is_some()
    }

    /// Makes `client` the active handle and hands back the handle it
    /// replaces, which is no longer reachable through the state and is
    /// the caller's to close.
    pub fn set_api(&mut self, client: C) -> (previous: Option<C>)
        ensures
            final(self).client() == Some(client),
            previous == old(self).client(),
    {
        let previous = self.inner.take();
        self.inner = Some(client);
        previous
    }

    /// Disconnects and hands back the handle that was active, which is
    /// the caller's to close.
    pub fn disconnect(&mut self) -> (previous: Option<C>)
        ensures
            final(self).client() is None,
            previous == old(self).client(),
    {
        self.inner.take()
    }

    /// The active client handle, or `UpstreamDisconnected` where the
    /// state is disconnected.
    pub fn api(&self) -> (result: RepoResult<&C>)
        ensures
            match result {
                Ok(client) => self.client() == Some(*client),
                Err(e) => self.client() is None && e == RepoError::UpstreamDisconnected,
            },
    {
        match &self.inner {
            Some(client) => Ok(client),
            None => Err(RepoError::UpstreamDisconnected),
        }
    }
}

} // verus!
