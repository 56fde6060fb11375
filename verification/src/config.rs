//! Settings of the remote client, and the shell of the server's service.

use vstd::prelude::*;
use std::sync::Arc;
use std::time::Duration;

verus! {

/// The span of `secs` seconds, as `Duration::from_secs` makes it.
pub uninterp spec fn duration_of_secs(secs: u64) -> Duration;

/// `Duration::from_secs`, which cannot fail; its result is named by `duration_of_secs`.
#[verifier::external_body]
fn duration_from_secs(secs: u64) -> (r: Duration)
    ensures
        r == duration_of_secs(secs),
{
    Duration::from_secs(secs)
}

/// How the remote client reaches a server.
#[derive(Debug)]
pub struct RemoteGraphStoreConfig {
    pub endpoint: String,
    pub connect_lazy: bool,
    pub connect_timeout: Option<Duration>,
    pub request_timeout: Option<Duration>,
}

impl Clone for RemoteGraphStoreConfig {
    fn clone(&self) -> (r: Self)
        ensures
            r == *self,
    {
        RemoteGraphStoreConfig {
            endpoint: self.endpoint.clone(),
            connect_lazy: self.connect_lazy,
            connect_timeout: self.connect_timeout,
            request_timeout: self.request_timeout,
        }
    }
}

impl RemoteGraphStoreConfig {
    /// A client of `endpoint` that connects at once, within five seconds, and
    /// gives each request thirty seconds.
    pub fn new(endpoint: String) -> (r: Self)
        ensures
            r.endpoint == endpoint,
            !r.connect_lazy,
            r.connect_timeout == Some(duration_of_secs(5)),
            r.request_timeout == Some(duration_of_secs(30)),
    {
        RemoteGraphStoreConfig {
            endpoint,
            connect_lazy: false,
            connect_timeout: Some(duration_from_secs(5)),
            request_timeout: Some(duration_from_secs(30)),
        }
    }

    /// The same settings, with `timeout` to connect.
    pub fn with_connect_timeout(self, timeout: Duration) -> (r: Self)
        ensures
            r == (RemoteGraphStoreConfig { connect_timeout: Some(timeout), ..self }),
    {
        let mut config = self;
        config.connect_timeout = Some(timeout);
        config
    }

    /// The same settings, with `timeout` for each request.
    pub fn with_request_timeout(self, timeout: Duration) -> (r: Self)
        ensures
            r == (RemoteGraphStoreConfig { request_timeout: Some(timeout), ..self }),
    {
        let mut config = self;
        config.request_timeout = Some(timeout);
        config
    }

    /// The same settings, connecting at first use where `connect_lazy`.
    pub fn with_connect_lazy(self, connect_lazy: bool) -> (r: Self)
        ensures
            r == (RemoteGraphStoreConfig { connect_lazy, ..self }),
    {
        let mut config = self;
        config.connect_lazy = connect_lazy;
        config
    }
}

/// The service that answers remote requests from a store.
pub struct GraphStoreServiceImpl<S> {
    store: Arc<S>,
}

impl<S> GraphStoreServiceImpl<S> {
    /// The store that the service answers from.
    pub closed spec fn served_store(&self) -> Arc<S> {
        self.store
    }

    /// A service answering from `store`.
    pub fn new(store: Arc<S>) -> (r: Self)
        ensures
            r.served_store() == store,
    {
        GraphStoreServiceImpl { store }
    }

    /// The store that the service answers from.
    pub fn store(&self) -> (r: &Arc<S>)
        ensures
            *r == self.served_store(),
    {
        &self.store
    }
}

} // verus!
