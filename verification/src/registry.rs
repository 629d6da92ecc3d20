//! The registry service: validation in front of the stores.
//!
//! Every operation first checks the request, then calls the one store
//! operation it stands for. A request that fails validation changes nothing.
//! The service comes in two halves, one for servers and one for portals and
//! their configurations, so that a caller can guard each with a lock of its
//! own.

use vstd::prelude::*;
use crate::error::Error;
use crate::portal::{
    after_delete_config,
    after_delete_portal,
    after_insert_config,
    after_insert_portal,
    after_update_config,
    after_update_portal,
    delete_config_outcome,
    delete_portal_outcome,
    get_config_outcome,
    get_portal_outcome,
    insert_config_outcome,
    insert_portal_outcome,
    update_config_outcome,
    update_portal_outcome,
    ConfigView,
    Portal,
    PortalConfig,
    PortalStore,
    PortalsView,
};
use crate::server::{
    after_delete,
    after_insert,
    after_update,
    delete_outcome,
    get_outcome,
    insert_outcome,
    update_outcome,
    Server,
    ServerStore,
    ServerView,
};
use crate::validate::{
    endpoint_ok,
    portal_of,
    portal_ok,
    server_is_valid,
    validate_portal,
    PortalRequest,
};

verus! {

/// Where a status check has to connect.
#[derive(Debug, PartialEq, Eq)]
pub struct Probe {
    pub ip: String,
    pub port: u16,
}

/// What registering `rec` returns.
pub open spec fn register_outcome(s: Seq<ServerView>, rec: ServerView) -> Result<u128, Error> {
    if endpoint_ok(rec.ip, rec.port) {
        insert_outcome(s, rec)
    } else {
        Err(Error::ValidationError)
    }
}

/// What updating the server `id` with `patch` returns.
pub open spec fn update_server_outcome(s: Seq<ServerView>, id: u128, patch: ServerView) -> Result<
    ServerView,
    Error,
> {
    if endpoint_ok(patch.ip, patch.port) {
        update_outcome(s, id, patch)
    } else {
        Err(Error::ValidationError)
    }
}

/// What creating the portal that `req` writes returns.
pub open spec fn create_portal_outcome(s: PortalsView, req: PortalRequest) -> Result<u32, Error> {
    if portal_ok(req) {
        insert_portal_outcome(s, portal_of(req))
    } else {
        Err(Error::ValidationError)
    }
}

/// What updating the portal `index` with what `req` writes returns.
pub open spec fn change_portal_outcome(s: PortalsView, index: u32, req: PortalRequest) -> Result<
    Portal,
    Error,
> {
    if portal_ok(req) {
        update_portal_outcome(s, index, portal_of(req))
    } else {
        Err(Error::ValidationError)
    }
}

/// The service for servers.
pub struct ServerRegistry {
    store: ServerStore,
}

impl View for ServerRegistry {
    type V = Seq<ServerView>;

    closed spec fn view(&self) -> Seq<ServerView> {
        self.store@
    }
}

impl ServerRegistry {
    /// The service's invariant: its store is well-formed.
    pub open spec fn wf(&self) -> bool {
        crate::server::well_formed(self@)
    }

    /// A service with no servers.
    pub fn new() -> (r: ServerRegistry)
        ensures
            r.wf(),
            r@ == Seq::<ServerView>::empty(),
    {
        ServerRegistry { store: ServerStore::new() }
    }

    /// Registers a server, once its address and port are found valid.
    pub fn register_server(&mut self, rec: Server) -> (r: Result<u128, Error>)
        requires
            old(self).wf(),
        ensures
            final(self).wf(),
            r == register_outcome(old(self)@, rec@),
            final(self)@ == (if endpoint_ok(rec@.ip, rec@.port) {
                after_insert(old(self)@, rec@)
            } else {
                old(self)@
            }),
    {
        if !server_is_valid(&rec) {
            return Err(Error::ValidationError);
        }
        self.store.insert(rec)
    }

    /// Copies of all servers, in the order of their registration.
    pub fn list_servers(&self) -> (r: Vec<Server>)
        ensures
            r@.len() == self@.len(),
            forall|i: int| 0 <= i < r@.len() ==> (#[trigger] r@[i])@ == self@[i],
    {
        self.store.list()
    }

    /// A copy of the server named `id`.
    pub fn get_server(&self, id: u128) -> (r: Result<Server, Error>)
        requires
            self.wf(),
        ensures
            match r {
                Ok(v) => get_outcome(self@, id) == Ok::<ServerView, Error>(v@),
                Err(e) => get_outcome(self@, id) == Err::<ServerView, Error>(e),
            },
    {
        self.store.get(id)
    }

    /// Replaces name, address and port of the server named `id`, once the
    /// new address and port are found valid.
    pub fn update_server(&mut self, id: u128, patch: Server) -> (r: Result<Server, Error>)
        requires
            old(self).wf(),
        ensures
            final(self).wf(),
            match r {
                Ok(v) => update_server_outcome(old(self)@, id, patch@) == Ok::<
                    ServerView,
                    Error,
                >(v@),
                Err(e) => update_server_outcome(old(self)@, id, patch@) == Err::<
                    ServerView,
                    Error,
                >(e),
            },
            final(self)@ == (if endpoint_ok(patch@.ip, patch@.port) {
                after_update(old(self)@, id, patch@)
            } else {
                old(self)@
            }),
    {
        if !server_is_valid(&patch) {
            return Err(Error::ValidationError);
        }
        self.store.update(id, patch)
    }

    /// Removes the server named `id`.
    pub fn unregister_server(&mut self, id: u128) -> (r: Result<(), Error>)
        requires
            old(self).wf(),
        ensures
            final(self).wf(),
            r == delete_outcome(old(self)@, id),
            final(self)@ == after_delete(old(self)@, id),
    {
        self.store.delete(id)
    }

    /// Where to connect to learn whether the server named `id` is alive.
    /// The registry is not borrowed while the caller waits on the network.
    pub fn status_probe(&self, id: u128) -> (r: Result<Probe, Error>)
        requires
            self.wf(),
        ensures
            match r {
                Ok(p) => get_outcome(self@, id) matches Ok(v) && p.ip@ == v.ip && p.port
                    == v.port,
                Err(e) => get_outcome(self@, id) == Err::<ServerView, Error>(e),
            },
    {
        match self.store.get(id) {
            Ok(s) => Ok(Probe { ip: s.ip, port: s.port }),
            Err(e) => Err(e),
        }
    }
}

/// The service for portals and their configurations.
pub struct PortalRegistry {
    store: PortalStore,
}

impl View for PortalRegistry {
    type V = PortalsView;

    closed spec fn view(&self) -> PortalsView {
        self.store@
    }
}

impl PortalRegistry {
    /// The service's invariant: its store is well-formed.
    pub open spec fn wf(&self) -> bool {
        crate::portal::well_formed(self@)
    }

    /// A service with no configurations and no portals.
    pub fn new() -> (r: PortalRegistry)
        ensures
            r.wf(),
            r@.configs == Seq::<ConfigView>::empty(),
            r@.portals == Seq::<Portal>::empty(),
    {
        PortalRegistry { store: PortalStore::new() }
    }

    /// Adds a configuration.
    pub fn create_config(&mut self, rec: PortalConfig) -> (r: Result<u128, Error>)
        requires
            old(self).wf(),
        ensures
            final(self).wf(),
            r == insert_config_outcome(old(self)@, rec@),
            final(self)@ == after_insert_config(old(self)@, rec@),
    {
        self.store.insert_config(rec)
    }

    /// Copies of all configurations, in the order of their creation.
    pub fn list_configs(&self) -> (r: Vec<PortalConfig>)
        ensures
            r@.len() == self@.configs.len(),
            forall|i: int| 0 <= i < r@.len() ==> (#[trigger] r@[i])@ == self@.configs[i],
    {
        self.store.list_configs()
    }

    /// A copy of the configuration named `id`.
    pub fn get_config(&self, id: u128) -> (r: Result<PortalConfig, Error>)
        requires
            self.wf(),
        ensures
            match r {
                Ok(v) => get_config_outcome(self@, id) == Ok::<ConfigView, Error>(v@),
                Err(e) => get_config_outcome(self@, id) == Err::<ConfigView, Error>(e),
            },
    {
        self.store.get_config(id)
    }

    /// Replaces the fields of the configuration named `id`.
    pub fn update_config(&mut self, id: u128, patch: PortalConfig) -> (r: Result<
        PortalConfig,
        Error,
    >)
        requires
            old(self).wf(),
        ensures
            final(self).wf(),
            match r {
                Ok(v) => update_config_outcome(old(self)@, id, patch@) == Ok::<
                    ConfigView,
                    Error,
                >(v@),
                Err(e) => update_config_outcome(old(self)@, id, patch@) == Err::<
                    ConfigView,
                    Error,
                >(e),
            },
            final(self)@ == after_update_config(old(self)@, id, patch@),
    {
        self.store.update_config(id, patch)
    }

    /// Removes the configuration named `id`, unless a portal uses it.
    pub fn delete_config(&mut self, id: u128) -> (r: Result<(), Error>)
        requires
            old(self).wf(),
        ensures
            final(self).wf(),
            r == delete_config_outcome(old(self)@, id),
            final(self)@ == after_delete_config(old(self)@, id),
    {
        self.store.delete_config(id)
    }

    /// Adds the portal that `req` writes, once its colours are found valid.
    pub fn create_portal(&mut self, req: PortalRequest) -> (r: Result<u32, Error>)
        requires
            old(self).wf(),
        ensures
            final(self).wf(),
            r == create_portal_outcome(old(self)@, req),
            final(self)@ == (if portal_ok(req) {
                after_insert_portal(old(self)@, portal_of(req))
            } else {
                old(self)@
            }),
    {
        match validate_portal(req) {
            Ok(p) => self.store.insert_portal(p),
            Err(e) => Err(e),
        }
    }

    /// All portals, in the order of their creation.
    pub fn list_portals(&self) -> (r: Vec<Portal>)
        ensures
            r@ == self@.portals,
    {
        self.store.list_portals()
    }

    /// The portal with the index `index`.
    pub fn get_portal(&self, index: u32) -> (r: Result<Portal, Error>)
        requires
            self.wf(),
        ensures
            r == get_portal_outcome(self@, index),
    {
        self.store.get_portal(index)
    }

    /// Replaces the fields of the portal `index` by what `req` writes, once
    /// its colours are found valid.
    pub fn update_portal(&mut self, index: u32, req: PortalRequest) -> (r: Result<Portal, Error>)
        requires
            old(self).wf(),
        ensures
            final(self).wf(),
            r == change_portal_outcome(old(self)@, index, req),
            final(self)@ == (if portal_ok(req) {
                after_update_portal(old(self)@, index, portal_of(req))
            } else {
                old(self)@
            }),
    {
        match validate_portal(req) {
            Ok(p) => self.store.update_portal(index, p),
            Err(e) => Err(e),
        }
    }

    /// Removes the portal with the index `index`.
    pub fn delete_portal(&mut self, index: u32) -> (r: Result<(), Error>)
        requires
            old(self).wf(),
        ensures
            final(self).wf(),
            r == delete_portal_outcome(old(self)@, index),
            final(self)@ == after_delete_portal(old(self)@, index),
    {
        self.store.delete_portal(index)
    }
}

} // verus!
