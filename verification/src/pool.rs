//! The pool of connected MCP clients, shared by every tool, and the registry
//! it connects from.

use vstd::prelude::*;
use crate::config::{
    McpServerConfig, PluginRecord, ServerConfigs, ServerRow, configs_view, read_configs,
    spec_read_configs,
};
use crate::name_map::NameMap;
use crate::text::concat;

verus! {

/// Connected clients by server name, and the database the registry is read
/// from, if any.
pub struct McpPool<C> {
    clients: NameMap<C>,
    db_path: Option<String>,
}

impl<C> McpPool<C> {
    /// The connected clients.
    pub closed spec fn clients(self) -> Map<Seq<char>, C> {
        self.clients.view()
    }

    /// The database path.
    pub closed spec fn db(self) -> Option<Seq<char>> {
        crate::config::opt_view(self.db_path)
    }

    /// A pool without clients or database.
    pub fn new() -> (r: Self)
        ensures
            r.clients() == Map::<Seq<char>, C>::empty(),
            r.db() is None,
    {
        McpPool { clients: NameMap::new(), db_path: None }
    }

    /// A pool without clients that reads its registry from a database.
    pub fn new_with_db(db_path: String) -> (r: Self)
        ensures
            r.clients() == Map::<Seq<char>, C>::empty(),
            r.db() == Some(db_path@),
    {
        McpPool { clients: NameMap::new(), db_path: Some(db_path) }
    }

    /// Whether the registry includes the database's servers and plugins.
    pub fn uses_db(&self) -> (r: bool)
        ensures
            r == self.db() is Some,
    {
        self.db_path.is_some()
    }

    /// The registry: the user settings' servers, then, when the pool has a
    /// database, the servers of enabled plugins (which replace the user
    /// settings' entries) and the `mcp_servers` rows (which replace both).
    pub fn read_configs(
        &self,
        user: ServerConfigs,
        rows: Option<Vec<ServerRow>>,
        plugins: Option<Vec<PluginRecord>>,
    ) -> (r: ServerConfigs)
        ensures
            configs_view(r.view()) == spec_read_configs(
                configs_view(user.view()),
                self.db() is Some,
                match rows {
                    Some(v) => Some(v@),
                    None => None,
                },
                match plugins {
                    Some(v) => Some(v@),
                    None => None,
                },
            ),
    {
        read_configs(user, self.db_path.is_some(), rows, plugins)
    }

    /// The client connected to `server_name`, if any.
    pub fn cached(&self, server_name: &str) -> (r: Option<&C>)
        ensures
            match r {
                Some(c) => self.clients().contains_key(server_name@) && self.clients()[server_name@] == *c,
                None => !self.clients().contains_key(server_name@),
            },
    {
        self.clients.get(server_name)
    }

    /// Keeps `client` as the connection to `server_name`; a later insert for
    /// the same server wins.
    pub fn insert(&mut self, server_name: String, client: C)
        ensures
            final(self).clients() == old(self).clients().insert(server_name@, client),
            final(self).db() == old(self).db(),
    {
        self.clients.insert(server_name, client);
    }

    /// Drops the connection to `server_name`, so that the next use reconnects.
    pub fn evict(&mut self, server_name: &str)
        ensures
            final(self).clients() == old(self).clients().remove(server_name@),
            final(self).db() == old(self).db(),
    {
        self.clients.remove(server_name);
    }
}

/// A client kept for a server is what the pool hands out for that server
/// until it is replaced or evicted, and keeping it leaves the other servers'
/// clients as they were.
pub proof fn law_cached_after_insert<C>(clients: Map<Seq<char>, C>, name: Seq<char>, client: C, other: Seq<char>)
    requires
        other != name,
    ensures
        clients.insert(name, client).contains_key(name),
        clients.insert(name, client)[name] == client,
        clients.insert(name, client).contains_key(other) == clients.contains_key(other),
        clients.contains_key(other) ==> clients.insert(name, client)[other] == clients[other],
{
}

/// After an eviction the pool has no client for the server, so the next use
/// reconnects; the other servers' clients stay.
pub proof fn law_evict_forgets<C>(clients: Map<Seq<char>, C>, name: Seq<char>, other: Seq<char>)
    requires
        other != name,
    ensures
        !clients.remove(name).contains_key(name),
        clients.remove(name).contains_key(other) == clients.contains_key(other),
        clients.contains_key(other) ==> clients.remove(name)[other] == clients[other],
{
}

/// The configuration of `server_name` in the registry, or the error that
/// names an unknown server.
pub fn config_for<'a>(configs: &'a ServerConfigs, server_name: &str) -> (r: Result<&'a McpServerConfig, String>)
    ensures
        match r {
            Ok(c) => configs.view().contains_key(server_name@) && configs.view()[server_name@] == *c,
            Err(e) => !configs.view().contains_key(server_name@) && e@ == "unknown MCP server: "@
                + server_name@,
        },
{
    match configs.get(server_name) {
        Some(c) => Ok(c),
        None => Err(concat("unknown MCP server: ", server_name)),
    }
}

} // verus!
