//! Routes from subdomains to the ids of tunnels.

use vstd::prelude::*;
use crate::registry::Registry;

verus! {

/// The routes of the relay: which subdomain leads to which tunnel.
pub struct SubdomainRouter {
    routes: Registry<String>,
}

impl SubdomainRouter {
    /// The routes, each a subdomain and the id of a tunnel, as a value.
    pub closed spec fn routes(&self) -> Seq<(Seq<char>, String)> {
        self.routes.entries()
    }

    /// Every subdomain has one route at most.
    pub closed spec fn well_formed(&self) -> bool {
        self.routes.well_formed()
    }

    /// Whether a route leads from the subdomain.
    pub closed spec fn has_route(&self, subdomain: Seq<char>) -> bool {
        self.routes.has(subdomain)
    }

    /// The id of the tunnel that the subdomain leads to.
    pub closed spec fn tunnel_of(&self, subdomain: Seq<char>) -> String {
        self.routes.handle(subdomain)
    }

    /// A router without routes.
    pub fn new() -> (r: SubdomainRouter)
        ensures
            r.routes().len() == 0,
            r.well_formed(),
    {
        SubdomainRouter { routes: Registry::new() }
    }

    /// Makes the subdomain lead to the tunnel, in place of where it led
    /// before.
    pub fn add_route(&mut self, subdomain: String, tunnel_id: String)
        ensures
            final(self).has_route(subdomain@),
            final(self).tunnel_of(subdomain@) == tunnel_id,
            old(self).well_formed() ==> final(self).well_formed(),
    {
        let _ = self.routes.set(subdomain, tunnel_id);
    }

    /// Takes the route of the subdomain away.
    pub fn remove_route(&mut self, subdomain: &str)
        ensures
            old(self).well_formed() ==> final(self).well_formed() && !final(self).has_route(
                subdomain@,
            ),
            !old(self).has_route(subdomain@) ==> final(self).routes() == old(self).routes(),
    {
        let _ = self.routes.remove(subdomain);
    }

    /// The id of the tunnel that the subdomain leads to, if a route leads
    /// from it.
    pub fn get_tunnel_id(&self, subdomain: &str) -> (r: Option<String>)
        ensures
            match r {
                Some(id) => self.has_route(subdomain@) && id == self.tunnel_of(subdomain@),
                None => !self.has_route(subdomain@),
            },
    {
        match self.routes.get(subdomain) {
            Some(id) => Some(id.clone()),
            None => None,
        }
    }

    /// Whether the subdomain is free: no route leads from it.
    pub fn is_available(&self, subdomain: &str) -> (r: bool)
        ensures
            r == !self.has_route(subdomain@),
    {
        !self.routes.contains(subdomain)
    }
}

impl Default for SubdomainRouter {
    fn default() -> (r: SubdomainRouter)
        ensures
            r.routes().len() == 0,
            r.well_formed(),
    {
        SubdomainRouter::new()
    }
}

} // verus!
