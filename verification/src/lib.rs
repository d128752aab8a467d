//! Compilation of a declarative zone configuration into an immutable,
//! in-memory catalog of authorities.
//!
//! The library normalizes record owner names against a zone origin, parses
//! textual record values into typed resource data, assembles each zone's
//! record-set map (synthesizing the mandatory apex SOA record), and builds
//! the catalog that routes a query name to the authority responsible for
//! it, with a root forwarding entry for everything else.  Wire-format
//! handling, transport and the query loop live outside this crate.

pub mod addr;
pub mod catalog;
pub mod config;
pub mod error;
pub mod name;
pub mod record;
pub mod zone;

pub use addr::Ipv4Addr;
pub use addr::Ipv6Addr;
pub use catalog::{Authority, Catalog, CatalogEntry, HostAddr, NameServer};
pub use config::{Config, DomainConfig, RecordInfo};
pub use error::SimpleDnsError;
pub use name::Fqdn;
pub use record::{RData, RecordSet, RecordType, ResourceRecord, RrKey, SoaData};
pub use zone::{Zone, ZoneKind};

use vstd::prelude::*;

verus! {

/// A loaded server: the address to bind and the compiled catalog the
/// serving layer dispatches queries through.
pub struct SimpleDns {
    pub addr: String,
    pub catalog: Catalog,
}

impl SimpleDns {
    /// Compiles a configuration into a ready-to-serve state: the catalog
    /// of all configured zones plus the root forwarding authority, and
    /// the configured bind address.  The first failing domain aborts with
    /// its zone-construction error.
    pub fn try_load(config: Config) -> (r: Result<SimpleDns, SimpleDnsError>)
        ensures
            catalog::config_ok(config.domains@) ==> (r matches Ok(s) && s.addr@ == config.bind@
                && s.catalog.wf() && s.catalog@ == catalog::spec_catalog_map(config.domains@)
                && s.catalog.entries@.len() <= config.domains@.len() + 1 && (
            catalog::distinct_apexes(config.domains@) ==> catalog::positional_catalog(
                s.catalog,
                config.domains@,
            ))),
            !catalog::config_ok(config.domains@) ==> (r matches Err(e) && e
                matches SimpleDnsError::ZoneConstruction { domain, cause } && domain@
                == config.domains@[catalog::first_bad_domain(config.domains@)].domain@
                && zone::zone_cause_ok(
                *cause,
                config.domains@[catalog::first_bad_domain(config.domains@)].domain@,
                config.domains@[catalog::first_bad_domain(config.domains@)].records@,
            )),
    {
        let addr = config.bind.clone();
        match catalog::assemble(config) {
            Ok(catalog) => Ok(SimpleDns { addr, catalog }),
            Err(e) => Err(e),
        }
    }
}

} // verus!
