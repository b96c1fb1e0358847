//! DNS plugin logic: rule matching, parsing and bookkeeping for a DNS forwarder.

pub mod text;
pub mod audit;
pub mod domain_rules;
pub mod geosite;
pub mod ip;
pub mod dns;
pub mod acl;
pub mod error;
pub mod sets;
pub mod records;
pub mod config;
pub mod forward;
pub mod redirect;
pub mod ros_addrlist;
pub mod metrics;
pub mod cache_dump;
pub mod cache;
pub mod ratelimit;
pub mod domain_validator;
pub mod reverse_lookup;
pub mod hosts;
pub mod arbitrary;
pub mod black_hole;
pub mod ecs;
pub mod ip_set;
pub mod geoip;
pub mod query_log;
