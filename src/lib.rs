//! A store of country growth indicator records, keyed by country name,
//! indicator and year, with the service and HTTP skeleton around it.
pub mod domain;
pub mod ports;
pub mod memory;
pub mod services;
pub mod http;
