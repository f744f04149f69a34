//! A minimal client library for a mobile-device-management vendor's REST API.
//!
//! The library covers everything about the two API calls that can be decided
//! without touching the network: resolving the regional base URL from a
//! billing identifier, building the endpoint URLs, serializing the credential
//! envelope to the vendor's JSON shape, parsing the two JSON response bodies,
//! and deciding each call's outcome from the HTTP status and the parsed body.
//! The HTTP transport itself lives outside the library.

pub mod auth;
pub mod credentials;
pub mod devices;
pub mod errors;
pub mod json;
pub mod region;
pub mod scan;
