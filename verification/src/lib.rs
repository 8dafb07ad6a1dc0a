//! An embedded HTTP request router: it maps an incoming (method, path) pair
//! to a registered handler and reports which handler to invoke, or produces
//! a fixed not-found response when no route matches.

pub mod http;
pub mod laws;
pub mod model;
pub mod pattern;
pub mod router;
