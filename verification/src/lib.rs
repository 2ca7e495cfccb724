//! A request router: routes are registered per HTTP method under glob
//! patterns, incoming (method, path) pairs are dispatched to the matching
//! route with a trailing-slash redirect fallback and aggregate OPTIONS
//! reporting, and a reverse generator rebuilds a URL from a stored glob and
//! a parameter map.

pub mod matcher;
pub mod method;
pub mod params;
pub mod router;
pub mod strutil;
pub mod url_for;
pub mod urlparts;

pub use method::Method;
pub use params::ParamMap;
pub use router::{DispatchOutcome, NoRoute, Router, TrailingSlash};
pub use url_for::{url_for, url_for_impl, UrlForError};
pub use urlparts::UrlParts;
