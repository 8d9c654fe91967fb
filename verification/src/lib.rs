//! A minimal HTTP/1.x request-routing core: a verified parser for request
//! heads, a route-template matcher with named placeholders, and a
//! first-match-wins dispatch chain over registered routes.

pub mod handler;
pub mod http;
pub mod parse;
pub mod pattern;
pub mod router;
pub mod text;
