//! Path-template routes: build, join, and populate URL-style paths made of
//! static components and `{name}` / `{*name}` parameter placeholders.
//!
//! Two value types sit on top of one segment model. A [`WebRoute`] is a
//! concrete, requestable path: an ordered sequence of static components. A
//! [`ParameterizedRoute`] is a route template whose components may also be
//! named (`{name}`) or catchall (`{*name}`) parameters. Both hold their
//! canonical string — `/` followed by the components joined with `/` — as
//! their identity, so leading, trailing, and doubled separators never
//! survive construction.
//!
//! Routes are built from text or from other routes through the conversion
//! capabilities in [`to_segments`], joined into larger routes, and a
//! template is populated from an ordered string-keyed value mapping into a
//! `WebRoute`.

pub mod error;
pub mod parameterized_route;
pub mod text;
pub mod to_segments;
pub mod uuid_text;
pub mod values;
pub mod web_route;

pub use parameterized_route::route::ParameterizedRoute;
pub use web_route::route::WebRoute;
