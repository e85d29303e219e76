//! Page selection and routing for a small portfolio site.
//!
//! * [`navigation`] holds the selected page and tells listeners when it
//!   changes.
//! * [`pages`] maps a page identifier, a route or a location to the view it
//!   shows.
//! * [`routes`] is the route table: it resolves a location to a route and
//!   writes a route as a path.
//! * [`url`] and [`decimal`] do the reading that the route table rests on.
//! * [`view`] is the tree that a rendered page is made of, and [`header`]
//!   lists the navigation triggers of the site header.

pub mod decimal;
pub mod header;
pub mod navigation;
pub mod page_id;
pub mod pages;
pub mod routes;
pub mod url;
pub mod view;

pub use header::header;
pub use navigation::{set_page_id, Navigation};
pub use page_id::PageId;
pub use pages::{not_found, page, render_location, render_page, render_route, Blog};
pub use routes::{resolve, Route};
pub use view::{NavLink, ViewNode};
