//! The navigation triggers of the site header.

use crate::view::{NavLink, NavLinkModel};
use vstd::prelude::*;
use vstd::string::*;

verus! {

/// The anchors of the header, left to right: the logo, which leads home; the
/// two page anchors; and the mail anchor, the only one that leaves the site
/// and so the only one that opens a new browsing context.
pub open spec fn header_links(contact: Seq<char>) -> Seq<NavLinkModel> {
    seq![
        NavLinkModel { label: "MP"@, to: "home"@, new_tab: false },
        NavLinkModel { label: "Home"@, to: "home"@, new_tab: false },
        NavLinkModel { label: "Projects"@, to: "projects"@, new_tab: false },
        NavLinkModel { label: "Email Me"@, to: "mailto:"@ + contact, new_tab: true },
    ]
}

/// The views of `links`, in order.
pub open spec fn link_models(links: Seq<NavLink>) -> Seq<NavLinkModel> {
    Seq::new(links.len(), |i: int| links[i]@)
}

/// Builds the anchors of the header; `contact` is the address that the mail
/// anchor writes to.
pub fn header(contact: &str) -> (links: Vec<NavLink>)
    ensures
        link_models(links@) == header_links(contact@),
{
    let logo: NavLink = NavLink {
        label: String::from_str("MP"),
        to: String::from_str("home"),
        new_tab: false,
    };
    let home: NavLink = NavLink {
        label: String::from_str("Home"),
        to: String::from_str("home"),
        new_tab: false,
    };
    let projects: NavLink = NavLink {
        label: String::from_str("Projects"),
        to: String::from_str("projects"),
        new_tab: false,
    };
    let mail: NavLink = NavLink {
        label: String::from_str("Email Me"),
        to: String::from_str("mailto:").concat(contact),
        new_tab: true,
    };
    let links: Vec<NavLink> = vec![logo, home, projects, mail];
    assert(link_models(links@) =~= header_links(contact@));
    links
}

} // verus!
