//! The page selector: which view a page identifier, a route or a location
//! gets.
//!
//! Whatever names no page gets the not-found placeholder, the literal text
//! `404`. That holds of the identifier `Unknown` and of every location that
//! the route table does not match.

use crate::decimal::{decimal_string, decimal_text};
use crate::navigation::Navigation;
use crate::page_id::PageId;
use crate::routes::{lemma_path_resolves, path_text, resolve, route_of, Route};
use crate::view::{occurs_in, text_of, text_of_first, NavLink, NavLinkModel, ViewModel, ViewNode};
use vstd::prelude::*;
use vstd::string::*;

verus! {

/// The not-found placeholder.
pub open spec fn not_found_view() -> ViewModel {
    ViewModel::Text("404"@)
}

/// The view of a page identifier.
pub open spec fn page_view(id: PageId) -> ViewModel {
    match id {
        PageId::Home => ViewModel::HomePage,
        PageId::Projects => ViewModel::ProjectsPage,
        PageId::Unknown => not_found_view(),
    }
}

/// The line that a blog post shows.
pub open spec fn blog_line(id: i32) -> Seq<char> {
    "Blog post "@ + decimal_text(id as int)
}

/// The view of a blog post: an anchor that leads home, then the post's line.
pub open spec fn blog_view(id: i32) -> ViewModel {
    ViewModel::Fragment(
        seq![
            ViewModel::Link(
                NavLinkModel {
                    label: "Go to counter"@,
                    to: path_text(Route::Home {}),
                    new_tab: false,
                },
            ),
            ViewModel::Text(blog_line(id)),
        ],
    )
}

/// The view of a resolved location; `None` is the not-found state.
pub open spec fn route_view(route: Option<Route>) -> ViewModel {
    match route {
        Some(Route::Home {}) => ViewModel::HomePage,
        Some(Route::Blog { id }) => blog_view(id),
        None => not_found_view(),
    }
}

/// Renders the not-found placeholder.
pub fn not_found() -> (view: ViewNode)
    ensures
        view@ == not_found_view(),
{
    ViewNode::Text(String::from_str("404"))
}

/// Renders the page that `id` names.
pub fn render_page(id: PageId) -> (view: ViewNode)
    ensures
        view@ == page_view(id),
{
    match id {
        PageId::Home => ViewNode::HomePage,
        PageId::Projects => ViewNode::ProjectsPage,
        PageId::Unknown => not_found(),
    }
}

/// Renders the page that the navigation state selects.
pub fn page(nav: &Navigation) -> (view: ViewNode)
    ensures
        view@ == page_view(nav@.page),
{
    render_page(nav.page_id())
}

/// Renders the blog post `id`.
#[allow(non_snake_case)]
pub fn Blog(id: i32) -> (view: ViewNode)
    ensures
        view@ == blog_view(id),
{
    let home: Route = Route::Home {};
    let back: NavLink = NavLink {
        label: String::from_str("Go to counter"),
        to: home.path(),
        new_tab: false,
    };
    let line: String = String::from_str("Blog post ").concat(decimal_string(id).as_str());
    let children: Vec<ViewNode> = vec![ViewNode::Link(back), ViewNode::Text(line)];
    let view: ViewNode = ViewNode::Fragment(children);
    proof {
        let nodes = blog_view(id)->Fragment_0;
        assert(children@.len() == 2);
        assert(children@[0]@ == nodes[0]);
        assert(children@[1]@ == nodes[1]);
        assert(view@->Fragment_0 =~= nodes);
    }
    view
}

/// Renders what a resolved location shows.
pub fn render_route(route: Option<Route>) -> (view: ViewNode)
    ensures
        view@ == route_view(route),
{
    match route {
        Some(Route::Home {}) => ViewNode::HomePage,
        Some(Route::Blog { id }) => Blog(id),
        None => not_found(),
    }
}

/// Resolves a location and renders what it shows.
pub fn render_location(url: &str) -> (view: ViewNode)
    ensures
        view@ == route_view(route_of(url@)),
{
    render_route(resolve(url))
}

/// A location that the route table does not match shows the not-found
/// placeholder: what the page identifier `Unknown` shows, the text `404`, and
/// not what `Home` or `Projects` show.
pub proof fn lemma_unmatched_is_not_found(url: Seq<char>)
    requires
        route_of(url) is None,
    ensures
        route_view(route_of(url)) == not_found_view(),
        route_view(route_of(url)) == page_view(PageId::Unknown),
        route_view(route_of(url)) != page_view(PageId::Home),
        route_view(route_of(url)) != page_view(PageId::Projects),
        text_of(route_view(route_of(url))) == "404"@,
{
}

/// A blog post shows the line `Blog post ` followed by its id.
pub proof fn lemma_blog_shows_its_line(id: i32)
    ensures
        occurs_in(blog_line(id), text_of(blog_view(id))),
        text_of(blog_view(id)) == "Go to counter"@ + blog_line(id),
{
    let children = blog_view(id)->Fragment_0;
    let all = text_of(blog_view(id));
    let label = "Go to counter"@;
    assert(text_of(children[0]) == label);
    assert(text_of(children[1]) == blog_line(id));
    assert(text_of_first(children, 0) =~= Seq::<char>::empty());
    assert(text_of_first(children, 1) =~= label);
    assert(text_of_first(children, 2) =~= label + blog_line(id));
    assert(all =~= label + blog_line(id));
    let at = label.len() as int;
    assert(all.subrange(at, at + blog_line(id).len()) =~= blog_line(id));
}

/// The path of a blog post leads to the view of that post, which shows the
/// post's line.
pub proof fn lemma_blog_path_shows_its_post(id: i32)
    ensures
        route_view(route_of(path_text(Route::Blog { id }))) == blog_view(id),
        occurs_in(blog_line(id), text_of(route_view(route_of(path_text(Route::Blog { id }))))),
{
    lemma_path_resolves(Route::Blog { id });
    lemma_blog_shows_its_line(id);
}

} // verus!
