use portfolio::{
    not_found, page, render_location, render_page, render_route, set_page_id, Blog, NavLink,
    Navigation, PageId, Route, ViewNode,
};

#[test]
fn home_renders_the_home_page() {
    assert_eq!(render_page(PageId::Home), ViewNode::HomePage);
}

#[test]
fn projects_renders_the_projects_page() {
    assert_eq!(render_page(PageId::Projects), ViewNode::ProjectsPage);
}

#[test]
fn unknown_renders_404() {
    assert_eq!(render_page(PageId::Unknown), ViewNode::Text(String::from("404")));
    assert_eq!(render_page(PageId::Unknown).text(), "404");
}

#[test]
fn the_default_page_id_renders_404() {
    assert_eq!(PageId::default(), PageId::Unknown);
    assert_eq!(render_page(PageId::default()).text(), "404");
}

#[test]
fn not_found_is_the_literal_404() {
    assert_eq!(not_found(), ViewNode::Text(String::from("404")));
    assert_ne!(not_found(), ViewNode::HomePage);
    assert_ne!(not_found(), ViewNode::ProjectsPage);
}

#[test]
fn page_follows_the_navigation_state() {
    let mut nav = Navigation::new();
    assert_eq!(page(&nav), not_found());
    set_page_id(&mut nav, PageId::Home);
    assert_eq!(page(&nav), ViewNode::HomePage);
    set_page_id(&mut nav, PageId::Projects);
    assert_eq!(page(&nav), ViewNode::ProjectsPage);
    set_page_id(&mut nav, PageId::Unknown);
    assert_eq!(page(&nav), not_found());
}

#[test]
fn blog_shows_a_link_home_and_its_line() {
    let expected = ViewNode::Fragment(vec![
        ViewNode::Link(NavLink {
            label: String::from("Go to counter"),
            to: String::from("/"),
            new_tab: false,
        }),
        ViewNode::Text(String::from("Blog post 42")),
    ]);
    assert_eq!(Blog(42), expected);
}

#[test]
fn blog_line_holds_the_id() {
    assert_eq!(Blog(42).text(), "Go to counterBlog post 42");
    assert!(Blog(0).text().contains("Blog post 0"));
    assert!(Blog(-17).text().contains("Blog post -17"));
    assert!(Blog(i32::MIN).text().contains("Blog post -2147483648"));
    assert!(Blog(i32::MAX).text().contains("Blog post 2147483647"));
}

#[test]
fn blog_line_agrees_with_formatting() {
    for id in [-100, -1, 0, 1, 9, 10, 11, 99, 100, 101, 65535, 1_000_000] {
        let view = Blog(id);
        let ViewNode::Fragment(children) = view else {
            panic!("a blog post is a fragment");
        };
        assert_eq!(children.len(), 2);
        assert_eq!(children[1], ViewNode::Text(format!("Blog post {}", id)));
    }
}

#[test]
fn routes_render_their_pages() {
    assert_eq!(render_route(Some(Route::Home {})), ViewNode::HomePage);
    assert_eq!(render_route(Some(Route::Blog { id: 5 })), Blog(5));
    assert_eq!(render_route(None), not_found());
}

#[test]
fn blog_location_renders_the_post() {
    let view = render_location("/blog/42");
    assert_eq!(view, Blog(42));
    assert!(view.text().contains("Blog post 42"));
}

#[test]
fn root_location_renders_the_home_page() {
    assert_eq!(render_location("/"), ViewNode::HomePage);
    assert_eq!(render_location("/?utm=1#top"), ViewNode::HomePage);
}

#[test]
fn unmatched_location_renders_404() {
    for url in ["/nonexistent", "/blog/abc", "", "/blog", "/home", "/projects", "//"] {
        let view = render_location(url);
        assert_eq!(view, not_found(), "on {:?}", url);
        assert_eq!(view.text(), "404");
        assert_ne!(view, ViewNode::HomePage);
        assert_ne!(view, ViewNode::ProjectsPage);
    }
}

#[test]
fn escaped_blog_location_renders_the_post() {
    assert_eq!(render_location("/blog/%37"), Blog(7));
}

#[test]
fn text_of_named_pages_is_empty() {
    assert_eq!(ViewNode::HomePage.text(), "");
    assert_eq!(ViewNode::ProjectsPage.text(), "");
}

#[test]
fn text_runs_in_document_order() {
    let tree = ViewNode::Fragment(vec![
        ViewNode::Text(String::from("a")),
        ViewNode::Fragment(vec![
            ViewNode::Link(NavLink {
                label: String::from("b"),
                to: String::from("x"),
                new_tab: true,
            }),
            ViewNode::HomePage,
            ViewNode::Fragment(vec![]),
            ViewNode::Text(String::from("c")),
        ]),
        ViewNode::Text(String::from("d")),
    ]);
    assert_eq!(tree.text(), "abcd");
    assert_eq!(ViewNode::Fragment(vec![]).text(), "");
}
