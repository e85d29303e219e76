use portfolio::{header, NavLink};

fn link(label: &str, to: &str, new_tab: bool) -> NavLink {
    NavLink { label: String::from(label), to: String::from(to), new_tab }
}

#[test]
fn header_lists_its_four_anchors() {
    let links = header("someone@example.org");
    assert_eq!(
        links,
        vec![
            link("MP", "home", false),
            link("Home", "home", false),
            link("Projects", "projects", false),
            link("Email Me", "mailto:someone@example.org", true),
        ]
    );
}

#[test]
fn only_the_mail_anchor_opens_a_new_context() {
    let links = header("a@b.c");
    let outbound: Vec<&NavLink> = links.iter().filter(|l| l.new_tab).collect();
    assert_eq!(outbound.len(), 1);
    assert_eq!(outbound[0].label, "Email Me");
    assert!(outbound[0].to.starts_with("mailto:"));
}

#[test]
fn mail_anchor_with_an_empty_address() {
    let links = header("");
    assert_eq!(links[3].to, "mailto:");
}
