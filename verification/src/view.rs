//! What a page shows: a small tree of text, anchors and named pages.

use vstd::prelude::*;
use vstd::string::*;

verus! {

/// An anchor: what it shows, where it leads, and whether following it opens
/// a new browsing context.
#[derive(Debug, PartialEq, Eq)]
pub struct NavLink {
    pub label: String,
    pub to: String,
    pub new_tab: bool,
}

/// The mathematical value of a [`NavLink`].
pub struct NavLinkModel {
    pub label: Seq<char>,
    pub to: Seq<char>,
    pub new_tab: bool,
}

impl View for NavLink {
    type V = NavLinkModel;

    open spec fn view(&self) -> NavLinkModel {
        NavLinkModel { label: self.label@, to: self.to@, new_tab: self.new_tab }
    }
}

/// One node of a rendered view.
#[derive(Debug, PartialEq, Eq)]
pub enum ViewNode {
    /// The content of the home page.
    HomePage,
    /// The content of the projects page.
    ProjectsPage,
    /// Literal text.
    Text(String),
    /// An anchor.
    Link(NavLink),
    /// Several nodes, one after the other.
    Fragment(Vec<ViewNode>),
}

/// The mathematical value of a [`ViewNode`].
pub enum ViewModel {
    HomePage,
    ProjectsPage,
    Text(Seq<char>),
    Link(NavLinkModel),
    Fragment(Seq<ViewModel>),
}

impl View for ViewNode {
    type V = ViewModel;

    open spec fn view(&self) -> ViewModel
        decreases self,
    {
        match self {
            ViewNode::HomePage => ViewModel::HomePage,
            ViewNode::ProjectsPage => ViewModel::ProjectsPage,
            ViewNode::Text(text) => ViewModel::Text(text@),
            ViewNode::Link(link) => ViewModel::Link(link@),
            ViewNode::Fragment(children) => ViewModel::Fragment(
                Seq::new(
                    children@.len(),
                    |i: int|
                        if 0 <= i < children@.len() {
                            children@[i].view()
                        } else {
                            // Never read: a sequence has no element out of range.
                            ViewModel::Fragment(Seq::empty())
                        },
                ),
            ),
        }
    }
}

/// The text that the first `count` of `nodes` show, in order.
pub open spec fn text_of_first(nodes: Seq<ViewModel>, count: nat) -> Seq<char>
    decreases nodes, count,
{
    if count == 0 || count > nodes.len() {
        Seq::empty()
    } else {
        text_of_first(nodes, (count - 1) as nat) + text_of(nodes[count - 1])
    }
}

/// The text that a view shows: its literal text and the labels of its
/// anchors, in document order. A named page contributes none: its content is
/// the application's.
pub open spec fn text_of(node: ViewModel) -> Seq<char>
    decreases node, 0nat,
{
    match node {
        ViewModel::HomePage => Seq::empty(),
        ViewModel::ProjectsPage => Seq::empty(),
        ViewModel::Text(text) => text,
        ViewModel::Link(link) => link.label,
        ViewModel::Fragment(children) => text_of_first(children, children.len()),
    }
}

/// `needle` occurs in `text` as a run of consecutive characters.
pub open spec fn occurs_in(needle: Seq<char>, text: Seq<char>) -> bool {
    exists|at: int|
        0 <= at && at + needle.len() <= text.len() && #[trigger] text.subrange(
            at,
            at + needle.len(),
        ) == needle
}

impl ViewNode {
    /// The text that this view shows.
    pub fn text(&self) -> (text: String)
        ensures
            text@ == text_of(self@),
        decreases self,
    {
        match self {
            ViewNode::HomePage => String::new(),
            ViewNode::ProjectsPage => String::new(),
            ViewNode::Text(text) => text.clone(),
            ViewNode::Link(link) => link.label.clone(),
            ViewNode::Fragment(children) => {
                let ghost nodes = self@->Fragment_0;
                assert(nodes.len() == children@.len());
                assert forall|j: int| 0 <= j < nodes.len() implies nodes[j] == children@[j]@ by {}
                let mut text: String = String::new();
                let mut i: usize = 0;
                while i < children.len()
                    invariant
                        i <= children.len(),
                        nodes.len() == children@.len(),
                        forall|j: int| 0 <= j < nodes.len() ==> nodes[j] == children@[j]@,
                        forall|j: int|
                            0 <= j < children@.len() ==> decreases_to!(self => children@[j]),
                        text@ == text_of_first(nodes, i as nat),
                    decreases children.len() - i,
                {
                    let piece: String = children[i].text();
                    text.append(piece.as_str());
                    i = i + 1;
                }
                text
            },
        }
    }
}

} // verus!
