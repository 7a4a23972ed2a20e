//! The container tree that i3 reports, and its mathematical model.

use vstd::prelude::*;

verus! {

/// What a container is.
#[derive(Clone, Copy, Debug, PartialEq, Eq, Structural)]
pub enum NodeType {
    Root,
    Output,
    Con,
    FloatingCon,
    Workspace,
    DockArea,
    Unknown,
}

/// The mathematical value of a [`Node`]: a finite tree.
pub struct Container {
    /// Children laid out in the container, in the order reported.
    pub nodes: Seq<Container>,
    /// Children that float above the layout, in the order reported.
    pub floating_nodes: Seq<Container>,
    /// Identifier by which i3 addresses the container.
    pub id: int,
    /// Name of the container; for one that holds a window, the window's title.
    pub name: Option<Seq<char>>,
    pub nodetype: NodeType,
    /// Left edge, top edge, width and height on the display.
    pub rect: (int, int, int, int),
    /// Left edge, top edge, width and height of the decoration.
    pub deco_rect: (int, int, int, int),
    /// Identifier of the window that the container holds, if it holds one.
    pub window: Option<int>,
}

/// One container of the tree, with the containers below it.
#[derive(Debug)]
pub struct Node {
    pub nodes: Vec<Node>,
    pub floating_nodes: Vec<Node>,
    pub id: i64,
    pub name: Option<String>,
    pub nodetype: NodeType,
    pub rect: (i32, i32, i32, i32),
    pub deco_rect: (i32, i32, i32, i32),
    pub window: Option<i32>,
}

/// The tree that `node` stands for.
pub open spec fn model(node: Node) -> Container
    decreases node,
{
    Container {
        nodes: Seq::new(
            node.nodes@.len(),
            |i: int|
                if 0 <= i < node.nodes@.len() {
                    model(node.nodes@[i])
                } else {
                    arbitrary()
                },
        ),
        floating_nodes: Seq::new(
            node.floating_nodes@.len(),
            |i: int|
                if 0 <= i < node.floating_nodes@.len() {
                    model(node.floating_nodes@[i])
                } else {
                    arbitrary()
                },
        ),
        id: node.id as int,
        name: match node.name {
            Some(s) => Some(s@),
            None => None,
        },
        nodetype: node.nodetype,
        rect: (node.rect.0 as int, node.rect.1 as int, node.rect.2 as int, node.rect.3 as int),
        deco_rect: (
            node.deco_rect.0 as int,
            node.deco_rect.1 as int,
            node.deco_rect.2 as int,
            node.deco_rect.3 as int,
        ),
        window: match node.window {
            Some(w) => Some(w as int),
            None => None,
        },
    }
}

impl View for Node {
    type V = Container;

    open spec fn view(&self) -> Container {
        model(*self)
    }
}

/// The values of `nodes`.
pub open spec fn values(nodes: Seq<Node>) -> Seq<Container> {
    Seq::new(nodes.len(), |i: int| nodes[i]@)
}

impl Node {
    /// The children of a node's value are the values of its children.
    pub proof fn lemma_children(&self)
        ensures
            self@.nodes == values(self.nodes@),
            self@.floating_nodes == values(self.floating_nodes@),
    {
        assert(self@.nodes =~= values(self.nodes@));
        assert(self@.floating_nodes =~= values(self.floating_nodes@));
    }
}

impl Container {
    /// The containers directly below this one: the tiled ones, and after
    /// them the floating ones where `floating` is set.
    pub open spec fn children(self, floating: bool) -> Seq<Container> {
        if floating {
            self.nodes + self.floating_nodes
        } else {
            self.nodes
        }
    }

    /// Whether nothing stands below this container.
    pub open spec fn is_leaf(self) -> bool {
        self.nodes.len() == 0 && self.floating_nodes.len() == 0
    }

    /// Whether this is the workspace container called `name`.
    pub open spec fn names_workspace(self, name: Seq<char>) -> bool {
        self.nodetype == NodeType::Workspace && self.name == Some(name)
    }
}

/// One workspace, as i3 lists it.
#[derive(Debug)]
pub struct Workspace {
    pub name: String,
    /// Whether an output shows the workspace at the moment.
    pub visible: bool,
}

/// The mathematical value of a [`Workspace`].
pub struct WorkspaceView {
    pub name: Seq<char>,
    pub visible: bool,
}

impl View for Workspace {
    type V = WorkspaceView;

    open spec fn view(&self) -> WorkspaceView {
        WorkspaceView { name: self.name@, visible: self.visible }
    }
}

impl DeepView for Workspace {
    type V = WorkspaceView;

    open spec fn deep_view(&self) -> WorkspaceView {
        self@
    }
}

} // verus!
