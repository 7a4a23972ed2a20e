//! Finding the windows that i3 shows, and wording the command that focuses one.

use crate::decimal::{decimal, lemma_decimal_tells_numbers_apart, to_decimal};
use crate::tree::{values, Container, Node, NodeType, Workspace, WorkspaceView};
use crate::walk::{breadth_first, forest_height, lemma_next_level_is_lower, next_level};
use crate::window::{DesktopWindow, WindowView};
use vstd::prelude::*;

verus! {

/// The values of the nodes that `nodes` refers to.
pub open spec fn views(nodes: Seq<&Node>) -> Seq<Container> {
    Seq::new(nodes.len(), |i: int| nodes[i]@)
}

impl Container {
    /// Whether the container is a window on screen: a leaf that owns a
    /// window.
    pub open spec fn shows_window(self) -> bool {
        self.is_leaf() && self.window is Some
    }

    /// Whether the frame of the container, decoration included, can be
    /// written in 32-bit coordinates.
    pub open spec fn frame_fits(self) -> bool {
        &&& i32::MIN <= self.rect.1 - self.deco_rect.3 <= i32::MAX
        &&& i32::MIN <= self.rect.3 + self.deco_rect.3 <= i32::MAX
    }

    /// The description of the window that the container shows. The
    /// decoration, of height `deco_rect.3`, sits on top of the container
    /// and counts as part of the window.
    pub open spec fn descriptor(self) -> WindowView {
        WindowView {
            id: self.id,
            title: match self.name {
                Some(title) => title,
                None => Seq::empty(),
            },
            pos: (self.rect.0, self.rect.1 - self.deco_rect.3),
            size: (self.rect.2, self.rect.3 + self.deco_rect.3),
        }
    }
}

/// The descriptions of the containers of `walk` that show a window, in the
/// order of `walk`.
pub open spec fn windows_among(walk: Seq<Container>) -> Seq<WindowView>
    decreases walk.len(),
{
    if walk.len() == 0 {
        Seq::empty()
    } else if walk.last().shows_window() {
        windows_among(walk.drop_last()).push(walk.last().descriptor())
    } else {
        windows_among(walk.drop_last())
    }
}

/// The windows among two stretches of a walk are those among the first,
/// then those among the second.
pub proof fn lemma_windows_among_concat(a: Seq<Container>, b: Seq<Container>)
    ensures
        windows_among(a + b) == windows_among(a) + windows_among(b),
    decreases b.len(),
{
    if b.len() == 0 {
        assert(a + b =~= a);
        assert(windows_among(a) + windows_among(b) =~= windows_among(a));
    } else {
        lemma_windows_among_concat(a, b.drop_last());
        assert((a + b).drop_last() =~= a + b.drop_last());
        assert((a + b).last() == b.last());
        assert(windows_among(a + b) =~= windows_among(a) + windows_among(b));
    }
}

/// A window is listed exactly if a container of the walk shows it.
pub proof fn lemma_window_listed_iff_shown(walk: Seq<Container>, window: WindowView)
    ensures
        windows_among(walk).contains(window) <==> exists|i: int|
            0 <= i < walk.len() && (#[trigger] walk[i]).shows_window() && walk[i].descriptor()
                == window,
    decreases walk.len(),
{
    if walk.len() > 0 {
        let rest = walk.drop_last();
        let last = walk.last();
        let listed = windows_among(rest);
        lemma_window_listed_iff_shown(rest, window);
        if windows_among(walk).contains(window) {
            let k = choose|k: int|
                0 <= k < windows_among(walk).len() && windows_among(walk)[k] == window;
            if last.shows_window() && k == listed.len() {
                assert(walk[walk.len() - 1] == last);
            } else {
                assert(listed[k] == window);
                let i = choose|i: int|
                    0 <= i < rest.len() && (#[trigger] rest[i]).shows_window()
                        && rest[i].descriptor() == window;
                assert(walk[i] == rest[i]);
            }
        }
        if exists|i: int|
            0 <= i < walk.len() && (#[trigger] walk[i]).shows_window() && walk[i].descriptor()
                == window {
            let i = choose|i: int|
                0 <= i < walk.len() && (#[trigger] walk[i]).shows_window()
                    && walk[i].descriptor() == window;
            if i == walk.len() - 1 {
                assert(windows_among(walk)[listed.len() as int] == window);
            } else {
                assert(rest[i] == walk[i]);
                let k = choose|k: int| 0 <= k < listed.len() && listed[k] == window;
                assert(windows_among(walk)[k] == window);
            }
        }
    }
}

/// Whether the frame of each container of `walk` that shows a window fits.
pub open spec fn frames_fit(walk: Seq<Container>) -> bool {
    forall|i: int| 0 <= i < walk.len() && (#[trigger] walk[i]).shows_window() ==> walk[i].frame_fits()
}

/// The first container of `walk` that is the workspace called `name`.
pub open spec fn first_named(walk: Seq<Container>, name: Seq<char>) -> Option<Container>
    decreases walk.len(),
{
    if walk.len() == 0 {
        None
    } else if walk.first().names_workspace(name) {
        Some(walk.first())
    } else {
        first_named(walk.skip(1), name)
    }
}

/// The container of the workspace called `name`: the first such that a
/// breadth-first walk of the tiled containers below `root` meets.
pub open spec fn workspace_container(root: Container, name: Seq<char>) -> Option<Container> {
    first_named(breadth_first(root.nodes, false), name)
}

/// The containers below `workspace`, tiled and floating, breadth first.
pub open spec fn contents(workspace: Container) -> Seq<Container> {
    breadth_first(workspace.children(true), true)
}

/// Whether the windows of the workspace called `name` can be listed: the
/// tree below `root` holds the workspace, and the frame of each of its
/// windows fits.
pub open spec fn crawlable(root: Container, name: Seq<char>) -> bool {
    &&& workspace_container(root, name) matches Some(workspace)
    &&& frames_fit(contents(workspace))
}

/// The windows of the workspace called `name`, breadth first.
pub open spec fn crawled(root: Container, name: Seq<char>) -> Seq<WindowView> {
    windows_among(contents(workspace_container(root, name).unwrap()))
}

/// `predicate` has turned down each node of `tested`, and these nodes are
/// the first of `walk`, in its order.
pub open spec fn rejected_in_turn<F: Fn(&Node) -> bool>(
    predicate: F,
    tested: Seq<&Node>,
    walk: Seq<Container>,
) -> bool {
    &&& tested.len() <= walk.len()
    &&& forall|j: int|
        0 <= j < tested.len() ==> (#[trigger] tested[j])@ == walk[j] && predicate.ensures(
            (tested[j],),
            false,
        )
}

/// `found` is what a search along `walk` ends with after `predicate` has
/// turned down the nodes of `tested`: the next container of `walk`, which
/// `predicate` accepts, or nothing where `walk` is used up.
pub open spec fn search_ends<F: Fn(&Node) -> bool>(
    predicate: F,
    tested: Seq<&Node>,
    walk: Seq<Container>,
    found: Option<&Node>,
) -> bool {
    &&& rejected_in_turn(predicate, tested, walk)
    &&& match found {
        Some(node) => {
            &&& tested.len() < walk.len()
            &&& node@ == walk[tested.len() as int]
            &&& predicate.ensures((node,), true)
        },
        None => tested.len() == walk.len(),
    }
}

/// Appends a reference to each node of `children` to `nodes`.
fn extend_with<'a>(nodes: &mut Vec<&'a Node>, children: &'a Vec<Node>)
    ensures
        views(final(nodes)@) == views(old(nodes)@) + values(children@),
{
    let ghost before = nodes@;
    let mut k: usize = 0;
    while k < children.len()
        invariant
            k <= children.len(),
            nodes@.len() == before.len() + k,
            views(nodes@) == views(before) + values(children@).take(k as int),
        decreases children.len() - k,
    {
        let ghost shorter = views(nodes@);
        nodes.push(&children[k]);
        k += 1;
        assert(views(nodes@) =~= shorter.push(children@[k - 1]@));
    }
    assert(values(children@).take(k as int) =~= values(children@));
}

/// Walks the tiled containers below `start_node` breadth first and returns
/// the first that `predicate` accepts; `start_node` itself is not tested.
pub fn find_first_node_with_attr<'a, F>(start_node: &'a Node, predicate: F) -> (found: Option<
    &'a Node,
>) where F: Fn(&Node) -> bool
    requires
        forall|node: &Node|
            breadth_first(start_node@.nodes, false).contains(node@) ==> predicate.requires(
                (node,),
            ),
    ensures
        exists|tested: Seq<&Node>|
            search_ends(predicate, tested, breadth_first(start_node@.nodes, false), found),
{
    let ghost walk = breadth_first(start_node@.nodes, false);
    let mut nodes_to_explore: Vec<&Node> = Vec::new();
    extend_with(&mut nodes_to_explore, &start_node.nodes);
    let ghost mut tested: Seq<&Node> = Seq::empty();
    proof {
        start_node.lemma_children();
    }
    assert(views(nodes_to_explore@) =~= start_node@.nodes);
    assert(walk.take(0) + walk =~= walk);
    while !nodes_to_explore.is_empty()
        invariant
            walk == breadth_first(start_node@.nodes, false),
            forall|node: &Node| walk.contains(node@) ==> predicate.requires((node,)),
            rejected_in_turn(predicate, tested, walk),
            walk == walk.take(tested.len() as int) + breadth_first(
                views(nodes_to_explore@),
                false,
            ),
        decreases forest_height(views(nodes_to_explore@)),
    {
        let ghost level = views(nodes_to_explore@);
        let ghost before = tested;
        let mut next_vec: Vec<&Node> = Vec::new();
        let mut i: usize = 0;
        assert(views(next_vec@) =~= next_level(level.take(0), false));
        while i < nodes_to_explore.len()
            invariant
                i <= nodes_to_explore.len(),
                level == views(nodes_to_explore@),
                level.len() > 0,
                walk == breadth_first(start_node@.nodes, false),
                tested.len() == before.len() + i,
                forall|node: &Node| walk.contains(node@) ==> predicate.requires((node,)),
                rejected_in_turn(predicate, tested, walk),
                walk == walk.take(before.len() as int) + breadth_first(level, false),
                views(next_vec@) == next_level(level.take(i as int), false),
            decreases nodes_to_explore.len() - i,
        {
            let node = nodes_to_explore[i];
            assert(breadth_first(level, false)[i as int] == level[i as int]);
            assert(walk[tested.len() as int] == node@);
            assert(walk.contains(node@));
            if predicate(node) {
                assert(search_ends(predicate, tested, walk, Some(node)));
                return Some(node);
            }
            extend_with(&mut next_vec, &node.nodes);
            proof {
                assert(level.take(i + 1).drop_last() =~= level.take(i as int));
                node.lemma_children();
                tested = tested.push(node);
            }
            i += 1;
        }
        proof {
            assert(level.take(i as int) =~= level);
            lemma_next_level_is_lower(level, false);
            assert(walk.take(tested.len() as int) =~= walk.take(before.len() as int) + level);
        }
        nodes_to_explore = next_vec;
    }
    proof {
        assert(breadth_first(views(nodes_to_explore@), false) =~= Seq::empty());
        assert(walk.take(tested.len() as int).len() == walk.len());
        assert(search_ends(predicate, tested, walk, None));
    }
    None
}

/// A container that follows containers which are not the workspace sought,
/// and is it, is the first that is.
proof fn lemma_first_named_at(walk: Seq<Container>, name: Seq<char>, i: int)
    requires
        0 <= i < walk.len(),
        walk[i].names_workspace(name),
        forall|j: int| 0 <= j < i ==> !(#[trigger] walk[j]).names_workspace(name),
    ensures
        first_named(walk, name) == Some(walk[i]),
    decreases i,
{
    if i > 0 {
        assert(!walk[0].names_workspace(name));
        let rest = walk.skip(1);
        assert forall|j: int| 0 <= j < i - 1 implies !(#[trigger] rest[j]).names_workspace(
            name,
        ) by {
            assert(rest[j] == walk[j + 1]);
        }
        lemma_first_named_at(rest, name, i - 1);
    }
}

/// Where no container is the workspace sought, there is no first.
proof fn lemma_first_named_nowhere(walk: Seq<Container>, name: Seq<char>)
    requires
        forall|j: int| 0 <= j < walk.len() ==> !(#[trigger] walk[j]).names_workspace(name),
    ensures
        first_named(walk, name) is None,
    decreases walk.len(),
{
    if walk.len() > 0 {
        assert(!walk[0].names_workspace(name));
        let rest = walk.skip(1);
        assert forall|j: int| 0 <= j < rest.len() implies !(#[trigger] rest[j]).names_workspace(
            name,
        ) by {
            assert(rest[j] == walk[j + 1]);
        }
        lemma_first_named_nowhere(rest, name);
    }
}

/// Finds the container of `workspace` in the tree below `root_node`.
pub fn find_workspace_node<'a>(root_node: &'a Node, workspace: &Workspace) -> (found: Option<
    &'a Node,
>)
    ensures
        match found {
            Some(node) => workspace_container(root_node@, workspace@.name) == Some(node@),
            None => workspace_container(root_node@, workspace@.name) is None,
        },
{
    let is_workspace = |x: &Node| -> (b: bool)
        ensures
            b == x@.names_workspace(workspace@.name),
        {
            match &x.name {
                Some(name) => *name == workspace.name && matches!(x.nodetype, NodeType::Workspace),
                None => false,
            }
        };
    let ghost predicate = is_workspace;
    let found = find_first_node_with_attr(root_node, is_workspace);
    proof {
        let name = workspace@.name;
        let search = breadth_first(root_node@.nodes, false);
        let tested = choose|tested: Seq<&Node>| search_ends(predicate, tested, search, found);
        assert forall|j: int| 0 <= j < tested.len() implies !(#[trigger] search[j]).names_workspace(
            name,
        ) by {
            assert(tested[j]@ == search[j]);
        }
        match found {
            Some(node) => lemma_first_named_at(search, name, tested.len() as int),
            None => lemma_first_named_nowhere(search, name),
        }
    }
    found
}

/// Returns a description of each window of `workspace`: of each leaf
/// container below the workspace's container that owns a window, in the
/// order in which a breadth-first walk meets them.
pub fn crawl_windows(root_node: &Node, workspace: &Workspace) -> (windows: Vec<DesktopWindow>)
    requires
        crawlable(root_node@, workspace@.name),
    ensures
        windows.deep_view() == crawled(root_node@, workspace@.name),
{
    let workspace_node = find_workspace_node(root_node, workspace).expect(
        "Couldn't find the Workspace node",
    );

    let mut nodes_to_explore: Vec<&Node> = Vec::new();
    extend_with(&mut nodes_to_explore, &workspace_node.nodes);
    extend_with(&mut nodes_to_explore, &workspace_node.floating_nodes);
    let mut windows: Vec<DesktopWindow> = Vec::new();
    let ghost walk = contents(workspace_node@);
    let ghost mut done: int = 0;
    proof {
        workspace_node.lemma_children();
        assert(views(nodes_to_explore@) =~= workspace_node@.children(true));
        assert(walk.take(0) + walk =~= walk);
        assert(windows.deep_view() =~= windows_among(walk.take(0)));
    }
    while !nodes_to_explore.is_empty()
        invariant
            frames_fit(walk),
            0 <= done <= walk.len(),
            walk == walk.take(done) + breadth_first(views(nodes_to_explore@), true),
            windows.deep_view() == windows_among(walk.take(done)),
        decreases forest_height(views(nodes_to_explore@)),
    {
        let ghost level = views(nodes_to_explore@);
        let ghost before = done;
        let mut next_vec: Vec<&Node> = Vec::new();
        let mut i: usize = 0;
        assert(views(next_vec@) =~= next_level(level.take(0), true));
        while i < nodes_to_explore.len()
            invariant
                i <= nodes_to_explore.len(),
                level == views(nodes_to_explore@),
                level.len() > 0,
                frames_fit(walk),
                0 <= before <= walk.len(),
                walk == walk.take(before) + breadth_first(level, true),
                windows.deep_view() == windows_among(walk.take(before + i)),
                views(next_vec@) == next_level(level.take(i as int), true),
            decreases nodes_to_explore.len() - i,
        {
            let node = nodes_to_explore[i];
            let ghost listed = windows.deep_view();
            extend_with(&mut next_vec, &node.nodes);
            extend_with(&mut next_vec, &node.floating_nodes);
            proof {
                node.lemma_children();
                assert(level.take(i + 1).drop_last() =~= level.take(i as int));
                assert(breadth_first(level, true)[i as int] == level[i as int]);
                assert(walk[before + i] == node@);
                assert(walk.take(before + i + 1).drop_last() =~= walk.take(before + i));
                assert(walk.take(before + i + 1).last() == node@);
            }
            if node.window.is_some() && node.nodes.is_empty() && node.floating_nodes.is_empty() {
                let window = DesktopWindow {
                    id: node.id,
                    title: node.name.clone().unwrap_or_default(),
                    pos: ((node.rect.0), (node.rect.1 - node.deco_rect.3)),
                    size: ((node.rect.2), (node.rect.3 + node.deco_rect.3)),
                };
                assert(window@ == node@.descriptor());
                windows.push(window);
                assert(windows.deep_view() =~= listed.push(node@.descriptor()));
            }
            i += 1;
        }
        proof {
            assert(level.take(i as int) =~= level);
            lemma_next_level_is_lower(level, true);
            assert(walk.take(before + level.len()) =~= walk.take(before) + level);
            done = before + level.len();
        }
        nodes_to_explore = next_vec;
    }
    proof {
        assert(breadth_first(views(nodes_to_explore@), true) =~= Seq::empty());
        assert(walk.take(done) =~= walk);
    }
    windows
}

/// Tells whether the frame of `node`, decoration included, can be written
/// in 32-bit coordinates.
fn frame_fits(node: &Node) -> (fits: bool)
    ensures
        fits == node@.frame_fits(),
{
    node.rect.1.checked_sub(node.deco_rect.3).is_some() && node.rect.3.checked_add(
        node.deco_rect.3,
    ).is_some()
}

/// Tells whether [`crawl_windows`] can list the windows of `workspace`.
pub fn can_crawl_windows(root_node: &Node, workspace: &Workspace) -> (ok: bool)
    ensures
        ok == crawlable(root_node@, workspace@.name),
{
    let workspace_node = match find_workspace_node(root_node, workspace) {
        Some(node) => node,
        None => {
            return false;
        },
    };
    let mut nodes_to_explore: Vec<&Node> = Vec::new();
    extend_with(&mut nodes_to_explore, &workspace_node.nodes);
    extend_with(&mut nodes_to_explore, &workspace_node.floating_nodes);
    let ghost walk = contents(workspace_node@);
    let ghost mut done: int = 0;
    proof {
        workspace_node.lemma_children();
        assert(views(nodes_to_explore@) =~= workspace_node@.children(true));
        assert(walk.take(0) + walk =~= walk);
    }
    while !nodes_to_explore.is_empty()
        invariant
            workspace_container(root_node@, workspace@.name) == Some(workspace_node@),
            walk == contents(workspace_node@),
            0 <= done <= walk.len(),
            walk == walk.take(done) + breadth_first(views(nodes_to_explore@), true),
            frames_fit(walk.take(done)),
        decreases forest_height(views(nodes_to_explore@)),
    {
        let ghost level = views(nodes_to_explore@);
        let ghost before = done;
        let mut next_vec: Vec<&Node> = Vec::new();
        let mut i: usize = 0;
        assert(views(next_vec@) =~= next_level(level.take(0), true));
        while i < nodes_to_explore.len()
            invariant
                i <= nodes_to_explore.len(),
                level == views(nodes_to_explore@),
                level.len() > 0,
                workspace_container(root_node@, workspace@.name) == Some(workspace_node@),
                walk == contents(workspace_node@),
                0 <= before <= walk.len(),
                walk == walk.take(before) + breadth_first(level, true),
                frames_fit(walk.take(before + i)),
                views(next_vec@) == next_level(level.take(i as int), true),
            decreases nodes_to_explore.len() - i,
        {
            let node = nodes_to_explore[i];
            proof {
                assert(breadth_first(level, true)[i as int] == level[i as int]);
                assert(walk[before + i] == node@);
            }
            if node.window.is_some() && node.nodes.is_empty() && node.floating_nodes.is_empty()
                && !frame_fits(node) {
                return false;
            }
            extend_with(&mut next_vec, &node.nodes);
            extend_with(&mut next_vec, &node.floating_nodes);
            proof {
                node.lemma_children();
                assert(level.take(i + 1).drop_last() =~= level.take(i as int));
                let longer = walk.take(before + i + 1);
                assert forall|j: int| 0 <= j < longer.len() && (
                #[trigger] longer[j]).shows_window() implies longer[j].frame_fits() by {
                    if j < before + i {
                        assert(walk.take(before + i)[j] == longer[j]);
                    }
                }
            }
            i += 1;
        }
        proof {
            assert(level.take(i as int) =~= level);
            lemma_next_level_is_lower(level, true);
            assert(walk.take(before + level.len()) =~= walk.take(before) + level);
            done = before + level.len();
        }
        nodes_to_explore = next_vec;
    }
    proof {
        assert(breadth_first(views(nodes_to_explore@), true) =~= Seq::empty());
        assert(walk.take(done) =~= walk);
    }
    true
}

/// Whether the windows of each visible workspace of `workspaces` can be
/// listed.
pub open spec fn all_crawlable(root: Container, workspaces: Seq<WorkspaceView>) -> bool {
    forall|i: int|
        0 <= i < workspaces.len() && (#[trigger] workspaces[i]).visible ==> crawlable(
            root,
            workspaces[i].name,
        )
}

/// The windows of the visible workspaces of `workspaces`, workspace by
/// workspace in the order given, and breadth first within each.
pub open spec fn visible_windows(root: Container, workspaces: Seq<WorkspaceView>) -> Seq<
    WindowView,
>
    decreases workspaces.len(),
{
    if workspaces.len() == 0 {
        Seq::empty()
    } else if workspaces.last().visible {
        visible_windows(root, workspaces.drop_last()) + crawled(root, workspaces.last().name)
    } else {
        visible_windows(root, workspaces.drop_last())
    }
}

/// The windows of two lists of workspaces are those of the first list, then
/// those of the second.
pub proof fn lemma_visible_windows_concat(
    root: Container,
    a: Seq<WorkspaceView>,
    b: Seq<WorkspaceView>,
)
    ensures
        visible_windows(root, a + b) == visible_windows(root, a) + visible_windows(root, b),
    decreases b.len(),
{
    if b.len() == 0 {
        assert(a + b =~= a);
        assert(visible_windows(root, a) + visible_windows(root, b) =~= visible_windows(root, a));
    } else {
        lemma_visible_windows_concat(root, a, b.drop_last());
        assert((a + b).drop_last() =~= a + b.drop_last());
        assert((a + b).last() == b.last());
        assert(visible_windows(root, a + b) =~= visible_windows(root, a) + visible_windows(
            root,
            b,
        ));
    }
}

/// Returns a description of each window on screen: the windows of the
/// visible workspaces among `workspaces`, found in the tree below
/// `root_node`.
pub fn get_windows(root_node: &Node, workspaces: &Vec<Workspace>) -> (windows: Vec<DesktopWindow>)
    requires
        all_crawlable(root_node@, workspaces.deep_view()),
    ensures
        windows.deep_view() == visible_windows(root_node@, workspaces.deep_view()),
{
    let mut windows: Vec<DesktopWindow> = Vec::new();
    let mut i: usize = 0;
    assert(windows.deep_view() =~= visible_windows(root_node@, workspaces.deep_view().take(0)));
    while i < workspaces.len()
        invariant
            i <= workspaces.len(),
            all_crawlable(root_node@, workspaces.deep_view()),
            windows.deep_view() == visible_windows(
                root_node@,
                workspaces.deep_view().take(i as int),
            ),
        decreases workspaces.len() - i,
    {
        let workspace = &workspaces[i];
        let ghost listed = windows.deep_view();
        proof {
            let all = workspaces.deep_view();
            assert(all[i as int] == workspace@);
            assert(all.take(i + 1).drop_last() =~= all.take(i as int));
            assert(all.take(i + 1).last() == workspace@);
        }
        if workspace.visible {
            let mut found = crawl_windows(root_node, workspace);
            let ghost crawled = found.deep_view();
            windows.append(&mut found);
            assert(windows.deep_view() =~= listed + crawled);
        }
        i += 1;
    }
    assert(workspaces.deep_view().take(i as int) =~= workspaces.deep_view());
    windows
}

/// Tells whether [`get_windows`] can list the windows of the visible
/// workspaces among `workspaces`.
pub fn can_get_windows(root_node: &Node, workspaces: &Vec<Workspace>) -> (ok: bool)
    ensures
        ok == all_crawlable(root_node@, workspaces.deep_view()),
{
    let mut i: usize = 0;
    while i < workspaces.len()
        invariant
            i <= workspaces.len(),
            all_crawlable(root_node@, workspaces.deep_view().take(i as int)),
        decreases workspaces.len() - i,
    {
        let workspace = &workspaces[i];
        let ghost all = workspaces.deep_view();
        assert(all[i as int] == workspace@);
        if workspace.visible && !can_crawl_windows(root_node, workspace) {
            return false;
        }
        proof {
            let longer = all.take(i + 1);
            assert forall|j: int| 0 <= j < longer.len() && (
            #[trigger] longer[j]).visible implies crawlable(root_node@, longer[j].name) by {
                if j < i {
                    assert(all.take(i as int)[j] == longer[j]);
                }
            }
        }
        i += 1;
    }
    assert(workspaces.deep_view().take(i as int) =~= workspaces.deep_view());
    true
}

/// The command that has i3 give the focus to the container `id`.
pub open spec fn focus_command(id: int) -> Seq<char> {
    "[con_id=\""@ + decimal(id) + "\"] focus"@
}

/// Two containers that get the same command are one container.
pub proof fn lemma_focus_command_names_one_container(a: int, b: int)
    requires
        focus_command(a) == focus_command(b),
    ensures
        a == b,
{
    let head = "[con_id=\""@;
    let tail = "\"] focus"@;
    assert(decimal(a).len() == decimal(b).len()) by {
        assert(focus_command(a).len() == head.len() + decimal(a).len() + tail.len());
        assert(focus_command(b).len() == head.len() + decimal(b).len() + tail.len());
    }
    assert forall|i: int| 0 <= i < decimal(a).len() implies decimal(a)[i] == decimal(b)[i] by {
        assert(focus_command(a)[head.len() + i] == decimal(a)[i]);
        assert(focus_command(b)[head.len() + i] == decimal(b)[i]);
    }
    assert(decimal(a) =~= decimal(b));
    lemma_decimal_tells_numbers_apart(a, b);
}

/// Words the command that has i3 focus `window`.
pub fn focus_window(window: &DesktopWindow) -> (command: String)
    ensures
        command@ == focus_command(window@.id),
{
    let mut command = String::from_str("[con_id=\"");
    let id = to_decimal(window.id);
    command.append(id.as_str());
    command.append("\"] focus");
    command
}

} // verus!
