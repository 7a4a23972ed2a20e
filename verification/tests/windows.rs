use wmfocus::tree::{Node, NodeType, Workspace};
use wmfocus::window::DesktopWindow;
use wmfocus::wm_i3::{
    can_crawl_windows, can_get_windows, crawl_windows, find_first_node_with_attr,
    find_workspace_node, get_windows,
};

fn container(id: i64, nodetype: NodeType, name: Option<&str>, nodes: Vec<Node>) -> Node {
    Node {
        nodes,
        floating_nodes: vec![],
        id,
        name: name.map(String::from),
        nodetype,
        rect: (0, 0, 0, 0),
        deco_rect: (0, 0, 0, 0),
        window: None,
    }
}

fn window(id: i64, title: &str, rect: (i32, i32, i32, i32), deco_height: i32) -> Node {
    Node {
        nodes: vec![],
        floating_nodes: vec![],
        id,
        name: Some(String::from(title)),
        nodetype: NodeType::Con,
        rect,
        deco_rect: (0, 0, rect.2, deco_height),
        window: Some(id as i32 + 1000),
    }
}

fn workspace_with(id: i64, name: &str, nodes: Vec<Node>, floating_nodes: Vec<Node>) -> Node {
    let mut node = container(id, NodeType::Workspace, Some(name), nodes);
    node.floating_nodes = floating_nodes;
    node
}

fn listed(name: &str, visible: bool) -> Workspace {
    Workspace { name: String::from(name), visible }
}

fn described(id: i64, title: &str, pos: (i32, i32), size: (i32, i32)) -> DesktopWindow {
    DesktopWindow { id, title: String::from(title), pos, size }
}

/// root -> output -> content -> workspaces "1" (two tiled windows and one
/// floating), "2" (one window inside a split) and "3" (one window).
fn desktop() -> Node {
    let one = workspace_with(
        10,
        "1",
        vec![
            window(11, "editor", (0, 20, 960, 1060), 20),
            window(12, "terminal", (960, 20, 960, 1060), 20),
        ],
        vec![container(
            13,
            NodeType::FloatingCon,
            None,
            vec![window(14, "dialog", (400, 300, 200, 100), 18)],
        )],
    );
    let two = workspace_with(
        20,
        "2",
        vec![container(
            21,
            NodeType::Con,
            None,
            vec![window(22, "browser", (1920, 25, 1280, 999), 25)],
        )],
        vec![],
    );
    let three =
        workspace_with(30, "3", vec![window(31, "mail", (0, 20, 1920, 1060), 20)], vec![]);
    let content = container(3, NodeType::Con, Some("content"), vec![one, two, three]);
    let dock = container(2, NodeType::DockArea, Some("topdock"), vec![]);
    let output = container(1, NodeType::Output, Some("eDP-1"), vec![dock, content]);
    container(0, NodeType::Root, Some("root"), vec![output])
}

#[test]
fn lists_the_windows_of_the_visible_workspaces() {
    let root = desktop();
    let workspaces = vec![listed("1", true), listed("2", true), listed("3", false)];
    assert!(can_get_windows(&root, &workspaces));
    assert_eq!(
        get_windows(&root, &workspaces),
        vec![
            described(11, "editor", (0, 0), (960, 1080)),
            described(12, "terminal", (960, 0), (960, 1080)),
            described(14, "dialog", (400, 282), (200, 118)),
            described(22, "browser", (1920, 0), (1280, 1024)),
        ]
    );
}

#[test]
fn follows_the_order_of_the_workspace_list() {
    let root = desktop();
    let workspaces = vec![listed("3", true), listed("1", false), listed("2", true)];
    let ids: Vec<i64> = get_windows(&root, &workspaces).iter().map(|w| w.id).collect();
    assert_eq!(ids, vec![31, 22]);
}

#[test]
fn lists_a_workspace_as_often_as_it_is_named() {
    let root = desktop();
    let workspaces = vec![listed("3", true), listed("3", true)];
    let ids: Vec<i64> = get_windows(&root, &workspaces).iter().map(|w| w.id).collect();
    assert_eq!(ids, vec![31, 31]);
}

#[test]
fn lists_nothing_without_a_visible_workspace() {
    let root = desktop();
    assert!(can_get_windows(&root, &vec![]));
    assert_eq!(get_windows(&root, &vec![]), vec![]);
    let hidden = vec![listed("1", false), listed("2", false)];
    assert!(can_get_windows(&root, &hidden));
    assert_eq!(get_windows(&root, &hidden), vec![]);
}

#[test]
fn an_empty_workspace_has_no_windows() {
    let root = container(0, NodeType::Root, None, vec![workspace_with(1, "1", vec![], vec![])]);
    assert!(can_crawl_windows(&root, &listed("1", true)));
    assert_eq!(crawl_windows(&root, &listed("1", true)), vec![]);
}

#[test]
fn a_hidden_workspace_need_not_be_in_the_tree() {
    let root = desktop();
    let workspaces = vec![listed("1", true), listed("9", false)];
    assert!(can_get_windows(&root, &workspaces));
    assert_eq!(get_windows(&root, &workspaces).len(), 3);
}

#[test]
fn a_visible_workspace_must_be_in_the_tree() {
    let root = desktop();
    assert!(!can_crawl_windows(&root, &listed("9", true)));
    assert!(!can_get_windows(&root, &vec![listed("1", true), listed("9", true)]));
    assert!(!can_get_windows(&root, &vec![listed("9", true), listed("1", true)]));
}

#[test]
fn walks_level_by_level() {
    // 1 -> [a -> [c -> [e(w)], d(w)], b(w)]: b is met before d, d before e.
    let e = window(5, "e", (0, 0, 10, 10), 0);
    let c = container(3, NodeType::Con, None, vec![e]);
    let d = window(4, "d", (0, 0, 10, 10), 0);
    let a = container(1, NodeType::Con, None, vec![c, d]);
    let b = window(2, "b", (0, 0, 10, 10), 0);
    let root =
        container(0, NodeType::Root, None, vec![workspace_with(9, "w", vec![a, b], vec![])]);
    let ids: Vec<i64> =
        crawl_windows(&root, &listed("w", true)).iter().map(|w| w.id).collect();
    assert_eq!(ids, vec![2, 4, 5]);
}

#[test]
fn floating_children_follow_tiled_ones() {
    // workspace: tiled [a -> tiled [a1(w)], floating [a2(w)]], floating [f(w)]
    let mut a = container(1, NodeType::Con, None, vec![window(11, "a1", (0, 0, 1, 1), 0)]);
    a.floating_nodes = vec![window(12, "a2", (0, 0, 1, 1), 0)];
    let f = window(2, "f", (0, 0, 1, 1), 0);
    let b = window(3, "b", (0, 0, 1, 1), 0);
    let root =
        container(0, NodeType::Root, None, vec![workspace_with(9, "w", vec![a, b], vec![f])]);
    let ids: Vec<i64> =
        crawl_windows(&root, &listed("w", true)).iter().map(|w| w.id).collect();
    assert_eq!(ids, vec![3, 2, 11, 12]);
}

#[test]
fn only_leaves_count_as_windows() {
    // A container that owns a window but has children is passed over; the
    // walk still goes on below it.
    let mut parent = window(1, "parent", (0, 0, 10, 10), 0);
    parent.nodes = vec![window(2, "child", (0, 0, 5, 5), 0)];
    let mut holder = window(3, "holder", (0, 0, 10, 10), 0);
    holder.floating_nodes = vec![window(4, "floater", (0, 0, 5, 5), 0)];
    let root = container(
        0,
        NodeType::Root,
        None,
        vec![workspace_with(9, "w", vec![parent, holder], vec![])],
    );
    let ids: Vec<i64> =
        crawl_windows(&root, &listed("w", true)).iter().map(|w| w.id).collect();
    assert_eq!(ids, vec![2, 4]);
}

#[test]
fn containers_without_a_window_are_not_listed() {
    let empty = container(1, NodeType::Con, Some("empty"), vec![]);
    let root =
        container(0, NodeType::Root, None, vec![workspace_with(9, "w", vec![empty], vec![])]);
    assert_eq!(crawl_windows(&root, &listed("w", true)), vec![]);
}

#[test]
fn the_decoration_counts_as_part_of_the_window() {
    let root = container(
        0,
        NodeType::Root,
        None,
        vec![workspace_with(9, "w", vec![window(7, "t", (-5, 30, 640, 450), 30)], vec![])],
    );
    assert_eq!(
        crawl_windows(&root, &listed("w", true)),
        vec![described(7, "t", (-5, 0), (640, 480))]
    );
}

#[test]
fn a_window_without_a_name_has_an_empty_title() {
    let mut nameless = window(7, "", (1, 2, 3, 4), 0);
    nameless.name = None;
    let root =
        container(0, NodeType::Root, None, vec![workspace_with(9, "w", vec![nameless], vec![])]);
    assert_eq!(
        crawl_windows(&root, &listed("w", true)),
        vec![described(7, "", (1, 2), (3, 4))]
    );
}

#[test]
fn frames_at_the_edge_of_the_coordinates() {
    let at_top = window(1, "top", (0, i32::MIN + 10, 1, i32::MAX - 10), 10);
    let root =
        container(0, NodeType::Root, None, vec![workspace_with(9, "w", vec![at_top], vec![])]);
    assert!(can_crawl_windows(&root, &listed("w", true)));
    assert_eq!(
        crawl_windows(&root, &listed("w", true)),
        vec![described(1, "top", (0, i32::MIN), (1, i32::MAX))]
    );
}

#[test]
fn a_frame_out_of_range_cannot_be_listed() {
    let too_high = window(1, "high", (0, i32::MIN, 1, 1), 1);
    let root =
        container(0, NodeType::Root, None, vec![workspace_with(9, "w", vec![too_high], vec![])]);
    assert!(!can_crawl_windows(&root, &listed("w", true)));
    assert!(!can_get_windows(&root, &vec![listed("w", true)]));
    assert!(can_get_windows(&root, &vec![listed("w", false)]));

    let too_tall = window(1, "tall", (0, 0, 1, i32::MAX), 1);
    let root =
        container(0, NodeType::Root, None, vec![workspace_with(9, "w", vec![too_tall], vec![])]);
    assert!(!can_crawl_windows(&root, &listed("w", true)));
}

#[test]
fn a_frame_out_of_range_matters_only_for_a_window() {
    let mut split = container(1, NodeType::Con, None, vec![window(2, "w", (0, 0, 1, 1), 0)]);
    split.rect = (0, i32::MIN, 1, i32::MAX);
    split.deco_rect = (0, 0, 1, 1);
    let root =
        container(0, NodeType::Root, None, vec![workspace_with(9, "w", vec![split], vec![])]);
    assert!(can_crawl_windows(&root, &listed("w", true)));
    assert_eq!(crawl_windows(&root, &listed("w", true)).len(), 1);
}

#[test]
fn finds_the_workspace_by_name_and_type() {
    let root = desktop();
    assert_eq!(find_workspace_node(&root, &listed("2", true)).map(|n| n.id), Some(20));
    // "content" names a container that is no workspace
    assert!(find_workspace_node(&root, &listed("content", true)).is_none());
    assert!(find_workspace_node(&root, &listed("", true)).is_none());
}

#[test]
fn the_workspace_search_skips_floating_containers() {
    let mut root = container(0, NodeType::Root, None, vec![]);
    root.floating_nodes = vec![workspace_with(1, "w", vec![], vec![])];
    assert!(find_workspace_node(&root, &listed("w", true)).is_none());
    assert!(!can_crawl_windows(&root, &listed("w", true)));
}

#[test]
fn the_workspace_search_does_not_test_the_root() {
    let root = workspace_with(1, "w", vec![window(2, "x", (0, 0, 1, 1), 0)], vec![]);
    assert!(find_workspace_node(&root, &listed("w", true)).is_none());
}

#[test]
fn the_workspace_search_takes_the_first_in_breadth_first_order() {
    // Two workspaces called "w": the deeper one comes first in the list of
    // children, the shallower one is met first.
    let deep = workspace_with(3, "w", vec![window(4, "deep", (0, 0, 1, 1), 0)], vec![]);
    let shallow = workspace_with(2, "w", vec![window(5, "shallow", (0, 0, 1, 1), 0)], vec![]);
    let root = container(
        0,
        NodeType::Root,
        None,
        vec![container(1, NodeType::Output, None, vec![deep]), shallow],
    );
    assert_eq!(find_workspace_node(&root, &listed("w", true)).map(|n| n.id), Some(2));
    let ids: Vec<i64> =
        crawl_windows(&root, &listed("w", true)).iter().map(|w| w.id).collect();
    assert_eq!(ids, vec![5]);
}

#[test]
fn of_two_workspaces_on_one_level_the_left_one_is_found() {
    let left = workspace_with(1, "w", vec![], vec![]);
    let right = workspace_with(2, "w", vec![], vec![]);
    let root = container(0, NodeType::Root, None, vec![left, right]);
    assert_eq!(find_workspace_node(&root, &listed("w", true)).map(|n| n.id), Some(1));
}

#[test]
fn finds_the_first_node_that_the_predicate_accepts() {
    let root = desktop();
    let found = find_first_node_with_attr(&root, |n: &Node| n.window.is_some());
    assert_eq!(found.map(|n| n.id), Some(11));
    let found = find_first_node_with_attr(&root, |n: &Node| n.id >= 20);
    assert_eq!(found.map(|n| n.id), Some(20));
    let found = find_first_node_with_attr(&root, |n: &Node| n.nodetype == NodeType::DockArea);
    assert_eq!(found.map(|n| n.id), Some(2));
}

#[test]
fn finds_nothing_where_the_predicate_accepts_nothing() {
    let root = desktop();
    assert!(find_first_node_with_attr(&root, |n: &Node| n.id == 0).is_none());
    // the floating dialog is out of reach of the search
    assert!(find_first_node_with_attr(&root, |n: &Node| n.id == 14).is_none());
    let bare = container(0, NodeType::Root, None, vec![]);
    assert!(find_first_node_with_attr(&bare, |_: &Node| true).is_none());
}

#[test]
fn the_search_stops_at_the_first_match() {
    let root = desktop();
    let calls = std::cell::Cell::new(0);
    let found = find_first_node_with_attr(&root, |n: &Node| {
        calls.set(calls.get() + 1);
        n.id == 3
    });
    assert_eq!(found.map(|n| n.id), Some(3));
    // output, dock area, content
    assert_eq!(calls.get(), 3);
}

#[test]
fn two_lists_of_workspaces_give_their_windows_one_after_the_other() {
    let root = desktop();
    let first = vec![listed("2", true), listed("9", false)];
    let second = vec![listed("3", true), listed("1", true)];
    let both = vec![listed("2", true), listed("9", false), listed("3", true), listed("1", true)];
    let mut expected = get_windows(&root, &first);
    expected.extend(get_windows(&root, &second));
    assert_eq!(get_windows(&root, &both), expected);
    let ids: Vec<i64> = expected.iter().map(|w| w.id).collect();
    assert_eq!(ids, vec![22, 31, 11, 12, 14]);
}

#[test]
fn every_leaf_with_a_window_below_the_workspace_is_listed_once() {
    let root = desktop();
    let mut ids: Vec<i64> =
        crawl_windows(&root, &listed("1", true)).iter().map(|w| w.id).collect();
    ids.sort();
    assert_eq!(ids, vec![11, 12, 14]);
}
