//! The order in which a breadth-first walk meets the containers of a tree.

use crate::tree::Container;
use vstd::prelude::*;

verus! {

/// Number of levels of the tree that hangs from `c`, `c` itself counted.
pub open spec fn height(c: Container) -> nat
    decreases c,
{
    let tiled = forest_height(c.nodes);
    let floating = forest_height(c.floating_nodes);
    if tiled >= floating {
        1 + tiled
    } else {
        1 + floating
    }
}

/// Height of the tallest tree of `level`, zero for no tree at all.
pub open spec fn forest_height(level: Seq<Container>) -> nat
    decreases level,
{
    if level.len() == 0 {
        0
    } else {
        let rest = forest_height(level.drop_last());
        let last = height(level.last());
        if rest >= last {
            rest
        } else {
            last
        }
    }
}

/// The children of the containers of `level`, parent by parent.
pub open spec fn next_level(level: Seq<Container>, floating: bool) -> Seq<Container>
    decreases level.len(),
{
    if level.len() == 0 {
        Seq::empty()
    } else {
        next_level(level.drop_last(), floating) + level.last().children(floating)
    }
}

/// The containers met by a breadth-first walk that starts with `level`:
/// `level` itself, then the level below it, and so on to the leaves.
pub open spec fn breadth_first(level: Seq<Container>, floating: bool) -> Seq<Container>
    decreases forest_height(level),
{
    if level.len() == 0 {
        Seq::empty()
    } else {
        proof {
            lemma_next_level_is_lower(level, floating);
        }
        level + breadth_first(next_level(level, floating), floating)
    }
}

/// A forest made of two is as tall as the taller of them.
pub proof fn lemma_forest_height_concat(a: Seq<Container>, b: Seq<Container>)
    ensures
        forest_height(a + b) == if forest_height(a) >= forest_height(b) {
            forest_height(a)
        } else {
            forest_height(b)
        },
    decreases b.len(),
{
    if b.len() == 0 {
        assert(a + b =~= a);
    } else {
        lemma_forest_height_concat(a, b.drop_last());
        assert((a + b).drop_last() =~= a + b.drop_last());
        assert((a + b).last() == b.last());
    }
}

/// Each level of a walk is lower than the one before it.
pub proof fn lemma_next_level_is_lower(level: Seq<Container>, floating: bool)
    requires
        level.len() > 0,
    ensures
        forest_height(next_level(level, floating)) < forest_height(level),
    decreases level.len(),
{
    let last = level.last();
    let rest = level.drop_last();
    lemma_forest_height_concat(last.nodes, last.floating_nodes);
    lemma_forest_height_concat(next_level(rest, floating), last.children(floating));
    assert(forest_height(last.children(floating)) < height(last));
    assert(height(last) <= forest_height(level));
    if rest.len() > 0 {
        lemma_next_level_is_lower(rest, floating);
        assert(forest_height(rest) <= forest_height(level));
    } else {
        assert(forest_height(next_level(rest, floating)) == 0);
    }
}

/// A walk begins with the level that it starts from.
pub proof fn lemma_walk_begins_with_level(level: Seq<Container>, floating: bool)
    ensures
        level.len() <= breadth_first(level, floating).len(),
        breadth_first(level, floating).take(level.len() as int) == level,
{
    assert(breadth_first(level, floating).take(level.len() as int) =~= level);
}

/// The level below `level` holds each child of each container of `level`.
pub proof fn lemma_next_level_holds_children(
    level: Seq<Container>,
    floating: bool,
    parent: Container,
    child: Container,
)
    requires
        level.contains(parent),
        parent.children(floating).contains(child),
    ensures
        next_level(level, floating).contains(child),
    decreases level.len(),
{
    let rest = next_level(level.drop_last(), floating);
    let last = level.last().children(floating);
    if level.last() == parent {
        let k = choose|k: int| 0 <= k < last.len() && last[k] == child;
        assert((rest + last)[rest.len() + k] == child);
    } else {
        let i = choose|i: int| 0 <= i < level.len() && level[i] == parent;
        assert(level.drop_last()[i] == parent);
        lemma_next_level_holds_children(level.drop_last(), floating, parent, child);
        let k = choose|k: int| 0 <= k < rest.len() && rest[k] == child;
        assert((rest + last)[k] == child);
    }
}

/// Each container of the level below `level` is a child of one of `level`.
pub proof fn lemma_next_level_holds_children_only(
    level: Seq<Container>,
    floating: bool,
    child: Container,
)
    requires
        next_level(level, floating).contains(child),
    ensures
        exists|parent: Container|
            level.contains(parent) && #[trigger] parent.children(floating).contains(child),
    decreases level.len(),
{
    if level.len() > 0 {
        let rest = next_level(level.drop_last(), floating);
        let last = level.last().children(floating);
        let k = choose|k: int| 0 <= k < (rest + last).len() && (rest + last)[k] == child;
        if k < rest.len() {
            assert(rest[k] == child);
            lemma_next_level_holds_children_only(level.drop_last(), floating, child);
            let parent = choose|parent: Container|
                level.drop_last().contains(parent) && #[trigger] parent.children(
                    floating,
                ).contains(child);
            let i = choose|i: int| 0 <= i < level.drop_last().len() && level.drop_last()[i] == parent;
            assert(level[i] == parent);
        } else {
            assert(last[k - rest.len()] == child);
            assert(level[level.len() - 1] == level.last());
            assert(level.last().children(floating).contains(child));
        }
    }
}

/// A walk that meets a container meets each of its children.
pub proof fn lemma_walk_holds_children(
    level: Seq<Container>,
    floating: bool,
    parent: Container,
    child: Container,
)
    requires
        breadth_first(level, floating).contains(parent),
        parent.children(floating).contains(child),
    ensures
        breadth_first(level, floating).contains(child),
    decreases forest_height(level),
{
    if level.len() > 0 {
        let below = next_level(level, floating);
        let rest = breadth_first(below, floating);
        lemma_next_level_is_lower(level, floating);
        if level.contains(parent) {
            lemma_next_level_holds_children(level, floating, parent, child);
            lemma_walk_begins_with_level(below, floating);
            let k = choose|k: int| 0 <= k < below.len() && below[k] == child;
            assert(rest.take(below.len() as int)[k] == rest[k]);
            assert((level + rest)[level.len() + k] == child);
        } else {
            let i = choose|i: int|
                0 <= i < (level + rest).len() && (level + rest)[i] == parent;
            if i < level.len() {
                assert(level[i] == parent);
            }
            assert(rest[i - level.len()] == parent);
            lemma_walk_holds_children(below, floating, parent, child);
            let k = choose|k: int| 0 <= k < rest.len() && rest[k] == child;
            assert((level + rest)[level.len() + k] == child);
        }
    }
}

/// A walk meets nothing but the level that it starts from and the children
/// of containers that it meets.
pub proof fn lemma_walk_holds_descendants_only(
    level: Seq<Container>,
    floating: bool,
    c: Container,
)
    requires
        breadth_first(level, floating).contains(c),
    ensures
        level.contains(c) || exists|parent: Container|
            breadth_first(level, floating).contains(parent) && #[trigger] parent.children(
                floating,
            ).contains(c),
    decreases forest_height(level),
{
    if level.len() > 0 && !level.contains(c) {
        let below = next_level(level, floating);
        let rest = breadth_first(below, floating);
        lemma_next_level_is_lower(level, floating);
        let i = choose|i: int| 0 <= i < (level + rest).len() && (level + rest)[i] == c;
        if i < level.len() {
            assert(level[i] == c);
        }
        assert(rest[i - level.len()] == c);
        lemma_walk_holds_descendants_only(below, floating, c);
        if below.contains(c) {
            lemma_next_level_holds_children_only(level, floating, c);
            let parent = choose|parent: Container|
                level.contains(parent) && #[trigger] parent.children(floating).contains(c);
            let j = choose|j: int| 0 <= j < level.len() && level[j] == parent;
            assert((level + rest)[j] == parent);
        } else {
            let parent = choose|parent: Container|
                rest.contains(parent) && #[trigger] parent.children(floating).contains(c);
            let j = choose|j: int| 0 <= j < rest.len() && rest[j] == parent;
            assert((level + rest)[level.len() + j] == parent);
        }
    }
}

} // verus!
