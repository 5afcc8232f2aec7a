//! The directory tree shown in the sidebar, and the rows it shows.

use std::sync::Arc;

use vstd::prelude::*;

use crate::paths::{display_name, display_name_of, path_has_prefix, paths_equal, same_path, starts_with};

verus! {

/// A directory that holds supported audio files, or one such file.
#[derive(Debug, PartialEq, Eq)]
pub enum FileTreeNode {
    Directory {
        name: String,
        path: String,
        children: Vec<FileTreeNode>,
        is_album: bool,
        album_cover: Option<Arc<Vec<u8>>>,
    },
    AudioFile { name: String, path: String },
}

/// One visible row of the flattened tree.
#[derive(Clone, Debug, PartialEq, Eq)]
pub struct TreeRow {
    pub name: String,
    pub path: String,
    pub depth: usize,
    pub is_directory: bool,
    pub is_album: bool,
    pub album_cover: Option<Arc<Vec<u8>>>,
    pub expanded: bool,
}

/// The mathematical value of a tree node.
#[verifier::ext_equal]
pub enum NodeView {
    Directory {
        name: Seq<char>,
        path: Seq<char>,
        children: Seq<NodeView>,
        is_album: bool,
        album_cover: Option<Seq<u8>>,
    },
    AudioFile { name: Seq<char>, path: Seq<char> },
}

/// The mathematical value of a row.
#[verifier::ext_equal]
pub struct RowView {
    pub name: Seq<char>,
    pub path: Seq<char>,
    pub depth: int,
    pub is_directory: bool,
    pub is_album: bool,
    pub album_cover: Option<Seq<u8>>,
    pub expanded: bool,
}

/// The bytes of an optional shared cover.
pub open spec fn cover_bytes(cover: Option<Arc<Vec<u8>>>) -> Option<Seq<u8>> {
    match cover {
        Some(bytes) => Some(bytes@),
        None => None,
    }
}

/// The value of a node.
pub open spec fn node_view(node: FileTreeNode) -> NodeView
    decreases node,
{
    match node {
        FileTreeNode::Directory { name, path, children, is_album, album_cover } => {
            NodeView::Directory {
                name: name@,
                path: path@,
                children: forest_view(children@),
                is_album,
                album_cover: cover_bytes(album_cover),
            }
        },
        FileTreeNode::AudioFile { name, path } => NodeView::AudioFile { name: name@, path: path@ },
    }
}

/// The values of a sequence of nodes.
pub open spec fn forest_view(nodes: Seq<FileTreeNode>) -> Seq<NodeView>
    decreases nodes,
{
    if nodes.len() == 0 {
        Seq::empty()
    } else {
        forest_view(nodes.drop_last()).push(node_view(nodes.last()))
    }
}

impl View for FileTreeNode {
    type V = NodeView;

    open spec fn view(&self) -> NodeView {
        node_view(*self)
    }
}

impl View for TreeRow {
    type V = RowView;

    open spec fn view(&self) -> RowView {
        RowView {
            name: self.name@,
            path: self.path@,
            depth: self.depth as int,
            is_directory: self.is_directory,
            is_album: self.is_album,
            album_cover: cover_bytes(self.album_cover),
            expanded: self.expanded,
        }
    }
}

/// The values of a sequence of rows.
pub open spec fn row_views(rows: Seq<TreeRow>) -> Seq<RowView> {
    rows.map_values(|row: TreeRow| row@)
}

/// The values of a sequence of strings.
pub open spec fn string_views(strings: Seq<String>) -> Seq<Seq<char>> {
    strings.map_values(|s: String| s@)
}

impl NodeView {
    /// The path of the node.
    pub open spec fn path(self) -> Seq<char> {
        match self {
            NodeView::Directory { path, .. } => path,
            NodeView::AudioFile { path, .. } => path,
        }
    }

    /// The largest number of directory levels above a row of this node's subtree:
    /// its rows stand at most this many levels below the node's own row.
    pub open spec fn levels(self) -> nat
        decreases self,
    {
        match self {
            NodeView::Directory { children, .. } => 1 + forest_levels(children),
            NodeView::AudioFile { .. } => 0,
        }
    }
}

/// The largest [`NodeView::levels`] of a sequence of nodes.
pub open spec fn forest_levels(nodes: Seq<NodeView>) -> nat
    decreases nodes,
{
    if nodes.len() == 0 {
        0
    } else {
        let rest = forest_levels(nodes.drop_last());
        let last = nodes.last().levels();
        if rest >= last { rest } else { last }
    }
}

/// The rows of a node at `depth`: its own row, then, for an expanded directory,
/// the rows of its children one level deeper. A directory is expanded when its
/// path names the same path as one of `expanded` ([`same_path`]).
pub open spec fn node_rows(node: NodeView, depth: int, expanded: Seq<Seq<char>>) -> Seq<RowView>
    decreases node,
{
    match node {
        NodeView::Directory { name, path, children, is_album, album_cover } => {
            let open = lists_path(expanded, path);
            let row = RowView {
                name,
                path,
                depth,
                is_directory: true,
                is_album,
                album_cover,
                expanded: open,
            };
            if open {
                seq![row] + forest_rows(children, depth + 1, expanded)
            } else {
                seq![row]
            }
        },
        NodeView::AudioFile { name, path } => seq![
            RowView {
                name,
                path,
                depth,
                is_directory: false,
                is_album: false,
                album_cover: None,
                expanded: false,
            },
        ],
    }
}

/// The rows of a sequence of nodes, one after another.
pub open spec fn forest_rows(nodes: Seq<NodeView>, depth: int, expanded: Seq<Seq<char>>) -> Seq<
    RowView,
>
    decreases nodes,
{
    if nodes.len() == 0 {
        Seq::empty()
    } else {
        forest_rows(nodes.drop_last(), depth, expanded) + node_rows(nodes.last(), depth, expanded)
    }
}

/// The rows that the sidebar shows for a tree: those of the root's children at
/// depth 0 (the root directory itself has no row), or the single row of a root
/// that is a file.
pub open spec fn tree_rows(root: NodeView, expanded: Seq<Seq<char>>) -> Seq<RowView> {
    match root {
        NodeView::Directory { children, .. } => forest_rows(children, 0, expanded),
        NodeView::AudioFile { .. } => node_rows(root, 0, expanded),
    }
}

/// The directory that a chain of single subdirectories collapses into: while the
/// only child is a directory, its name is joined to `name` with `/` and it takes
/// the place of its parent.
pub open spec fn collapse(
    name: Seq<char>,
    path: Seq<char>,
    children: Seq<NodeView>,
    is_album: bool,
    album_cover: Option<Seq<u8>>,
) -> NodeView
    decreases children,
{
    if children.len() == 1 && children[0] is Directory {
        let child = children[0];
        collapse(
            name + seq!['/'] + child->Directory_name,
            child->Directory_path,
            child->Directory_children,
            child->Directory_is_album,
            child->Directory_album_cover,
        )
    } else {
        NodeView::Directory { name, path, children, is_album, album_cover }
    }
}

/// The path of the album directory whose cover a save of `file` updates: the
/// first album directory, searching the tree in order from the deepest level up,
/// among the directories that contain `file`.
pub open spec fn cover_target(node: NodeView, file: Seq<char>) -> Option<Seq<char>>
    decreases node,
{
    match node {
        NodeView::Directory { path, children, is_album, .. } => {
            if !path_has_prefix(file, path) {
                None
            } else {
                match forest_target(children, file) {
                    Some(found) => Some(found),
                    None => if is_album { Some(path) } else { None },
                }
            }
        },
        NodeView::AudioFile { .. } => None,
    }
}

/// The first [`cover_target`] among a sequence of nodes.
pub open spec fn forest_target(nodes: Seq<NodeView>, file: Seq<char>) -> Option<Seq<char>>
    decreases nodes,
{
    if nodes.len() == 0 {
        None
    } else {
        match forest_target(nodes.drop_last(), file) {
            Some(found) => Some(found),
            None => cover_target(nodes.last(), file),
        }
    }
}

/// The tree after the cover of `file`'s [`cover_target`] directory is replaced.
pub open spec fn with_cover(node: NodeView, file: Seq<char>, cover: Option<Seq<u8>>) -> NodeView
    decreases node,
{
    match node {
        NodeView::Directory { name, path, children, is_album, album_cover } => {
            if !path_has_prefix(file, path) {
                node
            } else if forest_target(children, file) is Some {
                NodeView::Directory {
                    name,
                    path,
                    children: forest_with_cover(children, file, cover),
                    is_album,
                    album_cover,
                }
            } else if is_album {
                NodeView::Directory { name, path, children, is_album, album_cover: cover }
            } else {
                node
            }
        },
        NodeView::AudioFile { .. } => node,
    }
}

/// A sequence of nodes after the cover of their [`forest_target`] is replaced.
pub open spec fn forest_with_cover(nodes: Seq<NodeView>, file: Seq<char>, cover: Option<Seq<u8>>) -> Seq<
    NodeView,
>
    decreases nodes,
{
    if nodes.len() == 0 {
        nodes
    } else if forest_target(nodes.drop_last(), file) is Some {
        forest_with_cover(nodes.drop_last(), file, cover).push(nodes.last())
    } else {
        nodes.drop_last().push(with_cover(nodes.last(), file, cover))
    }
}

/// The paths of the album directories of a tree, in order, parents first.
pub open spec fn album_paths(node: NodeView) -> Seq<Seq<char>>
    decreases node,
{
    match node {
        NodeView::Directory { path, children, is_album, .. } => {
            let own = if is_album { seq![path] } else { Seq::empty() };
            own + forest_album_paths(children)
        },
        NodeView::AudioFile { .. } => Seq::empty(),
    }
}

/// The album directory paths of a sequence of nodes.
pub open spec fn forest_album_paths(nodes: Seq<NodeView>) -> Seq<Seq<char>>
    decreases nodes,
{
    if nodes.len() == 0 {
        Seq::empty()
    } else {
        forest_album_paths(nodes.drop_last()) + album_paths(nodes.last())
    }
}

proof fn lemma_forest_view(nodes: Seq<FileTreeNode>)
    ensures
        forest_view(nodes).len() == nodes.len(),
        forall|i: int| 0 <= i < nodes.len() ==> #[trigger] forest_view(nodes)[i] == node_view(nodes[i]),
    decreases nodes.len(),
{
    if nodes.len() > 0 {
        lemma_forest_view(nodes.drop_last());
    }
}

fn share_cover(cover: &Option<Arc<Vec<u8>>>) -> (r: Option<Arc<Vec<u8>>>)
    ensures
        cover_bytes(r) == cover_bytes(*cover),
{
    match cover {
        Some(bytes) => Some(share_bytes(bytes)),
        None => None,
    }
}

/// std `Arc::clone`: a new handle to the same bytes.
#[verifier::external_body]
fn share_bytes(bytes: &Arc<Vec<u8>>) -> (r: Arc<Vec<u8>>)
    ensures
        r@ == bytes@,
{
    Arc::clone(bytes)
}

fn contains_path(paths: &[String], path: &str) -> (r: bool)
    ensures
        r == lists_path(string_views(paths@), path@),
{
    let mut i: usize = 0;
    while i < paths.len()
        invariant
            i <= paths@.len(),
            forall|j: int| 0 <= j < i ==> !same_path(paths@[j]@, path@),
        decreases paths@.len() - i,
    {
        if paths_equal(paths[i].as_str(), path) {
            assert(string_views(paths@)[i as int] == paths@[i as int]@);
            return true;
        }
        i = i + 1;
    }
    assert forall|j: int| 0 <= j < string_views(paths@).len() implies !same_path(
        string_views(paths@)[j],
        path@,
    ) by {
        assert(string_views(paths@)[j] == paths@[j]@);
    }
    false
}

impl FileTreeNode {
    /// The path of the node.
    pub fn path(&self) -> (r: &str)
        ensures
            r@ == self@.path(),
    {
        match self {
            FileTreeNode::Directory { path, .. } => path.as_str(),
            FileTreeNode::AudioFile { path, .. } => path.as_str(),
        }
    }

    /// The node of an audio file, named by the file's name.
    pub fn audio(path: String) -> (r: FileTreeNode)
        ensures
            r@ == (NodeView::AudioFile { name: display_name_of(path@), path: path@ }),
    {
        FileTreeNode::AudioFile { name: display_name(path.as_str()), path }
    }
}


proof fn lemma_forest_levels(nodes: Seq<NodeView>)
    ensures
        forall|i: int| 0 <= i < nodes.len() ==> #[trigger] nodes[i].levels() <= forest_levels(nodes),
    decreases nodes.len(),
{
    if nodes.len() > 0 {
        lemma_forest_levels(nodes.drop_last());
        assert forall|i: int| 0 <= i < nodes.len() implies #[trigger] nodes[i].levels() <= forest_levels(nodes) by {
            if i < nodes.len() - 1 {
                assert(nodes.drop_last()[i] == nodes[i]);
            }
        }
    }
}

proof fn lemma_forest_rows_step(nodes: Seq<NodeView>, i: int, depth: int, expanded: Seq<Seq<char>>)
    requires
        0 <= i < nodes.len(),
    ensures
        forest_rows(nodes.take(i + 1), depth, expanded) == forest_rows(nodes.take(i), depth, expanded)
            + node_rows(nodes[i], depth, expanded),
{
    assert(nodes.take(i + 1).drop_last() =~= nodes.take(i));
}

proof fn lemma_row_views_push(rows: Seq<TreeRow>, row: TreeRow)
    ensures
        row_views(rows.push(row)) == row_views(rows).push(row@),
{
    assert(row_views(rows.push(row)) =~= row_views(rows).push(row@));
}

impl FileTreeNode {
    /// Appends the rows of this node at `depth` to `rows`.
    fn append_rows(&self, depth: usize, expanded_paths: &[String], rows: &mut Vec<TreeRow>)
        requires
            depth + self@.levels() <= usize::MAX,
        ensures
            row_views(final(rows)@) == row_views(old(rows)@) + node_rows(
                self@,
                depth as int,
                string_views(expanded_paths@),
            ),
        decreases self,
    {
        let ghost expanded = string_views(expanded_paths@);
        let ghost start = row_views(rows@);
        match self {
            FileTreeNode::Directory { name, path, children, is_album, album_cover } => {
                let open = contains_path(expanded_paths, path.as_str());
                let row = TreeRow {
                    name: name.clone(),
                    path: path.clone(),
                    depth,
                    is_directory: true,
                    is_album: *is_album,
                    album_cover: share_cover(album_cover),
                    expanded: open,
                };
                let ghost row_view = row@;
                proof {
                    lemma_row_views_push(rows@, row);
                }
                rows.push(row);
                if open {
                    let ghost kids = forest_view(children@);
                    proof {
                        lemma_forest_view(children@);
                        lemma_forest_levels(kids);
                    }
                    let mut i: usize = 0;
                    while i < children.len()
                        invariant
                            i <= children@.len(),
                            kids == forest_view(children@),
                            kids.len() == children@.len(),
                            forall|j: int| 0 <= j < children@.len() ==> #[trigger] kids[j] == node_view(children@[j]),
                            forall|j: int| 0 <= j < kids.len() ==> #[trigger] kids[j].levels() <= forest_levels(kids),
                            depth + 1 + forest_levels(kids) <= usize::MAX,
                            expanded == string_views(expanded_paths@),
                            *self == (FileTreeNode::Directory {
                                name: *name,
                                path: *path,
                                children: *children,
                                is_album: *is_album,
                                album_cover: *album_cover,
                            }),
                            row_views(rows@) == start.push(row_view) + forest_rows(kids.take(i as int), depth + 1, expanded),
                        decreases children@.len() - i,
                    {
                        assert(kids[i as int].levels() <= forest_levels(kids));
                        proof {
                            assert(decreases_to!(*self => (*self)->Directory_children));
                            assert(decreases_to!(*children => children@));
                            assert(decreases_to!(children@ => children@[i as int]));
                        }
                        children[i].append_rows(depth + 1, expanded_paths, rows);
                        proof {
                            lemma_forest_rows_step(kids, i as int, depth + 1, expanded);
                        }
                        i = i + 1;
                        assert(row_views(rows@) =~= start.push(row_view) + forest_rows(kids.take(i as int), depth + 1, expanded));
                    }
                    assert(kids.take(children@.len() as int) =~= kids);
                    assert(row_views(rows@) =~= start + node_rows(self@, depth as int, expanded));
                } else {
                    assert(row_views(rows@) =~= start + node_rows(self@, depth as int, expanded));
                }
            },
            FileTreeNode::AudioFile { name, path } => {
                let row = TreeRow {
                    name: name.clone(),
                    path: path.clone(),
                    depth,
                    is_directory: false,
                    is_album: false,
                    album_cover: None,
                    expanded: false,
                };
                proof {
                    lemma_row_views_push(rows@, row);
                }
                rows.push(row);
                assert(row_views(rows@) =~= start + node_rows(self@, depth as int, expanded));
            },
        }
    }

    /// The visible rows of the tree: every child of the root directory at depth 0,
    /// and below each directory whose path names the same path as one of `expanded_paths`, its children
    /// one level deeper.
    pub fn flatten(&self, expanded_paths: &[String]) -> (r: Vec<TreeRow>)
        requires
            self@.levels() <= usize::MAX,
        ensures
            row_views(r@) == tree_rows(self@, string_views(expanded_paths@)),
    {
        let mut rows: Vec<TreeRow> = Vec::new();
        let ghost expanded = string_views(expanded_paths@);
        match self {
            FileTreeNode::Directory { children, .. } => {
                let ghost kids = forest_view(children@);
                proof {
                    lemma_forest_view(children@);
                    lemma_forest_levels(kids);
                }
                let mut i: usize = 0;
                while i < children.len()
                    invariant
                        i <= children@.len(),
                        kids == forest_view(children@),
                        kids.len() == children@.len(),
                        forall|j: int| 0 <= j < children@.len() ==> #[trigger] kids[j] == node_view(children@[j]),
                        forall|j: int| 0 <= j < kids.len() ==> #[trigger] kids[j].levels() <= forest_levels(kids),
                        1 + forest_levels(kids) <= usize::MAX,
                        expanded == string_views(expanded_paths@),
                        row_views(rows@) == forest_rows(kids.take(i as int), 0, expanded),
                    decreases children@.len() - i,
                {
                    assert(kids[i as int].levels() <= forest_levels(kids));
                    children[i].append_rows(0, expanded_paths, &mut rows);
                    proof {
                        lemma_forest_rows_step(kids, i as int, 0, expanded);
                    }
                    i = i + 1;
                }
                assert(kids.take(children@.len() as int) =~= kids);
            },
            FileTreeNode::AudioFile { .. } => {
                self.append_rows(0, expanded_paths, &mut rows);
                assert(row_views(rows@) =~= node_rows(self@, 0, expanded));
            },
        }
        rows
    }
}


/// The number of nodes of a tree.
pub open spec fn node_size(node: NodeView) -> nat
    decreases node,
{
    match node {
        NodeView::Directory { children, .. } => 1 + forest_size(children),
        NodeView::AudioFile { .. } => 1,
    }
}

/// The number of nodes of a sequence of trees.
pub open spec fn forest_size(nodes: Seq<NodeView>) -> nat
    decreases nodes,
{
    if nodes.len() == 0 {
        0
    } else {
        forest_size(nodes.drop_last()) + node_size(nodes.last())
    }
}

proof fn lemma_no_target_unchanged(node: NodeView, file: Seq<char>, cover: Option<Seq<u8>>)
    requires
        cover_target(node, file) is None,
    ensures
        with_cover(node, file, cover) == node,
{
}

proof fn lemma_forest_target_step(nodes: Seq<NodeView>, i: int, file: Seq<char>)
    requires
        0 <= i < nodes.len(),
        forest_target(nodes.take(i), file) is None,
    ensures
        forest_target(nodes.take(i + 1), file) == cover_target(nodes[i], file),
{
    assert(nodes.take(i + 1).drop_last() =~= nodes.take(i));
}

proof fn lemma_forest_first_target(nodes: Seq<NodeView>, i: int, file: Seq<char>, cover: Option<Seq<u8>>)
    requires
        0 <= i < nodes.len(),
        forest_target(nodes.take(i), file) is None,
        cover_target(nodes[i], file) is Some,
    ensures
        forest_target(nodes, file) == cover_target(nodes[i], file),
        forest_with_cover(nodes, file, cover) == nodes.update(i, with_cover(nodes[i], file, cover)),
    decreases nodes.len(),
{
    if i == nodes.len() - 1 {
        assert(nodes.drop_last() =~= nodes.take(i));
        assert(nodes.drop_last().push(with_cover(nodes.last(), file, cover)) =~= nodes.update(
            i,
            with_cover(nodes[i], file, cover),
        ));
    } else {
        let rest = nodes.drop_last();
        assert(rest.take(i) =~= nodes.take(i));
        assert(rest[i] == nodes[i]);
        lemma_forest_first_target(rest, i, file, cover);
        assert(forest_with_cover(rest, file, cover).push(nodes.last()) =~= nodes.update(
            i,
            with_cover(nodes[i], file, cover),
        ));
    }
}

proof fn lemma_forest_no_target(nodes: Seq<NodeView>, file: Seq<char>, cover: Option<Seq<u8>>)
    requires
        forest_target(nodes, file) is None,
    ensures
        forest_with_cover(nodes, file, cover) == nodes,
{
    if nodes.len() > 0 {
        lemma_no_target_unchanged(nodes.last(), file, cover);
        assert(nodes.drop_last().push(nodes.last()) =~= nodes);
    }
}

proof fn lemma_forest_view_update(nodes: Seq<FileTreeNode>, i: int, node: FileTreeNode)
    requires
        0 <= i < nodes.len(),
    ensures
        forest_view(nodes.update(i, node)) == forest_view(nodes).update(i, node_view(node)),
{
    lemma_forest_view(nodes);
    lemma_forest_view(nodes.update(i, node));
    assert(forest_view(nodes.update(i, node)) =~= forest_view(nodes).update(i, node_view(node)));
}

/// The paths of the file rows among the rows from the first row naming the same path as
/// `start` to the first naming the same path as `end`, both included, in either order.
pub open spec fn paths_between(rows: Seq<RowView>, start: Seq<char>, end: Seq<char>) -> Seq<Seq<char>> {
    let paths = rows.map_values(|row: RowView| row.path);
    match (first_position(paths, start), first_position(paths, end)) {
        (Some(a), Some(b)) => {
            let low = if a <= b { a } else { b };
            let high = if a <= b { b } else { a };
            rows.subrange(low, high + 1).filter(|row: RowView| !row.is_directory).map_values(
                |row: RowView| row.path,
            )
        },
        _ => Seq::empty(),
    }
}

/// Whether one of `paths` names the same path as `path` ([`same_path`]).
pub open spec fn lists_path(paths: Seq<Seq<char>>, path: Seq<char>) -> bool {
    exists|i: int| 0 <= i < paths.len() && same_path(#[trigger] paths[i], path)
}

/// The index of the first of `items` that names the same path as `item`.
pub open spec fn first_position(items: Seq<Seq<char>>, item: Seq<char>) -> Option<int>
    decreases items.len(),
{
    if items.len() == 0 {
        None
    } else {
        match first_position(items.drop_last(), item) {
            Some(i) => Some(i),
            None => if same_path(items.last(), item) { Some(items.len() - 1) } else { None },
        }
    }
}

pub(crate) proof fn lemma_first_position_bounds(items: Seq<Seq<char>>, item: Seq<char>)
    ensures
        first_position(items, item) matches Some(i) ==> 0 <= i < items.len(),
    decreases items.len(),
{
    if items.len() > 0 {
        lemma_first_position_bounds(items.drop_last(), item);
    }
}

proof fn lemma_forest_size(nodes: Seq<NodeView>)
    ensures
        forall|i: int| 0 <= i < nodes.len() ==> #[trigger] node_size(nodes[i]) <= forest_size(nodes),
    decreases nodes.len(),
{
    if nodes.len() > 0 {
        lemma_forest_size(nodes.drop_last());
        assert forall|i: int| 0 <= i < nodes.len() implies #[trigger] node_size(nodes[i]) <= forest_size(nodes) by {
            if i < nodes.len() - 1 {
                assert(nodes.drop_last()[i] == nodes[i]);
            }
        }
    }
}

pub(crate) proof fn lemma_first_position_step(items: Seq<Seq<char>>, i: int, item: Seq<char>)
    requires
        0 <= i < items.len(),
        first_position(items.take(i), item) is None,
    ensures
        same_path(items[i], item) ==> first_position(items.take(i + 1), item) == Some(i),
        !same_path(items[i], item) ==> first_position(items.take(i + 1), item) is None,
{
    assert(items.take(i + 1).drop_last() =~= items.take(i));
}

pub(crate) proof fn lemma_first_position_extends(items: Seq<Seq<char>>, i: int, item: Seq<char>)
    requires
        0 <= i <= items.len(),
        first_position(items.take(i), item) is Some,
    ensures
        first_position(items, item) == first_position(items.take(i), item),
    decreases items.len() - i,
{
    if i < items.len() {
        assert(items.take(i + 1).drop_last() =~= items.take(i));
        lemma_first_position_extends(items, i + 1, item);
    } else {
        assert(items.take(i) =~= items);
    }
}

/// The index of the first row whose path names the same path as `path`.
pub fn position_of(rows: &[TreeRow], path: &str) -> (r: Option<usize>)
    ensures
        ({
            let found = first_position(row_views(rows@).map_values(|row: RowView| row.path), path@);
            match r {
                Some(i) => found == Some(i as int),
                None => found is None,
            }
        }),
{
    let ghost paths = row_views(rows@).map_values(|row: RowView| row.path);
    let mut i: usize = 0;
    while i < rows.len()
        invariant
            i <= rows@.len(),
            paths == row_views(rows@).map_values(|row: RowView| row.path),
            paths.len() == rows@.len(),
            first_position(paths.take(i as int), path@) is None,
        decreases rows@.len() - i,
    {
        proof {
            lemma_first_position_step(paths, i as int, path@);
        }
        assert(paths[i as int] == rows@[i as int].path@);
        if paths_equal(rows[i].path.as_str(), path) {
            proof {
                lemma_first_position_extends(paths, i + 1, path@);
            }
            return Some(i);
        }
        i = i + 1;
    }
    assert(paths.take(rows@.len() as int) =~= paths);
    None
}

/// The paths of the audio-file rows from the row of `start` to the row of `end`,
/// both included and in row order; nothing when either path has no row.
pub fn audio_paths_between(rows: &[TreeRow], start: &str, end: &str) -> (r: Vec<String>)
    ensures
        string_views(r@) == paths_between(row_views(rows@), start@, end@),
{
    let ghost views = row_views(rows@);
    let start_index = position_of(rows, start);
    let end_index = position_of(rows, end);
    let (a, b) = match (start_index, end_index) {
        (Some(a), Some(b)) => (a, b),
        _ => return Vec::new(),
    };
    proof {
        let paths = views.map_values(|row: RowView| row.path);
        lemma_first_position_bounds(paths, start@);
        lemma_first_position_bounds(paths, end@);
    }
    let low = if a <= b { a } else { b };
    let high = if a <= b { b } else { a };
    proof {
        reveal_with_fuel(Seq::<_>::filter, 1);
        assert(views.subrange(low as int, low as int).len() == 0);
    }
    let ghost keep = |row: RowView| !row.is_directory;
    let ghost path_of = |row: RowView| row.path;
    let mut out: Vec<String> = Vec::new();
    let mut k: usize = low;
    while k <= high
        invariant
            low <= k <= high + 1,
            high < rows@.len(),
            views == row_views(rows@),
            keep == (|row: RowView| !row.is_directory),
            path_of == (|row: RowView| row.path),
            string_views(out@) == views.subrange(low as int, k as int).filter(keep).map_values(path_of),
        decreases high + 1 - k,
    {
        let ghost before = views.subrange(low as int, k as int);
        let ghost next = views.subrange(low as int, k + 1);
        assert(next.drop_last() =~= before);
        assert(next.last() == views[k as int]);
        assert(views[k as int] == rows@[k as int]@);
        proof {
            reveal_with_fuel(Seq::<_>::filter, 1);
        }
        assert(next.filter(keep) == if !views[k as int].is_directory {
            before.filter(keep).push(views[k as int])
        } else {
            before.filter(keep)
        });
        if !rows[k].is_directory {
            assert(before.filter(keep).push(views[k as int]).map_values(path_of) =~= before.filter(
                keep,
            ).map_values(path_of).push(views[k as int].path));
            out.push(rows[k].path.clone());
            assert(string_views(out@) =~= views.subrange(low as int, k + 1).filter(keep).map_values(path_of));
        } else {
            assert(string_views(out@) =~= views.subrange(low as int, k + 1).filter(keep).map_values(path_of));
        }
        k = k + 1;
    }
    out
}

fn single_directory(children: &Vec<FileTreeNode>) -> (r: bool)
    ensures
        r == (children@.len() == 1 && children@[0] is Directory),
{
    children.len() == 1 && matches!(children[0], FileTreeNode::Directory { .. })
}

impl FileTreeNode {
    /// A directory node whose chain of single subdirectories is collapsed into one
    /// node named by the joined names, as [`collapse`] describes.
    pub fn directory_with_album_cover(
        path: String,
        children: Vec<FileTreeNode>,
        is_album: bool,
        album_cover: Option<Arc<Vec<u8>>>,
    ) -> (r: FileTreeNode)
        ensures
            r@ == collapse(
                display_name_of(path@),
                path@,
                forest_view(children@),
                is_album,
                cover_bytes(album_cover),
            ),
    {
        let ghost target = collapse(
            display_name_of(path@),
            path@,
            forest_view(children@),
            is_album,
            cover_bytes(album_cover),
        );
        let mut name = display_name(path.as_str());
        let mut path = path;
        let mut children = children;
        let mut is_album = is_album;
        let mut album_cover = album_cover;
        while single_directory(&children)
            invariant
                collapse(name@, path@, forest_view(children@), is_album, cover_bytes(album_cover))
                    == target,
            decreases forest_size(forest_view(children@)),
        {
            let ghost before = forest_view(children@);
            proof {
                lemma_forest_view(children@);
            }
            let ghost old_name = name@;
            let ghost old_path = path@;
            let ghost old_is_album = is_album;
            let ghost old_cover = cover_bytes(album_cover);
            let child = children.pop().unwrap();
            match child {
                FileTreeNode::Directory {
                    name: child_name,
                    path: child_path,
                    children: child_children,
                    is_album: child_is_album,
                    album_cover: child_cover,
                } => {
                    crate::text::push_char(&mut name, '/');
                    crate::text::push_char_all(&mut name, child_name.as_str());
                    path = child_path;
                    children = child_children;
                    is_album = child_is_album;
                    album_cover = child_cover;
                    assert(before.drop_last().len() == 0);
                    assert(forest_size(before.drop_last()) == 0);
                    assert(forest_size(before) == node_size(before[0]));
                    assert(node_size(before[0]) == 1 + forest_size(forest_view(children@)));
                    assert(before[0] == node_view(FileTreeNode::Directory {
                        name: child_name,
                        path: path,
                        children: children,
                        is_album: is_album,
                        album_cover: album_cover,
                    }));
                    assert(name@ =~= old_name + seq!['/'] + before[0]->Directory_name);
                    assert(collapse(old_name, old_path, before, old_is_album, old_cover) == collapse(
                        name@,
                        path@,
                        forest_view(children@),
                        is_album,
                        cover_bytes(album_cover),
                    ));
                },
                FileTreeNode::AudioFile { .. } => {},
            }
        }
        proof {
            lemma_forest_view(children@);
        }
        let result = FileTreeNode::Directory { name, path, children, is_album, album_cover };
        assert(result@ == collapse(name@, path@, forest_view(children@), is_album, cover_bytes(album_cover)));
        result
    }

    fn append_album_directory_paths(&self, paths: &mut Vec<String>)
        ensures
            string_views(final(paths)@) == string_views(old(paths)@) + album_paths(self@),
        decreases self,
    {
        let ghost start = string_views(paths@);
        match self {
            FileTreeNode::Directory { path, children, is_album, .. } => {
                if *is_album {
                    paths.push(path.clone());
                }
                let ghost own = if *is_album { seq![path@] } else { Seq::<Seq<char>>::empty() };
                assert(string_views(paths@) =~= start + own);
                let ghost kids = forest_view(children@);
                proof {
                    lemma_forest_view(children@);
                }
                let mut i: usize = 0;
                while i < children.len()
                    invariant
                        i <= children@.len(),
                        kids == forest_view(children@),
                        kids.len() == children@.len(),
                        forall|j: int| 0 <= j < children@.len() ==> #[trigger] kids[j] == node_view(children@[j]),
                        *self == (FileTreeNode::Directory {
                            name: self->Directory_name,
                            path: *path,
                            children: *children,
                            is_album: *is_album,
                            album_cover: self->Directory_album_cover,
                        }),
                        string_views(paths@) == start + own + forest_album_paths(kids.take(i as int)),
                    decreases children@.len() - i,
                {
                    proof {
                        assert(decreases_to!(*self => (*self)->Directory_children));
                        assert(decreases_to!(*children => children@));
                        assert(decreases_to!(children@ => children@[i as int]));
                        assert(kids.take(i + 1).drop_last() =~= kids.take(i as int));
                    }
                    children[i].append_album_directory_paths(paths);
                    i = i + 1;
                    assert(string_views(paths@) =~= start + own + forest_album_paths(kids.take(i as int)));
                }
                assert(kids.take(children@.len() as int) =~= kids);
                assert(string_views(paths@) =~= start + album_paths(self@));
            },
            FileTreeNode::AudioFile { .. } => {
                assert(string_views(paths@) =~= start + album_paths(self@));
            },
        }
    }

    /// The paths of the album directories of the tree, parents before their
    /// descendants and siblings in order.
    pub fn album_directory_paths(&self) -> (r: Vec<String>)
        ensures
            string_views(r@) == album_paths(self@),
    {
        let mut paths: Vec<String> = Vec::new();
        self.append_album_directory_paths(&mut paths);
        assert(string_views(paths@) =~= album_paths(self@));
        paths
    }

    /// Gives the album directory that holds `file_path` the new cover: the deepest
    /// such directory found first, as [`cover_target`] describes. Returns its path,
    /// or `None` and leaves the tree as it was when there is none.
    pub fn update_album_cover_for_file(&mut self, file_path: &str, cover: Option<Arc<Vec<u8>>>) -> (r:
        Option<String>)
        ensures
            match r {
                Some(path) => cover_target(old(self)@, file_path@) == Some(path@),
                None => cover_target(old(self)@, file_path@) is None,
            },
            final(self)@ == with_cover(old(self)@, file_path@, cover_bytes(cover)),
        decreases node_size(old(self)@), 0nat,
    {
        match self {
            FileTreeNode::Directory { path, children, is_album, album_cover, .. } => {
                if !starts_with(file_path, path.as_str()) {
                    return None;
                }
                let ghost kids = forest_view(children@);
                match update_forest_cover(children, file_path, share_cover(&cover)) {
                    Some(found) => Some(found),
                    None => {
                        proof {
                            lemma_forest_no_target(kids, file_path@, cover_bytes(cover));
                        }
                        if *is_album {
                            *album_cover = cover;
                            Some(path.clone())
                        } else {
                            None
                        }
                    },
                }
            },
            FileTreeNode::AudioFile { .. } => None,
        }
    }
}

/// Gives the first directory of `nodes` that [`forest_target`] finds the new cover.
fn update_forest_cover(nodes: &mut Vec<FileTreeNode>, file_path: &str, cover: Option<Arc<Vec<u8>>>) -> (r:
    Option<String>)
    ensures
        match r {
            Some(path) => forest_target(forest_view(old(nodes)@), file_path@) == Some(path@),
            None => forest_target(forest_view(old(nodes)@), file_path@) is None,
        },
        forest_view(final(nodes)@) == forest_with_cover(
            forest_view(old(nodes)@),
            file_path@,
            cover_bytes(cover),
        ),
    decreases forest_size(forest_view(old(nodes)@)), 1nat,
{
    let ghost kids = forest_view(nodes@);
    proof {
        lemma_forest_view(nodes@);
        lemma_forest_size(kids);
    }
    let mut i: usize = 0;
    while i < nodes.len()
        invariant
            i <= nodes@.len(),
            kids == forest_view(old(nodes)@),
            forest_view(nodes@) == kids,
            forall|j: int| 0 <= j < kids.len() ==> #[trigger] node_size(kids[j]) <= forest_size(kids),
            forest_target(kids.take(i as int), file_path@) is None,
        decreases nodes@.len() - i,
    {
        proof {
            lemma_forest_view(nodes@);
            lemma_forest_target_step(kids, i as int, file_path@);
        }
        let ghost child_before = nodes@[i as int];
        let ghost siblings_before = nodes@;
        assert(node_size(node_view(child_before)) <= forest_size(kids));
        let found = nodes[i].update_album_cover_for_file(file_path, share_cover(&cover));
        if let Some(found_path) = found {
            proof {
                lemma_forest_view_update(siblings_before, i as int, nodes@[i as int]);
                lemma_forest_first_target(kids, i as int, file_path@, cover_bytes(cover));
                assert(forest_view(nodes@) =~= forest_with_cover(kids, file_path@, cover_bytes(cover)));
            }
            return Some(found_path);
        }
        proof {
            lemma_no_target_unchanged(node_view(child_before), file_path@, cover_bytes(cover));
            lemma_forest_view_update(siblings_before, i as int, nodes@[i as int]);
            assert(forest_view(siblings_before).update(i as int, node_view(nodes@[i as int])) =~= kids);
        }
        i = i + 1;
    }
    proof {
        lemma_forest_view(nodes@);
    }
    assert(kids.take(nodes@.len() as int) =~= kids);
    proof {
        lemma_forest_no_target(kids, file_path@, cover_bytes(cover));
    }
    None
}

} // verus!
