//! The metadata tree: which parts of an image's metadata are shown, how they
//! nest, and which headers are forced open.

use vstd::prelude::*;

use crate::index::{
    self, flatten, row_matches, subtree_matches, ChunkPayload, MetaRow, PayloadModel, RowModel,
};
use crate::json::{self, Json, JsonTree};
use crate::lists;
use crate::model::{self, describes_file, human_size, ImageEntry, ParsedChunk};
use crate::text::{self, contains_text, join_path, lowercase, same_text, starts_with};

verus! {

// ---------------------------------------------------------------------------
// Headers
// ---------------------------------------------------------------------------

/// Whether `path` stands below `root`.
pub open spec fn below(path: Seq<char>, root: Seq<char>) -> bool {
    root.push('.').is_prefix_of(path)
}

/// Whether a jump opens a header: the target itself, what the target stands in,
/// and what stands in the target.
pub open spec fn opened_by(header: Seq<char>, target: Seq<char>) -> bool {
    header == target || below(target, header) || below(header, target)
}

/// True when `header_path` is the jump target itself, an ancestor of it (the
/// header must open to reveal the target), or a descendant (the target is a
/// node whose whole subtree should open).
pub fn jump_opens(header_path: &str, target: &str) -> (opens: bool)
    ensures
        opens == opened_by(header_path@, target@),
{
    if same_text(header_path, target) {
        return true;
    }
    let mut ancestor = header_path.to_owned();
    ancestor.push('.');
    let mut node = target.to_owned();
    node.push('.');
    starts_with(target, ancestor.as_str()) || starts_with(header_path, node.as_str())
}

/// The override for a header: a jump hit forces it open, otherwise the
/// expand/collapse-all override applies.
pub fn header_open_override(path: &str, jump: &Option<String>, force_open: Option<bool>) -> (open:
    Option<bool>)
    ensures
        open == (match *jump {
            Some(target) => if opened_by(path@, target@) {
                Some(true)
            } else {
                force_open
            },
            None => force_open,
        }),
{
    match jump {
        Some(target) => if jump_opens(path, target.as_str()) {
            Some(true)
        } else {
            force_open
        },
        None => force_open,
    }
}

/// A jump that opens a header opens every header above it that the target
/// stands in: what leads to the target opens all the way.
pub proof fn a_jump_opens_the_whole_way(outer: Seq<char>, inner: Seq<char>, target: Seq<char>)
    requires
        below(inner, outer),
        target == inner || below(target, inner),
    ensures
        opened_by(inner, target),
        opened_by(outer, target),
{
    if target != inner {
        assert forall|i: int| 0 <= i < outer.push('.').len() implies outer.push('.')[i]
            == target[i] by {
            assert(inner.push('.')[i] == target[i]);
        }
        assert(outer.push('.').is_prefix_of(target));
    }
}

// ---------------------------------------------------------------------------
// JSON
// ---------------------------------------------------------------------------

/// A leaf of the tree.
pub struct TreeLeaf {
    pub path: String,
    pub key: String,
    pub value: String,
    /// Whether a key pin can select it: not where it is the element of a list,
    /// whose shown key stands nowhere in the document.
    pub direct: bool,
}

/// A node of the tree.
pub enum TreeNode {
    /// Path, header and children.
    Branch(String, String, Vec<TreeNode>),
    Leaf(TreeLeaf),
}

/// A [`TreeNode`] as a mathematical value.
pub ghost enum NodeModel {
    Branch(Seq<char>, Seq<char>, Seq<NodeModel>),
    Leaf(Seq<char>, Seq<char>, Seq<char>, bool),
}

impl TreeNode {
    /// The node as a mathematical value.
    pub open spec fn model(self) -> NodeModel
        decreases self,
    {
        match self {
            TreeNode::Branch(path, header, children) => NodeModel::Branch(
                path@,
                header@,
                Seq::new(
                    children@.len(),
                    |i: int|
                        if 0 <= i < children@.len() {
                            children@[i].model()
                        } else {
                            NodeModel::Leaf(Seq::empty(), Seq::empty(), Seq::empty(), false)
                        },
                ),
            ),
            TreeNode::Leaf(leaf) => NodeModel::Leaf(
                leaf.path@,
                leaf.key@,
                leaf.value@,
                leaf.direct,
            ),
        }
    }
}

/// Nodes as mathematical values.
pub open spec fn node_models(nodes: Seq<TreeNode>) -> Seq<NodeModel> {
    nodes.map_values(|node: TreeNode| node.model())
}

/// Whether a part of a document is shown: always without a query, else where
/// some leaf in it answers.
pub open spec fn part_shown(path: Seq<char>, key: Seq<char>, tree: JsonTree, query: Seq<char>) -> bool {
    query.len() == 0 || index::any_hit(index::json_rows(path, key, tree, true), query)
}

/// The header of an object or list: its key and how many of its parts are shown.
pub open spec fn header(key: Seq<char>, open: Seq<char>, count: nat, close: Seq<char>) -> Seq<char> {
    key + open + text::decimal(count) + close
}

/// The key that a list element is shown with.
pub open spec fn element_key(key: Seq<char>, at: nat) -> Seq<char> {
    key.push('[') + text::decimal(at).push(']')
}

/// What is shown of a document found at `path`. Its rows have the key `key`,
/// and it is shown as `shown_key`, which differs for the elements of a list. The
/// chunk's own header wraps the outermost object, so that one has none.
pub open spec fn shown_nodes(
    path: Seq<char>,
    shown_key: Seq<char>,
    key: Seq<char>,
    tree: JsonTree,
    query: Seq<char>,
    outermost: bool,
    direct: bool,
) -> Seq<NodeModel>
    decreases tree, 0int, 0nat,
{
    match tree {
        JsonTree::Object(entries) => {
            let children = shown_entries(path, entries, query, entries.len());
            if outermost {
                children
            } else {
                seq![
                    NodeModel::Branch(
                        path,
                        header(shown_key, "  {"@, children.len(), "}"@),
                        children,
                    ),
                ]
            }
        },
        JsonTree::List(items) => {
            let children = shown_items(path, shown_key, key, items, query, items.len());
            seq![
                NodeModel::Branch(
                    path,
                    header(shown_key, "  ["@, children.len(), "]"@),
                    children,
                ),
            ]
        },
        leaf => seq![NodeModel::Leaf(path, shown_key, json::leaf_text(leaf), direct)],
    }
}

/// What is shown of an object's first `count` entries.
pub open spec fn shown_entries(
    path: Seq<char>,
    entries: Seq<(Seq<char>, JsonTree)>,
    query: Seq<char>,
    count: nat,
) -> Seq<NodeModel>
    decreases entries, 1int, count,
{
    if count == 0 || count > entries.len() {
        Seq::empty()
    } else {
        let entry = entries[count - 1];
        let child = text::dotted(path, entry.0);
        let before = shown_entries(path, entries, query, (count - 1) as nat);
        if part_shown(child, entry.0, entry.1, query) {
            before + shown_nodes(child, entry.0, entry.0, entry.1, query, false, true)
        } else {
            before
        }
    }
}

/// What is shown of a list's first `count` elements.
pub open spec fn shown_items(
    path: Seq<char>,
    shown_key: Seq<char>,
    key: Seq<char>,
    items: Seq<JsonTree>,
    query: Seq<char>,
    count: nat,
) -> Seq<NodeModel>
    decreases items, 1int, count,
{
    if count == 0 || count > items.len() {
        Seq::empty()
    } else {
        let at = (count - 1) as nat;
        let item = items[at as int];
        let child = text::dotted(path, text::decimal(at));
        let before = shown_items(path, shown_key, key, items, query, at);
        if part_shown(child, key, item, query) {
            before + shown_nodes(
                child,
                element_key(shown_key, at),
                key,
                item,
                query,
                false,
                false,
            )
        } else {
            before
        }
    }
}

fn is_shown(path: &str, key: &str, value: &Json, query: &str) -> (yes: bool)
    ensures
        yes == part_shown(path@, key@, value@, query@),
{
    query.is_empty() || subtree_matches(path, key, value, query)
}

fn header_text(key: &str, open: &str, count: usize, close: &str) -> (shown: String)
    ensures
        shown@ == header(key@, open@, count as nat, close@),
{
    let mut shown = key.to_owned();
    shown.append(open);
    text::push_decimal(&mut shown, count as u64);
    shown.append(close);
    shown
}

fn element_key_text(key: &str, at: usize) -> (shown: String)
    ensures
        shown@ == element_key(key@, at as nat),
{
    let mut shown = key.to_owned();
    shown.push('[');
    text::push_decimal(&mut shown, at as u64);
    shown.push(']');
    assert(shown@ =~= element_key(key@, at as nat));
    shown
}

proof fn more_nodes(a: Seq<TreeNode>, b: Seq<TreeNode>)
    ensures
        node_models(a + b) == node_models(a) + node_models(b),
{
    assert(node_models(a + b) =~= node_models(a) + node_models(b));
}

proof fn branch_model(path: String, header: String, children: Vec<TreeNode>)
    ensures
        TreeNode::Branch(path, header, children).model() == NodeModel::Branch(
            path@,
            header@,
            node_models(children@),
        ),
{
    let model = TreeNode::Branch(path, header, children).model();
    assert(model->Branch_2 =~= node_models(children@));
}

/// The nodes that the tree shows for a document found at `path`, which has the
/// name `key`.
pub fn json_tree(path: &str, key: &str, value: &Json, query: &str, outermost: bool) -> (nodes: Vec<
    TreeNode,
>)
    ensures
        node_models(nodes@) == shown_nodes(path@, key@, key@, value@, query@, outermost, true),
{
    document_nodes(path, key, key, value, query, outermost, true)
}

fn document_nodes(
    path: &str,
    shown_key: &str,
    key: &str,
    value: &Json,
    query: &str,
    outermost: bool,
    direct: bool,
) -> (nodes: Vec<TreeNode>)
    ensures
        node_models(nodes@) == shown_nodes(
            path@,
            shown_key@,
            key@,
            value@,
            query@,
            outermost,
            direct,
        ),
    decreases value,
{
    let ghost wanted = shown_nodes(path@, shown_key@, key@, value@, query@, outermost, direct);
    match value {
        Json::Object(entries) => {
            let ghost trees = value@->Object_0;
            let mut children: Vec<TreeNode> = Vec::new();
            assert(node_models(children@) =~= shown_entries(path@, trees, query@, 0));
            for i in 0..entries.len()
                invariant
                    *value == Json::Object(*entries),
                    value@ == JsonTree::Object(trees),
                    trees.len() == entries@.len(),
                    forall|j: int| 0 <= j < trees.len() ==> trees[j] == (
                        (#[trigger] entries@[j]).0@,
                        entries@[j].1@,
                    ),
                    node_models(children@) == shown_entries(path@, trees, query@, i as nat),
            {
                let child_key = entries[i].0.as_str();
                let child_path = join_path(path, child_key);
                assert(trees[i as int] == (entries@[i as int].0@, entries@[i as int].1@));
                if is_shown(child_path.as_str(), child_key, &entries[i].1, query) {
                    let mut nodes = document_nodes(
                        child_path.as_str(),
                        child_key,
                        child_key,
                        &entries[i].1,
                        query,
                        false,
                        true,
                    );
                    proof {
                        more_nodes(children@, nodes@);
                    }
                    children.append(&mut nodes);
                }
            }
            if outermost {
                return children;
            }
            let label = header_text(shown_key, "  {", children.len(), "}");
            let mut nodes: Vec<TreeNode> = Vec::new();
            let node_path = path.to_owned();
            proof {
                branch_model(node_path, label, children);
            }
            nodes.push(TreeNode::Branch(node_path, label, children));
            assert(node_models(nodes@) =~= wanted);
            nodes
        },
        Json::List(items) => {
            let ghost trees = value@->List_0;
            let mut children: Vec<TreeNode> = Vec::new();
            assert(node_models(children@) =~= shown_items(
                path@,
                shown_key@,
                key@,
                trees,
                query@,
                0,
            ));
            for i in 0..items.len()
                invariant
                    *value == Json::List(*items),
                    value@ == JsonTree::List(trees),
                    trees.len() == items@.len(),
                    forall|j: int| 0 <= j < trees.len() ==> trees[j] == (#[trigger] items@[j])@,
                    node_models(children@) == shown_items(
                        path@,
                        shown_key@,
                        key@,
                        trees,
                        query@,
                        i as nat,
                    ),
            {
                let child_path = join_path(path, text::decimal_text(i as u64).as_str());
                assert(trees[i as int] == items@[i as int]@);
                if is_shown(child_path.as_str(), key, &items[i], query) {
                    let child_key = element_key_text(shown_key, i);
                    let mut nodes = document_nodes(
                        child_path.as_str(),
                        child_key.as_str(),
                        key,
                        &items[i],
                        query,
                        false,
                        false,
                    );
                    proof {
                        more_nodes(children@, nodes@);
                    }
                    children.append(&mut nodes);
                }
            }
            let label = header_text(shown_key, "  [", children.len(), "]");
            let mut nodes: Vec<TreeNode> = Vec::new();
            let node_path = path.to_owned();
            proof {
                branch_model(node_path, label, children);
            }
            nodes.push(TreeNode::Branch(node_path, label, children));
            assert(node_models(nodes@) =~= wanted);
            nodes
        },
        leaf => {
            let node = TreeLeaf {
                path: path.to_owned(),
                key: shown_key.to_owned(),
                value: leaf.leaf(),
                direct,
            };
            let mut nodes: Vec<TreeNode> = Vec::new();
            nodes.push(TreeNode::Leaf(node));
            assert(node_models(nodes@) =~= wanted);
            nodes
        },
    }
}

// ---------------------------------------------------------------------------
// What the tree shows and what the search finds
// ---------------------------------------------------------------------------

/// Path and value of every leaf of a node, in order, and whether it is direct.
pub open spec fn leaves_of(node: NodeModel) -> Seq<(Seq<char>, Seq<char>, bool)>
    decreases node, 0int, 0nat,
{
    match node {
        NodeModel::Branch(_, _, children) => leaves_in(children, children.len()),
        NodeModel::Leaf(path, _, value, direct) => seq![(path, value, direct)],
    }
}

/// Path and value of every leaf of the first `count` nodes, in order, and
/// whether it is direct.
pub open spec fn leaves_in(nodes: Seq<NodeModel>, count: nat) -> Seq<(Seq<char>, Seq<char>, bool)>
    decreases nodes, 1int, count,
{
    if count == 0 || count > nodes.len() {
        Seq::empty()
    } else {
        leaves_in(nodes, (count - 1) as nat) + leaves_of(nodes[count - 1])
    }
}

/// Path and value of every row that a query finds, or of every row without one,
/// and whether it is direct.
pub open spec fn found(rows: Seq<RowModel>, query: Seq<char>) -> Seq<
    (Seq<char>, Seq<char>, bool),
> {
    lists::picked(
        rows,
        |row: RowModel| query.len() == 0 || index::row_hit(row, query),
    ).map_values(|row: RowModel| (row.path, row.value, row.is_direct))
}

proof fn leaves_prefix(a: Seq<NodeModel>, b: Seq<NodeModel>, count: nat)
    requires
        count <= a.len(),
    ensures
        leaves_in(a + b, count) == leaves_in(a, count),
    decreases count,
{
    if count > 0 {
        leaves_prefix(a, b, (count - 1) as nat);
        assert((a + b)[count - 1] == a[count - 1]);
    }
}

proof fn leaves_add_up(a: Seq<NodeModel>, b: Seq<NodeModel>, count: nat)
    requires
        count <= b.len(),
    ensures
        leaves_in(a + b, a.len() + count) == leaves_in(a, a.len()) + leaves_in(b, count),
    decreases count,
{
    if count == 0 {
        leaves_prefix(a, b, a.len());
        assert(leaves_in(a, a.len()) + leaves_in(b, 0) =~= leaves_in(a, a.len()));
    } else {
        leaves_add_up(a, b, (count - 1) as nat);
        assert((a + b)[a.len() + count - 1] == b[count - 1]);
        assert(leaves_in(a, a.len()) + (leaves_in(b, (count - 1) as nat) + leaves_of(b[count - 1]))
            =~= leaves_in(a, a.len()) + leaves_in(b, (count - 1) as nat) + leaves_of(
            b[count - 1],
        ));
    }
}

proof fn found_adds_up(a: Seq<RowModel>, b: Seq<RowModel>, query: Seq<char>)
    ensures
        found(a + b, query) == found(a, query) + found(b, query),
{
    let passes = |row: RowModel| query.len() == 0 || index::row_hit(row, query);
    lists::picked_adds_up(a, b, passes);
    assert(found(a + b, query) =~= found(a, query) + found(b, query));
}

proof fn nothing_found(rows: Seq<RowModel>, query: Seq<char>)
    requires
        query.len() > 0,
        !index::any_hit(rows, query),
    ensures
        found(rows, query) == Seq::<(Seq<char>, Seq<char>, bool)>::empty(),
{
    let passes = |row: RowModel| query.len() == 0 || index::row_hit(row, query);
    lists::picked_nothing(rows, passes);
    assert(found(rows, query) =~= Seq::empty());
}

proof fn one_found(row: RowModel, query: Seq<char>)
    requires
        query.len() == 0 || index::any_hit(seq![row], query),
    ensures
        found(seq![row], query) == seq![(row.path, row.value, row.is_direct)],
{
    let rows = seq![row];
    let passes = |row: RowModel| query.len() == 0 || index::row_hit(row, query);
    assert(rows.drop_last() =~= Seq::empty());
    assert(rows.last() == row);
    if query.len() > 0 {
        let i = choose|i: int| 0 <= i < rows.len() && index::row_hit(#[trigger] rows[i], query);
        assert(rows[i] == row);
    }
    assert(passes(row));
    assert(lists::picked(rows.drop_last(), passes) =~= Seq::<RowModel>::empty());
    assert(lists::picked(rows, passes) =~= seq![row]);
    assert(found(rows, query) =~= seq![(row.path, row.value, row.is_direct)]);
}

proof fn one_node(node: NodeModel)
    ensures
        leaves_in(seq![node], 1) == leaves_of(node),
{
    assert(leaves_in(seq![node], 0) + leaves_of(node) =~= leaves_of(node));
    assert(seq![node][0] == node);
}

proof fn nodes_show_what_is_found(
    path: Seq<char>,
    shown_key: Seq<char>,
    key: Seq<char>,
    tree: JsonTree,
    query: Seq<char>,
    outermost: bool,
    is_direct: bool,
)
    requires
        tree is Object || tree is List || part_shown(path, key, tree, query),
    ensures
        ({
            let nodes = shown_nodes(path, shown_key, key, tree, query, outermost, is_direct);
            leaves_in(nodes, nodes.len()) == found(
                index::json_rows(path, key, tree, is_direct),
                query,
            )
        }),
    decreases tree, 0int, 0nat,
{
    let nodes = shown_nodes(path, shown_key, key, tree, query, outermost, is_direct);
    match tree {
        JsonTree::Object(entries) => {
            entries_show_what_is_found(path, entries, query, entries.len());
            if !outermost {
                one_node(nodes[0]);
                assert(nodes =~= seq![nodes[0]]);
            }
        },
        JsonTree::List(items) => {
            items_show_what_is_found(path, shown_key, key, items, query, items.len());
            one_node(nodes[0]);
            assert(nodes =~= seq![nodes[0]]);
        },
        leaf => {
            let row = index::plain_row(path, key, json::leaf_text(leaf), is_direct);
            index::search_ignores_directness(path, key, tree, query);
            one_node(nodes[0]);
            assert(nodes =~= seq![nodes[0]]);
            assert(index::json_rows(path, key, tree, is_direct) == seq![row]);
            one_found(row, query);
        },
    }
}

proof fn entries_show_what_is_found(
    path: Seq<char>,
    entries: Seq<(Seq<char>, JsonTree)>,
    query: Seq<char>,
    count: nat,
)
    requires
        count <= entries.len(),
    ensures
        ({
            let nodes = shown_entries(path, entries, query, count);
            leaves_in(nodes, nodes.len()) == found(
                index::entry_rows(path, entries, count),
                query,
            )
        }),
    decreases entries, 1int, count,
{
    if count == 0 {
        assert(found(Seq::empty(), query) =~= Seq::empty());
    } else {
        let entry = entries[count - 1];
        let child = text::dotted(path, entry.0);
        let before = shown_entries(path, entries, query, (count - 1) as nat);
        let rows = index::entry_rows(path, entries, (count - 1) as nat);
        let more_rows = index::json_rows(child, entry.0, entry.1, true);
        entries_show_what_is_found(path, entries, query, (count - 1) as nat);
        found_adds_up(rows, more_rows, query);
        if part_shown(child, entry.0, entry.1, query) {
            let more = shown_nodes(child, entry.0, entry.0, entry.1, query, false, true);
            nodes_show_what_is_found(child, entry.0, entry.0, entry.1, query, false, true);
            leaves_add_up(before, more, more.len());
        } else {
            nothing_found(more_rows, query);
            assert(found(rows, query) + found(more_rows, query) =~= found(rows, query));
        }
    }
}

proof fn items_show_what_is_found(
    path: Seq<char>,
    shown_key: Seq<char>,
    key: Seq<char>,
    items: Seq<JsonTree>,
    query: Seq<char>,
    count: nat,
)
    requires
        count <= items.len(),
    ensures
        ({
            let nodes = shown_items(path, shown_key, key, items, query, count);
            leaves_in(nodes, nodes.len()) == found(
                index::item_rows(path, key, items, count),
                query,
            )
        }),
    decreases items, 1int, count,
{
    if count == 0 {
        assert(found(Seq::empty(), query) =~= Seq::empty());
    } else {
        let at = (count - 1) as nat;
        let item = items[at as int];
        let child = text::dotted(path, text::decimal(at));
        let before = shown_items(path, shown_key, key, items, query, at);
        let rows = index::item_rows(path, key, items, at);
        let more_rows = index::json_rows(child, key, item, false);
        items_show_what_is_found(path, shown_key, key, items, query, at);
        found_adds_up(rows, more_rows, query);
        index::search_ignores_directness(child, key, item, query);
        if part_shown(child, key, item, query) {
            let more = shown_nodes(
                child,
                element_key(shown_key, at),
                key,
                item,
                query,
                false,
                false,
            );
            nodes_show_what_is_found(
                child,
                element_key(shown_key, at),
                key,
                item,
                query,
                false,
                false,
            );
            leaves_add_up(before, more, more.len());
        } else {
            nothing_found(more_rows, query);
            assert(found(rows, query) + found(more_rows, query) =~= found(rows, query));
        }
    }
}

/// The tree pruned by a search shows exactly the values that the search finds,
/// in document order, and without a search it shows them all. A leaf is direct
/// exactly where its row is, so a key pin is offered where one can select it.
pub proof fn the_tree_shows_what_the_search_finds(
    keyword: Seq<char>,
    tree: JsonTree,
    query: Seq<char>,
)
    requires
        tree is Object || tree is List,
    ensures
        ({
            let nodes = shown_nodes(keyword, keyword, keyword, tree, query, true, true);
            leaves_in(nodes, nodes.len()) == found(
                index::flat_rows(keyword, PayloadModel::Json(tree)),
                query,
            )
        }),
{
    nodes_show_what_is_found(keyword, keyword, keyword, tree, query, true, true);
}

// ---------------------------------------------------------------------------
// A whole image
// ---------------------------------------------------------------------------

/// Whether a chunk answers a query: where some row of its own does.
pub open spec fn chunk_hit(chunk: model::ChunkModel, query: Seq<char>) -> bool {
    index::any_hit(index::flat_rows(chunk.keyword, chunk.payload), query)
}

/// True when any flattened row belonging to `chunk` matches the query.
pub fn chunk_matches(chunk: &ParsedChunk, query: &str) -> (hit: bool)
    ensures
        hit == chunk_hit(chunk@, query@),
{
    let keyword = chunk.keyword.as_str();
    match &chunk.payload {
        ChunkPayload::Json(value) => {
            let hit = subtree_matches(keyword, keyword, value, query);
            assert(hit == index::any_hit(
                index::json_rows(keyword@, keyword@, value@, true),
                query@,
            ));
            hit
        },
        ChunkPayload::Plain(_) => {
            let rows = flatten(keyword, &chunk.payload);
            let ghost models = index::row_models(rows@);
            for i in 0..rows.len()
                invariant
                    models == index::row_models(rows@),
                    index::all_valid(rows@),
                    models == index::flat_rows(chunk@.keyword, chunk@.payload),
                    forall|k: int| 0 <= k < i ==> !index::row_hit(#[trigger] models[k], query@),
            {
                assert(rows@[i as int].valid());
                assert(models[i as int] == rows@[i as int]@);
                if row_matches(&rows[i], query) {
                    assert(index::row_hit(models[i as int], query@));
                    return true;
                }
            }
            false
        },
    }
}

/// What a chunk's section holds.
pub enum SectionBody {
    Json(Vec<TreeNode>),
    Plain(String),
}

/// The section of one chunk.
pub struct ChunkSection {
    /// Which chunk of the image it is.
    pub chunk: usize,
    pub title: String,
    /// The query that prunes the section, empty where all of it is shown.
    pub query: String,
    pub body: SectionBody,
    /// Whether the view scrolls to the section's header.
    pub scroll: bool,
}

/// What a chunk's section holds, as a mathematical value.
pub ghost enum BodyModel {
    Json(Seq<NodeModel>),
    Plain(Seq<char>),
}

/// A [`ChunkSection`] as a mathematical value.
pub ghost struct SectionModel {
    pub chunk: int,
    pub title: Seq<char>,
    pub query: Seq<char>,
    pub body: BodyModel,
    pub scroll: bool,
}

impl View for ChunkSection {
    type V = SectionModel;

    open spec fn view(&self) -> SectionModel {
        SectionModel {
            chunk: self.chunk as int,
            title: self.title@,
            query: self.query@,
            body: match self.body {
                SectionBody::Json(nodes) => BodyModel::Json(node_models(nodes@)),
                SectionBody::Plain(body) => BodyModel::Plain(body@),
            },
            scroll: self.scroll,
        }
    }
}

/// Sections as mathematical values.
pub open spec fn section_models(sections: Seq<ChunkSection>) -> Seq<SectionModel> {
    sections.map_values(|section: ChunkSection| section@)
}

/// Whether a chunk's keyword answers a query, which shows the whole chunk.
pub open spec fn keyword_hit(keyword: Seq<char>, query: Seq<char>) -> bool {
    text::occurs_in(query, text::lowered(keyword))
}

/// Whether a chunk has a section.
pub open spec fn section_shown(chunk: model::ChunkModel, query: Seq<char>) -> bool {
    query.len() == 0 || keyword_hit(chunk.keyword, query) || chunk_hit(chunk, query)
}

/// Whether the view scrolls to a chunk's header. A plain chunk is one text, so
/// any jump inside it lands on the header; a JSON chunk scrolls at the inner row
/// instead.
pub open spec fn scrolls_to(chunk: model::ChunkModel, jump: Option<Seq<char>>) -> bool {
    match jump {
        Some(target) => target == chunk.keyword || (chunk.payload is Plain && opened_by(
            chunk.keyword,
            target,
        )),
        None => false,
    }
}

/// The section of a chunk that has one.
pub open spec fn section_of(
    at: int,
    chunk: model::ChunkModel,
    query: Seq<char>,
    jump: Option<Seq<char>>,
) -> SectionModel {
    let used = if query.len() > 0 && keyword_hit(chunk.keyword, query) {
        Seq::empty()
    } else {
        query
    };
    SectionModel {
        chunk: at,
        title: chunk.keyword + "  ("@ + model::shown_size(chunk.byte_len) + ")"@,
        query: used,
        body: match chunk.payload {
            PayloadModel::Json(tree) => BodyModel::Json(
                shown_nodes(chunk.keyword, chunk.keyword, chunk.keyword, tree, used, true, true),
            ),
            PayloadModel::Plain(body) => BodyModel::Plain(body),
        },
        scroll: scrolls_to(chunk, jump),
    }
}

/// The sections of the first `count` chunks.
pub open spec fn sections_of(
    chunks: Seq<model::ChunkModel>,
    query: Seq<char>,
    jump: Option<Seq<char>>,
    count: nat,
) -> Seq<SectionModel>
    decreases count,
{
    if count == 0 || count > chunks.len() {
        Seq::empty()
    } else {
        let before = sections_of(chunks, query, jump, (count - 1) as nat);
        let chunk = chunks[count - 1];
        if section_shown(chunk, query) {
            before.push(section_of(count - 1, chunk, query, jump))
        } else {
            before
        }
    }
}

/// A section shows what the search finds in its chunk: of a JSON chunk exactly
/// the values that the section's query finds, of a plain chunk its whole text,
/// some row of which the query finds. The section's query is the search itself,
/// but for a chunk whose keyword answers it, which is shown whole.
pub proof fn a_section_shows_what_the_search_finds(
    at: int,
    chunk: model::ChunkModel,
    query: Seq<char>,
    jump: Option<Seq<char>>,
)
    requires
        section_shown(chunk, query),
    ensures
        ({
            let section = section_of(at, chunk, query, jump);
            let rows = index::flat_rows(chunk.keyword, chunk.payload);
            &&& section.query == (if keyword_hit(chunk.keyword, query) {
                Seq::empty()
            } else {
                query
            })
            &&& section.query.len() == 0 || index::any_hit(rows, section.query)
            &&& match section.body {
                BodyModel::Json(nodes) => leaves_in(nodes, nodes.len()) == found(
                    rows,
                    section.query,
                ),
                BodyModel::Plain(body) => chunk.payload == PayloadModel::Plain(body),
            }
        }),
{
    let section = section_of(at, chunk, query, jump);
    if query.len() == 0 {
        assert(query =~= Seq::empty());
    }
    if let PayloadModel::Json(tree) = chunk.payload {
        nodes_show_what_is_found(
            chunk.keyword,
            chunk.keyword,
            chunk.keyword,
            tree,
            section.query,
            true,
            true,
        );
    }
}

/// A chunk has a section exactly where it is searched without a query, its
/// keyword answers, or a row of its own does; it has one section, and sections
/// stand in the order of their chunks.
pub proof fn each_answering_chunk_has_its_section(
    chunks: Seq<model::ChunkModel>,
    query: Seq<char>,
    jump: Option<Seq<char>>,
    count: nat,
)
    requires
        count <= chunks.len(),
    ensures
        ({
            let sections = sections_of(chunks, query, jump, count);
            &&& forall|i: int|
                0 <= i < sections.len() ==> {
                    let at = (#[trigger] sections[i]).chunk;
                    0 <= at < count && section_shown(chunks[at], query) && sections[i]
                        == section_of(at, chunks[at], query, jump)
                }
            &&& forall|i: int, j: int|
                0 <= i < j < sections.len() ==> (#[trigger] sections[i]).chunk < (
                #[trigger] sections[j]).chunk
            &&& forall|at: int|
                0 <= at < count && section_shown(#[trigger] chunks[at], query) ==> exists|i: int|
                    0 <= i < sections.len() && (#[trigger] sections[i]).chunk == at
        }),
    decreases count,
{
    if count > 0 {
        let before = sections_of(chunks, query, jump, (count - 1) as nat);
        let sections = sections_of(chunks, query, jump, count);
        each_answering_chunk_has_its_section(chunks, query, jump, (count - 1) as nat);
        assert forall|at: int|
            0 <= at < count && section_shown(#[trigger] chunks[at], query) implies exists|i: int|
            0 <= i < sections.len() && (#[trigger] sections[i]).chunk == at by {
            if at < count - 1 {
                let i = choose|i: int|
                    0 <= i < before.len() && (#[trigger] before[i]).chunk == at;
                assert(sections[i] == before[i]);
            } else {
                assert(sections[sections.len() - 1].chunk == at);
            }
        }
    }
}

/// Whether a row of the file is shown.
pub open spec fn file_row_shown(row: MetaRow, query: Seq<char>) -> bool {
    model::is_file_row(row) && (query.len() == 0 || index::row_answers(row, query))
}

/// What the tree says where it has nothing to show.
#[derive(Clone, Copy, PartialEq, Eq, Structural, Debug)]
pub enum TreeNote {
    NoTextChunks,
    NoMatches,
}

/// What the metadata tree of an image shows.
pub struct TreeView<'a> {
    pub file_rows: Vec<&'a MetaRow>,
    pub sections: Vec<ChunkSection>,
    pub note: Option<TreeNote>,
}

fn shown_file_rows<'a>(entry: &'a ImageEntry, query: &str) -> (found: Vec<&'a MetaRow>)
    ensures
        model::pointed_at(found@) == lists::picked(
            entry.rows@,
            |row: MetaRow| file_row_shown(row, query@),
        ),
{
    let ghost passes = |row: MetaRow| file_row_shown(row, query@);
    let mut found: Vec<&MetaRow> = Vec::new();
    assert(model::pointed_at(found@) =~= lists::picked(entry.rows@.take(0), passes));
    for i in 0..entry.rows.len()
        invariant
            passes == |row: MetaRow| file_row_shown(row, query@),
            model::pointed_at(found@) == lists::picked(entry.rows@.take(i as int), passes),
    {
        let ghost before = found@;
        let row = &entry.rows[i];
        if describes_file(row) && (query.is_empty() || row_matches(row, query)) {
            found.push(row);
            assert(model::pointed_at(found@) =~= model::pointed_at(before).push(*row));
        }
        proof {
            lists::picked_step(entry.rows@, passes, i as int);
        }
    }
    assert(entry.rows@.take(entry.rows@.len() as int) =~= entry.rows@);
    found
}

fn build_section(
    at: usize,
    chunk: &ParsedChunk,
    query: &str,
    keyword_answers: bool,
    jump: &Option<String>,
) -> (section: ChunkSection)
    requires
        keyword_answers == (query@.len() > 0 && keyword_hit(chunk.keyword@, query@)),
    ensures
        section@ == section_of(at as int, chunk@, query@, text::text_option(*jump)),
{
    let used = if keyword_answers {
        String::new()
    } else {
        query.to_owned()
    };
    assert(keyword_answers ==> used@ =~= Seq::empty());
    let mut title = chunk.keyword.clone();
    title.append("  (");
    title.append(human_size(chunk.byte_len as u64).as_str());
    title.append(")");
    let keyword = chunk.keyword.as_str();
    let body = match &chunk.payload {
        ChunkPayload::Json(value) => SectionBody::Json(
            json_tree(keyword, keyword, value, used.as_str(), true),
        ),
        ChunkPayload::Plain(body) => SectionBody::Plain(body.clone()),
    };
    let scroll = match jump {
        Some(target) => same_text(target.as_str(), keyword) || match &chunk.payload {
            ChunkPayload::Plain(_) => jump_opens(keyword, target.as_str()),
            ChunkPayload::Json(_) => false,
        },
        None => false,
    };
    ChunkSection { chunk: at, title, query: used, body, scroll }
}

/// What the metadata tree shows of an image. A search hit on a chunk's keyword
/// shows the whole chunk; otherwise a search prunes to matching parts and leaves
/// out chunks without a match.
pub fn metadata_tree<'a>(entry: &'a ImageEntry, query: &str, jump: &Option<String>) -> (view:
    TreeView<'a>)
    ensures
        model::pointed_at(view.file_rows@) == lists::picked(
            entry.rows@,
            |row: MetaRow| file_row_shown(row, query@),
        ),
        section_models(view.sections@) == sections_of(
            model::chunk_models(entry.chunks@),
            query@,
            text::text_option(*jump),
            entry.chunks@.len(),
        ),
        view.note == (if query@.len() == 0 {
            if entry.chunks@.len() == 0 {
                Some(TreeNote::NoTextChunks)
            } else {
                None
            }
        } else if view.file_rows@.len() == 0 && view.sections@.len() == 0 {
            Some(TreeNote::NoMatches)
        } else {
            None
        }),
{
    let ghost chunks = model::chunk_models(entry.chunks@);
    let ghost target = text::text_option(*jump);
    let searching = !query.is_empty();
    let file_rows = shown_file_rows(entry, query);
    let mut sections: Vec<ChunkSection> = Vec::new();
    assert(section_models(sections@) =~= Seq::empty());
    for i in 0..entry.chunks.len()
        invariant
            chunks == model::chunk_models(entry.chunks@),
            target == text::text_option(*jump),
            searching == (query@.len() > 0),
            section_models(sections@) == sections_of(
                chunks,
                query@,
                target,
                i as nat,
            ),
    {
        let chunk = &entry.chunks[i];
        assert(chunks[i as int] == chunk@);
        let keyword_answers = searching && contains_text(
            lowercase(chunk.keyword.as_str()).as_str(),
            query,
        );
        if !searching || keyword_answers || chunk_matches(chunk, query) {
            let ghost before = sections@;
            let section = build_section(i, chunk, query, keyword_answers, jump);
            sections.push(section);
            assert(section_models(sections@) =~= section_models(before).push(section@));
        }
    }
    let note = if !searching {
        if entry.chunks.len() == 0 {
            Some(TreeNote::NoTextChunks)
        } else {
            None
        }
    } else if file_rows.len() == 0 && sections.len() == 0 {
        Some(TreeNote::NoMatches)
    } else {
        None
    };
    TreeView { file_rows, sections, note }
}

// ---------------------------------------------------------------------------
// One leaf
// ---------------------------------------------------------------------------

/// What the pin of a leaf does, as its tooltip says.
pub fn pin_hint(is_titled_input: bool, direct: bool) -> (hint: &'static str)
    ensures
        hint@ == (if is_titled_input {
            "Left-click: pin/unpin by node title (survives workflow changes)\nRight-click: pin options"@
        } else if direct {
            "Left-click: pin/unpin key (all locations)\nRight-click: pin options"@
        } else {
            "Left-click: pin/unpin this exact location\nRight-click: pin options"@
        }),
{
    if is_titled_input {
        "Left-click: pin/unpin by node title (survives workflow changes)\nRight-click: pin options"
    } else if direct {
        "Left-click: pin/unpin key (all locations)\nRight-click: pin options"
    } else {
        "Left-click: pin/unpin this exact location\nRight-click: pin options"
    }
}

/// A menu entry that pins or unpins something named.
pub open spec fn pin_entry(
    pinned: bool,
    unpin: Seq<char>,
    pin: Seq<char>,
    name: Seq<char>,
    note: Seq<char>,
) -> Seq<char> {
    if pinned {
        unpin + name + "'"@
    } else {
        pin + name + "'"@ + note
    }
}

fn pin_entry_text(pinned: bool, unpin: &str, pin: &str, name: &str, note: &str) -> (entry: String)
    ensures
        entry@ == pin_entry(pinned, unpin@, pin@, name@, note@),
{
    let mut entry = if pinned {
        unpin.to_owned()
    } else {
        pin.to_owned()
    };
    entry.append(name);
    entry.append("'");
    if !pinned {
        entry.append(note);
    }
    entry
}

/// The menu entry that pins or unpins a key.
pub fn key_entry(pinned: bool, key: &str) -> (entry: String)
    ensures
        entry@ == pin_entry(pinned, "Unpin key '"@, "Pin key '"@, key@, "  (all locations)"@),
{
    pin_entry_text(pinned, "Unpin key '", "Pin key '", key, "  (all locations)")
}

/// The menu entry that pins or unpins a node title.
pub fn title_entry(pinned: bool, title: &str) -> (entry: String)
    ensures
        entry@ == pin_entry(
            pinned,
            "Unpin node title '"@,
            "Pin node title '"@,
            title@,
            "  (all workflows)"@,
        ),
{
    pin_entry_text(pinned, "Unpin node title '", "Pin node title '", title, "  (all workflows)")
}

/// The menu entry that pins or unpins an exact path.
pub fn path_entry(pinned: bool) -> (entry: &'static str)
    ensures
        entry@ == (if pinned {
            "Unpin this exact path"@
        } else {
            "Pin exact path  (this location only)"@
        }),
{
    if pinned {
        "Unpin this exact path"
    } else {
        "Pin exact path  (this location only)"
    }
}

/// What hovering over a leaf's value shows.
pub fn leaf_hover(path: &str, value: &str) -> (hover: String)
    ensures
        hover@ == path@ + "\n\n"@ + text::tooltip(value@) + "\n\n(click to copy)"@,
{
    let mut hover = path.to_owned();
    hover.append("\n\n");
    hover.append(text::tooltip_excerpt(value).as_str());
    hover.append("\n\n(click to copy)");
    hover
}

} // verus!
