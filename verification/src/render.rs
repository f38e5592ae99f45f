//! The Markdown renderer: a depth-first walk over the tree from its root,
//! dispatching on named roles, flattening inline text, and breaking cycles
//! with a per-render visited set.

use vstd::prelude::*;

use crate::chars::{append_str_chars, chars_to_string, str_to_chars};
use crate::text::{collapse_ws, spec_clean, spec_collapse};
use crate::tree::{
    spec_find_node, spec_find_root, spec_internal_role, spec_is_ignored, spec_named_role,
    first_id_from, first_root_from, strs_view, AxNode, AxTree, NodeV, PropertyValueContent,
    RoleValueContent, RoleValueV,
};

verus! {

broadcast use vstd::std_specs::vec::group_vec_axioms, vstd::seq::group_seq_axioms,
    vstd::set::group_set_axioms;

// ----------------------------------------------------------------------------
// Spec: property accessors
// ----------------------------------------------------------------------------

/// The string payload of the first property with the given name that carries
/// a string, from index `i` on.
pub open spec fn find_str_prop(ps: Seq<crate::tree::PropertyV>, name: Seq<char>, i: int) -> Option<
    Seq<char>,
>
    decreases ps.len() - i,
{
    if i < 0 || i >= ps.len() {
        None
    } else if ps[i].name == name && ps[i].value_type.value is Str {
        Some(ps[i].value_type.value->Str_0)
    } else {
        find_str_prop(ps, name, i + 1)
    }
}

/// The integer payload of the first property with the given name that
/// carries an integer, from index `i` on.
pub open spec fn find_int_prop(ps: Seq<crate::tree::PropertyV>, name: Seq<char>, i: int) -> Option<
    int,
>
    decreases ps.len() - i,
{
    if i < 0 || i >= ps.len() {
        None
    } else if ps[i].name == name && ps[i].value_type.value is Integer {
        Some(ps[i].value_type.value->Integer_0)
    } else {
        find_int_prop(ps, name, i + 1)
    }
}

/// The node's `url` property, if it carries a string.
pub open spec fn spec_url(n: NodeV) -> Option<Seq<char>> {
    match n.properties {
        Some(ps) => find_str_prop(ps, "url"@, 0),
        None => None,
    }
}

/// The node's `alt` property, or empty.
pub open spec fn spec_alt(n: NodeV) -> Seq<char> {
    match n.properties {
        Some(ps) => match find_str_prop(ps, "alt"@, 0) {
            Some(s) => s,
            None => Seq::empty(),
        },
        None => Seq::empty(),
    }
}

/// The node's `level` property, defaulting to 1 (for headings).
pub open spec fn spec_heading_level(n: NodeV) -> int {
    match n.properties {
        Some(ps) => match find_int_prop(ps, "level"@, 0) {
            Some(v) => v,
            None => 1,
        },
        None => 1,
    }
}

/// The node's `level` property, defaulting to 0 (for separators).
pub open spec fn spec_role_level(n: NodeV) -> int {
    match n.properties {
        Some(ps) => match find_int_prop(ps, "level"@, 0) {
            Some(v) => v,
            None => 0,
        },
        None => 0,
    }
}

// ----------------------------------------------------------------------------
// Spec: visited sets and the termination measure
// ----------------------------------------------------------------------------

/// The set behind a vector of visited ids.
pub open spec fn vset(v: Seq<String>) -> Set<Seq<char>> {
    strs_view(v).to_set()
}

/// All node ids of the tree.
pub open spec fn tree_ids(t: Seq<NodeV>) -> Set<Seq<char>> {
    t.map_values(|n: NodeV| n.node_id).to_set()
}

/// The tree ids not yet visited: the walk's termination measure.
pub open spec fn unvisited(t: Seq<NodeV>, visited: Set<Seq<char>>) -> Set<Seq<char>> {
    tree_ids(t).difference(visited)
}

/// Every node's id is a tree id.
pub proof fn lemma_tree_ids_contains(t: Seq<NodeV>, i: int)
    requires
        0 <= i < t.len(),
    ensures
        tree_ids(t).contains(t[i].node_id),
{
    let ids = t.map_values(|n: NodeV| n.node_id);
    assert(ids[i] == t[i].node_id);
    assert(ids.contains(ids[i]));
    assert(ids.to_set().contains(ids[i]));
}

/// The unvisited set is finite and no larger than the tree.
pub proof fn lemma_unvisited_finite(t: Seq<NodeV>, visited: Set<Seq<char>>)
    ensures
        unvisited(t, visited).finite(),
        unvisited(t, visited).len() <= t.len(),
{
    let ids = t.map_values(|n: NodeV| n.node_id);
    ids.lemma_cardinality_of_set();
    assert(unvisited(t, visited).subset_of(tree_ids(t)));
    vstd::set_lib::lemma_len_subset(unvisited(t, visited), tree_ids(t));
}

/// Visiting a fresh tree id strictly shrinks the unvisited set.
pub proof fn lemma_insert_shrinks(t: Seq<NodeV>, visited: Set<Seq<char>>, id: Seq<char>)
    requires
        tree_ids(t).contains(id),
        !visited.contains(id),
    ensures
        unvisited(t, visited.insert(id)).len() < unvisited(t, visited).len(),
{
    lemma_unvisited_finite(t, visited);
    lemma_unvisited_finite(t, visited.insert(id));
    assert(unvisited(t, visited.insert(id)) =~= unvisited(t, visited).remove(id));
    assert(unvisited(t, visited).contains(id));
}

/// Widening the visited set cannot grow the unvisited set.
pub proof fn lemma_union_mono(t: Seq<NodeV>, visited: Set<Seq<char>>, more: Set<Seq<char>>)
    ensures
        unvisited(t, visited.union(more)).len() <= unvisited(t, visited).len(),
{
    lemma_unvisited_finite(t, visited);
    assert(unvisited(t, visited.union(more)).subset_of(unvisited(t, visited)));
    vstd::set_lib::lemma_len_subset(unvisited(t, visited.union(more)), unvisited(t, visited));
}

/// The node's child id list, or empty.
pub open spec fn cids_of(n: NodeV) -> Seq<Seq<char>> {
    match n.child_ids {
        Some(c) => c,
        None => Seq::empty(),
    }
}

/// Whether the node is ignored and has a non-empty child list.
pub open spec fn ignored_with_children(n: NodeV) -> bool {
    spec_is_ignored(n) && (n.child_ids matches Some(c) && c.len() > 0)
}

// ----------------------------------------------------------------------------
// Spec: text extraction
// ----------------------------------------------------------------------------

/// Whether the node is a container of inline text: it has children and
/// every resolvable one has an inline-text effective role. A leaf is no
/// such container, so its own name is used as its text.
pub open spec fn only_text_children(t: Seq<NodeV>, n: NodeV) -> bool {
    &&& cids_of(n).len() > 0
    &&& forall|k: int|
        0 <= k < cids_of(n).len() ==> match spec_find_node(t, #[trigger] cids_of(n)[k]) {
            Some(j) => is_inline_text(t[j]),
            None => true,
        }
}

/// The child's effective internal role: the chrome role's numeric value
/// first, else the main role's.
pub open spec fn effective_internal(n: NodeV) -> Option<int> {
    match n.chrome_role {
        Some(cr) => match cr.value {
            RoleValueV::Internal(v) => Some(v),
            RoleValueV::Named(_) => spec_internal_role(n.role),
        },
        None => spec_internal_role(n.role),
    }
}

/// Whether the node contributes its name directly as inline text.
pub open spec fn is_inline_text(n: NodeV) -> bool {
    ||| effective_internal(n) == Some(158int)
    ||| effective_internal(n) == Some(101int)
    ||| spec_named_role(n.role) == Some("StaticText"@)
    ||| spec_named_role(n.role) == Some("InlineTextBox"@)
}

/// The node's own name text, or empty.
pub open spec fn name_value(n: NodeV) -> Seq<char> {
    match n.name {
        Some(nm) => nm.value,
        None => Seq::empty(),
    }
}

/// The flattened inline text of the node at index `i`: its own name when it
/// is not merely a container of inline-text children, then its children's
/// text, with whitespace collapsed. `path` holds the ids already on the
/// recursion path, so a cycle contributes nothing.
pub open spec fn text_node(t: Seq<NodeV>, i: int, path: Set<Seq<char>>) -> Seq<char>
    decreases unvisited(t, path).len(), 0int,
{
    if i < 0 || i >= t.len() {
        Seq::empty()
    } else {
        let n = t[i];
        if path.contains(n.node_id) {
            Seq::empty()
        } else {
            proof {
                lemma_tree_ids_contains(t, i);
                lemma_insert_shrinks(t, path, n.node_id);
            }
            let seed = match n.name {
                Some(nm) => if nm.value.len() > 0 && !only_text_children(t, n) {
                    nm.value
                } else {
                    Seq::<char>::empty()
                },
                None => Seq::<char>::empty(),
            };
            spec_collapse(seed + text_children(t, cids_of(n), 0, path.insert(n.node_id)))
        }
    }
}

/// The concatenated text of the children listed from index `k` on.
pub open spec fn text_children(t: Seq<NodeV>, ids: Seq<Seq<char>>, k: int, path: Set<Seq<char>>) -> Seq<
    char,
>
    decreases unvisited(t, path).len(), ids.len() - k + 1,
{
    if k < 0 || k >= ids.len() {
        Seq::empty()
    } else {
        let rest = text_children(t, ids, k + 1, path);
        match spec_find_node(t, ids[k]) {
            None => rest,
            Some(j) => {
                let c = t[j];
                if is_inline_text(c) {
                    name_value(c) + rest
                } else if !spec_is_ignored(c) {
                    text_node(t, j, path) + rest
                } else {
                    rest
                }
            },
        }
    }
}

// ----------------------------------------------------------------------------
// Spec: role dispatch
// ----------------------------------------------------------------------------

/// `n` hash marks.
pub open spec fn repeat_hash(n: int) -> Seq<char>
    decreases n,
{
    if n <= 0 {
        Seq::empty()
    } else {
        repeat_hash(n - 1) + seq!['#']
    }
}

/// The heading level clamped to the six Markdown levels.
pub open spec fn clamp_level(level: int) -> int {
    if level > 6 {
        6
    } else if level < 0 {
        0
    } else {
        level
    }
}

/// The lines a node emits, given its flattened text and whether the walk is
/// still at the top level (depth zero).
pub open spec fn emitted_lines(t: Seq<NodeV>, n: NodeV, text: Seq<char>, top: bool) -> Seq<
    Seq<char>,
> {
    match spec_named_role(n.role) {
        Some(role) => {
            if role == "RootWebArea"@ || role == "document"@ {
                Seq::empty()
            } else if role == "heading"@ {
                if text.len() > 0 {
                    seq![
                        repeat_hash(clamp_level(spec_heading_level(n))) + seq![' '] + text,
                        Seq::<char>::empty(),
                    ]
                } else {
                    Seq::empty()
                }
            } else if role == "link"@ {
                match spec_url(n) {
                    Some(url) => seq![seq!['['] + text + seq![']', '('] + url + seq![')']],
                    None => if text.len() > 0 {
                        seq![text]
                    } else {
                        Seq::empty()
                    },
                }
            } else if role == "button"@ {
                if text.len() > 0 {
                    seq![seq!['['] + text + seq![']', '('] + "button"@ + seq![')']]
                } else {
                    Seq::empty()
                }
            } else if role == "listItem"@ {
                if text.len() > 0 {
                    seq![seq!['-', ' '] + text]
                } else {
                    Seq::empty()
                }
            } else if role == "paragraph"@ {
                if text.len() > 0 {
                    seq![text, Seq::<char>::empty()]
                } else {
                    Seq::empty()
                }
            } else if role == "contentinfo"@ || role == "footer"@ {
                seq![Seq::<char>::empty(), "--- Footer ---"@]
            } else if role == "separator"@ {
                if spec_role_level(n) == 1 || top {
                    seq![Seq::<char>::empty(), "---"@]
                } else {
                    Seq::empty()
                }
            } else if role == "image"@ {
                if spec_alt(n).len() > 0 {
                    seq![
                        seq!['!', '['] + spec_alt(n) + seq![']', '('] + (match spec_url(n) {
                            Some(u) => u,
                            None => Seq::<char>::empty(),
                        }) + seq![')'],
                    ]
                } else {
                    Seq::empty()
                }
            } else {
                Seq::empty()
            }
        },
        None => Seq::empty(),
    }
}

/// Whether the node's children are walked at the same depth (the root and
/// document containers) or one deeper (everything else).
pub open spec fn keeps_depth(n: NodeV) -> bool {
    spec_named_role(n.role) == Some("RootWebArea"@) || spec_named_role(n.role) == Some(
        "document"@,
    )
}

/// Whether the node's text is consulted at all (it emits nothing otherwise,
/// so the walk need not flatten it).
pub open spec fn wants_text(n: NodeV) -> bool {
    match spec_named_role(n.role) {
        Some(role) => role == "heading"@ || role == "link"@ || role == "button"@ || role
            == "listItem"@ || role == "paragraph"@,
        None => false,
    }
}

// ----------------------------------------------------------------------------
// Spec: the walk
// ----------------------------------------------------------------------------

/// The walk over one node: the lines it and its subtree emit, and the
/// visited set afterwards. A node already visited emits nothing; an ignored
/// node with children is transparent; otherwise the node emits its own lines
/// and walks its children.
pub open spec fn render_node(t: Seq<NodeV>, i: int, visited: Set<Seq<char>>, top: bool) -> (
    Seq<Seq<char>>,
    Set<Seq<char>>,
)
    decreases unvisited(t, visited).len(), 0int,
{
    if i < 0 || i >= t.len() {
        (Seq::empty(), visited)
    } else {
        let n = t[i];
        if visited.contains(n.node_id) {
            (Seq::empty(), visited)
        } else {
            proof {
                lemma_tree_ids_contains(t, i);
                lemma_insert_shrinks(t, visited, n.node_id);
            }
            let v1 = visited.insert(n.node_id);
            if spec_is_ignored(n) {
                if ignored_with_children(n) {
                    render_children(t, cids_of(n), 0, v1, top)
                } else {
                    (Seq::<Seq<char>>::empty(), v1)
                }
            } else {
                let text = if wants_text(n) {
                    text_node(t, i, Set::empty())
                } else {
                    Seq::empty()
                };
                let emitted = emitted_lines(t, n, text, top);
                let ctop = if keeps_depth(n) {
                    top
                } else {
                    false
                };
                let (rest, v2) = render_children(t, cids_of(n), 0, v1, ctop);
                (emitted + rest, v2)
            }
        }
    }
}

/// The walk over the children listed from index `k` on.
pub open spec fn render_children(
    t: Seq<NodeV>,
    ids: Seq<Seq<char>>,
    k: int,
    visited: Set<Seq<char>>,
    top: bool,
) -> (Seq<Seq<char>>, Set<Seq<char>>)
    decreases unvisited(t, visited).len(), ids.len() - k + 1,
{
    if k < 0 || k >= ids.len() {
        (Seq::empty(), visited)
    } else {
        match spec_find_node(t, ids[k]) {
            None => render_children(t, ids, k + 1, visited, top),
            Some(j) => {
                let (l1, v1) = render_node(t, j, visited, top);
                let vnext = visited.union(v1);
                proof {
                    lemma_union_mono(t, visited, v1);
                }
                let (l2, v2) = render_children(t, ids, k + 1, vnext, top);
                (l1 + l2, v2)
            },
        }
    }
}

/// Lines joined with single newlines.
pub open spec fn join_nl(lines: Seq<Seq<char>>) -> Seq<char>
    decreases lines.len(),
{
    if lines.len() == 0 {
        Seq::empty()
    } else if lines.len() == 1 {
        lines[0]
    } else {
        lines[0] + seq!['\n'] + join_nl(lines.drop_first())
    }
}

/// What the renderer produces for a tree: nothing without a root, else the
/// root's walk joined with newlines and cleaned up.
pub open spec fn spec_render(t: Seq<NodeV>) -> Seq<char> {
    match spec_find_root(t) {
        None => Seq::empty(),
        Some(i) => spec_clean(join_nl(render_node(t, i, Set::empty(), true).0)),
    }
}


/// Pushing an id onto the visited vector inserts it into the visited set.
pub proof fn lemma_vset_push(v: Seq<String>, x: String)
    ensures
        vset(v.push(x)) == vset(v).insert(x@),
{
    let sv = strs_view(v);
    let sv2 = strs_view(v.push(x));
    assert(sv2 =~= sv.push(x@));
    assert forall|a: Seq<char>| sv.push(x@).contains(a) implies sv.to_set().insert(x@).contains(
        a,
    ) by {
        let k = choose|k: int| 0 <= k < sv.push(x@).len() && sv.push(x@)[k] == a;
        if k < sv.len() {
            assert(sv[k] == a);
            assert(sv.contains(a));
        }
    }
    assert forall|a: Seq<char>| sv.to_set().insert(x@).contains(a) implies sv.push(
        x@,
    ).contains(a) by {
        if a == x@ {
            assert(sv.push(x@)[sv.len() as int] == a);
        } else {
            let k = choose|k: int| 0 <= k < sv.len() && sv[k] == a;
            assert(sv.push(x@)[k] == a);
        }
    }
    assert(sv.push(x@).to_set() =~= sv.to_set().insert(x@));
}

// ----------------------------------------------------------------------------
// Executable renderer
// ----------------------------------------------------------------------------

/// Whether the id vector holds the given id.
fn vec_contains_id(v: &Vec<String>, id: &String) -> (r: bool)
    ensures
        r == vset(v@).contains(id@),
{
    let n = v.len();
    let mut i: usize = 0;
    while i < n
        invariant
            n == v.len(),
            i <= n,
            forall|k: int| 0 <= k < i ==> #[trigger] strs_view(v@)[k] != id@,
        decreases n - i,
    {
        proof {
            assert(strs_view(v@)[i as int] == v@[i as int]@);
        }
        if v[i] == *id {
            proof {
                assert(strs_view(v@).contains(id@));
            }
            return true;
        }
        i += 1;
    }
    proof {
        assert(!strs_view(v@).contains(id@));
    }
    false
}

/// The index of the first node with the given id, if any.
fn find_node_idx(tree: &AxTree, id: &String) -> (r: Option<usize>)
    ensures
        match r {
            Some(j) => spec_find_node(tree@, id@) == Some(j as int) && j < tree@.len(),
            None => spec_find_node(tree@, id@) is None,
        },
{
    let n = tree.nodes.len();
    let mut i: usize = 0;
    while i < n
        invariant
            n == tree.nodes.len(),
            i <= n,
            first_id_from(tree@, id@, 0) == first_id_from(tree@, id@, i as int),
        decreases n - i,
    {
        proof {
            assert(tree@[i as int] == tree.nodes@[i as int]@);
        }
        if tree.nodes[i].node_id == *id {
            return Some(i);
        }
        i += 1;
    }
    None
}

/// The index of the first root node, if any.
fn find_root_idx(tree: &AxTree) -> (r: Option<usize>)
    ensures
        match r {
            Some(j) => spec_find_root(tree@) == Some(j as int) && j < tree@.len(),
            None => spec_find_root(tree@) is None,
        },
{
    let root_name: String = "RootWebArea".to_owned();
    let n = tree.nodes.len();
    let mut i: usize = 0;
    while i < n
        invariant
            n == tree.nodes.len(),
            i <= n,
            root_name@ == "RootWebArea"@,
            first_root_from(tree@, 0) == first_root_from(tree@, i as int),
        decreases n - i,
    {
        proof {
            assert(tree@[i as int] == tree.nodes@[i as int]@);
        }
        let is_root = match &tree.nodes[i].role.value {
            RoleValueContent::Named(s) => *s == root_name,
            RoleValueContent::Internal(_) => false,
        };
        if is_root {
            return Some(i);
        }
        i += 1;
    }
    None
}

/// The first string payload among the node's properties under the given name.
fn find_str_property(node: &AxNode, name: &str) -> (r: Option<String>)
    ensures
        match node@.properties {
            Some(ps) => match r {
                Some(s) => find_str_prop(ps, name@, 0) == Some(s@),
                None => find_str_prop(ps, name@, 0) is None,
            },
            None => r is None,
        },
{
    let key: String = name.to_owned();
    match &node.properties {
        None => None,
        Some(props) => {
            let ghost ps = node@.properties->Some_0;
            proof {
                assert(ps.len() == props@.len());
            }
            let n = props.len();
            let mut i: usize = 0;
            while i < n
                invariant
                    n == props.len(),
                    i <= n,
                    key@ == name@,
                    node.properties matches Some(pv) && pv == *props,
                    node@.properties matches Some(psx) && psx == ps,
                    ps.len() == n,
                    find_str_prop(ps, name@, 0) == find_str_prop(ps, name@, i as int),
                decreases n - i,
            {
                proof {
                    assert(ps[i as int] == props@[i as int]@);
                }
                if props[i].name == key {
                    match &props[i].value_type.value {
                        PropertyValueContent::Str(s) => {
                            return Some(s.clone());
                        },
                        _ => {},
                    }
                }
                proof {
                    assert(find_str_prop(ps, name@, i as int) == find_str_prop(
                        ps,
                        name@,
                        i + 1,
                    ));
                }
                i += 1;
            }
            None
        },
    }
}

/// The first integer payload among the node's properties under the given
/// name.
fn find_int_property(node: &AxNode, name: &str) -> (r: Option<i64>)
    ensures
        match node@.properties {
            Some(ps) => match r {
                Some(v) => find_int_prop(ps, name@, 0) == Some(v as int),
                None => find_int_prop(ps, name@, 0) is None,
            },
            None => r is None,
        },
{
    let key: String = name.to_owned();
    match &node.properties {
        None => None,
        Some(props) => {
            let ghost ps = node@.properties->Some_0;
            let n = props.len();
            let mut i: usize = 0;
            while i < n
                invariant
                    n == props.len(),
                    i <= n,
                    key@ == name@,
                    node.properties matches Some(pv) && pv == *props,
                    node@.properties matches Some(psx) && psx == ps,
                    ps.len() == n,
                    find_int_prop(ps, name@, 0) == find_int_prop(ps, name@, i as int),
                decreases n - i,
            {
                proof {
                    assert(ps[i as int] == props@[i as int]@);
                }
                if props[i].name == key {
                    match &props[i].value_type.value {
                        PropertyValueContent::Integer(v) => {
                            return Some(*v);
                        },
                        _ => {},
                    }
                }
                proof {
                    assert(find_int_prop(ps, name@, i as int) == find_int_prop(
                        ps,
                        name@,
                        i + 1,
                    ));
                }
                i += 1;
            }
            None
        },
    }
}

/// The node's `url` property, if it carries a string.
pub fn get_url(node: &AxNode) -> (r: Option<String>)
    ensures
        match r {
            Some(s) => spec_url(node@) == Some(s@),
            None => spec_url(node@) is None,
        },
{
    find_str_property(node, "url")
}

/// The node's `alt` text, or empty.
pub fn get_alt_text(node: &AxNode) -> (r: String)
    ensures
        r@ == spec_alt(node@),
{
    match find_str_property(node, "alt") {
        Some(s) => s,
        None => String::new(),
    }
}

/// The node's heading level, defaulting to 1.
pub fn get_heading_level(node: &AxNode) -> (r: i64)
    ensures
        r as int == spec_heading_level(node@),
{
    match find_int_property(node, "level") {
        Some(v) => v,
        None => 1,
    }
}

/// The node's level for separators, defaulting to 0.
pub fn get_role_level(node: &AxNode) -> (r: i64)
    ensures
        r as int == spec_role_level(node@),
{
    match find_int_property(node, "level") {
        Some(v) => v,
        None => 0,
    }
}

/// Whether the node has children and every resolvable one has an
/// inline-text effective role.
fn has_only_static_text_children(tree: &AxTree, node: &AxNode) -> (r: bool)
    ensures
        r == only_text_children(tree@, node@),
{
    match &node.child_ids {
        None => {
            proof {
                assert(cids_of(node@).len() == 0);
            }
            false
        },
        Some(ids) => {
            let ghost cv = cids_of(node@);
            let n = ids.len();
            if n == 0 {
                return false;
            }
            let mut i: usize = 0;
            while i < n
                invariant
                    n == ids.len(),
                    i <= n,
                    node.child_ids matches Some(iv) && iv == *ids,
                    node@.child_ids matches Some(cx) && cx == cv,
                    cv.len() == n,
                    forall|k: int|
                        0 <= k < i ==> match spec_find_node(tree@, #[trigger] cv[k]) {
                            Some(j) => is_inline_text(tree@[j]),
                            None => true,
                        },
                decreases n - i,
            {
                proof {
                    assert(cv[i as int] == ids@[i as int]@);
                }
                match find_node_idx(tree, &ids[i]) {
                    None => {},
                    Some(j) => {
                        proof {
                            assert(tree@[j as int] == tree.nodes@[j as int]@);
                        }
                        let child = &tree.nodes[j];
                        let internal_val: Option<i64> = match &child.chrome_role {
                            Some(cr) => match &cr.value {
                                RoleValueContent::Internal(v) => Some(*v),
                                RoleValueContent::Named(_) => match &child.role.value {
                                    RoleValueContent::Internal(v) => Some(*v),
                                    RoleValueContent::Named(_) => None,
                                },
                            },
                            None => match &child.role.value {
                                RoleValueContent::Internal(v) => Some(*v),
                                RoleValueContent::Named(_) => None,
                            },
                        };
                        let named_text = match &child.role.value {
                            RoleValueContent::Named(s) => {
                                *s == "StaticText".to_owned() || *s == "InlineTextBox".to_owned()
                            },
                            RoleValueContent::Internal(_) => false,
                        };
                        let inline = match internal_val {
                            Some(v) => v == 158 || v == 101 || named_text,
                            None => named_text,
                        };
                        proof {
                            assert(inline == is_inline_text(tree@[j as int]));
                        }
                        if !inline {
                            return false;
                        }
                    },
                }
                i += 1;
            }
            true
        },
    }
}

/// The flattened inline text of the node at index `i`; `path` holds the ids
/// already on the recursion path, whose nodes contribute nothing again.
fn get_text_content(tree: &AxTree, i: usize, path: &Vec<String>) -> (r: String)
    requires
        i < tree.nodes@.len(),
    ensures
        r@ == text_node(tree@, i as int, vset(path@)),
    decreases unvisited(tree@, vset(path@)).len(), 0int,
{
    let ghost t = tree@;
    proof {
        assert(t[i as int] == tree.nodes@[i as int]@);
    }
    let node = &tree.nodes[i];
    if vec_contains_id(path, &node.node_id) {
        let r = String::new();
        return r;
    }
    let ghost m0 = unvisited(t, vset(path@)).len();
    let mut acc: Vec<char> = Vec::new();
    let use_name = match &node.name {
        Some(nm) => !nm.value.as_str().is_empty() && !has_only_static_text_children(
            tree,
            node,
        ),
        None => false,
    };
    if use_name {
        match &node.name {
            Some(nm) => {
                append_str_chars(&mut acc, nm.value.as_str());
            },
            None => {},
        }
    }
    let ghost seed = acc@;
    let mut path2: Vec<String> = Vec::new();
    let np = path.len();
    let mut q: usize = 0;
    while q < np
        invariant
            np == path.len(),
            q <= np,
            path2@ == path@.take(q as int),
        decreases np - q,
    {
        path2.push(path[q].clone());
        proof {
            assert(path@.take(q + 1) =~= path@.take(q as int).push(path@[q as int]));
        }
        q += 1;
    }
    proof {
        assert(path@.take(np as int) =~= path@);
        assert(path2@ =~= path@);
    }
    let ghost path_before = path2@;
    path2.push(node.node_id.clone());
    let ghost p2 = vset(path2@);
    proof {
        lemma_vset_push(path_before, node.node_id);
        assert(p2 == vset(path@).insert(t[i as int].node_id));
        lemma_tree_ids_contains(t, i as int);
        lemma_insert_shrinks(t, vset(path@), t[i as int].node_id);
    }
    match &node.child_ids {
        None => {
            proof {
                assert(cids_of(t[i as int]).len() == 0);
                assert(text_children(t, cids_of(t[i as int]), 0, p2) =~= Seq::<char>::empty());
                assert(seed + Seq::<char>::empty() =~= seed);
            }
        },
        Some(ids) => {
            let ghost cv = cids_of(t[i as int]);
            let n = ids.len();
            let mut k: usize = 0;
            proof {
                assert(cv.len() == n);
                assert(acc@ =~= seed + sub_text(t, cv, 0, p2));
            }
            while k < n
                invariant
                    n == ids.len(),
                    k <= n,
                    t == tree@,
                    i < tree.nodes@.len(),
                    *node == tree.nodes@[i as int],
                    node@ == t[i as int],
                    node.child_ids matches Some(iv) && iv == *ids,
                    t[i as int].child_ids matches Some(cx) && cx == cv,
                    cv.len() == n,
                    p2 == vset(path2@),
                    unvisited(t, p2).len() < m0,
                    m0 == unvisited(t, vset(path@)).len(),
                    acc@ == seed + sub_text(t, cv, k as int, p2),
                decreases n - k,
            {
                proof {
                    assert(cv[k as int] == ids@[k as int]@);
                }
                match find_node_idx(tree, &ids[k]) {
                    None => {
                        proof {
                            assert(child_text_at(t, cv, k as int, p2) =~= Seq::<char>::empty());
                            assert(acc@ =~= seed + sub_text(t, cv, k + 1, p2));
                        }
                    },
                    Some(j) => {
                        proof {
                            assert(t[j as int] == tree.nodes@[j as int]@);
                        }
                        let child = &tree.nodes[j];
                        let internal_val: Option<i64> = match &child.chrome_role {
                            Some(cr) => match &cr.value {
                                RoleValueContent::Internal(v) => Some(*v),
                                RoleValueContent::Named(_) => match &child.role.value {
                                    RoleValueContent::Internal(v) => Some(*v),
                                    RoleValueContent::Named(_) => None,
                                },
                            },
                            None => match &child.role.value {
                                RoleValueContent::Internal(v) => Some(*v),
                                RoleValueContent::Named(_) => None,
                            },
                        };
                        let named_text = match &child.role.value {
                            RoleValueContent::Named(s) => {
                                *s == "StaticText".to_owned() || *s == "InlineTextBox".to_owned()
                            },
                            RoleValueContent::Internal(_) => false,
                        };
                        let inline = match internal_val {
                            Some(v) => v == 158 || v == 101 || named_text,
                            None => named_text,
                        };
                        proof {
                            assert(inline == is_inline_text(t[j as int]));
                        }
                        if inline {
                            match &child.name {
                                Some(nm) => {
                                    append_str_chars(&mut acc, nm.value.as_str());
                                },
                                None => {},
                            }
                            proof {
                                assert(name_value(t[j as int]) == match t[j as int].name {
                                    Some(nm) => nm.value,
                                    None => Seq::<char>::empty(),
                                });
                                assert(acc@ =~= (seed + sub_text(t, cv, k as int, p2))
                                    + name_value(t[j as int]));
                            }
                        } else if !tree.is_ignored(child) {
                            let sub = get_text_content(tree, j, &path2);
                            append_str_chars(&mut acc, sub.as_str());
                        }
                        proof {
                            assert(acc@ =~= seed + sub_text(t, cv, k + 1, p2));
                        }
                    },
                }
                k += 1;
            }
            proof {
                lemma_sub_text_all(t, cv, p2);
            }
        },
    }
    let collapsed = collapse_ws(&acc);
    let r = chars_to_string(&collapsed);
    proof {
        assert(text_node(t, i as int, vset(path@)) == spec_collapse(
            seed + text_children(t, cids_of(t[i as int]), 0, p2),
        ));
    }
    r
}

/// The text one listed child contributes.
pub open spec fn child_text_at(t: Seq<NodeV>, ids: Seq<Seq<char>>, j: int, path: Set<Seq<char>>) -> Seq<
    char,
> {
    match spec_find_node(t, ids[j]) {
        None => Seq::<char>::empty(),
        Some(jj) => if is_inline_text(t[jj]) {
            name_value(t[jj])
        } else if !spec_is_ignored(t[jj]) {
            text_node(t, jj, path)
        } else {
            Seq::<char>::empty()
        },
    }
}

/// The text the children from index 0 up to `k` contribute.
pub open spec fn sub_text(t: Seq<NodeV>, ids: Seq<Seq<char>>, k: int, path: Set<Seq<char>>) -> Seq<
    char,
>
    decreases k,
{
    if k <= 0 {
        Seq::empty()
    } else {
        sub_text(t, ids, k - 1, path) + child_text_at(t, ids, k - 1, path)
    }
}

/// The accumulated prefix and the remaining tail together give the whole
/// child text.
proof fn lemma_sub_text_join(t: Seq<NodeV>, ids: Seq<Seq<char>>, k: int, path: Set<Seq<char>>)
    requires
        0 <= k <= ids.len(),
    ensures
        sub_text(t, ids, k, path) + text_children(t, ids, k, path) == text_children(
            t,
            ids,
            0,
            path,
        ),
    decreases k,
{
    if k == 0 {
        assert(sub_text(t, ids, 0, path) + text_children(t, ids, 0, path) =~= text_children(
            t,
            ids,
            0,
            path,
        ));
    } else {
        lemma_sub_text_join(t, ids, k - 1, path);
        assert(text_children(t, ids, k - 1, path) =~= child_text_at(t, ids, k - 1, path)
            + text_children(t, ids, k, path));
        assert(sub_text(t, ids, k, path) + text_children(t, ids, k, path) =~= sub_text(
            t,
            ids,
            k - 1,
            path,
        ) + text_children(t, ids, k - 1, path));
    }
}

/// Once every child is processed, the accumulated text is the whole child
/// text.
proof fn lemma_sub_text_all(t: Seq<NodeV>, ids: Seq<Seq<char>>, path: Set<Seq<char>>)
    ensures
        sub_text(t, ids, ids.len() as int, path) == text_children(t, ids, 0, path),
{
    lemma_sub_text_join(t, ids, ids.len() as int, path);
    assert(text_children(t, ids, ids.len() as int, path) =~= Seq::<char>::empty());
    assert(sub_text(t, ids, ids.len() as int, path) + Seq::<char>::empty() =~= sub_text(
        t,
        ids,
        ids.len() as int,
        path,
    ));
}


/// Visiting keeps every previously unvisited count bounded.
proof fn lemma_subset_unvisited(t: Seq<NodeV>, small: Set<Seq<char>>, big: Set<Seq<char>>)
    requires
        small.subset_of(big),
    ensures
        unvisited(t, big).len() <= unvisited(t, small).len(),
{
    lemma_unvisited_finite(t, small);
    assert(unvisited(t, big).subset_of(unvisited(t, small)));
    vstd::set_lib::lemma_len_subset(unvisited(t, big), unvisited(t, small));
}

/// The walk's per-render state: the ids already visited.
pub struct ConvertContext {
    visited: Vec<String>,
}

impl View for ConvertContext {
    type V = Seq<String>;

    closed spec fn view(&self) -> Seq<String> {
        self.visited@
    }
}

impl ConvertContext {
    /// A fresh context with nothing visited.
    pub fn new() -> (r: ConvertContext)
        ensures
            r@ == Seq::<String>::empty(),
    {
        let r = ConvertContext { visited: Vec::new() };
        proof {
            assert(r@ =~= Seq::<String>::empty());
        }
        r
    }
}

/// Pushes the line onto the output buffer.
fn push_line(result: &mut Vec<String>, line: Vec<char>)
    ensures
        strs_view(final(result)@) == strs_view(old(result)@).push(line@),
{
    let s = chars_to_string(&line);
    result.push(s);
    proof {
        assert(strs_view(result@) =~= strs_view(old(result)@).push(line@));
    }
}

/// Walks one node: emits its lines and recursively walks its children,
/// marking each node id visited at most once.
fn convert_node(tree: &AxTree, i: usize, ctx: &mut ConvertContext, top: bool, result: &mut Vec<
    String,
>)
    requires
        i < tree.nodes@.len(),
    ensures
        strs_view(final(result)@) == strs_view(old(result)@) + render_node(
            tree@,
            i as int,
            vset(old(ctx).visited@),
            top,
        ).0,
        vset(final(ctx).visited@) == render_node(tree@, i as int, vset(old(ctx).visited@), top).1,
        vset(old(ctx).visited@).subset_of(vset(final(ctx).visited@)),
    decreases unvisited(tree@, vset(ctx.visited@)).len(), 0int,
{
    let ghost t = tree@;
    let ghost ventry = vset(ctx.visited@);
    let ghost base = strs_view(result@);
    proof {
        assert(t[i as int] == tree.nodes@[i as int]@);
    }
    let node = &tree.nodes[i];
    if vec_contains_id(&ctx.visited, &node.node_id) {
        proof {
            assert(base + Seq::<Seq<char>>::empty() =~= base);
        }
        return ;
    }
    let ghost vbefore = ctx.visited@;
    ctx.visited.push(node.node_id.clone());
    proof {
        lemma_vset_push(vbefore, node.node_id);
        lemma_tree_ids_contains(t, i as int);
        lemma_insert_shrinks(t, ventry, t[i as int].node_id);
    }
    let ghost v1 = vset(ctx.visited@);
    let empty_ids: Vec<String> = Vec::new();
    let ignored = tree.is_ignored(node);
    let has_children = match &node.child_ids {
        Some(c) => c.len() > 0,
        None => false,
    };
    if ignored {
        if has_children {
            let ids = match &node.child_ids {
                Some(c) => c,
                None => &empty_ids,
            };
            proof {
                assert(strs_view(ids@) == cids_of(t[i as int]));
            }
            convert_children(tree, ids, ctx, top, result);
            proof {
                assert(ignored_with_children(t[i as int]));
            }
        } else {
            proof {
                assert(!ignored_with_children(t[i as int]));
                assert(base + Seq::<Seq<char>>::empty() =~= base);
            }
        }
        return ;
    }
    let named: Option<String> = match &node.role.value {
        RoleValueContent::Named(s) => Some(s.clone()),
        RoleValueContent::Internal(_) => None,
    };
    let mut ctop: bool = false;
    match &named {
        None => {
            proof {
                assert(emitted_lines(t, t[i as int], Seq::empty(), top) =~= Seq::<
                    Seq<char>,
                >::empty());
                assert(base + Seq::<Seq<char>>::empty() =~= base);
            }
        },
        Some(rn) => {
            if *rn == "RootWebArea".to_owned() || *rn == "document".to_owned() {
                ctop = top;
                proof {
                    assert(emitted_lines(t, t[i as int], Seq::empty(), top) =~= Seq::<
                        Seq<char>,
                    >::empty());
                    assert(base + Seq::<Seq<char>>::empty() =~= base);
                }
            } else if *rn == "heading".to_owned() {
                let text = get_text_content(tree, i, &empty_ids);
                proof {
                    assert(vset(empty_ids@) =~= Set::<Seq<char>>::empty());
                }
                if !text.as_str().is_empty() {
                    let lvl = get_heading_level(node);
                    let count: usize = if lvl > 6 {
                        6
                    } else if lvl < 0 {
                        0
                    } else {
                        lvl as usize
                    };
                    let mut line: Vec<char> = Vec::new();
                    let mut h: usize = 0;
                    while h < count
                        invariant
                            h <= count,
                            line@ == repeat_hash(h as int),
                        decreases count - h,
                    {
                        line.push('#');
                        proof {
                            assert(repeat_hash(h + 1) =~= repeat_hash(h as int) + seq!['#']);
                            assert(line@ =~= repeat_hash(h as int) + seq!['#']);
                        }
                        h += 1;
                    }
                    proof {
                        assert(count as int == clamp_level(spec_heading_level(t[i as int])));
                    }
                    line.push(' ');
                    append_str_chars(&mut line, text.as_str());
                    let ghost l1 = line@;
                    push_line(result, line);
                    let empty_line: Vec<char> = Vec::new();
                    push_line(result, empty_line);
                    proof {
                        assert(l1 =~= repeat_hash(clamp_level(spec_heading_level(t[i as int])))
                            + seq![' '] + text@);
                        assert(strs_view(result@) =~= base + seq![l1, Seq::<char>::empty()]);
                    }
                }
            } else if *rn == "link".to_owned() {
                let text = get_text_content(tree, i, &empty_ids);
                proof {
                    assert(vset(empty_ids@) =~= Set::<Seq<char>>::empty());
                }
                match get_url(node) {
                    Some(url) => {
                        let mut line: Vec<char> = Vec::new();
                        line.push('[');
                        append_str_chars(&mut line, text.as_str());
                        line.push(']');
                        line.push('(');
                        append_str_chars(&mut line, url.as_str());
                        line.push(')');
                        let ghost l1 = line@;
                        push_line(result, line);
                        proof {
                            assert(l1 =~= seq!['['] + text@ + seq![']', '('] + url@ + seq![')']);
                            assert(strs_view(result@) =~= base + seq![l1]);
                        }
                    },
                    None => {
                        if !text.as_str().is_empty() {
                            let line = str_to_chars(text.as_str());
                            let ghost l1 = line@;
                            push_line(result, line);
                            proof {
                                assert(strs_view(result@) =~= base + seq![l1]);
                            }
                        }
                    },
                }
            } else if *rn == "button".to_owned() {
                let text = get_text_content(tree, i, &empty_ids);
                proof {
                    assert(vset(empty_ids@) =~= Set::<Seq<char>>::empty());
                }
                if !text.as_str().is_empty() {
                    let mut line: Vec<char> = Vec::new();
                    line.push('[');
                    append_str_chars(&mut line, text.as_str());
                    line.push(']');
                    line.push('(');
                    append_str_chars(&mut line, "button");
                    line.push(')');
                    let ghost l1 = line@;
                    push_line(result, line);
                    proof {
                        assert(l1 =~= seq!['['] + text@ + seq![']', '('] + "button"@ + seq![
                            ')',
                        ]);
                        assert(strs_view(result@) =~= base + seq![l1]);
                    }
                }
            } else if *rn == "listItem".to_owned() {
                let text = get_text_content(tree, i, &empty_ids);
                proof {
                    assert(vset(empty_ids@) =~= Set::<Seq<char>>::empty());
                }
                if !text.as_str().is_empty() {
                    let mut line: Vec<char> = Vec::new();
                    line.push('-');
                    line.push(' ');
                    append_str_chars(&mut line, text.as_str());
                    let ghost l1 = line@;
                    push_line(result, line);
                    proof {
                        assert(l1 =~= seq!['-', ' '] + text@);
                        assert(strs_view(result@) =~= base + seq![l1]);
                    }
                }
            } else if *rn == "paragraph".to_owned() {
                let text = get_text_content(tree, i, &empty_ids);
                proof {
                    assert(vset(empty_ids@) =~= Set::<Seq<char>>::empty());
                }
                if !text.as_str().is_empty() {
                    let line = str_to_chars(text.as_str());
                    let ghost l1 = line@;
                    push_line(result, line);
                    let empty_line: Vec<char> = Vec::new();
                    push_line(result, empty_line);
                    proof {
                        assert(strs_view(result@) =~= base + seq![l1, Seq::<char>::empty()]);
                    }
                }
            } else if *rn == "contentinfo".to_owned() || *rn == "footer".to_owned() {
                let empty_line: Vec<char> = Vec::new();
                push_line(result, empty_line);
                let marker = str_to_chars("--- Footer ---");
                push_line(result, marker);
                proof {
                    assert(strs_view(result@) =~= base + seq![
                        Seq::<char>::empty(),
                        "--- Footer ---"@,
                    ]);
                }
            } else if *rn == "separator".to_owned() {
                let lvl = get_role_level(node);
                if lvl == 1 || top {
                    let empty_line: Vec<char> = Vec::new();
                    push_line(result, empty_line);
                    let rule = str_to_chars("---");
                    push_line(result, rule);
                    proof {
                        assert(strs_view(result@) =~= base + seq![Seq::<char>::empty(), "---"@]);
                    }
                }
            } else if *rn == "image".to_owned() {
                let alt = get_alt_text(node);
                if !alt.as_str().is_empty() {
                    let mut line: Vec<char> = Vec::new();
                    line.push('!');
                    line.push('[');
                    append_str_chars(&mut line, alt.as_str());
                    line.push(']');
                    line.push('(');
                    match get_url(node) {
                        Some(url) => {
                            append_str_chars(&mut line, url.as_str());
                        },
                        None => {},
                    }
                    line.push(')');
                    let ghost l1 = line@;
                    push_line(result, line);
                    proof {
                        assert(l1 =~= seq!['!', '['] + spec_alt(t[i as int]) + seq![']', '(']
                            + (match spec_url(t[i as int]) {
                            Some(u) => u,
                            None => Seq::<char>::empty(),
                        }) + seq![')']);
                        assert(strs_view(result@) =~= base + seq![l1]);
                    }
                }
            } else {
                proof {
                    assert(emitted_lines(t, t[i as int], Seq::empty(), top) =~= Seq::<
                        Seq<char>,
                    >::empty());
                    assert(base + Seq::<Seq<char>>::empty() =~= base);
                }
            }
        },
    }
    let ghost em = strs_view(result@).skip(base.len() as int);
    proof {
        assert(strs_view(result@) =~= base + em);
        let text_spec = if wants_text(t[i as int]) {
            text_node(t, i as int, Set::empty())
        } else {
            Seq::<char>::empty()
        };
        assert(em =~= emitted_lines(t, t[i as int], text_spec, top));
        assert(ctop == keeps_depth(t[i as int]) && top || !keeps_depth(t[i as int]) && ctop
            == false || ctop == (if keeps_depth(t[i as int]) {
            top
        } else {
            false
        }));
        assert(ctop == (if keeps_depth(t[i as int]) {
            top
        } else {
            false
        }));
    }
    let ids = match &node.child_ids {
        Some(c) => c,
        None => &empty_ids,
    };
    proof {
        assert(strs_view(ids@) == cids_of(t[i as int]));
    }
    convert_children(tree, ids, ctx, ctop, result);
    proof {
        assert(base + (em + render_children(t, cids_of(t[i as int]), 0, v1, ctop).0) =~= (base
            + em) + render_children(t, cids_of(t[i as int]), 0, v1, ctop).0);
    }
}

/// Walks each resolvable child in list order.
fn convert_children(
    tree: &AxTree,
    ids: &Vec<String>,
    ctx: &mut ConvertContext,
    top: bool,
    result: &mut Vec<String>,
)
    ensures
        strs_view(final(result)@) == strs_view(old(result)@) + render_children(
            tree@,
            strs_view(ids@),
            0,
            vset(old(ctx).visited@),
            top,
        ).0,
        vset(final(ctx).visited@) == render_children(
            tree@,
            strs_view(ids@),
            0,
            vset(old(ctx).visited@),
            top,
        ).1,
        vset(old(ctx).visited@).subset_of(vset(final(ctx).visited@)),
    decreases unvisited(tree@, vset(ctx.visited@)).len(), 1int,
{
    let ghost t = tree@;
    let ghost idsv = strs_view(ids@);
    let ghost v0 = vset(ctx.visited@);
    let ghost base = strs_view(result@);
    let ghost full = render_children(t, idsv, 0, v0, top);
    let ghost mut done: Seq<Seq<char>> = Seq::empty();
    proof {
        assert(base + done =~= base);
        assert(done + render_children(t, idsv, 0, v0, top).0 =~= render_children(
            t,
            idsv,
            0,
            v0,
            top,
        ).0);
    }
    let n = ids.len();
    let mut k: usize = 0;
    while k < n
        invariant
            n == ids.len(),
            k <= n,
            t == tree@,
            idsv == strs_view(ids@),
            idsv.len() == n,
            v0 == vset(old(ctx).visited@),
            v0.subset_of(vset(ctx.visited@)),
            unvisited(t, vset(ctx.visited@)).len() <= unvisited(t, v0).len(),
            strs_view(result@) == base + done,
            full == render_children(t, idsv, 0, v0, top),
            full.0 == done + render_children(t, idsv, k as int, vset(ctx.visited@), top).0,
            full.1 == render_children(t, idsv, k as int, vset(ctx.visited@), top).1,
        decreases n - k,
    {
        proof {
            assert(idsv[k as int] == ids@[k as int]@);
        }
        let ghost vcur = vset(ctx.visited@);
        match find_node_idx(tree, &ids[k]) {
            None => {
                proof {
                    assert(render_children(t, idsv, k as int, vcur, top) == render_children(
                        t,
                        idsv,
                        k + 1,
                        vcur,
                        top,
                    ));
                }
            },
            Some(j) => {
                proof {
                    lemma_subset_unvisited(t, v0, vcur);
                }
                let ghost rbefore = strs_view(result@);
                convert_node(tree, j, ctx, top, result);
                proof {
                    let l1 = render_node(t, j as int, vcur, top).0;
                    let vafter = render_node(t, j as int, vcur, top).1;
                    assert(vset(ctx.visited@) == vafter);
                    assert(vcur.union(vafter) =~= vafter);
                    assert(v0.subset_of(vafter));
                    lemma_subset_unvisited(t, v0, vafter);
                    assert(strs_view(result@) =~= (base + done) + l1);
                    assert(base + (done + l1) =~= (base + done) + l1);
                    done = done + l1;
                    assert(full.0 =~= done + render_children(
                        t,
                        idsv,
                        k + 1,
                        vafter,
                        top,
                    ).0);
                }
            },
        }
        k += 1;
    }
    proof {
        assert(render_children(t, idsv, k as int, vset(ctx.visited@), top).0 =~= Seq::<
            Seq<char>,
        >::empty());
        assert(done + Seq::<Seq<char>>::empty() =~= done);
    }
}

/// Joins the collected lines with single newlines.
fn join_lines(lines: &Vec<String>) -> (r: Vec<char>)
    ensures
        r@ == join_nl(strs_view(lines@)),
{
    let ghost lv = strs_view(lines@);
    let mut out: Vec<char> = Vec::new();
    let n = lines.len();
    let mut k: usize = 0;
    while k < n
        invariant
            n == lines.len(),
            k <= n,
            lv == strs_view(lines@),
            lv.len() == n,
            out@ == join_nl(lv.take(k as int)),
        decreases n - k,
    {
        proof {
            assert(lv[k as int] == lines@[k as int]@);
        }
        if k > 0 {
            out.push('\n');
        }
        append_str_chars(&mut out, lines[k].as_str());
        proof {
            lemma_join_push(lv.take(k as int), lv[k as int]);
            assert(lv.take(k + 1) =~= lv.take(k as int).push(lv[k as int]));
            if k > 0 {
                assert(out@ =~= join_nl(lv.take(k as int)) + seq!['\n'] + lv[k as int]);
            } else {
                assert(lv.take(0int) =~= Seq::<Seq<char>>::empty());
                assert(out@ =~= lv[0int]);
            }
        }
        k += 1;
    }
    proof {
        assert(lv.take(n as int) =~= lv);
    }
    out
}

/// Appending a line to a joined text appends a newline separator unless the
/// text was empty.
proof fn lemma_join_push(lines: Seq<Seq<char>>, x: Seq<char>)
    ensures
        lines.len() == 0 ==> join_nl(lines.push(x)) == x,
        lines.len() > 0 ==> join_nl(lines.push(x)) == join_nl(lines) + seq!['\n'] + x,
    decreases lines.len(),
{
    if lines.len() == 0 {
        assert(lines.push(x)[0] == x);
        assert(join_nl(lines.push(x)) == x);
    } else if lines.len() == 1 {
        assert(lines.push(x).drop_first() =~= seq![x]);
        assert(lines.push(x)[0] == lines[0]);
        assert(join_nl(seq![x]) == x);
    } else {
        assert(lines.push(x).drop_first() =~= lines.drop_first().push(x));
        assert(lines.push(x)[0] == lines[0]);
        lemma_join_push(lines.drop_first(), x);
        assert(lines[0] + seq!['\n'] + (join_nl(lines.drop_first()) + seq!['\n'] + x) =~= (
        lines[0] + seq!['\n'] + join_nl(lines.drop_first())) + seq!['\n'] + x);
    }
}

/// Renders the accessibility tree as Markdown: walks the tree from its root
/// (nothing without one), joins the collected lines, and cleans up the
/// whitespace.
pub fn axtree_to_markdown(axtree: &AxTree) -> (r: String)
    ensures
        r@ == spec_render(axtree@),
{
    let mut ctx = ConvertContext::new();
    let mut result: Vec<String> = Vec::new();
    match find_root_idx(axtree) {
        None => {
            let r = String::new();
            proof {
                assert(r@ =~= spec_render(axtree@));
            }
            r
        },
        Some(i) => {
            proof {
                assert(vset(ctx.visited@) =~= Set::<Seq<char>>::empty());
                assert(strs_view(result@) =~= Seq::<Seq<char>>::empty());
            }
            convert_node(axtree, i, &mut ctx, true, &mut result);
            proof {
                assert(strs_view(result@) =~= render_node(
                    axtree@,
                    i as int,
                    Set::empty(),
                    true,
                ).0);
            }
            let joined = join_lines(&result);
            let cleaned = crate::text::clean_chars(&joined);
            chars_to_string(&cleaned)
        },
    }
}

} // verus!
