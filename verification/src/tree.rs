//! The accessibility tree: node records, role tags, names, properties, and
//! the index operations (root discovery, lookup by id, ignore queries).

use vstd::prelude::*;

use crate::json::{Json, JsonV};

verus! {

broadcast use vstd::std_specs::vec::group_vec_axioms;

/// A role tag's value: an internal numeric role or a named role.
#[derive(Debug, PartialEq)]
pub enum RoleValueContent {
    Internal(i64),
    Named(String),
}

/// Role annotation of a node (the `role` field).
#[derive(Debug, PartialEq)]
pub struct Role {
    pub role_type: String,
    pub value: RoleValueContent,
}

/// Role annotation in the second dialect (the `chromeRole` field).
#[derive(Debug, PartialEq)]
pub struct ChromeRole {
    pub role_type: String,
    pub value: RoleValueContent,
}

/// A boolean wrapped in a typed envelope.
#[derive(Debug, PartialEq)]
pub struct ValueBool {
    pub value_type: String,
    pub value: bool,
}

/// One reason why a node is ignored.
#[derive(Debug, PartialEq)]
pub struct IgnoredReason {
    pub name: String,
    pub value_type: ValueBool,
}

/// A typed string value carried by a name source.
#[derive(Debug, PartialEq)]
pub struct SourceValue {
    pub value_type: String,
    pub value: String,
}

/// One source that contributed to a node's name. The `attribute` and `value`
/// fields are dropped while decoding and stay absent.
#[derive(Debug, PartialEq)]
pub struct NameSource {
    pub attribute: Option<String>,
    pub superseded: Option<bool>,
    pub source_type: String,
    pub value: Option<SourceValue>,
}

/// A node's computed name with its sources.
#[derive(Debug, PartialEq)]
pub struct Name {
    pub sources: Vec<NameSource>,
    pub name_type: String,
    pub value: String,
}

/// A nested boolean-or-undefined envelope.
#[derive(Debug, PartialEq)]
pub struct BooleanOrUndefined {
    pub value_type: String,
    pub value: bool,
}

/// The payload of a property value, one arm per recognized type token plus
/// a preserved-unknown arm.
#[derive(Debug, PartialEq)]
pub enum PropertyValueContent {
    Boolean(BooleanOrUndefined),
    SimpleBoolean(bool),
    Str(String),
    Integer(i64),
    Token(String),
    NodeList(Vec<String>),
    TokenList(Vec<String>),
    Unknown(Json),
}

/// A property value: the type token together with the payload.
#[derive(Debug, PartialEq)]
pub struct PropertyValue {
    pub value_type: String,
    pub value: PropertyValueContent,
}

/// A named property of a node.
#[derive(Debug, PartialEq)]
pub struct Property {
    pub name: String,
    pub value_type: PropertyValue,
}

/// A single node of the accessibility tree.
#[derive(Debug, PartialEq)]
pub struct AxNode {
    pub backend_dom_node_id: Option<i64>,
    pub child_ids: Option<Vec<String>>,
    pub chrome_role: Option<ChromeRole>,
    pub ignored: bool,
    pub ignored_reasons: Option<Vec<IgnoredReason>>,
    pub node_id: String,
    pub parent_id: Option<String>,
    pub role: Role,
    pub name: Option<Name>,
    pub properties: Option<Vec<Property>>,
}

/// The whole tree: an ordered sequence of nodes.
#[derive(Debug, PartialEq)]
pub struct AxTree {
    pub nodes: Vec<AxNode>,
}

// ----------------------------------------------------------------------------
// Views
// ----------------------------------------------------------------------------

#[verifier::ext_equal]
pub enum RoleValueV {
    Internal(int),
    Named(Seq<char>),
}

#[verifier::ext_equal]
pub struct RoleV {
    pub role_type: Seq<char>,
    pub value: RoleValueV,
}

#[verifier::ext_equal]
pub struct ValueBoolV {
    pub value_type: Seq<char>,
    pub value: bool,
}

#[verifier::ext_equal]
pub struct IgnoredReasonV {
    pub name: Seq<char>,
    pub value_type: ValueBoolV,
}

#[verifier::ext_equal]
pub struct SourceValueV {
    pub value_type: Seq<char>,
    pub value: Seq<char>,
}

#[verifier::ext_equal]
pub struct NameSourceV {
    pub attribute: Option<Seq<char>>,
    pub superseded: Option<bool>,
    pub source_type: Seq<char>,
    pub value: Option<SourceValueV>,
}

#[verifier::ext_equal]
pub struct NameV {
    pub sources: Seq<NameSourceV>,
    pub name_type: Seq<char>,
    pub value: Seq<char>,
}

#[verifier::ext_equal]
pub struct BooleanOrUndefinedV {
    pub value_type: Seq<char>,
    pub value: bool,
}

#[verifier::ext_equal]
pub enum ContentV {
    Boolean(BooleanOrUndefinedV),
    SimpleBoolean(bool),
    Str(Seq<char>),
    Integer(int),
    Token(Seq<char>),
    NodeList(Seq<Seq<char>>),
    TokenList(Seq<Seq<char>>),
    Unknown(JsonV),
}

#[verifier::ext_equal]
pub struct PropertyValueV {
    pub value_type: Seq<char>,
    pub value: ContentV,
}

#[verifier::ext_equal]
pub struct PropertyV {
    pub name: Seq<char>,
    pub value_type: PropertyValueV,
}

#[verifier::ext_equal]
pub struct NodeV {
    pub backend_dom_node_id: Option<int>,
    pub child_ids: Option<Seq<Seq<char>>>,
    pub chrome_role: Option<RoleV>,
    pub ignored: bool,
    pub ignored_reasons: Option<Seq<IgnoredReasonV>>,
    pub node_id: Seq<char>,
    pub parent_id: Option<Seq<char>>,
    pub role: RoleV,
    pub name: Option<NameV>,
    pub properties: Option<Seq<PropertyV>>,
}

/// View of an optional string.
pub open spec fn opt_str_view(o: Option<String>) -> Option<Seq<char>> {
    match o {
        Some(s) => Some(s@),
        None => None,
    }
}

/// View of a sequence of strings.
pub open spec fn strs_view(v: Seq<String>) -> Seq<Seq<char>> {
    Seq::new(v.len(), |i: int| v[i]@)
}

/// Pointwise view of a sequence of viewable values.
pub open spec fn views_of<T: View>(s: Seq<T>) -> Seq<T::V> {
    Seq::new(s.len(), |i: int| s[i]@)
}

impl View for RoleValueContent {
    type V = RoleValueV;

    open spec fn view(&self) -> RoleValueV {
        match self {
            RoleValueContent::Internal(i) => RoleValueV::Internal(*i as int),
            RoleValueContent::Named(s) => RoleValueV::Named(s@),
        }
    }
}

impl View for Role {
    type V = RoleV;

    open spec fn view(&self) -> RoleV {
        RoleV { role_type: self.role_type@, value: self.value@ }
    }
}

impl View for ChromeRole {
    type V = RoleV;

    open spec fn view(&self) -> RoleV {
        RoleV { role_type: self.role_type@, value: self.value@ }
    }
}

impl View for ValueBool {
    type V = ValueBoolV;

    open spec fn view(&self) -> ValueBoolV {
        ValueBoolV { value_type: self.value_type@, value: self.value }
    }
}

impl View for IgnoredReason {
    type V = IgnoredReasonV;

    open spec fn view(&self) -> IgnoredReasonV {
        IgnoredReasonV { name: self.name@, value_type: self.value_type@ }
    }
}

impl View for SourceValue {
    type V = SourceValueV;

    open spec fn view(&self) -> SourceValueV {
        SourceValueV { value_type: self.value_type@, value: self.value@ }
    }
}

impl View for NameSource {
    type V = NameSourceV;

    open spec fn view(&self) -> NameSourceV {
        NameSourceV {
            attribute: opt_str_view(self.attribute),
            superseded: self.superseded,
            source_type: self.source_type@,
            value: match self.value {
                Some(v) => Some(v@),
                None => None,
            },
        }
    }
}

impl View for Name {
    type V = NameV;

    open spec fn view(&self) -> NameV {
        NameV {
            sources: Seq::new(self.sources@.len(), |i: int| self.sources@[i]@),
            name_type: self.name_type@,
            value: self.value@,
        }
    }
}

impl View for BooleanOrUndefined {
    type V = BooleanOrUndefinedV;

    open spec fn view(&self) -> BooleanOrUndefinedV {
        BooleanOrUndefinedV { value_type: self.value_type@, value: self.value }
    }
}

impl View for PropertyValueContent {
    type V = ContentV;

    open spec fn view(&self) -> ContentV {
        match self {
            PropertyValueContent::Boolean(b) => ContentV::Boolean(b@),
            PropertyValueContent::SimpleBoolean(b) => ContentV::SimpleBoolean(*b),
            PropertyValueContent::Str(s) => ContentV::Str(s@),
            PropertyValueContent::Integer(i) => ContentV::Integer(*i as int),
            PropertyValueContent::Token(s) => ContentV::Token(s@),
            PropertyValueContent::NodeList(v) => ContentV::NodeList(strs_view(v@)),
            PropertyValueContent::TokenList(v) => ContentV::TokenList(strs_view(v@)),
            PropertyValueContent::Unknown(j) => ContentV::Unknown(j@),
        }
    }
}

impl View for PropertyValue {
    type V = PropertyValueV;

    open spec fn view(&self) -> PropertyValueV {
        PropertyValueV { value_type: self.value_type@, value: self.value@ }
    }
}

impl View for Property {
    type V = PropertyV;

    open spec fn view(&self) -> PropertyV {
        PropertyV { name: self.name@, value_type: self.value_type@ }
    }
}

impl View for AxNode {
    type V = NodeV;

    open spec fn view(&self) -> NodeV {
        NodeV {
            backend_dom_node_id: match self.backend_dom_node_id {
                Some(i) => Some(i as int),
                None => None,
            },
            child_ids: match self.child_ids {
                Some(v) => Some(strs_view(v@)),
                None => None,
            },
            chrome_role: match self.chrome_role {
                Some(r) => Some(r@),
                None => None,
            },
            ignored: self.ignored,
            ignored_reasons: match self.ignored_reasons {
                Some(v) => Some(Seq::new(v@.len(), |i: int| v@[i]@)),
                None => None,
            },
            node_id: self.node_id@,
            parent_id: opt_str_view(self.parent_id),
            role: self.role@,
            name: match self.name {
                Some(n) => Some(n@),
                None => None,
            },
            properties: match self.properties {
                Some(v) => Some(Seq::new(v@.len(), |i: int| v@[i]@)),
                None => None,
            },
        }
    }
}

impl View for AxTree {
    type V = Seq<NodeV>;

    open spec fn view(&self) -> Seq<NodeV> {
        Seq::new(self.nodes@.len(), |i: int| self.nodes@[i]@)
    }
}

// ----------------------------------------------------------------------------
// Spec-level index operations
// ----------------------------------------------------------------------------

/// Whether the node's role is the named root role.
pub open spec fn is_root_node(n: NodeV) -> bool {
    n.role.value == RoleValueV::Named("RootWebArea"@)
}

/// Index of the first node, at or after `i`, whose role is the root role.
pub open spec fn first_root_from(nodes: Seq<NodeV>, i: int) -> Option<int>
    decreases nodes.len() - i,
{
    if i < 0 || i >= nodes.len() {
        None
    } else if is_root_node(nodes[i]) {
        Some(i)
    } else {
        first_root_from(nodes, i + 1)
    }
}

/// Index of the first node with the root role, if any.
pub open spec fn spec_find_root(nodes: Seq<NodeV>) -> Option<int> {
    first_root_from(nodes, 0)
}

/// Index of the first node, at or after `i`, with the given id.
pub open spec fn first_id_from(nodes: Seq<NodeV>, id: Seq<char>, i: int) -> Option<int>
    decreases nodes.len() - i,
{
    if i < 0 || i >= nodes.len() {
        None
    } else if nodes[i].node_id == id {
        Some(i)
    } else {
        first_id_from(nodes, id, i + 1)
    }
}

/// Index of the first node with the given id, if any.
pub open spec fn spec_find_node(nodes: Seq<NodeV>, id: Seq<char>) -> Option<int> {
    first_id_from(nodes, id, 0)
}

/// Whether the node is ignored: either its flag is set, or some ignored
/// reason is named `uninteresting`.
pub open spec fn spec_is_ignored(n: NodeV) -> bool {
    n.ignored || match n.ignored_reasons {
        Some(reasons) => exists|k: int|
            0 <= k < reasons.len() && reasons[k].name == "uninteresting"@,
        None => false,
    }
}

/// The numeric role value, for an internal role tag.
pub open spec fn spec_internal_role(r: RoleV) -> Option<int> {
    match r.value {
        RoleValueV::Internal(v) => Some(v),
        RoleValueV::Named(_) => None,
    }
}

/// The role name, for a named role tag.
pub open spec fn spec_named_role(r: RoleV) -> Option<Seq<char>> {
    match r.value {
        RoleValueV::Named(s) => Some(s),
        RoleValueV::Internal(_) => None,
    }
}

/// The nodes whose parent id equals the argument, in declaration order.
pub open spec fn spec_children_of(t: Seq<NodeV>, pid: Seq<char>) -> Seq<NodeV> {
    t.filter(|n: NodeV| n.parent_id == Some(pid))
}

/// Appending one node extends the children of a parent by that node when it
/// names the parent, and by nothing otherwise.
pub proof fn lemma_children_of_push(t: Seq<NodeV>, x: NodeV, pid: Seq<char>)
    ensures
        spec_children_of(t.push(x), pid) == spec_children_of(t, pid) + (
            if x.parent_id == Some(pid) {
                seq![x]
            } else {
                Seq::<NodeV>::empty()
            }
        ),
{
    reveal_with_fuel(Seq::filter, 2);
    assert(t.push(x).drop_last() =~= t);
    assert(t.push(x).last() == x);
    if x.parent_id == Some(pid) {
        assert(spec_children_of(t, pid) + seq![x] =~= spec_children_of(t, pid).push(x));
    } else {
        assert(spec_children_of(t, pid) + Seq::<NodeV>::empty() =~= spec_children_of(t, pid));
    }
}

/// The distinct parent ids named by the first `i` nodes, in first-occurrence
/// order.
pub open spec fn parent_keys_upto(t: Seq<NodeV>, i: int) -> Seq<Seq<char>>
    decreases i,
{
    if i <= 0 {
        Seq::empty()
    } else {
        let prev = parent_keys_upto(t, i - 1);
        match t[i - 1].parent_id {
            Some(p) => if prev.contains(p) {
                prev
            } else {
                prev.push(p)
            },
            None => prev,
        }
    }
}

// ----------------------------------------------------------------------------
// Executable index operations
// ----------------------------------------------------------------------------

impl AxTree {
    /// The first node whose named role is `RootWebArea`, if any.
    pub fn find_root(&self) -> (r: Option<&AxNode>)
        ensures
            match r {
                Some(n) => {
                    &&& spec_find_root(self@) matches Some(i)
                    &&& 0 <= i < self@.len()
                    &&& n@ == self@[i]
                },
                None => spec_find_root(self@) is None,
            },
    {
        let root_name: String = "RootWebArea".to_owned();
        let n = self.nodes.len();
        for i in 0..n
            invariant
                n == self.nodes.len(),
                root_name@ == "RootWebArea"@,
                first_root_from(self@, 0) == first_root_from(self@, i as int),
        {
            let is_root = match &self.nodes[i].role.value {
                RoleValueContent::Named(s) => *s == root_name,
                RoleValueContent::Internal(_) => false,
            };
            proof {
                assert(self@[i as int] == self.nodes@[i as int]@);
            }
            if is_root {
                return Some(&self.nodes[i]);
            }
        }
        None
    }

    /// The first node with the given id, if any.
    pub fn find_node(&self, node_id: &String) -> (r: Option<&AxNode>)
        ensures
            match r {
                Some(n) => {
                    &&& spec_find_node(self@, node_id@) matches Some(i)
                    &&& 0 <= i < self@.len()
                    &&& n@ == self@[i]
                },
                None => spec_find_node(self@, node_id@) is None,
            },
    {
        let n = self.nodes.len();
        for i in 0..n
            invariant
                n == self.nodes.len(),
                first_id_from(self@, node_id@, 0) == first_id_from(self@, node_id@, i as int),
        {
            proof {
                assert(self@[i as int] == self.nodes@[i as int]@);
            }
            if self.nodes[i].node_id == *node_id {
                return Some(&self.nodes[i]);
            }
        }
        None
    }

    /// Whether the node counts as ignored: its flag is set, or one of its
    /// ignored reasons is named `uninteresting`.
    pub fn is_ignored(&self, node: &AxNode) -> (r: bool)
        ensures
            r == spec_is_ignored(node@),
    {
        if node.ignored {
            return true;
        }
        let needle: String = "uninteresting".to_owned();
        match &node.ignored_reasons {
            None => false,
            Some(reasons) => {
                proof {
                    assert(node.ignored_reasons matches Some(rv) && rv == *reasons);
                    assert(node@.ignored_reasons is Some);
                    let rs = node@.ignored_reasons->Some_0;
                    assert(rs.len() == reasons@.len());
                    assert(forall|k: int| 0 <= k < rs.len() ==> #[trigger] rs[k] == reasons@[k]@);
                }
                let n = reasons.len();
                for i in 0..n
                    invariant
                        n == reasons.len(),
                        needle@ == "uninteresting"@,
                        node.ignored_reasons matches Some(rv) && rv == *reasons,
                        node@.ignored_reasons matches Some(rs) && rs.len() == n,
                        forall|k: int|
                            0 <= k < i ==> #[trigger] (node@.ignored_reasons->Some_0[k]).name
                                != "uninteresting"@,
                {
                    proof {
                        assert(node@.ignored_reasons->Some_0[i as int] == reasons@[i as int]@);
                    }
                    if reasons[i].name == needle {
                        return true;
                    }
                }
                false
            },
        }
    }

    /// Whether the role tag holds an internal numeric role.
    pub fn is_internal_role(&self, role: &Role) -> (r: bool)
        ensures
            r == (spec_internal_role(role@) is Some),
    {
        match &role.value {
            RoleValueContent::Internal(_) => true,
            RoleValueContent::Named(_) => false,
        }
    }

    /// The numeric value of an internal role tag, if it is one.
    pub fn get_internal_role_value(&self, role: &Role) -> (r: Option<i64>)
        ensures
            match r {
                Some(v) => spec_internal_role(role@) == Some(v as int),
                None => spec_internal_role(role@) is None,
            },
    {
        match &role.value {
            RoleValueContent::Internal(v) => Some(*v),
            RoleValueContent::Named(_) => None,
        }
    }

    /// The name of a named role tag, if it is one.
    pub fn get_named_role_value(&self, role: &Role) -> (r: Option<String>)
        ensures
            match r {
                Some(v) => spec_named_role(role@) == Some(v@),
                None => spec_named_role(role@) is None,
            },
    {
        match &role.value {
            RoleValueContent::Named(v) => Some(v.clone()),
            RoleValueContent::Internal(_) => None,
        }
    }

    /// All nodes whose parent id equals the argument, in declaration order.
    pub fn get_children(&self, parent_id: &String) -> (r: Vec<&AxNode>)
        ensures
            views_of::<&AxNode>(r@) == spec_children_of(self@, parent_id@),
    {
        let mut out: Vec<&AxNode> = Vec::new();
        let n = self.nodes.len();
        proof {
            assert(self@.take(0) =~= Seq::<NodeV>::empty());
            assert(views_of::<&AxNode>(out@) =~= spec_children_of(self@.take(0), parent_id@))
                by {
                reveal_with_fuel(Seq::filter, 2);
            }
        }
        for i in 0..n
            invariant
                n == self.nodes.len(),
                views_of::<&AxNode>(out@) == spec_children_of(self@.take(i as int), parent_id@),
        {
            let ghost prefix = self@.take(i as int);
            proof {
                assert(self@[i as int] == self.nodes@[i as int]@);
                assert(self@.take(i + 1) =~= prefix.push(self@[i as int]));
                lemma_children_of_push(prefix, self@[i as int], parent_id@);
            }
            let matches_parent = match &self.nodes[i].parent_id {
                Some(p) => *p == *parent_id,
                None => false,
            };
            if matches_parent {
                let ghost before = out@;
                out.push(&self.nodes[i]);
                proof {
                    assert(views_of::<&AxNode>(out@) =~= views_of::<&AxNode>(before).push(
                        self@[i as int],
                    ));
                    assert(views_of::<&AxNode>(out@) =~= spec_children_of(prefix, parent_id@)
                        + seq![self@[i as int]]);
                }
            } else {
                proof {
                    assert(spec_children_of(prefix, parent_id@) + Seq::<NodeV>::empty()
                        =~= spec_children_of(prefix, parent_id@));
                }
            }
        }
        proof {
            assert(self@.take(n as int) =~= self@);
        }
        out
    }

    /// The children of every parent id that occurs, grouped under the parent
    /// ids in first-occurrence order.
    pub fn build_parent_map<'a>(&'a self) -> (r: Vec<(String, Vec<&'a AxNode>)>)
        ensures
            r@.len() == parent_keys_upto(self@, self@.len() as int).len(),
            forall|g: int|
                0 <= g < r@.len() ==> (#[trigger] r@[g]).0@ == parent_keys_upto(
                    self@,
                    self@.len() as int,
                )[g],
            forall|g: int|
                0 <= g < r@.len() ==> views_of::<&'a AxNode>((#[trigger] r@[g]).1@)
                    == spec_children_of(self@, r@[g].0@),
    {
        let mut out: Vec<(String, Vec<&AxNode>)> = Vec::new();
        let n = self.nodes.len();
        let mut i: usize = 0;
        while i < n
            invariant
                n == self.nodes@.len(),
                i <= n,
                out@.len() == parent_keys_upto(self@, i as int).len(),
                forall|g: int|
                    0 <= g < out@.len() ==> (#[trigger] out@[g]).0@ == parent_keys_upto(
                        self@,
                        i as int,
                    )[g],
                forall|g: int|
                    0 <= g < out@.len() ==> views_of::<&'a AxNode>((#[trigger] out@[g]).1@)
                        == spec_children_of(self@, out@[g].0@),
            decreases n - i,
        {
            let ghost keys = parent_keys_upto(self@, i as int);
            proof {
                assert(self@[i as int] == self.nodes@[i as int]@);
            }
            match &self.nodes[i].parent_id {
                None => {},
                Some(pid) => {
                    let m = out.len();
                    let mut g: usize = 0;
                    let mut found: bool = false;
                    while g < m && !found
                        invariant
                            m == out.len(),
                            g <= m,
                            keys.len() == m,
                            forall|h: int|
                                0 <= h < m ==> (#[trigger] out@[h]).0@ == keys[h],
                            found ==> keys.contains(pid@),
                            !found ==> forall|h: int| 0 <= h < g ==> keys[h] != pid@,
                        decreases m - g + (if found {
                            0int
                        } else {
                            1int
                        }),
                    {
                        if out[g].0 == *pid {
                            found = true;
                            proof {
                                assert(keys[g as int] == pid@);
                            }
                        } else {
                            g += 1;
                        }
                    }
                    if found {
                        proof {
                            assert(parent_keys_upto(self@, i + 1) == keys);
                        }
                    } else {
                        proof {
                            assert(!keys.contains(pid@)) by {
                                if keys.contains(pid@) {
                                    let h = choose|h: int|
                                        0 <= h < keys.len() && keys[h] == pid@;
                                    assert(keys[h] != pid@);
                                }
                            }
                            assert(parent_keys_upto(self@, i + 1) == keys.push(pid@));
                        }
                        let group = self.get_children(pid);
                        let ghost before = out@;
                        out.push((pid.clone(), group));
                        proof {
                            assert forall|gg: int|
                                0 <= gg < out@.len() implies (#[trigger] out@[gg]).0@
                                == parent_keys_upto(self@, i + 1)[gg] by {
                                if gg < before.len() {
                                    assert(out@[gg] == before[gg]);
                                }
                            }
                            assert forall|gg: int|
                                0 <= gg < out@.len() implies views_of::<&'a AxNode>(
                                (#[trigger] out@[gg]).1@) == spec_children_of(
                                self@,
                                out@[gg].0@,
                            ) by {
                                if gg < before.len() {
                                    assert(out@[gg] == before[gg]);
                                }
                            }
                        }
                    }
                },
            }
            proof {
                match self@[i as int].parent_id {
                    None => {
                        assert(parent_keys_upto(self@, i + 1) == keys);
                    },
                    Some(_) => {},
                }
            }
            i += 1;
        }
        out
    }
}

} // verus!
