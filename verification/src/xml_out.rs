//! Handing a GIR tree to `xot`, which turns it into an XML document.
//!
//! The `xot` arena is kept together with the nodes this library makes in it,
//! each known by a handle (a number); what those nodes hold is named
//! ([`xot_arena_contents`]) and the trusted calls into `xot` state what each
//! adds or changes.
use vstd::prelude::*;

use crate::gir::{
    has_c_names, lemma_elements_view, lib_to_gir, library_model, XmlAttributeModel, XmlElement, XmlElementModel,
    XmlNamespace,
};
use crate::model::Library;

verus! {

#[verifier::external_type_specification]
#[verifier::external_body]
pub struct ExXot(xot::Xot);

#[verifier::external_type_specification]
#[verifier::external_body]
pub struct ExXotNode(xot::Node);

#[verifier::external_type_specification]
#[verifier::external_body]
pub struct ExXotError(xot::Error);

/// The namespace URI of the GIR core namespace.
pub const CORE_NAMESPACE: &'static str = "http://www.gtk.org/introspection/core/1.0";

/// The namespace URI of the GIR C namespace.
pub const C_NAMESPACE: &'static str = "http://www.gtk.org/introspection/c/1.0";

/// The namespace URI of the GIR GLib namespace.
pub const GLIB_NAMESPACE: &'static str = "http://www.gtk.org/introspection/glib/1.0";

// ----------------------------------------------------------------------
// The arena
// ----------------------------------------------------------------------

/// A name in a `xot` arena: its namespace URI (empty for no namespace) and
/// its local name.
pub type XotNameModel = (Seq<char>, Seq<char>);

/// What a node made by this library holds in a `xot` arena.
pub ghost enum XotNodeModel {
    /// An element: its name; its namespace declarations (prefix, URI), in
    /// order; its attributes (name, value), in order; the handles of its
    /// element children, in order; the handle of its parent, if it has one.
    Element {
        name: XotNameModel,
        namespaces: Seq<(Seq<char>, Seq<char>)>,
        attributes: Seq<(XotNameModel, Seq<char>)>,
        children: Seq<nat>,
        parent: Option<nat>,
    },
    /// A document node: the handles of its children.
    Document { children: Seq<nat> },
}

/// A `xot` arena together with the nodes this library made in it; a node's
/// handle is its position in `nodes`.
pub struct XotArena {
    xot: xot::Xot,
    nodes: Vec<xot::Node>,
}

/// What the nodes made in an arena hold, by handle.
pub uninterp spec fn xot_arena_contents(a: XotArena) -> Map<nat, XotNodeModel>;

impl XotArena {
    /// How many nodes have been made in the arena.
    pub closed spec fn handles(&self) -> nat {
        self.nodes@.len()
    }

    /// The `xot` arena.
    pub closed spec fn arena(&self) -> xot::Xot {
        self.xot
    }

    /// The `xot` node with handle `h`.
    pub closed spec fn node(&self, h: nat) -> xot::Node {
        self.nodes@[h as int]
    }

    /// The `xot` arena and the node with handle `h`, where there is one.
    pub fn into_parts(self, h: usize) -> (r: Option<(xot::Xot, xot::Node)>)
        ensures
            r is Some <==> h < self.handles(),
            r matches Some((x, n)) ==> x == self.arena() && n == self.node(h as nat),
    {
        if h < self.nodes.len() {
            let n = self.nodes[h];
            Some((self.xot, n))
        } else {
            None
        }
    }
}

/// `entries` with `value` under `key`: an entry with that key keeps its place
/// and takes the value; otherwise the entry goes last.
pub open spec fn set_entry<K, V>(entries: Seq<(K, V)>, key: K, value: V) -> Seq<(K, V)> {
    if exists|i: int| 0 <= i < entries.len() && entries[i].0 == key {
        let i = choose|i: int| 0 <= i < entries.len() && entries[i].0 == key;
        entries.update(i, (key, value))
    } else {
        entries.push((key, value))
    }
}

/// An element node with its attributes replaced.
pub open spec fn with_attributes(n: XotNodeModel, attributes: Seq<(XotNameModel, Seq<char>)>) -> XotNodeModel {
    match n {
        XotNodeModel::Element { name, namespaces, children, parent, .. } => XotNodeModel::Element {
            name,
            namespaces,
            attributes,
            children,
            parent,
        },
        XotNodeModel::Document { .. } => n,
    }
}

/// An element node with its namespace declarations replaced.
pub open spec fn with_namespaces(n: XotNodeModel, namespaces: Seq<(Seq<char>, Seq<char>)>) -> XotNodeModel {
    match n {
        XotNodeModel::Element { name, attributes, children, parent, .. } => XotNodeModel::Element {
            name,
            namespaces,
            attributes,
            children,
            parent,
        },
        XotNodeModel::Document { .. } => n,
    }
}

/// An element node with its children replaced.
pub open spec fn with_children(n: XotNodeModel, children: Seq<nat>) -> XotNodeModel {
    match n {
        XotNodeModel::Element { name, namespaces, attributes, parent, .. } => XotNodeModel::Element {
            name,
            namespaces,
            attributes,
            children,
            parent,
        },
        XotNodeModel::Document { .. } => XotNodeModel::Document { children },
    }
}

/// An element node with its parent replaced.
pub open spec fn with_parent(n: XotNodeModel, parent: Option<nat>) -> XotNodeModel {
    match n {
        XotNodeModel::Element { name, namespaces, attributes, children, .. } => XotNodeModel::Element {
            name,
            namespaces,
            attributes,
            children,
            parent,
        },
        XotNodeModel::Document { .. } => n,
    }
}

/// Handle `h` is an element without a parent.
pub open spec fn is_root_element(c: Map<nat, XotNodeModel>, h: nat) -> bool {
    c.contains_key(h) && c[h] matches XotNodeModel::Element { parent: None, .. }
}

/// `Xot::new`: an empty arena, with no node made yet.
#[verifier::external_body]
fn arena_new() -> (r: XotArena)
    ensures
        r.handles() == 0,
        xot_arena_contents(r).dom() == Set::<nat>::empty(),
{
    XotArena { xot: xot::Xot::new(), nodes: Vec::new() }
}

/// `Xot::new_element`, with the name `local` in the namespace with URI
/// `namespace` (looked up with `add_namespace` and `add_name_ns`): a new
/// element without attributes, namespace declarations, children or parent,
/// under the next handle.
#[verifier::external_body]
fn arena_new_element(a: &mut XotArena, namespace: &str, local: &str) -> (h: usize)
    ensures
        h == old(a).handles(),
        final(a).handles() == h + 1,
        xot_arena_contents(*final(a)) == xot_arena_contents(*old(a)).insert(
            h as nat,
            XotNodeModel::Element {
                name: (namespace@, local@),
                namespaces: Seq::empty(),
                attributes: Seq::empty(),
                children: Seq::empty(),
                parent: None,
            },
        ),
{
    let ns = a.xot.add_namespace(namespace);
    let name = a.xot.add_name_ns(local, ns);
    let node = a.xot.new_element(name);
    let h = a.nodes.len();
    a.nodes.push(node);
    h
}

/// `Xot::set_attribute` on the element with handle `h`, with the name
/// `local` in the namespace with URI `namespace` (empty for none): an
/// attribute of that name takes the value in its place; otherwise the
/// attribute goes last.
#[verifier::external_body]
fn arena_set_attribute(a: &mut XotArena, h: usize, namespace: &str, local: &str, value: &str)
    requires
        h < old(a).handles(),
        xot_arena_contents(*old(a)).contains_key(h as nat),
        xot_arena_contents(*old(a))[h as nat] is Element,
    ensures
        final(a).handles() == old(a).handles(),
        xot_arena_contents(*final(a)) == xot_arena_contents(*old(a)).insert(
            h as nat,
            with_attributes(
                xot_arena_contents(*old(a))[h as nat],
                set_entry(
                    xot_arena_contents(*old(a))[h as nat]->Element_attributes,
                    (namespace@, local@),
                    value@,
                ),
            ),
        ),
{
    let ns = a.xot.add_namespace(namespace);
    let name = a.xot.add_name_ns(local, ns);
    a.xot.set_attribute(a.nodes[h], name, value)
}

/// `Xot::set_namespace` on the element with handle `h`: declares `prefix`
/// (empty for the default namespace) for the namespace with URI `namespace`.
/// A declaration of that prefix takes the URI in its place; otherwise the
/// declaration goes last.
#[verifier::external_body]
fn arena_set_namespace(a: &mut XotArena, h: usize, prefix: &str, namespace: &str)
    requires
        h < old(a).handles(),
        xot_arena_contents(*old(a)).contains_key(h as nat),
        xot_arena_contents(*old(a))[h as nat] is Element,
    ensures
        final(a).handles() == old(a).handles(),
        xot_arena_contents(*final(a)) == xot_arena_contents(*old(a)).insert(
            h as nat,
            with_namespaces(
                xot_arena_contents(*old(a))[h as nat],
                set_entry(xot_arena_contents(*old(a))[h as nat]->Element_namespaces, prefix@, namespace@),
            ),
        ),
{
    let p = a.xot.add_prefix(prefix);
    let ns = a.xot.add_namespace(namespace);
    a.xot.set_namespace(a.nodes[h], p, ns)
}

/// `Xot::append`: appends the element `child`, which has no parent, as the
/// last child of the element `parent`, which has none either. This succeeds.
#[verifier::external_body]
fn arena_append(a: &mut XotArena, parent: usize, child: usize) -> (r: Result<(), xot::Error>)
    requires
        parent < old(a).handles(),
        child < old(a).handles(),
        parent != child,
        is_root_element(xot_arena_contents(*old(a)), parent as nat),
        is_root_element(xot_arena_contents(*old(a)), child as nat),
    ensures
        r is Ok,
        final(a).handles() == old(a).handles(),
        xot_arena_contents(*final(a)) == xot_arena_contents(*old(a)).insert(
            parent as nat,
            with_children(
                xot_arena_contents(*old(a))[parent as nat],
                xot_arena_contents(*old(a))[parent as nat]->Element_children.push(child as nat),
            ),
        ).insert(child as nat, with_parent(xot_arena_contents(*old(a))[child as nat], Some(parent as nat))),
{
    a.xot.append(a.nodes[parent], a.nodes[child])
}

/// `Xot::new_document_with_element`: a new document node, under the next
/// handle, whose only child is the element `h`, which had no parent. This
/// succeeds.
#[verifier::external_body]
fn arena_new_document(a: &mut XotArena, h: usize) -> (r: Result<usize, xot::Error>)
    requires
        h < old(a).handles(),
        is_root_element(xot_arena_contents(*old(a)), h as nat),
    ensures
        r matches Ok(d) && d == old(a).handles(),
        final(a).handles() == old(a).handles() + 1,
        xot_arena_contents(*final(a)) == xot_arena_contents(*old(a)).insert(
            h as nat,
            with_parent(xot_arena_contents(*old(a))[h as nat], Some(old(a).handles())),
        ).insert(old(a).handles(), XotNodeModel::Document { children: seq![h as nat] }),
{
    match a.xot.new_document_with_element(a.nodes[h]) {
        Ok(doc) => {
            let d = a.nodes.len();
            a.nodes.push(doc);
            Ok(d)
        },
        Err(e) => Err(e),
    }
}

// ----------------------------------------------------------------------
// Trees in the arena
// ----------------------------------------------------------------------

/// The namespace URI of an attribute's namespace (empty for none).
pub open spec fn namespace_uri(ns: Option<XmlNamespace>) -> Seq<char> {
    match ns {
        None => Seq::empty(),
        Some(XmlNamespace::Core) => CORE_NAMESPACE@,
        Some(XmlNamespace::C) => C_NAMESPACE@,
        Some(XmlNamespace::GLib) => GLIB_NAMESPACE@,
    }
}

/// The attributes of an element after setting those of a tree in order.
pub open spec fn attributes_set(s: Seq<XmlAttributeModel>) -> Seq<(XotNameModel, Seq<char>)>
    decreases s.len(),
{
    if s.len() == 0 {
        Seq::empty()
    } else {
        set_entry(
            attributes_set(s.drop_last()),
            (namespace_uri(s.last().namespace), s.last().name),
            s.last().value,
        )
    }
}

/// The element with handle `h` holds the tree `e`: its name in the core
/// namespace, its attributes set in order, the namespace declarations
/// `decls`, and children that hold the children of `e`, in order, without
/// declarations. Every node of it has a handle from `h` up to `hi`, each
/// child's above `h`.
pub open spec fn holds_tree(
    c: Map<nat, XotNodeModel>,
    h: nat,
    e: XmlElementModel,
    hi: nat,
    decls: Seq<(Seq<char>, Seq<char>)>,
) -> bool
    decreases e,
{
    &&& h < hi
    &&& c.contains_key(h)
    &&& c[h] is Element
    &&& c[h]->Element_name == (CORE_NAMESPACE@, e.name)
    &&& c[h]->Element_namespaces == decls
    &&& c[h]->Element_attributes == attributes_set(e.attributes)
    &&& c[h]->Element_children.len() == e.children.len()
    &&& forall|i: int|
        0 <= i < e.children.len() ==> h < #[trigger] c[h]->Element_children[i] && holds_tree(
            c,
            c[h]->Element_children[i],
            e.children[i],
            hi,
            Seq::empty(),
        )
}

/// Two nodes that are the same but perhaps for their parent.
pub open spec fn same_but_parent(m: XotNodeModel, n: XotNodeModel) -> bool {
    with_parent(m, None) == with_parent(n, None)
}

/// A tree held in the arena stays held where the nodes from `lo` (at most
/// its root) up to `hi` stay the same but perhaps for their parents.
proof fn lemma_holds_tree_frame(
    c: Map<nat, XotNodeModel>,
    c2: Map<nat, XotNodeModel>,
    h: nat,
    e: XmlElementModel,
    lo: nat,
    hi: nat,
    decls: Seq<(Seq<char>, Seq<char>)>,
)
    requires
        holds_tree(c, h, e, hi, decls),
        lo <= h,
        forall|k: nat|
            lo <= k < hi && #[trigger] c.contains_key(k) ==> c2.contains_key(k) && same_but_parent(
                c[k],
                c2[k],
            ),
    ensures
        holds_tree(c2, h, e, hi, decls),
    decreases e,
{
    assert(same_but_parent(c[h], c2[h]));
    assert forall|i: int| 0 <= i < e.children.len() implies h < #[trigger] c2[h]->Element_children[i]
        && holds_tree(c2, c2[h]->Element_children[i], e.children[i], hi, Seq::empty()) by {
        let kid = c[h]->Element_children[i];
        assert(c2[h]->Element_children[i] == kid);
        assert(holds_tree(c, kid, e.children[i], hi, Seq::empty()));
        assert(lo <= kid);
        lemma_holds_tree_frame(c, c2, kid, e.children[i], lo, hi, Seq::empty());
    }
}

/// A tree held with handles below `hi` is held with handles below any
/// larger bound.
proof fn lemma_holds_tree_widen(
    c: Map<nat, XotNodeModel>,
    h: nat,
    e: XmlElementModel,
    hi: nat,
    hi2: nat,
    decls: Seq<(Seq<char>, Seq<char>)>,
)
    requires
        holds_tree(c, h, e, hi, decls),
        hi <= hi2,
    ensures
        holds_tree(c, h, e, hi2, decls),
    decreases e,
{
    assert forall|i: int| 0 <= i < e.children.len() implies h < #[trigger] c[h]->Element_children[i]
        && holds_tree(c, c[h]->Element_children[i], e.children[i], hi2, Seq::empty()) by {
        lemma_holds_tree_widen(c, c[h]->Element_children[i], e.children[i], hi, hi2, Seq::empty());
    }
}

/// The namespace URI of an attribute's namespace.
fn namespace_str(ns: Option<XmlNamespace>) -> (r: &'static str)
    ensures
        r@ == namespace_uri(ns),
{
    match ns {
        None => {
            proof {
                reveal_strlit("");
            }
            ""
        },
        Some(XmlNamespace::Core) => CORE_NAMESPACE,
        Some(XmlNamespace::C) => C_NAMESPACE,
        Some(XmlNamespace::GLib) => GLIB_NAMESPACE,
    }
}

/// Makes the `xot` element of a tree (in the core namespace), with its
/// attributes set in order and, recursively, its children appended in
/// order. The element gets the next handle and has no parent; the nodes made
/// before are left as they were.
fn build_element(a: &mut XotArena, elem: &XmlElement) -> (r: Result<usize, xot::Error>)
    ensures
        r is Ok,
        r matches Ok(h) ==> {
            let c = xot_arena_contents(*final(a));
            &&& h == old(a).handles()
            &&& final(a).handles() > h
            &&& holds_tree(c, h as nat, elem@, final(a).handles(), Seq::empty())
            &&& is_root_element(c, h as nat)
            &&& forall|k: nat|
                k < h ==> (#[trigger] c.contains_key(k) <==> xot_arena_contents(*old(a)).contains_key(k))
                    && c[k] == xot_arena_contents(*old(a))[k]
        },
    decreases elem,
{
    let ghost c0 = xot_arena_contents(*a);
    let h = arena_new_element(a, CORE_NAMESPACE, elem.name.as_str());
    let ghost e = elem@;
    let mut i: usize = 0;
    while i < elem.attributes.len()
        invariant
            e == elem@,
            i <= elem.attributes.len(),
            h as nat + 1 == a.handles(),
            xot_arena_contents(*a) == c0.insert(
                h as nat,
                XotNodeModel::Element {
                    name: (CORE_NAMESPACE@, e.name),
                    namespaces: Seq::empty(),
                    attributes: attributes_set(e.attributes.take(i as int)),
                    children: Seq::empty(),
                    parent: None,
                },
            ),
        decreases elem.attributes.len() - i,
    {
        let at = &elem.attributes[i];
        let ns = namespace_str(at.namespace);
        arena_set_attribute(a, h, ns, at.name.as_str(), at.value.as_str());
        proof {
            assert(e.attributes.take(i + 1).drop_last() =~= e.attributes.take(i as int));
            assert(e.attributes.take(i + 1).last() == at@);
        }
        i += 1;
    }
    assert(e.attributes.take(elem.attributes.len() as int) =~= e.attributes);
    let ghost c1 = xot_arena_contents(*a);
    let ghost kids: Seq<nat> = Seq::empty();
    proof {
        lemma_elements_view(elem.children@);
    }
    let mut j: usize = 0;
    while j < elem.children.len()
        invariant
            e == elem@,
            j <= elem.children.len(),
            e.children.len() == elem.children.len(),
            h as nat + 1 <= a.handles(),
            kids.len() == j,
            xot_arena_contents(*a).contains_key(h as nat),
            xot_arena_contents(*a)[h as nat] == (XotNodeModel::Element {
                name: (CORE_NAMESPACE@, e.name),
                namespaces: Seq::empty(),
                attributes: attributes_set(e.attributes),
                children: kids,
                parent: None,
            }),
            forall|k: nat|
                k < h ==> (#[trigger] xot_arena_contents(*a).contains_key(k) <==> c0.contains_key(k))
                    && xot_arena_contents(*a)[k] == c0[k],
            forall|m: int|
                0 <= m < j ==> h < #[trigger] kids[m] && holds_tree(
                    xot_arena_contents(*a),
                    kids[m],
                    e.children[m],
                    a.handles(),
                    Seq::empty(),
                ),
        decreases elem.children.len() - j,
    {
        assert(decreases_to!(elem => elem.children));
        assert(decreases_to!(elem.children => elem.children[j as int]));
        let ghost cb = xot_arena_contents(*a);
        let ghost hb = a.handles();
        proof {
            lemma_elements_view(elem.children@);
        }
        let child = match build_element(a, &elem.children[j]) {
            Ok(c) => c,
            Err(err) => {
                return Err(err);
            },
        };
        let ghost cc = xot_arena_contents(*a);
        let ghost hc = a.handles();
        assert(child as nat == hb);
        assert(cc.contains_key(h as nat) == cb.contains_key(h as nat));
        assert(cc[h as nat] == cb[h as nat]);
        match arena_append(a, h, child) {
            Ok(()) => {},
            Err(err) => {
                return Err(err);
            },
        }
        let ghost cd = xot_arena_contents(*a);
        proof {
            // the earlier children's trees stay held
            assert forall|m: int| 0 <= m < j implies h < #[trigger] kids[m] && holds_tree(
                cd,
                kids[m],
                e.children[m],
                hc,
                Seq::empty(),
            ) by {
                assert(holds_tree(cb, kids[m], e.children[m], hb, Seq::empty()));
                assert forall|k: nat| kids[m] <= k < hb && cb.contains_key(k) implies cd.contains_key(k)
                    && same_but_parent(#[trigger] cb[k], cd[k]) by {
                    assert(k < child as nat);
                    assert(cc.contains_key(k) == cb.contains_key(k));
                    assert(cc[k] == cb[k]);
                    if k == child as nat {
                        assert(false);
                    }
                }
                lemma_holds_tree_frame(cb, cd, kids[m], e.children[m], kids[m], hb, Seq::empty());
                lemma_holds_tree_widen(cd, kids[m], e.children[m], hb, hc, Seq::empty());
            }
            // the new child's tree is held
            assert forall|k: nat| child as nat <= k < hc && cc.contains_key(k) implies cd.contains_key(k)
                && same_but_parent(#[trigger] cc[k], cd[k]) by {}
            lemma_holds_tree_frame(cc, cd, child as nat, e.children[j as int], child as nat, hc, Seq::empty());
            kids = kids.push(child as nat);
        }
        j += 1;
    }
    proof {
        let c = xot_arena_contents(*a);
        assert forall|m: int| 0 <= m < e.children.len() implies h < #[trigger] c[h as nat]->Element_children[m]
            && holds_tree(c, c[h as nat]->Element_children[m], e.children[m], a.handles(), Seq::empty()) by {
            assert(c[h as nat]->Element_children[m] == kids[m]);
        }
    }
    Ok(h)
}

/// The namespace declarations of the `repository` element: the core
/// namespace as the default namespace, and the prefixes `c` and `glib`.
pub open spec fn repository_declarations() -> Seq<(Seq<char>, Seq<char>)> {
    seq![(Seq::empty(), CORE_NAMESPACE@), ("c"@, C_NAMESPACE@), ("glib"@, GLIB_NAMESPACE@)]
}

/// The GIR document of a library as a `xot` document: a document node whose
/// only child is the `repository` element holding the tree of
/// [`lib_to_gir`] (every element in the core namespace), with the core
/// namespace declared as the default namespace and the prefixes `c` and
/// `glib` declared for the C and GLib namespaces. Returns the arena and the
/// handle of the document node.
pub fn lib_to_xml(library: &Library) -> (r: Result<(XotArena, usize), xot::Error>)
    requires
        has_c_names(library@),
    ensures
        r is Ok,
        r matches Ok((a, d)) ==> {
            let c = xot_arena_contents(a);
            &&& d < a.handles()
            &&& c.contains_key(d as nat)
            &&& c[d as nat] is Document
            &&& c[d as nat]->Document_children.len() == 1
            &&& holds_tree(
                c,
                c[d as nat]->Document_children[0],
                library_model(library@),
                a.handles(),
                repository_declarations(),
            )
        },
{
    let tree = lib_to_gir(library);
    let mut a = arena_new();
    let repo = match build_element(&mut a, &tree) {
        Ok(n) => n,
        Err(e) => {
            return Err(e);
        },
    };
    let ghost c1 = xot_arena_contents(a);
    let ghost h1 = a.handles();
    let doc = match arena_new_document(&mut a, repo) {
        Ok(n) => n,
        Err(e) => {
            return Err(e);
        },
    };
    let ghost c2 = xot_arena_contents(a);
    proof {
        assert forall|k: nat| repo as nat <= k < h1 && c1.contains_key(k) implies c2.contains_key(k)
            && same_but_parent(#[trigger] c1[k], c2[k]) by {}
        lemma_holds_tree_frame(c1, c2, repo as nat, tree@, repo as nat, h1, Seq::empty());
    }
    proof {
        reveal_strlit("");
        reveal_strlit("c");
        reveal_strlit("glib");
    }
    let ghost e0: Seq<(Seq<char>, Seq<char>)> = Seq::empty();
    proof {
        assert(repo as nat != doc as nat);
        assert(c2[repo as nat]->Element_namespaces == e0);
        assert(""@ =~= Seq::<char>::empty());
        assert(c2[repo as nat] is Element);
        assert(!(exists|i: int| 0 <= i < e0.len() && e0[i].0 == ""@));
        assert(set_entry(e0, ""@, CORE_NAMESPACE@) == e0.push((""@, CORE_NAMESPACE@)));
    }
    arena_set_namespace(&mut a, repo, "", CORE_NAMESPACE);
    proof {
        assert(xot_arena_contents(a)[repo as nat]->Element_namespaces =~= e0.push((Seq::empty(), CORE_NAMESPACE@)));
    }
    let ghost e1 = e0.push((Seq::<char>::empty(), CORE_NAMESPACE@));
    arena_set_namespace(&mut a, repo, "c", C_NAMESPACE);
    proof {
        assert("c"@.len() == 1);
        assert(e1[0].0.len() == 0);
        assert(e1[0].0 != "c"@);
        assert(!(exists|i: int| 0 <= i < e1.len() && e1[i].0 == "c"@));
        assert(xot_arena_contents(a)[repo as nat]->Element_namespaces =~= e1.push(("c"@, C_NAMESPACE@)));
    }
    let ghost e2 = e1.push(("c"@, C_NAMESPACE@));
    arena_set_namespace(&mut a, repo, "glib", GLIB_NAMESPACE);
    proof {
        assert("glib"@.len() == 4);
        assert(e2[0].0.len() == 0);
        assert(e2[1].0 == "c"@);
        assert(e2[0].0 != "glib"@);
        assert(e2[1].0 != "glib"@);
        assert(!(exists|i: int| 0 <= i < e2.len() && e2[i].0 == "glib"@));
        assert(xot_arena_contents(a)[repo as nat]->Element_namespaces =~= e2.push(("glib"@, GLIB_NAMESPACE@)));
    }
    let ghost c3 = xot_arena_contents(a);
    proof {
        let e = tree@;
        let r = repo as nat;
        assert forall|i: int| 0 <= i < e.children.len() implies r < #[trigger] c3[r]->Element_children[i]
            && holds_tree(c3, c3[r]->Element_children[i], e.children[i], a.handles(), Seq::empty()) by {
            let k = c2[r]->Element_children[i];
            assert(holds_tree(c2, k, e.children[i], h1, Seq::empty()));
            assert forall|k2: nat| k <= k2 < h1 && c2.contains_key(k2) implies c3.contains_key(k2)
                && same_but_parent(#[trigger] c2[k2], c3[k2]) by {}
            lemma_holds_tree_frame(c2, c3, k, e.children[i], k, h1, Seq::empty());
            lemma_holds_tree_widen(c3, k, e.children[i], h1, a.handles(), Seq::empty());
        }
        assert(c3[r]->Element_namespaces =~= repository_declarations());
    }
    Ok((a, doc))
}

} // verus!
