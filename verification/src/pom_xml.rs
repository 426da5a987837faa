//! Reading a POM's XML into its raw contents.
use vstd::prelude::*;
use crate::maven::{exclusion_views, Exclusion, MavenResult};
use crate::pom::RawDependency;
use crate::order::pair_views;
use crate::pom::RawDependencyView;
use crate::text::{concat, trim, trim_str};
use crate::xml::{
    child, child_text, direct_child, direct_child_text, is_named_child, nodes_view, opt_str_view,
    parse_xml, xml_document, NodeView, XmlNode,
};

verus! {

/// A `<parent>` reference.
#[derive(Debug)]
pub struct RawParent {
    pub group_id: String,
    pub artifact_id: String,
    pub version: String,
}

/// A POM as written: its own coordinate parts, packaging, parent,
/// properties in document order, managed and direct dependencies.
#[derive(Debug)]
pub struct RawPom {
    pub group_id: Option<String>,
    pub artifact_id: Option<String>,
    pub version: Option<String>,
    pub packaging: Option<String>,
    pub parent: Option<RawParent>,
    pub properties: Vec<(String, String)>,
    pub dependency_management: Vec<RawDependency>,
    pub dependencies: Vec<RawDependency>,
}

/// A raw POM as plain values.
pub struct RawPomView {
    pub group_id: Option<Seq<char>>,
    pub artifact_id: Option<Seq<char>>,
    pub version: Option<Seq<char>>,
    pub packaging: Option<Seq<char>>,
    pub parent: Option<(Seq<char>, Seq<char>, Seq<char>)>,
    pub properties: Seq<(Seq<char>, Seq<char>)>,
    pub dependency_management: Seq<RawDependencyView>,
    pub dependencies: Seq<RawDependencyView>,
}

pub open spec fn raw_dependency_views(v: Seq<RawDependency>) -> Seq<RawDependencyView> {
    v.map_values(|d: RawDependency| d@)
}

impl View for RawPom {
    type V = RawPomView;

    open spec fn view(&self) -> RawPomView {
        RawPomView {
            group_id: opt_str_view(self.group_id),
            artifact_id: opt_str_view(self.artifact_id),
            version: opt_str_view(self.version),
            packaging: opt_str_view(self.packaging),
            parent: match self.parent {
                Some(p) => Some((p.group_id@, p.artifact_id@, p.version@)),
                None => None,
            },
            properties: pair_views(self.properties@),
            dependency_management: raw_dependency_views(self.dependency_management@),
            dependencies: raw_dependency_views(self.dependencies@),
        }
    }
}

// ---------------------------------------------------------------------------
// Specifications
// ---------------------------------------------------------------------------

/// The first element named `name` in document order, from index `i` on.
pub open spec fn first_element(nodes: Seq<NodeView>, name: Seq<char>, i: int) -> Option<int>
    decreases nodes.len() - i,
{
    if i < 0 || i >= nodes.len() {
        None
    } else if nodes[i].element && nodes[i].name == name {
        Some(i)
    } else {
        first_element(nodes, name, i + 1)
    }
}

/// The exclusions among the first `n` nodes: `<exclusion>` children of the
/// node with id `parent` that name both a groupId and an artifactId.
pub open spec fn exclusion_list(nodes: Seq<NodeView>, parent: nat, n: int) -> Seq<(Seq<char>, Seq<char>)>
    decreases n,
{
    if n <= 0 || n > nodes.len() {
        Seq::empty()
    } else {
        let prev = exclusion_list(nodes, parent, n - 1);
        let x = nodes[n - 1];
        if is_named_child(x, parent, "exclusion"@) && child_text(nodes, x.id, "groupId"@) is Some
            && child_text(nodes, x.id, "artifactId"@) is Some {
            prev.push(
                (child_text(nodes, x.id, "groupId"@)->0, child_text(nodes, x.id, "artifactId"@)->0),
            )
        } else {
            prev
        }
    }
}

/// The exclusions of the dependency node with id `dep`.
pub open spec fn spec_exclusions(nodes: Seq<NodeView>, dep: nat) -> Seq<(Seq<char>, Seq<char>)> {
    match child(nodes, dep, "exclusions"@) {
        Some(x) => exclusion_list(nodes, nodes[x].id, nodes.len() as int),
        None => Seq::empty(),
    }
}

/// The dependency node with id `dep`, as written.
pub open spec fn spec_raw_dependency(nodes: Seq<NodeView>, dep: nat) -> RawDependencyView {
    RawDependencyView {
        group_id: child_text(nodes, dep, "groupId"@),
        artifact_id: child_text(nodes, dep, "artifactId"@),
        version: child_text(nodes, dep, "version"@),
        scope: child_text(nodes, dep, "scope"@),
        optional: child_text(nodes, dep, "optional"@),
        dep_type: child_text(nodes, dep, "type"@),
        classifier: child_text(nodes, dep, "classifier"@),
        exclusions: spec_exclusions(nodes, dep),
    }
}

/// The `<dependency>` children of the node with id `parent` among the first `n` nodes.
pub open spec fn dependency_list(nodes: Seq<NodeView>, parent: nat, n: int) -> Seq<RawDependencyView>
    decreases n,
{
    if n <= 0 || n > nodes.len() {
        Seq::empty()
    } else {
        let prev = dependency_list(nodes, parent, n - 1);
        let x = nodes[n - 1];
        if is_named_child(x, parent, "dependency"@) {
            prev.push(spec_raw_dependency(nodes, x.id))
        } else {
            prev
        }
    }
}

/// The properties among the first `n` nodes: each element child of the
/// node with id `parent` that has text, with its name and trimmed text.
pub open spec fn property_list(nodes: Seq<NodeView>, parent: nat, n: int) -> Seq<(Seq<char>, Seq<char>)>
    decreases n,
{
    if n <= 0 || n > nodes.len() {
        Seq::empty()
    } else {
        let prev = property_list(nodes, parent, n - 1);
        let x = nodes[n - 1];
        if x.element && x.parent == Some(parent) && x.text is Some {
            prev.push((x.name, trim(x.text->0)))
        } else {
            prev
        }
    }
}

/// What reading the nodes of a POM gives.
pub open spec fn spec_pom_of_nodes(nodes: Seq<NodeView>) -> Result<RawPomView, Seq<char>> {
    match first_element(nodes, "project"@, 0) {
        None => Err("Invalid POM XML: missing <project>"@),
        Some(pi) => {
            let p = nodes[pi].id;
            let parent = child(nodes, p, "parent"@);
            let n = nodes.len() as int;
            if parent is Some && child_text(nodes, nodes[parent->0].id, "groupId"@) is None {
                Err("POM parent is missing groupId"@)
            } else if parent is Some && child_text(nodes, nodes[parent->0].id, "artifactId"@)
                is None {
                Err("POM parent is missing artifactId"@)
            } else if parent is Some && child_text(nodes, nodes[parent->0].id, "version"@) is None {
                Err("POM parent is missing version"@)
            } else {
                Ok(
                    RawPomView {
                        group_id: child_text(nodes, p, "groupId"@),
                        artifact_id: child_text(nodes, p, "artifactId"@),
                        version: child_text(nodes, p, "version"@),
                        packaging: child_text(nodes, p, "packaging"@),
                        parent: match parent {
                            Some(q) => Some(
                                (
                                    child_text(nodes, nodes[q].id, "groupId"@)->0,
                                    child_text(nodes, nodes[q].id, "artifactId"@)->0,
                                    child_text(nodes, nodes[q].id, "version"@)->0,
                                ),
                            ),
                            None => None,
                        },
                        properties: match child(nodes, p, "properties"@) {
                            Some(q) => property_list(nodes, nodes[q].id, n),
                            None => Seq::empty(),
                        },
                        dependency_management: match child(nodes, p, "dependencyManagement"@) {
                            Some(q) => match child(nodes, nodes[q].id, "dependencies"@) {
                                Some(r) => dependency_list(nodes, nodes[r].id, n),
                                None => Seq::empty(),
                            },
                            None => Seq::empty(),
                        },
                        dependencies: match child(nodes, p, "dependencies"@) {
                            Some(q) => dependency_list(nodes, nodes[q].id, n),
                            None => Seq::empty(),
                        },
                    },
                )
            }
        },
    }
}

/// What parsing a POM's text gives.
pub open spec fn spec_parse_pom(xml: Seq<char>) -> Result<RawPomView, Seq<char>> {
    match xml_document(xml) {
        Err(m) => Err("Invalid POM XML: "@ + m),
        Ok(nodes) => spec_pom_of_nodes(nodes),
    }
}

// ---------------------------------------------------------------------------
// Reading
// ---------------------------------------------------------------------------

fn node_id(nodes: &Vec<XmlNode>, i: usize) -> (id: usize)
    requires
        i < nodes@.len(),
    ensures
        id as nat == nodes_view(nodes@)[i as int].id,
{
    nodes[i].id
}

/// The exclusions of the dependency node with id `dep`.
pub fn parse_exclusions(nodes: &Vec<XmlNode>, dep: usize) -> (r: Vec<Exclusion>)
    ensures
        exclusion_views(r@) == spec_exclusions(nodes_view(nodes@), dep as nat),
{
    let ghost nv = nodes_view(nodes@);
    let mut r: Vec<Exclusion> = Vec::new();
    let x = match direct_child(nodes, dep, "exclusions") {
        Some(x) => x,
        None => return r,
    };
    let parent = node_id(nodes, x);
    let mut i: usize = 0;
    while i < nodes.len()
        invariant
            nv == nodes_view(nodes@),
            parent as nat == nv[x as int].id,
            i <= nodes@.len(),
            exclusion_views(r@) == exclusion_list(nv, parent as nat, i as int),
        decreases nodes.len() - i,
    {
        let n = &nodes[i];
        assert(nv[i as int] == crate::xml::node_view(nodes@[i as int]));
        let ghost prev = r@;
        if n.element && n.parent == Some(parent) && n.name == "exclusion".to_owned() {
            let g = direct_child_text(nodes, n.id, "groupId");
            let a = direct_child_text(nodes, n.id, "artifactId");
            match (g, a) {
                (Some(group_id), Some(artifact_id)) => {
                    r.push(Exclusion { group_id, artifact_id });
                    assert(exclusion_views(r@) =~= exclusion_views(prev).push(r@.last()@));
                },
                _ => {},
            }
        }
        i = i + 1;
    }
    r
}

/// The dependency node with id `dep`, as written.
pub fn parse_dependency(nodes: &Vec<XmlNode>, dep: usize) -> (r: RawDependency)
    ensures
        r@ == spec_raw_dependency(nodes_view(nodes@), dep as nat),
{
    RawDependency {
        group_id: direct_child_text(nodes, dep, "groupId"),
        artifact_id: direct_child_text(nodes, dep, "artifactId"),
        version: direct_child_text(nodes, dep, "version"),
        scope: direct_child_text(nodes, dep, "scope"),
        optional: direct_child_text(nodes, dep, "optional"),
        dep_type: direct_child_text(nodes, dep, "type"),
        classifier: direct_child_text(nodes, dep, "classifier"),
        exclusions: parse_exclusions(nodes, dep),
    }
}

/// The `<dependency>` children of the node with id `parent`.
pub fn parse_dependencies(nodes: &Vec<XmlNode>, parent: usize) -> (r: Vec<RawDependency>)
    ensures
        crate::pom_xml::raw_dependency_views(r@) == dependency_list(
            nodes_view(nodes@),
            parent as nat,
            nodes@.len() as int,
        ),
{
    let ghost nv = nodes_view(nodes@);
    let mut r: Vec<RawDependency> = Vec::new();
    let mut i: usize = 0;
    while i < nodes.len()
        invariant
            nv == nodes_view(nodes@),
            i <= nodes@.len(),
            raw_dependency_views(r@) == dependency_list(nv, parent as nat, i as int),
        decreases nodes.len() - i,
    {
        let n = &nodes[i];
        assert(nv[i as int] == crate::xml::node_view(nodes@[i as int]));
        let ghost prev = r@;
        if n.element && n.parent == Some(parent) && n.name == "dependency".to_owned() {
            let d = parse_dependency(nodes, n.id);
            r.push(d);
            assert(raw_dependency_views(r@) =~= raw_dependency_views(prev).push(r@.last()@));
        }
        i = i + 1;
    }
    r
}

/// The properties under the node with id `parent`.
pub fn parse_properties(nodes: &Vec<XmlNode>, parent: usize) -> (r: Vec<(String, String)>)
    ensures
        pair_views(r@) == property_list(nodes_view(nodes@), parent as nat, nodes@.len() as int),
{
    let ghost nv = nodes_view(nodes@);
    let mut r: Vec<(String, String)> = Vec::new();
    let mut i: usize = 0;
    while i < nodes.len()
        invariant
            nv == nodes_view(nodes@),
            i <= nodes@.len(),
            pair_views(r@) == property_list(nv, parent as nat, i as int),
        decreases nodes.len() - i,
    {
        let n = &nodes[i];
        assert(nv[i as int] == crate::xml::node_view(nodes@[i as int]));
        let ghost prev = r@;
        if n.element && n.parent == Some(parent) {
            if let Some(t) = &n.text {
                r.push((n.name.clone(), trim_str(t.as_str())));
                assert(pair_views(r@) =~= pair_views(prev).push((r@.last().0@, r@.last().1@)));
            }
        }
        i = i + 1;
    }
    r
}

/// The index of the first element named `name`.
pub fn find_element(nodes: &Vec<XmlNode>, name: &str) -> (r: Option<usize>)
    ensures
        match r {
            Some(i) => first_element(nodes_view(nodes@), name@, 0) == Some(i as int) && i
                < nodes@.len(),
            None => first_element(nodes_view(nodes@), name@, 0) is None,
        },
{
    let ghost nv = nodes_view(nodes@);
    let key = name.to_owned();
    let mut i: usize = 0;
    while i < nodes.len()
        invariant
            nv == nodes_view(nodes@),
            key@ == name@,
            i <= nodes@.len(),
            first_element(nv, name@, 0) == first_element(nv, name@, i as int),
        decreases nodes.len() - i,
    {
        assert(nv[i as int] == crate::xml::node_view(nodes@[i as int]));
        if nodes[i].element && nodes[i].name == key {
            return Some(i);
        }
        i = i + 1;
    }
    None
}

/// The raw contents of a POM.
pub fn parse_pom(xml: &str) -> (r: MavenResult<RawPom>)
    ensures
        match spec_parse_pom(xml@) {
            Ok(v) => r matches Ok(p) && p@ == v,
            Err(m) => r matches Err(e) && e@ == m,
        },
{
    let nodes = match parse_xml(xml) {
        Ok(n) => n,
        Err(e) => return Err(concat("Invalid POM XML: ", e.as_str())),
    };
    let ghost nv = nodes_view(nodes@);
    let pi = match find_element(&nodes, "project") {
        Some(pi) => pi,
        None => return Err("Invalid POM XML: missing <project>".to_owned()),
    };
    assert(nv[pi as int] == crate::xml::node_view(nodes@[pi as int]));
    let project = nodes[pi].id;
    let parent = match direct_child(&nodes, project, "parent") {
        Some(q) => {
            let qid = node_id(&nodes, q);
            let group_id = match direct_child_text(&nodes, qid, "groupId") {
                Some(g) => g,
                None => return Err("POM parent is missing groupId".to_owned()),
            };
            let artifact_id = match direct_child_text(&nodes, qid, "artifactId") {
                Some(a) => a,
                None => return Err("POM parent is missing artifactId".to_owned()),
            };
            let version = match direct_child_text(&nodes, qid, "version") {
                Some(v) => v,
                None => return Err("POM parent is missing version".to_owned()),
            };
            Some(RawParent { group_id, artifact_id, version })
        },
        None => None,
    };
    let properties = match direct_child(&nodes, project, "properties") {
        Some(q) => parse_properties(&nodes, node_id(&nodes, q)),
        None => Vec::new(),
    };
    let dependency_management = match direct_child(&nodes, project, "dependencyManagement") {
        Some(q) => match direct_child(&nodes, node_id(&nodes, q), "dependencies") {
            Some(d) => parse_dependencies(&nodes, node_id(&nodes, d)),
            None => Vec::new(),
        },
        None => Vec::new(),
    };
    let dependencies = match direct_child(&nodes, project, "dependencies") {
        Some(q) => parse_dependencies(&nodes, node_id(&nodes, q)),
        None => Vec::new(),
    };
    let pom = RawPom {
        group_id: direct_child_text(&nodes, project, "groupId"),
        artifact_id: direct_child_text(&nodes, project, "artifactId"),
        version: direct_child_text(&nodes, project, "version"),
        packaging: direct_child_text(&nodes, project, "packaging"),
        parent,
        properties,
        dependency_management,
        dependencies,
    };
    assert(pair_views(Seq::<(String, String)>::empty()) =~= Seq::empty());
    assert(raw_dependency_views(Seq::<RawDependency>::empty()) =~= Seq::empty());
    Ok(pom)
}

} // verus!
