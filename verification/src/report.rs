//! The report model: a labelled tree presenting findings, and the
//! renderer that lays the two-level reports of this tool out as text.
//!
//! Reports are data only; the textual layout is done by an outside tree
//! renderer behind a trusted wrapper.

use crate::order::names_view;
use vstd::prelude::*;

verus! {

/// One grouping of findings: a label (a manifest path) and the offending
/// dependency names under it.
pub struct ReportGroup {
    pub label: String,
    pub entries: Vec<String>,
}

/// The view of one grouping: its label and its names.
pub open spec fn group_view(g: ReportGroup) -> (Seq<char>, Seq<Seq<char>>) {
    (g.label@, names_view(g.entries@))
}

/// The views of a sequence of groupings.
pub open spec fn groups_view(s: Seq<ReportGroup>) -> Seq<(Seq<char>, Seq<Seq<char>>)> {
    s.map_values(|g: ReportGroup| group_view(g))
}

/// A node of a report: a label and an ordered list of children.
pub struct ReportNode {
    pub label: String,
    pub children: Vec<ReportNode>,
}

/// A node presenting one finding: the name, and nothing under it.
pub open spec fn leaf_node(n: ReportNode, name: Seq<char>) -> bool {
    n.label@ == name && n.children@.len() == 0
}

/// A node presenting one grouping: its label, and one leaf per name.
pub open spec fn group_node(n: ReportNode, g: (Seq<char>, Seq<Seq<char>>)) -> bool {
    n.label@ == g.0 && n.children@.len() == g.1.len() && forall|j: int|
        0 <= j < g.1.len() ==> leaf_node(#[trigger] n.children@[j], g.1[j])
}

/// A tree presenting a labelled root and one grouping per child: every
/// finding appears exactly once, in order.
pub open spec fn report_of(
    t: ReportNode,
    root: Seq<char>,
    groups: Seq<(Seq<char>, Seq<Seq<char>>)>,
) -> bool {
    t.label@ == root && t.children@.len() == groups.len() && forall|i: int|
        0 <= i < groups.len() ==> group_node(#[trigger] t.children@[i], groups[i])
}

/// This tool's reports are two-level: root, groupings, findings.
pub open spec fn two_level(t: ReportNode) -> bool {
    forall|i: int, j: int|
        0 <= i < t.children@.len() && 0 <= j < (#[trigger] t.children@[i]).children@.len() ==> (
        #[trigger] t.children@[i].children@[j]).children@.len() == 0
}

/// The groupings that a two-level report node presents.
pub open spec fn node_groups(t: ReportNode) -> Seq<(Seq<char>, Seq<Seq<char>>)> {
    t.children@.map_values(
        |c: ReportNode| (c.label@, c.children@.map_values(|l: ReportNode| l.label@)),
    )
}

/// Builds the report tree for a labelled list of groupings.
pub fn build_report(root_label: &String, groups: &Vec<ReportGroup>) -> (t: ReportNode)
    ensures
        report_of(t, root_label@, groups_view(groups@)),
        two_level(t),
{
    let mut children: Vec<ReportNode> = Vec::new();
    let mut i: usize = 0;
    while i < groups.len()
        invariant
            i <= groups@.len(),
            children@.len() == i,
            forall|k: int|
                0 <= k < i ==> group_node(#[trigger] children@[k], group_view(groups@[k])),
        decreases groups@.len() - i,
    {
        let mut leaves: Vec<ReportNode> = Vec::new();
        let mut j: usize = 0;
        while j < groups[i].entries.len()
            invariant
                0 <= i < groups@.len(),
                j <= groups@[i as int].entries@.len(),
                leaves@.len() == j,
                forall|k: int|
                    0 <= k < j ==> leaf_node(
                        #[trigger] leaves@[k],
                        names_view(groups@[i as int].entries@)[k],
                    ),
            decreases groups@[i as int].entries@.len() - j,
        {
            leaves.push(ReportNode { label: groups[i].entries[j].clone(), children: Vec::new() });
            j = j + 1;
        }
        children.push(ReportNode { label: groups[i].label.clone(), children: leaves });
        i = i + 1;
    }
    ReportNode { label: root_label.clone(), children }
}

/// What the outside renderer prints for a root label and its groupings;
/// a function of the labels alone.
pub uninterp spec fn rendered_tree(
    root: Seq<char>,
    groups: Seq<(Seq<char>, Seq<Seq<char>>)>,
) -> Seq<char>;

/// Relies on termtree's `Tree`: `Tree::new`, `Tree::push` and its
/// `Display` impl, which lays the tree out line by line with box-drawing
/// prefixes. The text depends on the labels alone.
#[verifier::external_body]
fn render_groups(root_label: &String, groups: &Vec<ReportGroup>) -> (r: String)
    ensures
        r@ == rendered_tree(root_label@, groups_view(groups@)),
{
    let mut tree: termtree::Tree<String> = termtree::Tree::new(root_label.clone());
    for g in groups.iter() {
        let mut node: termtree::Tree<String> = termtree::Tree::new(g.label.clone());
        for e in g.entries.iter() {
            node.push(termtree::Tree::new(e.clone()));
        }
        tree.push(node);
    }
    format!("{}", tree)
}

/// Renders a two-level report as the outside tree renderer lays it out.
/// Identical reports render to identical text.
pub fn render_report(t: &ReportNode) -> (r: String)
    requires
        two_level(*t),
    ensures
        r@ == rendered_tree(t.label@, node_groups(*t)),
{
    let mut groups: Vec<ReportGroup> = Vec::new();
    let mut i: usize = 0;
    while i < t.children.len()
        invariant
            i <= t.children@.len(),
            groups@.len() == i,
            forall|k: int|
                0 <= k < i ==> group_view(#[trigger] groups@[k]) == node_groups(*t)[k],
        decreases t.children@.len() - i,
    {
        let mut entries: Vec<String> = Vec::new();
        let mut j: usize = 0;
        while j < t.children[i].children.len()
            invariant
                0 <= i < t.children@.len(),
                j <= t.children@[i as int].children@.len(),
                entries@.len() == j,
                forall|k: int|
                    0 <= k < j ==> (#[trigger] entries@[k])@ == t.children@[i as int].children@[k].label@,
            decreases t.children@[i as int].children@.len() - j,
        {
            entries.push(t.children[i].children[j].label.clone());
            j = j + 1;
        }
        proof {
            assert(names_view(entries@) =~= t.children@[i as int].children@.map_values(
                |l: ReportNode| l.label@,
            ));
        }
        groups.push(ReportGroup { label: t.children[i].label.clone(), entries });
        proof {
            assert(group_view(groups@[i as int]) == node_groups(*t)[i as int]);
        }
        i = i + 1;
    }
    proof {
        assert(groups_view(groups@) =~= node_groups(*t));
    }
    render_groups(&t.label, &groups)
}

} // verus!
