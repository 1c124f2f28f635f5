//! The sidebar's tag tree: every registered tag under its parent, siblings
//! sorted by display name, depth first.

use vstd::prelude::*;

use crate::tags::{
    child_pred, infos_where, lookup_info, root_pred, tag_leaf, Tag, TagInfo, TagInfoView,
    TagRegistry, TagRegistryView,
};
use crate::text::{lex_lt, str_lt};
use crate::ui::SidebarNode;

verus! {

/// The content of a sidebar node.
pub struct SidebarNodeView {
    pub id: Seq<char>,
    pub label: Seq<char>,
    pub icon: Seq<char>,
    pub depth: usize,
    pub has_children: bool,
    pub count: Option<usize>,
}

impl View for SidebarNode {
    type V = SidebarNodeView;

    open spec fn view(&self) -> SidebarNodeView {
        SidebarNodeView {
            id: self.id@,
            label: self.label@,
            icon: self.icon@,
            depth: self.depth,
            has_children: self.has_children,
            count: self.count,
        }
    }
}

/// The views of nodes.
pub open spec fn node_views(v: Seq<SidebarNode>) -> Seq<SidebarNodeView> {
    v.map_values(|n: SidebarNode| n@)
}

/// Where `x` goes in a list sorted by display name: after every entry whose
/// name is not greater than its own.
pub open spec fn name_slot(sorted: Seq<TagInfoView>, x: TagInfoView) -> int
    decreases sorted.len(),
{
    if sorted.len() == 0 {
        0
    } else if lex_lt(x.display_name, sorted.last().display_name) {
        name_slot(sorted.drop_last(), x)
    } else {
        sorted.len() as int
    }
}

pub proof fn lemma_name_slot(sorted: Seq<TagInfoView>, x: TagInfoView)
    ensures
        0 <= name_slot(sorted, x) <= sorted.len(),
    decreases sorted.len(),
{
    if sorted.len() > 0 {
        lemma_name_slot(sorted.drop_last(), x);
    }
}

/// Tags sorted by display name; tags with equal names keep their order.
pub open spec fn sort_by_name(s: Seq<TagInfoView>) -> Seq<TagInfoView>
    decreases s.len(),
{
    if s.len() == 0 {
        s
    } else {
        let t = sort_by_name(s.drop_last());
        t.insert(name_slot(t, s.last()), s.last())
    }
}

/// The longest tag among `infos`.
pub open spec fn info_bound(infos: Seq<TagInfoView>) -> int
    decreases infos.len(),
{
    if infos.len() == 0 {
        0
    } else {
        let b = info_bound(infos.drop_last());
        if infos.last().tag.len() > b {
            infos.last().tag.len() as int
        } else {
            b
        }
    }
}

pub proof fn lemma_info_bound(infos: Seq<TagInfoView>)
    ensures
        info_bound(infos) >= 0,
        forall|i: int| 0 <= i < infos.len() ==> (#[trigger] infos[i]).tag.len() <= info_bound(infos),
    decreases infos.len(),
{
    if infos.len() > 0 {
        lemma_info_bound(infos.drop_last());
        assert forall|i: int| 0 <= i < infos.len() implies (#[trigger] infos[i]).tag.len() <= info_bound(infos) by {
            if i < infos.len() - 1 {
                assert(infos[i] == infos.drop_last()[i]);
            }
        }
    }
}

pub proof fn lemma_infos_where_from(infos: Seq<TagInfoView>, p: spec_fn(TagInfoView) -> bool)
    ensures
        forall|i: int| 0 <= i < infos_where(infos, p).len() ==> infos.contains(#[trigger] infos_where(infos, p)[i]) && p(infos_where(infos, p)[i]),
    decreases infos.len(),
{
    if infos.len() > 0 {
        lemma_infos_where_from(infos.drop_last(), p);
        let w = infos_where(infos.drop_last(), p);
        assert forall|i: int| 0 <= i < infos_where(infos, p).len() implies infos.contains(#[trigger] infos_where(infos, p)[i]) && p(infos_where(infos, p)[i]) by {
            if i < w.len() {
                assert(infos_where(infos, p)[i] == w[i]);
                let j = choose|j: int| 0 <= j < infos.drop_last().len() && infos.drop_last()[j] == w[i];
                assert(infos[j] == w[i]);
            } else {
                assert(infos[infos.len() - 1] == infos.last());
            }
        }
    }
}

pub proof fn lemma_sort_by_name_from(s: Seq<TagInfoView>)
    ensures
        sort_by_name(s).len() == s.len(),
        forall|i: int| 0 <= i < sort_by_name(s).len() ==> s.contains(#[trigger] sort_by_name(s)[i]),
    decreases s.len(),
{
    if s.len() > 0 {
        lemma_sort_by_name_from(s.drop_last());
        let t = sort_by_name(s.drop_last());
        lemma_name_slot(t, s.last());
        let k = name_slot(t, s.last());
        assert forall|i: int| 0 <= i < sort_by_name(s).len() implies s.contains(#[trigger] sort_by_name(s)[i]) by {
            let x = sort_by_name(s)[i];
            if i < k {
                assert(x == t[i]);
            } else if i == k {
                assert(x == s.last());
                assert(s[s.len() - 1] == x);
            } else {
                assert(x == t[i - 1]);
            }
            if x != s.last() {
                let j = choose|j: int| 0 <= j < s.drop_last().len() && s.drop_last()[j] == x;
                assert(s[j] == x);
            } else {
                assert(s[s.len() - 1] == x);
            }
        }
    }
}

/// The node of a tag: its display name and icon if registered, else its leaf.
pub open spec fn node_spec(m: TagRegistryView, tag: Seq<char>, depth: usize) -> SidebarNodeView {
    SidebarNodeView {
        id: tag,
        label: match lookup_info(m, tag) {
            Some(i) => i.display_name,
            None => tag_leaf(tag),
        },
        icon: match lookup_info(m, tag) {
            Some(i) => i.icon,
            None => Seq::empty(),
        },
        depth,
        has_children: infos_where(m.infos, child_pred(tag)).len() > 0,
        count: None,
    }
}

/// One level deeper.
pub open spec fn deeper(depth: usize) -> usize {
    if depth < usize::MAX {
        (depth + 1) as usize
    } else {
        depth
    }
}

/// The nodes of a tag and, depth first, of the tags below it.
pub open spec fn tree_spec(m: TagRegistryView, tag: Seq<char>, depth: usize) -> Seq<SidebarNodeView>
    decreases info_bound(m.infos) - tag.len() + 1, 0int,
{
    if tag.len() <= info_bound(m.infos) {
        seq![node_spec(m, tag, depth)] + forest_spec(
            m,
            sort_by_name(infos_where(m.infos, child_pred(tag))),
            tag,
            deeper(depth),
        )
    } else {
        seq![node_spec(m, tag, depth)]
    }
}

/// The trees of sibling tags below `parent`, one after the other.
pub open spec fn forest_spec(
    m: TagRegistryView,
    kids: Seq<TagInfoView>,
    parent: Seq<char>,
    depth: usize,
) -> Seq<SidebarNodeView>
    decreases info_bound(m.infos) - parent.len(), kids.len(),
{
    if kids.len() == 0 || parent.len() > info_bound(m.infos) {
        Seq::empty()
    } else {
        let c = kids.last();
        forest_spec(m, kids.drop_last(), parent, depth) + if parent.len() < c.tag.len() && c.tag.len()
            <= info_bound(m.infos) {
            tree_spec(m, c.tag, depth)
        } else {
            Seq::empty()
        }
    }
}

/// The sidebar's nodes: the root tags sorted by display name, each followed
/// depth first by the tags below it, siblings sorted by display name.
pub open spec fn sidebar_spec(m: TagRegistryView) -> Seq<SidebarNodeView> {
    forest_spec(m, sort_by_name(infos_where(m.infos, root_pred())), Seq::empty(), 0)
}

/// Sorts tag metadata by display name, keeping the order of equal names.
fn sort_infos<'a>(v: Vec<&'a TagInfo>) -> (r: Vec<&'a TagInfo>)
    ensures
        r@.map_values(|x: &TagInfo| x@) == sort_by_name(v@.map_values(|x: &TagInfo| x@)),
{
    let ghost s = v@.map_values(|x: &TagInfo| x@);
    let mut out: Vec<&TagInfo> = Vec::new();
    let mut i: usize = 0;
    assert(s.take(0) =~= Seq::<TagInfoView>::empty());
    while i < v.len()
        invariant
            s == v@.map_values(|x: &TagInfo| x@),
            i <= v@.len(),
            out@.map_values(|x: &TagInfo| x@) == sort_by_name(s.take(i as int)),
        decreases v@.len() - i,
    {
        let x = v[i];
        let ghost t = out@.map_values(|x: &TagInfo| x@);
        let mut j = out.len();
        assert(t.take(j as int) =~= t);
        while j > 0 && str_lt(x.display_name.as_str(), out[j - 1].display_name.as_str())
            invariant
                j <= out@.len(),
                t == out@.map_values(|x: &TagInfo| x@),
                name_slot(t, x@) == name_slot(t.take(j as int), x@),
            decreases j,
        {
            assert(t.take(j as int).drop_last() =~= t.take(j - 1));
            j = j - 1;
        }
        proof {
            if j < t.len() {
                assert(t.take(j as int).len() == j);
            }
            assert(t.take(t.len() as int) =~= t);
        }
        assert(name_slot(t.take(j as int), x@) == j);
        out.insert(j, x);
        assert(s.take(i + 1).drop_last() =~= s.take(i as int));
        assert(out@.map_values(|x: &TagInfo| x@) =~= t.insert(j as int, x@));
        i = i + 1;
    }
    assert(s.take(i as int) =~= s);
    out
}

/// Appends the node of `tag` and, depth first, the nodes below it.
fn add_node_recursive(registry: &TagRegistry, tag: &Tag, depth: usize, nodes: &mut Vec<SidebarNode>)
    requires
        registry.wf(),
        tag@.len() <= info_bound(registry@.infos),
    ensures
        node_views(final(nodes)@) == node_views(old(nodes)@) + tree_spec(registry@, tag@, depth),
    decreases info_bound(registry@.infos) - tag@.len() + 1,
{
    let ghost m = registry@;
    let children = registry.children_of(tag);
    let has_children = children.len() > 0;
    let info = registry.info(tag);
    let label = match info {
        Some(i) => i.display_name.clone(),
        None => tag.leaf().to_owned(),
    };
    let icon = match info {
        Some(i) => i.icon.clone(),
        None => String::new(),
    };
    let ghost before = node_views(nodes@);
    nodes.push(SidebarNode { id: tag.to_string(), label, icon, depth, has_children, count: None });
    assert(node_views(nodes@) =~= before.push(node_spec(m, tag@, depth)));
    let sorted = sort_infos(children);
    let ghost kids = sorted@.map_values(|x: &TagInfo| x@);
    let next = if depth < usize::MAX {
        depth + 1
    } else {
        depth
    };
    proof {
        lemma_info_bound(m.infos);
        lemma_infos_where_from(m.infos, child_pred(tag@));
        lemma_sort_by_name_from(infos_where(m.infos, child_pred(tag@)));
    }
    let mut k: usize = 0;
    assert(kids.take(0) =~= Seq::<TagInfoView>::empty());
    while k < sorted.len()
        invariant
            registry.wf(),
            m == registry@,
            tag@.len() <= info_bound(m.infos),
            kids == sorted@.map_values(|x: &TagInfo| x@),
            kids == sort_by_name(infos_where(m.infos, child_pred(tag@))),
            next == deeper(depth),
            k <= kids.len(),
            forall|i: int| 0 <= i < kids.len() ==> #[trigger] kids[i].tag.len() > tag@.len() && kids[i].tag.len() <= info_bound(m.infos),
            node_views(nodes@) == before.push(node_spec(m, tag@, depth)) + forest_spec(m, kids.take(k as int), tag@, next),
        decreases kids.len() - k,
    {
        let child = sorted[k];
        assert(kids[k as int] == child@);
        assert(kids[k as int].tag.len() > tag@.len() && kids[k as int].tag.len() <= info_bound(m.infos));
        assert(kids.take(k + 1).drop_last() =~= kids.take(k as int));
        assert(kids.take(k + 1).last() == child@);
        let ghost mid = node_views(nodes@);
        add_node_recursive(registry, &child.tag, next, nodes);
        assert(node_views(nodes@) =~= mid + tree_spec(m, child@.tag, next));
        k = k + 1;
    }
    assert(kids.take(k as int) =~= kids);
}

/// The nodes of the sidebar's tag tree.
pub fn sidebar_nodes(registry: &TagRegistry) -> (r: Vec<SidebarNode>)
    requires
        registry.wf(),
    ensures
        node_views(r@) == sidebar_spec(registry@),
{
    let ghost m = registry@;
    let roots = sort_infos(registry.root_tags());
    let ghost kids = roots@.map_values(|x: &TagInfo| x@);
    proof {
        lemma_info_bound(m.infos);
        lemma_infos_where_from(m.infos, root_pred());
        lemma_sort_by_name_from(infos_where(m.infos, root_pred()));
    }
    let mut nodes: Vec<SidebarNode> = Vec::new();
    let mut k: usize = 0;
    assert(kids.take(0) =~= Seq::<TagInfoView>::empty());
    assert(node_views(nodes@) =~= Seq::<SidebarNodeView>::empty());
    while k < roots.len()
        invariant
            registry.wf(),
            m == registry@,
            kids == roots@.map_values(|x: &TagInfo| x@),
            kids == sort_by_name(infos_where(m.infos, root_pred())),
            k <= kids.len(),
            forall|i: int| 0 <= i < kids.len() ==> #[trigger] kids[i].tag.len() > 0 && kids[i].tag.len() <= info_bound(m.infos),
            node_views(nodes@) == forest_spec(m, kids.take(k as int), Seq::empty(), 0),
        decreases kids.len() - k,
    {
        let root = roots[k];
        assert(kids[k as int] == root@);
        assert(kids[k as int].tag.len() > 0 && kids[k as int].tag.len() <= info_bound(m.infos));
        assert(kids.take(k + 1).drop_last() =~= kids.take(k as int));
        assert(kids.take(k + 1).last() == root@);
        add_node_recursive(registry, &root.tag, 0, &mut nodes);
        k = k + 1;
    }
    assert(kids.take(k as int) =~= kids);
    nodes
}

} // verus!
