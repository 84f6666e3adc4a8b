//! The editor's dock layout: which panels sit, as tabs, in which leaf of
//! the dock tree, and the commands that move them. Screen geometry
//! (rectangles, zone sizes, the drag position) is carried as `f32` bit
//! patterns and computed by the caller.
use crate::float_bits::{f32_clamp, f32_clamp_bits};
use crate::editor::{DockZone, PanelId};
use vstd::prelude::*;

verus! {

/// `Rect::NOTHING`: min at +infinity, max at -infinity (`f32` bits).
pub const RECT_NOTHING: [u32; 4] = [0x7f80_0000, 0x7f80_0000, 0xff80_0000, 0xff80_0000];

/// A node of the dock tree.
#[derive(Debug, Clone, PartialEq, Eq)]
pub enum DockNode {
    /// A leaf holding one or more panels as tabs.
    Leaf {
        tabs: Vec<PanelId>,
        /// Index of the tab shown.
        active_tab: usize,
        /// Screen rectangle: min x, min y, max x, max y.
        rect: [u32; 4],
        /// The zone the leaf is docked to; `None` for a floating window.
        zone: Option<DockZone>,
    },
    /// A split dividing space between two children.
    Split { vertical: bool, split_frac: u32, first: usize, second: usize, rect: [u32; 4] },
}

/// A dock node as a value.
pub enum NodeView {
    Leaf { tabs: Seq<PanelId>, active_tab: usize, rect: [u32; 4], zone: Option<DockZone> },
    Split { vertical: bool, split_frac: u32, first: usize, second: usize, rect: [u32; 4] },
}

pub open spec fn node_view(n: DockNode) -> NodeView {
    match n {
        DockNode::Leaf { tabs, active_tab, rect, zone } => NodeView::Leaf {
            tabs: tabs@,
            active_tab,
            rect,
            zone,
        },
        DockNode::Split { vertical, split_frac, first, second, rect } => NodeView::Split {
            vertical,
            split_frac,
            first,
            second,
            rect,
        },
    }
}

pub open spec fn nodes_view(ns: Seq<DockNode>) -> Seq<NodeView> {
    ns.map_values(|n: DockNode| node_view(n))
}

/// The tabs of a node (a split has none).
pub open spec fn tabs_of(n: NodeView) -> Seq<PanelId> {
    match n {
        NodeView::Leaf { tabs, .. } => tabs,
        NodeView::Split { .. } => Seq::empty(),
    }
}

/// The zone a node is docked to (`None` for splits and floating leaves).
pub open spec fn zone_of(n: NodeView) -> Option<DockZone> {
    match n {
        NodeView::Leaf { zone, .. } => zone,
        NodeView::Split { .. } => None,
    }
}

/// The active tab index of a node (0 for a split).
pub open spec fn active_of(n: NodeView) -> usize {
    match n {
        NodeView::Leaf { active_tab, .. } => active_tab,
        NodeView::Split { .. } => 0,
    }
}

/// A command of the dock UI, applied after the frame is drawn.
#[derive(Debug, Clone, Copy, PartialEq, Eq)]
pub enum DockCmd {
    /// Move a panel to a zone (joining the zone's leaf or creating one).
    DockPanel(PanelId, DockZone),
    /// Undock a panel into a floating window with the given rectangle.
    FloatPanel(PanelId, [u32; 4]),
    /// Hide a panel in the sidebar.
    CollapsePanel(PanelId),
    /// Set a zone's size (`f32` bits); applying it clamps the size to
    /// `120.0..=800.0`.
    ResizeZone(DockZone, u32),
    /// Show tab `.1` of leaf `.0`.
    SetActiveTab(usize, usize),
}

/// Position of a zone in the zone-size table.
pub open spec fn zone_slot(z: DockZone) -> int {
    match z {
        DockZone::Left => 0,
        DockZone::Right => 1,
        DockZone::Bottom => 2,
    }
}

fn zone_slot_exec(z: DockZone) -> (r: usize)
    ensures
        r == zone_slot(z),
{
    match z {
        DockZone::Left => 0,
        DockZone::Right => 1,
        DockZone::Bottom => 2,
    }
}

/// The default tree: a vertical split (fraction 0.5) whose left leaf holds
/// the Outliner, docked left, and whose right leaf holds the Details panel,
/// docked right.
pub open spec fn default_nodes() -> Seq<NodeView> {
    seq![
        NodeView::Split {
            vertical: true,
            split_frac: 0x3f00_0000u32,
            first: 1usize,
            second: 2usize,
            rect: RECT_NOTHING,
        },
        NodeView::Leaf {
            tabs: seq![PanelId::Outliner],
            active_tab: 0usize,
            rect: RECT_NOTHING,
            zone: Some(DockZone::Left),
        },
        NodeView::Leaf {
            tabs: seq![PanelId::Details],
            active_tab: 0usize,
            rect: RECT_NOTHING,
            zone: Some(DockZone::Right),
        },
    ]
}

/// Default zone sizes, `f32` bits of 280 (left), 320 (right), 200 (bottom).
pub open spec fn default_zone_sizes() -> Seq<u32> {
    seq![0x438c_0000u32, 0x43a0_0000u32, 0x4348_0000u32]
}

/// The narrowest a docked zone may be: `120.0` as `f32` bits.
pub const ZONE_SIZE_MIN_BITS: u32 = 0x42f0_0000;

/// The widest a docked zone may be: `800.0` as `f32` bits.
pub const ZONE_SIZE_MAX_BITS: u32 = 0x4448_0000;



// ---------------------------------------------------------------------------
// What the commands do
// ---------------------------------------------------------------------------

/// The first position of `p` in `tabs` from `i` on (`tabs.len()` if none).
pub open spec fn first_pos_from(tabs: Seq<PanelId>, p: PanelId, i: int) -> int
    decreases tabs.len() - i,
{
    if i >= tabs.len() {
        tabs.len() as int
    } else if tabs[i] == p {
        i
    } else {
        first_pos_from(tabs, p, i + 1)
    }
}

pub open spec fn first_pos(tabs: Seq<PanelId>, p: PanelId) -> int {
    first_pos_from(tabs, p, 0)
}

/// A node with the first tab `p` removed; the active tab moves back onto
/// the last tab if it fell off the end.
pub open spec fn strip(n: NodeView, p: PanelId) -> NodeView {
    match n {
        NodeView::Leaf { tabs, active_tab, rect, zone } => if tabs.contains(p) {
            let t2 = tabs.remove(first_pos(tabs, p));
            NodeView::Leaf {
                tabs: t2,
                active_tab: if active_tab >= t2.len() && active_tab > 0 {
                    (t2.len() - 1) as usize
                } else {
                    active_tab
                },
                rect,
                zone,
            }
        } else {
            n
        },
        NodeView::Split { .. } => n,
    }
}

/// Nodes that survive clean-up: every split, and every leaf with a tab.
pub open spec fn kept(n: NodeView) -> bool {
    !(n is Leaf && tabs_of(n).len() == 0)
}

pub open spec fn kept_pred() -> spec_fn(NodeView) -> bool {
    |n: NodeView| kept(n)
}

/// The tree with panel `p` taken out of every leaf and emptied leaves
/// dropped.
pub open spec fn without_panel(ns: Seq<NodeView>, p: PanelId) -> Seq<NodeView> {
    ns.map_values(|n: NodeView| strip(n, p)).filter(kept_pred())
}

/// Taking `p` out must not empty a leaf whose active tab is past its first
/// (the adjustment would step below zero).
pub open spec fn removal_safe(ns: Seq<NodeView>, p: PanelId) -> bool {
    forall|i: int|
        0 <= i < ns.len() ==> !(#[trigger] tabs_of(ns[i]).contains(p) && tabs_of(ns[i]).len() == 1
            && active_of(ns[i]) > 0)
}

/// The first leaf from `i` on that is docked to `z` and has a tab.
pub open spec fn zone_leaf_from(ns: Seq<NodeView>, z: DockZone, i: int) -> Option<int>
    decreases ns.len() - i,
{
    if i >= ns.len() {
        None
    } else if (ns[i] matches NodeView::Leaf { zone, .. } && zone == Some(z)) && tabs_of(ns[i]).len() > 0 {
        Some(i)
    } else {
        zone_leaf_from(ns, z, i + 1)
    }
}

pub open spec fn add_tab(n: NodeView, p: PanelId) -> NodeView {
    match n {
        NodeView::Leaf { tabs, active_tab, rect, zone } => if tabs.contains(p) {
            n
        } else {
            NodeView::Leaf { tabs: tabs.push(p), active_tab, rect, zone }
        },
        NodeView::Split { .. } => n,
    }
}

/// The tree after docking `p` to `z`: `p` leaves its place and joins the
/// zone's first non-empty leaf, or a new leaf docked there.
pub open spec fn docked(ns: Seq<NodeView>, p: PanelId, z: DockZone) -> Seq<NodeView> {
    let r = without_panel(ns, p);
    match zone_leaf_from(r, z, 0) {
        Some(i) => r.update(i, add_tab(r[i], p)),
        None => r.push(
            NodeView::Leaf { tabs: seq![p], active_tab: 0, rect: RECT_NOTHING, zone: Some(z) },
        ),
    }
}

/// The tree after floating `p` in a window at `rect`.
pub open spec fn floated(ns: Seq<NodeView>, p: PanelId, rect: [u32; 4]) -> Seq<NodeView> {
    without_panel(ns, p).push(NodeView::Leaf { tabs: seq![p], active_tab: 0, rect, zone: None })
}

/// The tree after showing tab `tab` of node `leaf` (if that is a leaf).
pub open spec fn with_active_tab(ns: Seq<NodeView>, leaf: usize, tab: usize) -> Seq<NodeView> {
    if leaf < ns.len() {
        match ns[leaf as int] {
            NodeView::Leaf { tabs, rect, zone, .. } => ns.update(
                leaf as int,
                NodeView::Leaf { tabs, active_tab: tab, rect, zone },
            ),
            NodeView::Split { .. } => ns,
        }
    } else {
        ns
    }
}

/// Whether a command may be applied to the tree `ns`.
pub open spec fn cmd_safe(ns: Seq<NodeView>, cmd: DockCmd) -> bool {
    match cmd {
        DockCmd::DockPanel(p, _) => removal_safe(ns, p),
        DockCmd::FloatPanel(p, _) => removal_safe(ns, p),
        DockCmd::CollapsePanel(p) => removal_safe(ns, p),
        _ => true,
    }
}

/// The tree after a command.
pub open spec fn nodes_after(ns: Seq<NodeView>, cmd: DockCmd) -> Seq<NodeView> {
    match cmd {
        DockCmd::DockPanel(p, z) => docked(ns, p, z),
        DockCmd::FloatPanel(p, rect) => floated(ns, p, rect),
        DockCmd::CollapsePanel(p) => without_panel(ns, p),
        DockCmd::ResizeZone(_, _) => ns,
        DockCmd::SetActiveTab(leaf, tab) => with_active_tab(ns, leaf, tab),
    }
}

/// The zone sizes after a command.
pub open spec fn sizes_after(sizes: Seq<u32>, cmd: DockCmd) -> Seq<u32> {
    match cmd {
        DockCmd::ResizeZone(z, size) => sizes.update(
            zone_slot(z),
            f32_clamp(size, ZONE_SIZE_MIN_BITS, ZONE_SIZE_MAX_BITS),
        ),
        _ => sizes,
    }
}

/// The dock layout: the node list (node 0 is the root), zone sizes, the
/// commands gathered this frame and the drag in progress.
#[derive(Debug, Clone)]
pub struct DockState {
    nodes: Vec<DockNode>,
    zone_sizes: [u32; 3],
    cmds: Vec<DockCmd>,
    dragging: Option<PanelId>,
    drag_pos: Option<[u32; 2]>,
    drag_source_leaf: Option<usize>,
}

impl DockState {
    pub closed spec fn spec_nodes(&self) -> Seq<NodeView> {
        nodes_view(self.nodes@)
    }

    /// Zone sizes (`f32` bits) for left, right, bottom.
    pub closed spec fn spec_zone_sizes(&self) -> Seq<u32> {
        self.zone_sizes@
    }

    pub closed spec fn spec_cmds(&self) -> Seq<DockCmd> {
        self.cmds@
    }

    pub closed spec fn spec_dragging(&self) -> Option<PanelId> {
        self.dragging
    }

    pub closed spec fn spec_drag_pos(&self) -> Option<[u32; 2]> {
        self.drag_pos
    }

    pub closed spec fn spec_drag_source(&self) -> Option<usize> {
        self.drag_source_leaf
    }

    /// The default layout.
    pub fn new() -> (r: DockState)
        ensures
            r.spec_nodes() == default_nodes(),
            r.spec_zone_sizes() == default_zone_sizes(),
            r.spec_cmds() == Seq::<DockCmd>::empty(),
            r.spec_dragging() is None,
            r.spec_drag_pos() is None,
            r.spec_drag_source() is None,
    {
        let mut nodes: Vec<DockNode> = Vec::new();
        nodes.push(
            DockNode::Split { vertical: true, split_frac: 0x3f00_0000, first: 1, second: 2, rect: RECT_NOTHING },
        );
        let mut left: Vec<PanelId> = Vec::new();
        left.push(PanelId::Outliner);
        nodes.push(
            DockNode::Leaf { tabs: left, active_tab: 0, rect: RECT_NOTHING, zone: Some(DockZone::Left) },
        );
        let mut right: Vec<PanelId> = Vec::new();
        right.push(PanelId::Details);
        nodes.push(
            DockNode::Leaf { tabs: right, active_tab: 0, rect: RECT_NOTHING, zone: Some(DockZone::Right) },
        );
        let r = DockState {
            nodes,
            zone_sizes: [0x438c_0000, 0x43a0_0000, 0x4348_0000],
            cmds: Vec::new(),
            dragging: None,
            drag_pos: None,
            drag_source_leaf: None,
        };
        assert(r.spec_nodes() =~= default_nodes());
        assert(r.spec_zone_sizes() =~= default_zone_sizes());
        r
    }

    /// Queues a command for `apply_cmd` after the frame.
    pub fn push_cmd(&mut self, cmd: DockCmd)
        ensures
            final(self).spec_cmds() == old(self).spec_cmds().push(cmd),
            final(self).spec_nodes() == old(self).spec_nodes(),
            final(self).spec_zone_sizes() == old(self).spec_zone_sizes(),
            final(self).spec_dragging() == old(self).spec_dragging(),
            final(self).spec_drag_pos() == old(self).spec_drag_pos(),
            final(self).spec_drag_source() == old(self).spec_drag_source(),
    {
        self.cmds.push(cmd);
    }

    /// Takes every queued command, oldest first, leaving none.
    pub fn drain_cmds(&mut self) -> (r: Vec<DockCmd>)
        ensures
            r@ == old(self).spec_cmds(),
            final(self).spec_cmds() == Seq::<DockCmd>::empty(),
            final(self).spec_nodes() == old(self).spec_nodes(),
            final(self).spec_zone_sizes() == old(self).spec_zone_sizes(),
            final(self).spec_dragging() == old(self).spec_dragging(),
            final(self).spec_drag_pos() == old(self).spec_drag_pos(),
            final(self).spec_drag_source() == old(self).spec_drag_source(),
    {
        let mut taken: Vec<DockCmd> = Vec::new();
        std::mem::swap(&mut taken, &mut self.cmds);
        taken
    }

    /// The node list, root first.
    pub fn nodes(&self) -> (r: &Vec<DockNode>)
        ensures
            nodes_view(r@) == self.spec_nodes(),
    {
        &self.nodes
    }

    /// A zone's size (`f32` bits).
    pub fn zone_size(&self, zone: DockZone) -> (r: u32)
        ensures
            r == self.spec_zone_sizes()[zone_slot(zone)],
    {
        self.zone_sizes[zone_slot_exec(zone)]
    }

    /// Sets the screen rectangle of leaf `idx`; other nodes are unchanged,
    /// as is everything when `idx` is not a leaf.
    pub fn set_leaf_rect(&mut self, idx: usize, rect: [u32; 4])
        ensures
            final(self).spec_nodes().len() == old(self).spec_nodes().len(),
            forall|i: int|
                0 <= i < old(self).spec_nodes().len() && i != idx ==> final(self).spec_nodes()[i]
                    == old(self).spec_nodes()[i],
            idx < old(self).spec_nodes().len() ==> final(self).spec_nodes()[idx as int] == match old(
                self,
            ).spec_nodes()[idx as int] {
                NodeView::Leaf { tabs, active_tab, zone, .. } => NodeView::Leaf {
                    tabs,
                    active_tab,
                    rect,
                    zone,
                },
                other => other,
            },
            final(self).spec_zone_sizes() == old(self).spec_zone_sizes(),
            final(self).spec_cmds() == old(self).spec_cmds(),
            final(self).spec_dragging() == old(self).spec_dragging(),
            final(self).spec_drag_pos() == old(self).spec_drag_pos(),
            final(self).spec_drag_source() == old(self).spec_drag_source(),
    {
        if idx < self.nodes.len() {
            let node = self.nodes.remove(idx);
            let updated = match node {
                DockNode::Leaf { tabs, active_tab, rect: _, zone } => DockNode::Leaf {
                    tabs,
                    active_tab,
                    rect,
                    zone,
                },
                other => other,
            };
            self.nodes.insert(idx, updated);
            assert(self.spec_nodes() =~= old(self).spec_nodes().update(
                idx as int,
                node_view(updated),
            ));
        }
    }

    // ── Drag and drop ──

    /// Starts dragging a panel.
    pub fn start_drag(&mut self, panel_id: PanelId)
        ensures
            final(self).spec_dragging() == Some(panel_id),
            final(self).spec_drag_pos() == old(self).spec_drag_pos(),
            final(self).spec_drag_source() == old(self).spec_drag_source(),
            final(self).spec_nodes() == old(self).spec_nodes(),
            final(self).spec_zone_sizes() == old(self).spec_zone_sizes(),
            final(self).spec_cmds() == old(self).spec_cmds(),
    {
        self.dragging = Some(panel_id);
    }

    /// Records where the drag is (`f32` bits of x and y).
    pub fn update_drag(&mut self, pos: [u32; 2])
        ensures
            final(self).spec_drag_pos() == Some(pos),
            final(self).spec_dragging() == old(self).spec_dragging(),
            final(self).spec_drag_source() == old(self).spec_drag_source(),
            final(self).spec_nodes() == old(self).spec_nodes(),
            final(self).spec_zone_sizes() == old(self).spec_zone_sizes(),
            final(self).spec_cmds() == old(self).spec_cmds(),
    {
        self.drag_pos = Some(pos);
    }

    /// Ends the drag, forgetting panel, position and source leaf.
    pub fn end_drag(&mut self)
        ensures
            final(self).spec_dragging() is None,
            final(self).spec_drag_pos() is None,
            final(self).spec_drag_source() is None,
            final(self).spec_nodes() == old(self).spec_nodes(),
            final(self).spec_zone_sizes() == old(self).spec_zone_sizes(),
            final(self).spec_cmds() == old(self).spec_cmds(),
    {
        self.dragging = None;
        self.drag_pos = None;
        self.drag_source_leaf = None;
    }

    pub fn is_dragging(&self) -> (r: bool)
        ensures
            r == self.spec_dragging() is Some,
    {
        self.dragging.is_some()
    }

    pub fn drag_panel(&self) -> (r: Option<PanelId>)
        ensures
            r == self.spec_dragging(),
    {
        self.dragging
    }

    pub fn drag_pos(&self) -> (r: Option<[u32; 2]>)
        ensures
            r == self.spec_drag_pos(),
    {
        self.drag_pos
    }
}

impl Default for DockState {
    fn default() -> (r: DockState)
        ensures
            r.spec_nodes() == default_nodes(),
            r.spec_zone_sizes() == default_zone_sizes(),
            r.spec_cmds() == Seq::<DockCmd>::empty(),
            r.spec_dragging() is None,
            r.spec_drag_pos() is None,
            r.spec_drag_source() is None,
    {
        DockState::new()
    }
}

fn find_tab(tabs: &Vec<PanelId>, p: PanelId) -> (r: usize)
    ensures
        r == first_pos(tabs@, p),
        r <= tabs@.len(),
        r < tabs@.len() <==> tabs@.contains(p),
{
    let mut i: usize = 0;
    while i < tabs.len()
        invariant
            i <= tabs@.len(),
            first_pos(tabs@, p) == first_pos_from(tabs@, p, i as int),
            forall|j: int| 0 <= j < i ==> tabs@[j] != p,
        decreases tabs@.len() - i,
    {
        if tabs[i] == p {
            return i;
        }
        i = i + 1;
    }
    i
}

fn strip_node(n: DockNode, p: PanelId) -> (r: DockNode)
    requires
        !(tabs_of(node_view(n)).contains(p) && tabs_of(node_view(n)).len() == 1 && active_of(
            node_view(n),
        ) > 0),
    ensures
        node_view(r) == strip(node_view(n), p),
{
    match n {
        DockNode::Leaf { mut tabs, active_tab, rect, zone } => {
            let pos = find_tab(&tabs, p);
            if pos < tabs.len() {
                tabs.remove(pos);
                let active = if active_tab >= tabs.len() && active_tab > 0 {
                    tabs.len() - 1
                } else {
                    active_tab
                };
                DockNode::Leaf { tabs, active_tab: active, rect, zone }
            } else {
                DockNode::Leaf { tabs, active_tab, rect, zone }
            }
        },
        other => other,
    }
}

fn is_kept(n: &DockNode) -> (r: bool)
    ensures
        r == kept(node_view(*n)),
{
    match n {
        DockNode::Leaf { tabs, .. } => tabs.len() > 0,
        DockNode::Split { .. } => true,
    }
}

impl DockState {
    /// Whether taking `panel` out of the tree is safe (see `removal_safe`).
    pub fn panel_removal_is_safe(&self, panel: PanelId) -> (r: bool)
        ensures
            r == removal_safe(self.spec_nodes(), panel),
    {
        let ghost ns = self.spec_nodes();
        let mut i: usize = 0;
        while i < self.nodes.len()
            invariant
                ns == self.spec_nodes(),
                ns.len() == self.nodes@.len(),
                i <= ns.len(),
                forall|j: int|
                    0 <= j < i ==> !(#[trigger] tabs_of(ns[j]).contains(panel) && tabs_of(ns[j]).len()
                        == 1 && active_of(ns[j]) > 0),
            decreases ns.len() - i,
        {
            match &self.nodes[i] {
                DockNode::Leaf { tabs, active_tab, .. } => {
                    if tabs.len() == 1 && tabs[0] == panel && *active_tab > 0 {
                        assert(tabs_of(ns[i as int]).contains(panel)) by {
                            assert(tabs_of(ns[i as int])[0] == panel);
                        }
                        return false;
                    }
                    assert(tabs_of(ns[i as int]).len() == 1 && tabs_of(ns[i as int]).contains(panel)
                        ==> tabs@[0] == panel);
                },
                DockNode::Split { .. } => {},
            }
            i = i + 1;
        }
        true
    }

    /// Takes `panel` out of every leaf and drops leaves left empty.
    fn remove_panel_from_all(&mut self, panel: PanelId)
        requires
            removal_safe(old(self).spec_nodes(), panel),
        ensures
            final(self).spec_nodes() == without_panel(old(self).spec_nodes(), panel),
            final(self).spec_zone_sizes() == old(self).spec_zone_sizes(),
            final(self).spec_cmds() == old(self).spec_cmds(),
            final(self).spec_dragging() == old(self).spec_dragging(),
            final(self).spec_drag_pos() == old(self).spec_drag_pos(),
            final(self).spec_drag_source() == old(self).spec_drag_source(),
    {
        let ghost ns = self.spec_nodes();
        let ghost stripped = ns.map_values(|n: NodeView| strip(n, panel));
        let mut pending: Vec<DockNode> = Vec::new();
        std::mem::swap(&mut pending, &mut self.nodes);
        let ghost orig = pending@;
        let count = pending.len();
        let mut i: usize = 0;
        assert(nodes_view(self.nodes@) =~= stripped.take(0).filter(kept_pred()));
        while pending.len() > 0
            invariant
                ns == nodes_view(orig),
                stripped == ns.map_values(|n: NodeView| strip(n, panel)),
                removal_safe(ns, panel),
                count == orig.len(),
                i + pending@.len() == count,
                pending@ == orig.skip(i as int),
                nodes_view(self.nodes@) == stripped.take(i as int).filter(kept_pred()),
                self.zone_sizes == old(self).zone_sizes,
                self.cmds == old(self).cmds,
                self.dragging == old(self).dragging,
                self.drag_pos == old(self).drag_pos,
                self.drag_source_leaf == old(self).drag_source_leaf,
            decreases pending@.len(),
        {
            let n = pending.remove(0);
            assert(n == orig[i as int]);
            assert(pending@ =~= orig.skip(i + 1));
            assert(node_view(n) == ns[i as int]);
            let stripped_node = strip_node(n, panel);
            let ghost before = nodes_view(self.nodes@);
            proof {
                assert(stripped.take(i + 1).drop_last() =~= stripped.take(i as int));
                assert(stripped.take(i + 1).last() == node_view(stripped_node));
                reveal_with_fuel(Seq::filter, 1);
            }
            if is_kept(&stripped_node) {
                self.nodes.push(stripped_node);
                assert(nodes_view(self.nodes@) =~= before.push(node_view(stripped_node)));
            }
            i = i + 1;
        }
        assert(stripped.take(count as int) =~= stripped);
    }
}

/// A zone leaf found from `i` on lies at or after `i`, within the tree.
pub proof fn lemma_zone_leaf_from_bounds(ns: Seq<NodeView>, z: DockZone, i: int)
    ensures
        zone_leaf_from(ns, z, i) matches Some(k) ==> (i <= k < ns.len() && tabs_of(ns[k]).len() > 0
            && zone_of(ns[k]) == Some(z) && ns[k] is Leaf),
    decreases ns.len() - i,
{
    if i < ns.len() {
        lemma_zone_leaf_from_bounds(ns, z, i + 1);
    }
}

fn add_tab_node(n: DockNode, p: PanelId) -> (r: DockNode)
    ensures
        node_view(r) == add_tab(node_view(n), p),
{
    match n {
        DockNode::Leaf { tabs, active_tab, rect, zone } => {
            let ghost t0 = tabs@;
            let mut tabs = tabs;
            let pos = find_tab(&tabs, p);
            if pos == tabs.len() {
                tabs.push(p);
                assert(!t0.contains(p));
            } else {
                assert(t0.contains(p));
            }
            DockNode::Leaf { tabs, active_tab, rect, zone }
        },
        other => other,
    }
}

impl DockState {
    fn find_zone_leaf(&self, zone: DockZone) -> (r: Option<usize>)
        ensures
            match zone_leaf_from(self.spec_nodes(), zone, 0) {
                Some(i) => r == Some(i as usize),
                None => r is None,
            },
    {
        let ghost ns = self.spec_nodes();
        let mut i: usize = 0;
        while i < self.nodes.len()
            invariant
                ns == self.spec_nodes(),
                ns.len() == self.nodes@.len(),
                i <= ns.len(),
                zone_leaf_from(ns, zone, 0) == zone_leaf_from(ns, zone, i as int),
            decreases ns.len() - i,
        {
            match &self.nodes[i] {
                DockNode::Leaf { tabs, zone: z, .. } => {
                    if *z == Some(zone) && tabs.len() > 0 {
                        return Some(i);
                    }
                },
                DockNode::Split { .. } => {},
            }
            i = i + 1;
        }
        None
    }

    fn dock_panel_to_zone(&mut self, panel_id: PanelId, zone: DockZone)
        requires
            removal_safe(old(self).spec_nodes(), panel_id),
        ensures
            final(self).spec_nodes() == docked(old(self).spec_nodes(), panel_id, zone),
            final(self).spec_zone_sizes() == old(self).spec_zone_sizes(),
            final(self).spec_cmds() == old(self).spec_cmds(),
            final(self).spec_dragging() == old(self).spec_dragging(),
            final(self).spec_drag_pos() == old(self).spec_drag_pos(),
            final(self).spec_drag_source() == old(self).spec_drag_source(),
    {
        self.remove_panel_from_all(panel_id);
        let ghost r = self.spec_nodes();
        let node_count = self.nodes.len();
        proof {
            lemma_zone_leaf_from_bounds(r, zone, 0);
            assert(r.len() == node_count);
        }
        let target = match self.find_zone_leaf(zone) {
            Some(idx) => idx,
            None => {
                let idx = self.nodes.len();
                self.nodes.push(
                    DockNode::Leaf { tabs: Vec::new(), active_tab: 0, rect: RECT_NOTHING, zone: Some(zone) },
                );
                idx
            },
        };
        let ghost mid = self.spec_nodes();
        proof {
            if let Some(k) = zone_leaf_from(r, zone, 0) {
                lemma_zone_leaf_from_bounds(r, zone, 0);
            }
        }
        let node = self.nodes.remove(target);
        let ghost nv = node_view(node);
        let updated = add_tab_node(node, panel_id);
        self.nodes.insert(target, updated);
        proof {
            assert(nv == mid[target as int]);
            assert(self.spec_nodes() =~= mid.update(target as int, add_tab(nv, panel_id)));
            match zone_leaf_from(r, zone, 0) {
                Some(k) => {
                    assert(mid == r);
                    assert(target == k);
                },
                None => {
                    assert(mid =~= r.push(
                        NodeView::Leaf {
                            tabs: Seq::empty(),
                            active_tab: 0,
                            rect: RECT_NOTHING,
                            zone: Some(zone),
                        },
                    ));
                    assert(Seq::<PanelId>::empty().push(panel_id) =~= seq![panel_id]);
                    assert(self.spec_nodes() =~= r.push(
                        NodeView::Leaf {
                            tabs: seq![panel_id],
                            active_tab: 0,
                            rect: RECT_NOTHING,
                            zone: Some(zone),
                        },
                    ));
                },
            }
        }
    }
}

/// Whether some leaf docked to `z` has a tab.
pub open spec fn zone_occupied(ns: Seq<NodeView>, z: DockZone) -> bool {
    exists|i: int| 0 <= i < ns.len() && ns[i] is Leaf && tabs_of(ns[i]).len() > 0 && #[trigger] zone_of(ns[i]) == Some(z)
}

impl DockState {
    fn float_panel(&mut self, panel_id: PanelId, rect: [u32; 4])
        requires
            removal_safe(old(self).spec_nodes(), panel_id),
        ensures
            final(self).spec_nodes() == floated(old(self).spec_nodes(), panel_id, rect),
            final(self).spec_zone_sizes() == old(self).spec_zone_sizes(),
            final(self).spec_cmds() == old(self).spec_cmds(),
            final(self).spec_dragging() == old(self).spec_dragging(),
            final(self).spec_drag_pos() == old(self).spec_drag_pos(),
            final(self).spec_drag_source() == old(self).spec_drag_source(),
    {
        self.remove_panel_from_all(panel_id);
        let ghost r = self.spec_nodes();
        let mut tabs: Vec<PanelId> = Vec::new();
        tabs.push(panel_id);
        self.nodes.push(DockNode::Leaf { tabs, active_tab: 0, rect, zone: None });
        assert(tabs@ =~= seq![panel_id]);
        assert(self.spec_nodes() =~= floated(old(self).spec_nodes(), panel_id, rect));
    }

    fn collapse_panel(&mut self, panel_id: PanelId)
        requires
            removal_safe(old(self).spec_nodes(), panel_id),
        ensures
            final(self).spec_nodes() == without_panel(old(self).spec_nodes(), panel_id),
            final(self).spec_zone_sizes() == old(self).spec_zone_sizes(),
            final(self).spec_cmds() == old(self).spec_cmds(),
            final(self).spec_dragging() == old(self).spec_dragging(),
            final(self).spec_drag_pos() == old(self).spec_drag_pos(),
            final(self).spec_drag_source() == old(self).spec_drag_source(),
    {
        self.remove_panel_from_all(panel_id);
    }

    fn set_active_tab(&mut self, leaf_idx: usize, tab_idx: usize)
        ensures
            final(self).spec_nodes() == with_active_tab(old(self).spec_nodes(), leaf_idx, tab_idx),
            final(self).spec_zone_sizes() == old(self).spec_zone_sizes(),
            final(self).spec_cmds() == old(self).spec_cmds(),
            final(self).spec_dragging() == old(self).spec_dragging(),
            final(self).spec_drag_pos() == old(self).spec_drag_pos(),
            final(self).spec_drag_source() == old(self).spec_drag_source(),
    {
        if leaf_idx < self.nodes.len() {
            let node = self.nodes.remove(leaf_idx);
            let ghost nv = node_view(node);
            let updated = match node {
                DockNode::Leaf { tabs, active_tab: _, rect, zone } => DockNode::Leaf {
                    tabs,
                    active_tab: tab_idx,
                    rect,
                    zone,
                },
                other => other,
            };
            self.nodes.insert(leaf_idx, updated);
            proof {
                assert(nv == old(self).spec_nodes()[leaf_idx as int]);
                if nv is Leaf {
                    assert(self.spec_nodes() =~= old(self).spec_nodes().update(
                        leaf_idx as int,
                        node_view(updated),
                    ));
                } else {
                    assert(self.spec_nodes() =~= old(self).spec_nodes());
                }
            }
        }
    }

    /// Applies a command: moves, floats or collapses a panel, resizes a
    /// zone, or switches a leaf's tab.
    pub fn apply_cmd(&mut self, cmd: DockCmd)
        requires
            cmd_safe(old(self).spec_nodes(), cmd),
        ensures
            final(self).spec_nodes() == nodes_after(old(self).spec_nodes(), cmd),
            final(self).spec_zone_sizes() == sizes_after(old(self).spec_zone_sizes(), cmd),
            final(self).spec_cmds() == old(self).spec_cmds(),
            final(self).spec_dragging() == old(self).spec_dragging(),
            final(self).spec_drag_pos() == old(self).spec_drag_pos(),
            final(self).spec_drag_source() == old(self).spec_drag_source(),
    {
        match cmd {
            DockCmd::DockPanel(panel_id, zone) => {
                self.dock_panel_to_zone(panel_id, zone);
            },
            DockCmd::FloatPanel(panel_id, rect) => {
                self.float_panel(panel_id, rect);
            },
            DockCmd::CollapsePanel(panel_id) => {
                self.collapse_panel(panel_id);
            },
            DockCmd::ResizeZone(zone, size) => {
                let slot = zone_slot_exec(zone);
                let clamped = f32_clamp_bits(size, ZONE_SIZE_MIN_BITS, ZONE_SIZE_MAX_BITS);
                self.zone_sizes[slot] = clamped;
                assert(self.spec_zone_sizes() =~= old(self).spec_zone_sizes().update(
                    slot as int,
                    clamped,
                ));
            },
            DockCmd::SetActiveTab(leaf_idx, tab_idx) => {
                self.set_active_tab(leaf_idx, tab_idx);
            },
        }
    }

    /// Whether any leaf with a tab is docked to `zone`.
    pub fn zone_has_tabs(&self, zone: DockZone) -> (r: bool)
        ensures
            r == zone_occupied(self.spec_nodes(), zone),
    {
        let ghost ns = self.spec_nodes();
        let mut i: usize = 0;
        while i < self.nodes.len()
            invariant
                ns == self.spec_nodes(),
                ns.len() == self.nodes@.len(),
                i <= ns.len(),
                forall|j: int|
                    0 <= j < i ==> !(ns[j] is Leaf && tabs_of(ns[j]).len() > 0 && #[trigger] zone_of(ns[j])
                        == Some(zone)),
            decreases ns.len() - i,
        {
            match &self.nodes[i] {
                DockNode::Leaf { tabs, zone: z, .. } => {
                    if tabs.len() > 0 && *z == Some(zone) {
                        assert(zone_of(ns[i as int]) == Some(zone));
                        return true;
                    }
                },
                DockNode::Split { .. } => {},
            }
            i = i + 1;
        }
        false
    }
}

// ---------------------------------------------------------------------------
// Laws
// ---------------------------------------------------------------------------

/// Whether some node of the tree has `p` among its tabs.
pub open spec fn in_tree(ns: Seq<NodeView>, p: PanelId) -> bool {
    exists|i: int| 0 <= i < ns.len() && #[trigger] tabs_of(ns[i]).contains(p)
}

/// No leaf lists a panel twice.
pub open spec fn tabs_distinct(ns: Seq<NodeView>) -> bool {
    forall|i: int| 0 <= i < ns.len() ==> (#[trigger] tabs_of(ns[i])).no_duplicates()
}

proof fn lemma_first_pos_from(tabs: Seq<PanelId>, p: PanelId, i: int)
    requires
        0 <= i,
    ensures
        i <= first_pos_from(tabs, p, i) <= tabs.len() || (i > tabs.len() && first_pos_from(tabs, p, i) == tabs.len()),
        (exists|k: int| i <= k < tabs.len() && tabs[k] == p) ==> (i <= first_pos_from(tabs, p, i)
            < tabs.len() && tabs[first_pos_from(tabs, p, i)] == p),
    decreases tabs.len() - i,
{
    if i < tabs.len() && tabs[i] != p {
        lemma_first_pos_from(tabs, p, i + 1);
        if exists|k: int| i <= k < tabs.len() && tabs[k] == p {
            let k = choose|k: int| i <= k < tabs.len() && tabs[k] == p;
            assert(k != i);
            assert(i + 1 <= k < tabs.len() && tabs[k] == p);
        }
    }
}

proof fn lemma_strip(n: NodeView, p: PanelId)
    requires
        tabs_of(n).no_duplicates(),
    ensures
        !tabs_of(strip(n, p)).contains(p),
        forall|q: PanelId| q != p ==> tabs_of(strip(n, p)).contains(q) == tabs_of(n).contains(q),
        tabs_of(strip(n, p)).no_duplicates(),
        zone_of(strip(n, p)) == zone_of(n),
        strip(n, p) is Leaf == n is Leaf,
{
    let tabs = tabs_of(n);
    if n is Leaf && tabs.contains(p) {
        let k0 = choose|k: int| 0 <= k < tabs.len() && tabs[k] == p;
        lemma_first_pos_from(tabs, p, 0);
        let k = first_pos(tabs, p);
        assert(0 <= k < tabs.len() && tabs[k] == p);
        let t2 = tabs.remove(k);
        tabs.remove_ensures(k);
        assert(tabs_of(strip(n, p)) == t2);
        assert forall|j: int| 0 <= j < t2.len() implies t2[j] != p by {
            if j < k {
                assert(t2[j] == tabs[j]);
            } else {
                assert(t2[j] == tabs[j + 1]);
            }
        }
        assert forall|q: PanelId| q != p implies t2.contains(q) == tabs.contains(q) by {
            if tabs.contains(q) {
                let m = choose|m: int| 0 <= m < tabs.len() && tabs[m] == q;
                if m < k {
                    assert(t2[m] == q);
                } else {
                    assert(m != k);
                    assert(t2[m - 1] == q);
                }
            }
            if t2.contains(q) {
                let m = choose|m: int| 0 <= m < t2.len() && t2[m] == q;
                if m < k {
                    assert(tabs[m] == q);
                } else {
                    assert(tabs[m + 1] == q);
                }
            }
        }
        assert forall|a: int, b: int| 0 <= a < t2.len() && 0 <= b < t2.len() && a != b implies t2[a]
            != t2[b] by {
            let a2 = if a < k { a } else { a + 1 };
            let b2 = if b < k { b } else { b + 1 };
            assert(t2[a] == tabs[a2]);
            assert(t2[b] == tabs[b2]);
        }
    }
}

/// The nodes left after taking `p` out are exactly the stripped nodes that
/// still hold a tab (or are splits).
proof fn lemma_without_panel_members(ns: Seq<NodeView>, p: PanelId)
    ensures
        forall|k: int|
            0 <= k < without_panel(ns, p).len() ==> exists|m: int|
                0 <= m < ns.len() && #[trigger] without_panel(ns, p)[k] == strip(ns[m], p),
        forall|m: int|
            0 <= m < ns.len() && kept(strip(ns[m], p)) ==> without_panel(ns, p).contains(
                #[trigger] strip(ns[m], p),
            ),
{
    let mapped = ns.map_values(|n: NodeView| strip(n, p));
    let r = without_panel(ns, p);
    assert forall|k: int| 0 <= k < r.len() implies exists|m: int|
        0 <= m < ns.len() && #[trigger] r[k] == strip(ns[m], p) by {
        assert(r.contains(r[k]));
        mapped.lemma_filter_contains_rev(kept_pred(), r[k]);
        let m = choose|m: int| 0 <= m < mapped.len() && mapped[m] == r[k];
        assert(r[k] == strip(ns[m], p));
    }
    assert forall|m: int| 0 <= m < ns.len() && kept(strip(ns[m], p)) implies r.contains(
        #[trigger] strip(ns[m], p),
    ) by {
        assert(mapped[m] == strip(ns[m], p));
        mapped.lemma_filter_contains(kept_pred(), m);
    }
}

/// Collapsing a panel takes it out of the tree and leaves every other
/// panel where it was, as long as no leaf lists a panel twice; that stays
/// so.
pub proof fn law_collapse_removes_only_that_panel(ns: Seq<NodeView>, p: PanelId)
    requires
        tabs_distinct(ns),
    ensures
        !in_tree(without_panel(ns, p), p),
        forall|q: PanelId| q != p ==> (in_tree(without_panel(ns, p), q) <==> in_tree(ns, q)),
        tabs_distinct(without_panel(ns, p)),
{
    let r = without_panel(ns, p);
    lemma_without_panel_members(ns, p);
    assert forall|k: int| 0 <= k < r.len() implies !tabs_of(r[k]).contains(p) && tabs_of(r[k]).no_duplicates() by {
        let m = choose|m: int| 0 <= m < ns.len() && r[k] == strip(ns[m], p);
        lemma_strip(ns[m], p);
    }
    assert forall|q: PanelId| q != p implies (in_tree(r, q) <==> in_tree(ns, q)) by {
        if in_tree(r, q) {
            let k = choose|k: int| 0 <= k < r.len() && tabs_of(r[k]).contains(q);
            let m = choose|m: int| 0 <= m < ns.len() && r[k] == strip(ns[m], p);
            lemma_strip(ns[m], p);
            assert(tabs_of(ns[m]).contains(q));
        }
        if in_tree(ns, q) {
            let m = choose|m: int| 0 <= m < ns.len() && tabs_of(ns[m]).contains(q);
            lemma_strip(ns[m], p);
            assert(tabs_of(strip(ns[m], p)).contains(q));
            assert(kept(strip(ns[m], p)));
            assert(r.contains(strip(ns[m], p)));
            let k = choose|k: int| 0 <= k < r.len() && r[k] == strip(ns[m], p);
            assert(tabs_of(r[k]).contains(q));
        }
    }
}

/// Docking a panel to a zone puts it in the tree, only in leaves docked to
/// that zone, and leaves every other panel where it was.
pub proof fn law_dock_puts_panel_in_zone(ns: Seq<NodeView>, p: PanelId, z: DockZone)
    requires
        tabs_distinct(ns),
    ensures
        in_tree(docked(ns, p, z), p),
        forall|i: int|
            0 <= i < docked(ns, p, z).len() && #[trigger] tabs_of(docked(ns, p, z)[i]).contains(p)
                ==> zone_of(docked(ns, p, z)[i]) == Some(z),
        forall|q: PanelId| q != p ==> (in_tree(docked(ns, p, z), q) <==> in_tree(ns, q)),
        tabs_distinct(docked(ns, p, z)),
{
    let r = without_panel(ns, p);
    law_collapse_removes_only_that_panel(ns, p);
    let d = docked(ns, p, z);
    lemma_zone_leaf_from_bounds(r, z, 0);
    match zone_leaf_from(r, z, 0) {
        Some(i) => {
            let added = add_tab(r[i], p);
            assert(!tabs_of(r[i]).contains(p));
            assert(tabs_of(added) == tabs_of(r[i]).push(p));
            assert(d[i] == added);
            assert(tabs_of(d[i])[tabs_of(r[i]).len() as int] == p);
            assert(tabs_of(d[i]).contains(p));
            assert(in_tree(d, p));
            assert forall|j: int| 0 <= j < d.len() && #[trigger] tabs_of(d[j]).contains(p) implies zone_of(d[j]) == Some(z) by {
                if j != i {
                    assert(d[j] == r[j]);
                }
            }
            let t = tabs_of(r[i]);
            assert(tabs_of(d[i]) == t.push(p));
            assert forall|q: PanelId| q != p implies (in_tree(d, q) <==> in_tree(r, q)) by {
                if in_tree(d, q) {
                    let j = choose|j: int| 0 <= j < d.len() && tabs_of(d[j]).contains(q);
                    if j == i {
                        let m = choose|m: int| 0 <= m < t.push(p).len() && t.push(p)[m] == q;
                        assert(m != t.len());
                        assert(t[m] == q);
                        assert(tabs_of(r[i]).contains(q));
                    } else {
                        assert(d[j] == r[j]);
                        assert(tabs_of(r[j]).contains(q));
                    }
                    assert(in_tree(r, q));
                }
                if in_tree(r, q) {
                    let j = choose|j: int| 0 <= j < r.len() && tabs_of(r[j]).contains(q);
                    if j == i {
                        let m = choose|m: int| 0 <= m < t.len() && t[m] == q;
                        assert(t.push(p)[m] == q);
                        assert(tabs_of(d[i]).contains(q));
                    } else {
                        assert(d[j] == r[j]);
                        assert(tabs_of(d[j]).contains(q));
                    }
                    assert(in_tree(d, q));
                }
            }
            assert forall|j: int| 0 <= j < d.len() implies (#[trigger] tabs_of(d[j])).no_duplicates() by {
                if j == i {
                    let t = tabs_of(r[i]);
                    assert forall|a: int, b: int|
                        0 <= a < t.push(p).len() && 0 <= b < t.push(p).len() && a != b implies t.push(p)[a]
                            != t.push(p)[b] by {
                        if a == t.len() {
                            assert(t.push(p)[b] == t[b]);
                        } else if b == t.len() {
                            assert(t.push(p)[a] == t[a]);
                        }
                    }
                } else {
                    assert(d[j] == r[j]);
                }
            }
        },
        None => {
            let leaf = NodeView::Leaf { tabs: seq![p], active_tab: 0, rect: RECT_NOTHING, zone: Some(z) };
            assert(d == r.push(leaf));
            assert(tabs_of(d[r.len() as int]) == seq![p]);
            assert(tabs_of(d[r.len() as int])[0] == p);
            assert(tabs_of(d[r.len() as int]).contains(p));
            assert(in_tree(d, p));
            assert forall|j: int| 0 <= j < d.len() && #[trigger] tabs_of(d[j]).contains(p) implies zone_of(d[j]) == Some(z) by {
                if j < r.len() {
                    assert(d[j] == r[j]);
                }
            }
            assert forall|q: PanelId| q != p implies (in_tree(d, q) <==> in_tree(r, q)) by {
                if in_tree(d, q) {
                    let j = choose|j: int| 0 <= j < d.len() && tabs_of(d[j]).contains(q);
                    if j < r.len() {
                        assert(d[j] == r[j]);
                    } else {
                        assert(tabs_of(d[j])[0] == p);
                    }
                }
                if in_tree(r, q) {
                    let j = choose|j: int| 0 <= j < r.len() && tabs_of(r[j]).contains(q);
                    assert(d[j] == r[j]);
                }
            }
            assert forall|j: int| 0 <= j < d.len() implies (#[trigger] tabs_of(d[j])).no_duplicates() by {
                if j < r.len() {
                    assert(d[j] == r[j]);
                }
            }
        },
    }
}

/// Floating a panel puts it alone in a new floating leaf at the end of the
/// tree, takes it out of everywhere else, and leaves every other panel
/// where it was.
pub proof fn law_float_makes_own_window(ns: Seq<NodeView>, p: PanelId, rect: [u32; 4])
    requires
        tabs_distinct(ns),
    ensures
        floated(ns, p, rect).last() == (NodeView::Leaf { tabs: seq![p], active_tab: 0, rect, zone: None }),
        forall|i: int|
            0 <= i < floated(ns, p, rect).len() && #[trigger] tabs_of(floated(ns, p, rect)[i]).contains(p)
                ==> i == floated(ns, p, rect).len() - 1,
        forall|q: PanelId| q != p ==> (in_tree(floated(ns, p, rect), q) <==> in_tree(ns, q)),
        tabs_distinct(floated(ns, p, rect)),
{
    let r = without_panel(ns, p);
    law_collapse_removes_only_that_panel(ns, p);
    let f = floated(ns, p, rect);
    let leaf = NodeView::Leaf { tabs: seq![p], active_tab: 0, rect, zone: None };
    assert(f == r.push(leaf));
    assert forall|i: int| 0 <= i < f.len() && #[trigger] tabs_of(f[i]).contains(p) implies i == f.len() - 1 by {
        if i < r.len() {
            assert(f[i] == r[i]);
        }
    }
    assert forall|q: PanelId| q != p implies (in_tree(f, q) <==> in_tree(r, q)) by {
        if in_tree(f, q) {
            let j = choose|j: int| 0 <= j < f.len() && tabs_of(f[j]).contains(q);
            if j < r.len() {
                assert(f[j] == r[j]);
            } else {
                assert(tabs_of(f[j])[0] == p);
            }
        }
        if in_tree(r, q) {
            let j = choose|j: int| 0 <= j < r.len() && tabs_of(r[j]).contains(q);
            assert(f[j] == r[j]);
        }
    }
    assert forall|j: int| 0 <= j < f.len() implies (#[trigger] tabs_of(f[j])).no_duplicates() by {
        if j < r.len() {
            assert(f[j] == r[j]);
        }
    }
}

/// Every command keeps each leaf free of duplicate tabs.
pub proof fn law_commands_keep_tabs_distinct(ns: Seq<NodeView>, cmd: DockCmd)
    requires
        tabs_distinct(ns),
    ensures
        tabs_distinct(nodes_after(ns, cmd)),
{
    match cmd {
        DockCmd::DockPanel(p, z) => law_dock_puts_panel_in_zone(ns, p, z),
        DockCmd::FloatPanel(p, rect) => law_float_makes_own_window(ns, p, rect),
        DockCmd::CollapsePanel(p) => law_collapse_removes_only_that_panel(ns, p),
        DockCmd::ResizeZone(_, _) => {},
        DockCmd::SetActiveTab(leaf, tab) => {
            let r = with_active_tab(ns, leaf, tab);
            assert forall|j: int| 0 <= j < r.len() implies (#[trigger] tabs_of(r[j])).no_duplicates() by {
                assert(tabs_of(r[j]) == tabs_of(ns[j]));
            }
        },
    }
}

// ---------------------------------------------------------------------------
// Every panel in at most one place, no empty leaf
// ---------------------------------------------------------------------------

/// The tabs of all nodes, node by node.
pub open spec fn all_tabs(ns: Seq<NodeView>) -> Seq<PanelId>
    decreases ns.len(),
{
    if ns.len() == 0 {
        Seq::empty()
    } else {
        all_tabs(ns.drop_last()) + tabs_of(ns.last())
    }
}

/// Every leaf holds at least one tab.
pub open spec fn no_empty_leaf(ns: Seq<NodeView>) -> bool {
    forall|i: int| 0 <= i < ns.len() ==> kept(#[trigger] ns[i])
}

/// The layout invariant: each panel occurs at most once over all leaves'
/// tabs, and no leaf is empty.
pub open spec fn layout_wf(ns: Seq<NodeView>) -> bool {
    &&& all_tabs(ns).no_duplicates()
    &&& no_empty_leaf(ns)
}

proof fn lemma_concat_contains(a: Seq<PanelId>, b: Seq<PanelId>, x: PanelId)
    ensures
        (a + b).contains(x) <==> (a.contains(x) || b.contains(x)),
{
    if (a + b).contains(x) {
        let k = choose|k: int| 0 <= k < (a + b).len() && (a + b)[k] == x;
        if k < a.len() {
            assert(a[k] == x);
        } else {
            assert(b[k - a.len()] == x);
        }
    }
    if a.contains(x) {
        let k = choose|k: int| 0 <= k < a.len() && a[k] == x;
        assert((a + b)[k] == x);
    }
    if b.contains(x) {
        let k = choose|k: int| 0 <= k < b.len() && b[k] == x;
        assert((a + b)[a.len() + k] == x);
    }
}

proof fn lemma_no_dup_parts(a: Seq<PanelId>, b: Seq<PanelId>)
    requires
        (a + b).no_duplicates(),
    ensures
        a.no_duplicates(),
        b.no_duplicates(),
        forall|x: PanelId| a.contains(x) ==> !b.contains(x),
{
    let c = a + b;
    assert forall|i: int, j: int| 0 <= i < a.len() && 0 <= j < a.len() && i != j implies a[i] != a[j] by {
        assert(c[i] == a[i] && c[j] == a[j]);
    }
    assert forall|i: int, j: int| 0 <= i < b.len() && 0 <= j < b.len() && i != j implies b[i] != b[j] by {
        assert(c[a.len() + i] == b[i] && c[a.len() + j] == b[j]);
    }
    assert forall|x: PanelId| a.contains(x) implies !b.contains(x) by {
        let i = choose|i: int| 0 <= i < a.len() && a[i] == x;
        if b.contains(x) {
            let j = choose|j: int| 0 <= j < b.len() && b[j] == x;
            assert(c[i] == x && c[a.len() + j] == x);
        }
    }
}

proof fn lemma_no_dup_join(a: Seq<PanelId>, b: Seq<PanelId>)
    requires
        a.no_duplicates(),
        b.no_duplicates(),
        forall|x: PanelId| a.contains(x) ==> !b.contains(x),
    ensures
        (a + b).no_duplicates(),
{
    assert forall|i: int, j: int| 0 <= i < a.len() && 0 <= j < b.len() implies a[i] != b[j] by {
        assert(a.contains(a[i]));
        assert(b[j] == a[i] ==> b.contains(a[i]));
    }
    vstd::seq_lib::lemma_no_dup_in_concat(a, b);
}

proof fn lemma_all_tabs_concat(a: Seq<NodeView>, b: Seq<NodeView>)
    ensures
        all_tabs(a + b) == all_tabs(a) + all_tabs(b),
    decreases b.len(),
{
    if b.len() == 0 {
        assert(a + b =~= a);
        assert(all_tabs(a) + all_tabs(b) =~= all_tabs(a));
    } else {
        assert((a + b).drop_last() =~= a + b.drop_last());
        assert((a + b).last() == b.last());
        lemma_all_tabs_concat(a, b.drop_last());
        assert(all_tabs(a) + all_tabs(b.drop_last()) + tabs_of(b.last()) =~= all_tabs(a) + (
        all_tabs(b.drop_last()) + tabs_of(b.last())));
    }
}

proof fn lemma_all_tabs_single(n: NodeView)
    ensures
        all_tabs(seq![n]) == tabs_of(n),
{
    let e = seq![n].drop_last();
    assert(e =~= Seq::<NodeView>::empty());
    assert(all_tabs(e) == Seq::<PanelId>::empty());
    assert(Seq::<PanelId>::empty() + tabs_of(n) =~= tabs_of(n));
}

/// The tabs of all nodes split around node `i`.
proof fn lemma_all_tabs_around(ns: Seq<NodeView>, i: int)
    requires
        0 <= i < ns.len(),
    ensures
        all_tabs(ns) == all_tabs(ns.take(i)) + tabs_of(ns[i]) + all_tabs(ns.skip(i + 1)),
{
    assert(ns =~= ns.take(i) + seq![ns[i]] + ns.skip(i + 1));
    lemma_all_tabs_concat(ns.take(i) + seq![ns[i]], ns.skip(i + 1));
    lemma_all_tabs_concat(ns.take(i), seq![ns[i]]);
    lemma_all_tabs_single(ns[i]);
}

proof fn lemma_all_tabs_filter_kept(ns: Seq<NodeView>)
    ensures
        all_tabs(ns.filter(kept_pred())) == all_tabs(ns),
    decreases ns.len(),
{
    reveal_with_fuel(Seq::filter, 2);
    if ns.len() > 0 {
        lemma_all_tabs_filter_kept(ns.drop_last());
        let sub = ns.drop_last().filter(kept_pred());
        if kept(ns.last()) {
            assert(sub.push(ns.last()).drop_last() =~= sub);
        } else {
            assert(tabs_of(ns.last()) =~= Seq::<PanelId>::empty());
            assert(all_tabs(ns.drop_last()) + tabs_of(ns.last()) =~= all_tabs(ns.drop_last()));
        }
    }
}

/// Every node with panel `p` taken out of its tabs.
pub open spec fn stripped(ns: Seq<NodeView>, p: PanelId) -> Seq<NodeView> {
    ns.map_values(|n: NodeView| strip(n, p))
}

proof fn lemma_all_tabs_strip(ns: Seq<NodeView>, p: PanelId)
    requires
        all_tabs(ns).no_duplicates(),
    ensures
        all_tabs(stripped(ns, p)).no_duplicates(),
        forall|x: PanelId|
            #[trigger] all_tabs(stripped(ns, p)).contains(x) ==> x != p && all_tabs(ns).contains(x),
        forall|x: PanelId|
            x != p && #[trigger] all_tabs(ns).contains(x) ==> all_tabs(stripped(ns, p)).contains(x),
    decreases ns.len(),
{
    let m = stripped(ns, p);
    if ns.len() == 0 {
        assert(all_tabs(m) =~= Seq::<PanelId>::empty());
    } else {
        let pre = ns.drop_last();
        let last = ns.last();
        let mp = stripped(pre, p);
        assert(m.drop_last() =~= mp);
        assert(m.last() == strip(last, p));
        lemma_no_dup_parts(all_tabs(pre), tabs_of(last));
        lemma_all_tabs_strip(pre, p);
        lemma_strip(last, p);
        let a = all_tabs(mp);
        let t = tabs_of(strip(last, p));
        assert(all_tabs(m) == a + t);
        assert forall|x: PanelId| a.contains(x) implies !t.contains(x) by {
            if t.contains(x) {
                assert(tabs_of(last).contains(x));
                assert(all_tabs(pre).contains(x));
            }
        }
        lemma_no_dup_join(a, t);
        assert forall|x: PanelId| all_tabs(m).contains(x) implies x != p && all_tabs(ns).contains(x) by {
            lemma_concat_contains(a, t, x);
            lemma_concat_contains(all_tabs(pre), tabs_of(last), x);
        }
        assert forall|x: PanelId| x != p && all_tabs(ns).contains(x) implies all_tabs(m).contains(x) by {
            lemma_concat_contains(a, t, x);
            lemma_concat_contains(all_tabs(pre), tabs_of(last), x);
        }
    }
}

/// Taking a panel out keeps the layout invariant, and the panel is then in
/// no leaf while every other panel stays.
proof fn lemma_without_panel_wf(ns: Seq<NodeView>, p: PanelId)
    requires
        layout_wf(ns),
    ensures
        layout_wf(without_panel(ns, p)),
        !all_tabs(without_panel(ns, p)).contains(p),
        forall|x: PanelId| all_tabs(without_panel(ns, p)).contains(x) ==> all_tabs(ns).contains(x),
{
    broadcast use vstd::seq_lib::group_filter_ensures;

    let m = stripped(ns, p);
    lemma_all_tabs_strip(ns, p);
    lemma_all_tabs_filter_kept(m);
    let r = without_panel(ns, p);
    assert(r == m.filter(kept_pred()));
    assert(all_tabs(r) == all_tabs(m));
    assert(!all_tabs(m).contains(p));
    assert forall|i: int| 0 <= i < r.len() implies kept(#[trigger] r[i]) by {
        m.lemma_filter_pred(kept_pred(), i);
    }
}

/// Adding panel `p`, which no leaf holds, as the last tab of leaf `i`
/// keeps the layout invariant.
proof fn lemma_add_tab_wf(r: Seq<NodeView>, i: int, p: PanelId)
    requires
        layout_wf(r),
        0 <= i < r.len(),
        r[i] is Leaf,
        !all_tabs(r).contains(p),
    ensures
        layout_wf(r.update(i, add_tab(r[i], p))),
        all_tabs(r.update(i, add_tab(r[i], p))).contains(p),
{
    let d = r.update(i, add_tab(r[i], p));
    lemma_all_tabs_around(r, i);
    lemma_all_tabs_around(d, i);
    assert(d.take(i) =~= r.take(i));
    assert(d.skip(i + 1) =~= r.skip(i + 1));
    let a = all_tabs(r.take(i));
    let t = tabs_of(r[i]);
    let c = all_tabs(r.skip(i + 1));
    lemma_concat_contains(a + t, c, p);
    lemma_concat_contains(a, t, p);
    assert(tabs_of(d[i]) == t.push(p));
    lemma_no_dup_parts(a + t, c);
    lemma_no_dup_parts(a, t);
    assert(t.push(p) =~= t + seq![p]);
    assert forall|x: PanelId| t.contains(x) implies !seq![p].contains(x) by {
        if seq![p].contains(x) {
            assert(seq![p][0] == x);
        }
    }
    lemma_no_dup_join(t, seq![p]);
    assert forall|x: PanelId| a.contains(x) implies !t.push(p).contains(x) by {
        lemma_concat_contains(t, seq![p], x);
        if seq![p].contains(x) {
            assert(seq![p][0] == x);
        }
    }
    lemma_no_dup_join(a, t.push(p));
    assert forall|x: PanelId| (a + t.push(p)).contains(x) implies !c.contains(x) by {
        lemma_concat_contains(a, t.push(p), x);
        lemma_concat_contains(t, seq![p], x);
        lemma_concat_contains(a, t, x);
        if seq![p].contains(x) {
            assert(seq![p][0] == x);
        }
    }
    lemma_no_dup_join(a + t.push(p), c);
    assert(t.push(p)[t.len() as int] == p);
    lemma_concat_contains(a, t.push(p), p);
    lemma_concat_contains(a + t.push(p), c, p);
    assert forall|j: int| 0 <= j < d.len() implies kept(#[trigger] d[j]) by {
        if j != i {
            assert(d[j] == r[j]);
        }
    }
}

/// Appending a leaf that holds only panel `p`, which no leaf holds, keeps
/// the layout invariant.
proof fn lemma_push_leaf_wf(r: Seq<NodeView>, n: NodeView, p: PanelId)
    requires
        layout_wf(r),
        n is Leaf,
        tabs_of(n) == seq![p],
        !all_tabs(r).contains(p),
    ensures
        layout_wf(r.push(n)),
{
    let d = r.push(n);
    assert(d.drop_last() =~= r);
    assert(all_tabs(d) == all_tabs(r) + seq![p]);
    assert(seq![p].no_duplicates());
    assert forall|x: PanelId| all_tabs(r).contains(x) implies !seq![p].contains(x) by {
        if seq![p].contains(x) {
            assert(seq![p][0] == x);
        }
    }
    lemma_no_dup_join(all_tabs(r), seq![p]);
    assert forall|j: int| 0 <= j < d.len() implies kept(#[trigger] d[j]) by {
        if j < r.len() {
            assert(d[j] == r[j]);
        } else {
            assert(tabs_of(d[j]).len() == 1);
        }
    }
}

/// The default layout holds each panel once, and no leaf is empty.
pub proof fn law_default_layout_wf()
    ensures
        layout_wf(default_nodes()),
{
    let ns = default_nodes();
    reveal_with_fuel(all_tabs, 4);
    assert(ns.drop_last().drop_last().drop_last() =~= Seq::<NodeView>::empty());
    assert(all_tabs(ns) =~= seq![PanelId::Outliner, PanelId::Details]);
}

/// Every command keeps the layout invariant: each panel occurs at most once
/// over all leaves' tabs and no leaf is empty. With the laws above, after
/// docking `p` to `z` it therefore sits in exactly one leaf, docked to `z`.
pub proof fn law_commands_keep_layout_wf(ns: Seq<NodeView>, cmd: DockCmd)
    requires
        layout_wf(ns),
    ensures
        layout_wf(nodes_after(ns, cmd)),
{
    match cmd {
        DockCmd::DockPanel(p, z) => {
            let r = without_panel(ns, p);
            lemma_without_panel_wf(ns, p);
            lemma_zone_leaf_from_bounds(r, z, 0);
            match zone_leaf_from(r, z, 0) {
                Some(i) => lemma_add_tab_wf(r, i, p),
                None => lemma_push_leaf_wf(
                    r,
                    NodeView::Leaf { tabs: seq![p], active_tab: 0, rect: RECT_NOTHING, zone: Some(z) },
                    p,
                ),
            }
        },
        DockCmd::FloatPanel(p, rect) => {
            lemma_without_panel_wf(ns, p);
            lemma_push_leaf_wf(
                without_panel(ns, p),
                NodeView::Leaf { tabs: seq![p], active_tab: 0, rect, zone: None },
                p,
            );
        },
        DockCmd::CollapsePanel(p) => lemma_without_panel_wf(ns, p),
        DockCmd::ResizeZone(_, _) => {},
        DockCmd::SetActiveTab(leaf, tab) => {
            let d = with_active_tab(ns, leaf, tab);
            if leaf < ns.len() && ns[leaf as int] is Leaf {
                let i = leaf as int;
                lemma_all_tabs_around(ns, i);
                lemma_all_tabs_around(d, i);
                assert(d.take(i) =~= ns.take(i));
                assert(d.skip(i + 1) =~= ns.skip(i + 1));
                assert(tabs_of(d[i]) == tabs_of(ns[i]));
                assert forall|j: int| 0 <= j < d.len() implies kept(#[trigger] d[j]) by {
                    if j != i {
                        assert(d[j] == ns[j]);
                    }
                }
            }
        },
    }
}

} // verus!
