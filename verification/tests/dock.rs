use pie_runtime::dock::{DockCmd, DockNode, DockState, RECT_NOTHING};
use pie_runtime::editor::{DockZone, PanelId};

fn leaves(d: &DockState) -> Vec<(Vec<PanelId>, Option<DockZone>, usize)> {
    d.nodes()
        .iter()
        .filter_map(|n| match n {
            DockNode::Leaf { tabs, zone, active_tab, .. } => Some((tabs.clone(), *zone, *active_tab)),
            DockNode::Split { .. } => None,
        })
        .collect()
}

#[test]
fn default_layout_has_outliner_left_and_details_right() {
    let d = DockState::default();
    assert_eq!(
        leaves(&d),
        vec![
            (vec![PanelId::Outliner], Some(DockZone::Left), 0),
            (vec![PanelId::Details], Some(DockZone::Right), 0)
        ]
    );
    assert!(d.zone_has_tabs(DockZone::Left));
    assert!(!d.zone_has_tabs(DockZone::Bottom));
    assert_eq!(f32::from_bits(d.zone_size(DockZone::Left)), 280.0);
    assert_eq!(f32::from_bits(d.zone_size(DockZone::Right)), 320.0);
    assert_eq!(f32::from_bits(d.zone_size(DockZone::Bottom)), 200.0);
    assert!(matches!(d.nodes()[0], DockNode::Split { vertical: true, first: 1, second: 2, .. }));
}

#[test]
fn docking_moves_a_panel_into_the_zone_leaf() {
    let mut d = DockState::new();
    d.apply_cmd(DockCmd::DockPanel(PanelId::Details, DockZone::Left));
    assert_eq!(leaves(&d), vec![(vec![PanelId::Outliner, PanelId::Details], Some(DockZone::Left), 0)]);
    assert!(!d.zone_has_tabs(DockZone::Right));
    d.apply_cmd(DockCmd::DockPanel(PanelId::Outliner, DockZone::Bottom));
    assert_eq!(
        leaves(&d),
        vec![
            (vec![PanelId::Details], Some(DockZone::Left), 0),
            (vec![PanelId::Outliner], Some(DockZone::Bottom), 0)
        ]
    );
}

#[test]
fn floating_and_collapsing_panels() {
    let mut d = DockState::new();
    let rect = [1.0f32.to_bits(), 2.0f32.to_bits(), 3.0f32.to_bits(), 4.0f32.to_bits()];
    d.apply_cmd(DockCmd::FloatPanel(PanelId::Outliner, rect));
    assert_eq!(
        leaves(&d),
        vec![(vec![PanelId::Details], Some(DockZone::Right), 0), (vec![PanelId::Outliner], None, 0)]
    );
    match d.nodes().last().unwrap() {
        DockNode::Leaf { rect: r, .. } => assert_eq!(*r, rect),
        _ => panic!("expected a leaf"),
    }
    d.apply_cmd(DockCmd::CollapsePanel(PanelId::Outliner));
    assert_eq!(leaves(&d), vec![(vec![PanelId::Details], Some(DockZone::Right), 0)]);
    d.apply_cmd(DockCmd::DockPanel(PanelId::Outliner, DockZone::Right));
    assert_eq!(leaves(&d), vec![(vec![PanelId::Details, PanelId::Outliner], Some(DockZone::Right), 0)]);
}

#[test]
fn active_tab_moves_back_when_its_tab_leaves() {
    let mut d = DockState::new();
    d.apply_cmd(DockCmd::DockPanel(PanelId::Details, DockZone::Left));
    d.apply_cmd(DockCmd::SetActiveTab(1, 1));
    assert_eq!(leaves(&d)[0].2, 1);
    assert!(d.panel_removal_is_safe(PanelId::Details));
    d.apply_cmd(DockCmd::CollapsePanel(PanelId::Details));
    assert_eq!(leaves(&d), vec![(vec![PanelId::Outliner], Some(DockZone::Left), 0)]);
    d.apply_cmd(DockCmd::SetActiveTab(1, 3));
    assert!(!d.panel_removal_is_safe(PanelId::Outliner));
    d.apply_cmd(DockCmd::SetActiveTab(0, 9));
    assert_eq!(leaves(&d)[0].2, 3);
}

#[test]
fn resize_commands_and_drag_state() {
    let mut d = DockState::new();
    d.push_cmd(DockCmd::ResizeZone(DockZone::Bottom, 150.0f32.to_bits()));
    let cmds = d.drain_cmds();
    assert_eq!(cmds.len(), 1);
    assert!(d.drain_cmds().is_empty());
    for c in cmds {
        d.apply_cmd(c);
    }
    assert_eq!(f32::from_bits(d.zone_size(DockZone::Bottom)), 150.0);
    assert!(!d.is_dragging());
    d.start_drag(PanelId::Details);
    d.update_drag([5, 6]);
    assert_eq!(d.drag_panel(), Some(PanelId::Details));
    assert_eq!(d.drag_pos(), Some([5, 6]));
    d.end_drag();
    assert!(!d.is_dragging());
    assert_eq!(d.drag_pos(), None);
}

#[test]
fn set_leaf_rect_updates_only_leaves() {
    let mut d = DockState::new();
    d.set_leaf_rect(1, [1, 2, 3, 4]);
    d.set_leaf_rect(0, [9, 9, 9, 9]);
    match &d.nodes()[1] {
        DockNode::Leaf { rect, .. } => assert_eq!(*rect, [1, 2, 3, 4]),
        _ => panic!(),
    }
    match &d.nodes()[0] {
        DockNode::Split { rect, .. } => assert_eq!(*rect, RECT_NOTHING),
        _ => panic!(),
    }
}

#[test]
fn resize_clamps_zone_size_like_f32_clamp() {
    let mut d = DockState::new();
    let cases: [f32; 9] = [50.0, 120.0, 450.5, 800.0, 1000.0, -5.0, -0.0, f32::INFINITY, f32::NEG_INFINITY];
    for x in cases {
        d.apply_cmd(DockCmd::ResizeZone(DockZone::Left, x.to_bits()));
        assert_eq!(f32::from_bits(d.zone_size(DockZone::Left)), x.clamp(120.0, 800.0));
    }
    d.apply_cmd(DockCmd::ResizeZone(DockZone::Right, f32::NAN.to_bits()));
    assert!(f32::from_bits(d.zone_size(DockZone::Right)).is_nan());
    assert_eq!(f32::from_bits(d.zone_size(DockZone::Bottom)), 200.0);
}

fn layout_ok(d: &DockState) -> bool {
    let mut seen: Vec<PanelId> = Vec::new();
    for n in d.nodes() {
        if let DockNode::Leaf { tabs, .. } = n {
            if tabs.is_empty() {
                return false;
            }
            for t in tabs {
                if seen.contains(t) {
                    return false;
                }
                seen.push(*t);
            }
        }
    }
    true
}

#[test]
fn commands_keep_each_panel_in_one_leaf_and_no_leaf_empty() {
    let mut d = DockState::new();
    assert!(layout_ok(&d));
    let cmds = [
        DockCmd::DockPanel(PanelId::Details, DockZone::Left),
        DockCmd::FloatPanel(PanelId::Outliner, [1, 2, 3, 4]),
        DockCmd::DockPanel(PanelId::Outliner, DockZone::Bottom),
        DockCmd::SetActiveTab(1, 0),
        DockCmd::CollapsePanel(PanelId::Details),
        DockCmd::DockPanel(PanelId::Details, DockZone::Bottom),
        DockCmd::ResizeZone(DockZone::Bottom, 300.0f32.to_bits()),
    ];
    for c in cmds {
        d.apply_cmd(c);
        assert!(layout_ok(&d), "{c:?}");
    }
    let bottom: Vec<_> = leaves(&d).into_iter().filter(|l| l.1 == Some(DockZone::Bottom)).collect();
    assert_eq!(bottom.len(), 1);
    assert_eq!(bottom[0].0, vec![PanelId::Outliner, PanelId::Details]);
}
