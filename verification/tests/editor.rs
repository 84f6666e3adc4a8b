use pie_runtime::editor::{
    parse_u64, Axis, DockZone, EditorLaunch, IntErrorKind, PanelId, SkyQuality, SpawnableEntity, ZoneSize,
};

fn strings(args: &[&str]) -> Vec<String> {
    args.iter().map(|s| s.to_string()).collect()
}

#[test]
fn panel_titles_and_labels() {
    assert_eq!(PanelId::all(), [PanelId::Outliner, PanelId::Details]);
    assert_eq!(PanelId::Outliner.title(), "Outliner");
    assert_eq!(PanelId::Details.short_label(), "Details");
    assert_eq!(DockZone::all(), [DockZone::Left, DockZone::Right, DockZone::Bottom]);
    assert_eq!(Axis::all(), [Axis::X, Axis::Y, Axis::Z]);
}

#[test]
fn spawnable_entity_menu_text() {
    assert_eq!(SpawnableEntity::all().len(), 4);
    assert_eq!(SpawnableEntity::Empty.label(), "Empty Entity");
    assert_eq!(SpawnableEntity::DirectionalLight.label(), "Directional Light");
    assert_eq!(SpawnableEntity::Camera.description(), "Perspective camera with configurable FOV");
    assert_eq!(SpawnableEntity::SkyLight.icon(), "◌");
}

#[test]
fn sky_quality_sample_counts() {
    assert_eq!(SkyQuality::Off.sample_counts(), (0, 0));
    assert_eq!(SkyQuality::Low.sample_counts(), (8, 4));
    assert_eq!(SkyQuality::Medium.sample_counts(), (16, 8));
    assert_eq!(SkyQuality::High.sample_counts(), (32, 16));
}

#[test]
fn parse_u64_matches_std() {
    for s in ["", "+", "-", "0", "+7", "007", "18446744073709551615", "18446744073709551616", "12a", "99999999999999999999x", " 1", "١"] {
        let ours = parse_u64(s);
        let std_result = s.parse::<u64>();
        match (ours, std_result) {
            (Ok(a), Ok(b)) => assert_eq!(a, b, "{s}"),
            (Err(k), Err(e)) => {
                let text = match k {
                    IntErrorKind::Empty => "cannot parse integer from empty string",
                    IntErrorKind::InvalidDigit => "invalid digit found in string",
                    IntErrorKind::PosOverflow => "number too large to fit in target type",
                };
                assert_eq!(text, e.to_string(), "{s}");
            }
            (a, b) => panic!("mismatch on {s:?}: {a:?} vs {b:?}"),
        }
    }
}

#[test]
fn editor_launch_splits_editor_and_runtime_args() {
    let l = EditorLaunch::from_args(&strings(&["pie_editor", "--headless", "--step", "5", "--paused", "x"])).unwrap();
    assert_eq!(l.runtime_args, strings(&["pie_editor", "--headless", "x"]));
    assert_eq!(l.step_count, Some(5));
    let l = EditorLaunch::from_args(&[]).unwrap();
    assert_eq!(l.runtime_args, strings(&["pie_editor"]));
    assert_eq!(l.step_count, None);
}

#[test]
fn editor_launch_reports_bad_step_counts() {
    assert_eq!(
        EditorLaunch::from_args(&strings(&["e", "--step"])),
        Err("expected step count after --step".to_string())
    );
    assert_eq!(
        EditorLaunch::from_args(&strings(&["e", "--step", "ten"])),
        Err("invalid step count 'ten': invalid digit found in string".to_string())
    );
    assert_eq!(
        EditorLaunch::from_args(&strings(&["e", "--step", ""])),
        Err("invalid step count '': cannot parse integer from empty string".to_string())
    );
}

#[test]
fn panel_sizes_are_the_documented_floats() {
    let px = |b: [u32; 2]| (f32::from_bits(b[0]), f32::from_bits(b[1]));
    assert_eq!(px(PanelId::Outliner.default_size()), (260.0, 500.0));
    assert_eq!(px(PanelId::Details.default_size()), (320.0, 500.0));
    assert_eq!(px(PanelId::Outliner.min_size()), (160.0, 120.0));
    assert_eq!(px(PanelId::Details.min_size()), (200.0, 120.0));
    assert_eq!(px(PanelId::Outliner.max_size()), (600.0, 1200.0));
    assert_eq!(px(PanelId::Details.max_size()), (800.0, 1200.0));
    assert_eq!(f32::from_bits(ZoneSize::default().width), 280.0);
}

#[test]
fn axis_colors_and_directions_are_the_documented_floats() {
    let f = |b: &[u32]| b.iter().map(|x| f32::from_bits(*x)).collect::<Vec<f32>>();
    assert_eq!(f(&Axis::X.color()), vec![0.9, 0.25, 0.25, 1.0]);
    assert_eq!(f(&Axis::Y.color()), vec![0.25, 0.9, 0.35, 1.0]);
    assert_eq!(f(&Axis::Z.color()), vec![0.3, 0.5, 1.0, 1.0]);
    assert_eq!(f(&Axis::X.direction()), vec![1.0, 0.0, 0.0]);
    assert_eq!(f(&Axis::Y.direction()), vec![0.0, 1.0, 0.0]);
    assert_eq!(f(&Axis::Z.direction()), vec![0.0, 0.0, 1.0]);
}
