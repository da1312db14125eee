use voxel_engine::saves::{age_label, AgeLabel};
use voxel_engine::ui_state::{sort_worlds_by_name, BrushShape, EditorState, LightingMode, PerformancePreset, PlayableWorld};

fn world(name: &str, path: &str) -> PlayableWorld {
    PlayableWorld { name: name.to_string(), path: path.to_string() }
}

#[test]
fn age_labels() {
    assert_eq!(age_label(0), AgeLabel::JustNow);
    assert_eq!(age_label(59), AgeLabel::JustNow);
    assert_eq!(age_label(60), AgeLabel::Minutes(1));
    assert_eq!(age_label(3599), AgeLabel::Minutes(59));
    assert_eq!(age_label(3600), AgeLabel::Hours(1));
    assert_eq!(age_label(86399), AgeLabel::Hours(23));
    assert_eq!(age_label(86400 * 3 + 5), AgeLabel::Days(3));
}

#[test]
fn worlds_sorted_by_name_stably() {
    let v = vec![world("beta", "1"), world("Alpha", "2"), world("alpha", "3"), world("beta", "4"), world("", "5")];
    let r = sort_worlds_by_name(v);
    let names: Vec<(&str, &str)> = r.iter().map(|w| (w.name.as_str(), w.path.as_str())).collect();
    assert_eq!(names, vec![("", "5"), ("Alpha", "2"), ("alpha", "3"), ("beta", "1"), ("beta", "4")]);
    let mut expected = vec![world("é", "x"), world("z", "y")];
    expected.sort_by(|a, b| a.name.cmp(&b.name));
    let r = sort_worlds_by_name(vec![world("é", "x"), world("z", "y")]);
    assert_eq!(r[0].name, expected[0].name);
}

#[test]
fn presets_and_names() {
    assert_eq!(PerformancePreset::Potato.max_bounces(), 1);
    assert_eq!(PerformancePreset::Balanced.max_bounces(), 2);
    assert_eq!(PerformancePreset::High.max_bounces(), 4);
    assert_eq!(PerformancePreset::Potato.render_scale_percent(), 50);
    assert_eq!(PerformancePreset::Balanced.render_scale_percent(), 75);
    assert_eq!(PerformancePreset::Potato.lighting_mode(), LightingMode::Simple);
    assert_eq!(PerformancePreset::High.lighting_mode(), LightingMode::PathTracing);
    assert_eq!(PerformancePreset::Balanced.name(), "Balanced");
    assert_eq!(LightingMode::PathTracing.name(), "Path Tracing");
    assert_eq!(BrushShape::Sphere.name(), "Sphere");
    assert_eq!(BrushShape::all(), [BrushShape::Single, BrushShape::Sphere, BrushShape::Cube]);
    assert_eq!(PerformancePreset::default(), PerformancePreset::Potato);
    let e = EditorState::default();
    assert_eq!((e.selected_color, e.brush_shape, e.brush_size), (42, BrushShape::Single, 2));
    assert_eq!(e.level_name, "untitled");
}
