use cargo_neat::report::{build_report, render_report, ReportGroup};

fn group(label: &str, entries: &[&str]) -> ReportGroup {
    ReportGroup {
        label: label.to_string(),
        entries: entries.iter().map(|e| e.to_string()).collect(),
    }
}

#[test]
fn report_tree_keeps_every_finding_once() {
    let groups = vec![group("ws/a/Cargo.toml", &["rand", "serde"])];
    let t = build_report(&"Unused workspace dependencies :".to_string(), &groups);
    assert_eq!(t.label, "Unused workspace dependencies :");
    assert_eq!(t.children.len(), 1);
    assert_eq!(t.children[0].label, "ws/a/Cargo.toml");
    assert_eq!(t.children[0].children.len(), 2);
    assert_eq!(t.children[0].children[0].label, "rand");
    assert_eq!(t.children[0].children[1].label, "serde");
    assert!(t.children[0].children[0].children.is_empty());
    assert!(t.children[0].children[1].children.is_empty());
}

#[test]
fn rendering_lays_the_tree_out_with_glyphs() {
    let groups = vec![group("A", &["a1", "a2"]), group("B", &["b1"])];
    let t = build_report(&"root".to_string(), &groups);
    let text = render_report(&t);
    assert_eq!(
        text,
        "root\n├── A\n│   ├── a1\n│   └── a2\n└── B\n    └── b1\n"
    );
}

#[test]
fn rendering_a_single_group() {
    let groups = vec![group("ws/Cargo.toml", &["rand"])];
    let t = build_report(&"Unused workspace dependencies :".to_string(), &groups);
    let text = render_report(&t);
    assert_eq!(
        text,
        "Unused workspace dependencies :\n└── ws/Cargo.toml\n    └── rand\n"
    );
}

#[test]
fn rendering_twice_is_identical() {
    let groups = vec![group("A", &["x"])];
    let t = build_report(&"r".to_string(), &groups);
    assert_eq!(render_report(&t), render_report(&t));
}
