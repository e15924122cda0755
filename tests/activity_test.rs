use uml_composer::activity::{draw_line, layout_activity_diagram, Activity, Condition, Node, Path, Type};
use uml_composer::error::DiagramError;
use uml_composer::primitive::{CircleKind, Halves, LineKind, MarkerKind, Primitive, Rotation, TextKind};

fn step(name: &str, label: &str) -> Node {
    Node::new(Type::STEP, String::from(name), String::from(label))
}

fn end() -> Node {
    Node::new(Type::END, String::new(), String::new())
}

/// (*) --> step1 --> step2 : tak --> stepnew : opis
/// if condition1 { --> alt1 : tekst --> alt11 } else { --> another1 }
/// --> step3 : caption --> (^)
fn sample() -> Activity {
    let mut path = Path::new(true);
    path.push_node(step("step1", "")).unwrap();
    path.push_node(step("step2", "tak")).unwrap();
    path.push_node(step("stepnew", "opis")).unwrap();
    let mut main = Path::new(false);
    main.push_node(step("alt1", "tekst")).unwrap();
    main.push_node(step("alt11", "")).unwrap();
    let mut alternative = Path::new(false);
    alternative.push_node(step("another1", "")).unwrap();
    let condition = Condition::new(main, alternative).unwrap();
    path.push_decision(String::from("condition1"), condition);
    path.push_node(step("step3", "caption")).unwrap();
    path.push_node(end()).unwrap();
    Activity::new(path).unwrap()
}

#[test]
fn nodes_count() {
    assert_eq!(10, sample().nodes_count());
}

#[test]
fn draws_step() {
    let mut doc = Vec::new();
    sample().draw(&mut doc);
    assert!(doc.contains(&Primitive::Text {
        x: Halves { twice: 700 },
        y: 415,
        content: String::from("stepnew"),
        kind: TextKind::NodeCaption,
        rotation: None,
    }));
}

#[test]
fn activity_canvas_size() {
    let activity = sample();
    assert_eq!(activity.width(), 250 + 400 + 200);
    // 7 nodes of 130, the decision's 260-high branches in place of its own 130
    assert_eq!(activity.height(), 7 * 130 + 260 - 130 + 50);
    let d = layout_activity_diagram(&activity);
    assert_eq!((d.width, d.height), (850, 1090));
    assert_eq!(d.primitives[0], Primitive::Background);
    assert_eq!(d.primitives[1], Primitive::Circle { cx: 350, cy: 25, r: 25, kind: CircleKind::StartDot });
}

#[test]
fn path_metrics() {
    let activity = sample();
    let path = &activity.path;
    assert_eq!(path.max_left(), 1);
    assert_eq!(path.max_right(), 1);
    assert_eq!(path.get_left_depth(), 2);
    assert_eq!(path.get_right_depth(), 2);
    assert_eq!(path.get_height(), 1040);
    assert_eq!(path.get_last_node_type(), Type::END);
    assert_eq!(path.nodes_count(), 10);
}

#[test]
fn last_node_type_looks_into_final_decision() {
    let mut main = Path::new(false);
    main.push_node(end()).unwrap();
    let mut alternative = Path::new(false);
    alternative.push_node(step("x", "")).unwrap();
    let mut path = Path::new(false);
    path.push_node(step("a", "")).unwrap();
    path.push_decision(String::from("c"), Condition::new(main, alternative).unwrap());
    assert_eq!(path.get_last_node_type(), Type::END);
}

#[test]
fn branch_ending_in_end_gets_no_connector() {
    let mut main = Path::new(false);
    main.push_node(end()).unwrap();
    let mut alternative = Path::new(false);
    alternative.push_node(step("x", "")).unwrap();
    let condition = Condition::new(main, alternative).unwrap();
    let mut doc = Vec::new();
    condition.bound_last_nodes(1000, 100, &mut doc, String::from("back"));
    // only the alternative branch, which ends in a step, is joined back: 3 primitives
    assert_eq!(doc.len(), 3);
    assert_eq!(doc[2], Primitive::Line { x1: Halves { twice: 1500 }, y1: 120, x2: 1000, y2: 205, kind: LineKind::Activity });
}

#[test]
fn branches_ending_in_steps_both_get_connectors() {
    let mut main = Path::new(false);
    main.push_node(step("m", "")).unwrap();
    let mut alternative = Path::new(false);
    alternative.push_node(step("x", "")).unwrap();
    let condition = Condition::new(main, alternative).unwrap();
    let mut doc = Vec::new();
    condition.bound_last_nodes(1000, 100, &mut doc, String::from("back"));
    assert_eq!(doc.len(), 6);
}

#[test]
fn decision_without_branch_is_refused() {
    let empty = Path::new(false);
    let mut other = Path::new(false);
    other.push_node(step("x", "")).unwrap();
    assert!(matches!(Condition::new(empty, other), Err(DiagramError::StructuralViolation)));
    let mut path = Path::new(true);
    assert!(matches!(path.push_node(Node::if_node(String::from("c"))), Err(DiagramError::StructuralViolation)));
    assert_eq!(path.nodes_count(), 1);
}

#[test]
fn connector_label_is_turned_along_the_line() {
    let mut doc = Vec::new();
    draw_line(100, 50, 300, 50, &mut doc, String::from("go"));
    assert_eq!(
        doc,
        vec![
            Primitive::Marker(MarkerKind::Activity),
            Primitive::Text {
                x: Halves { twice: 360 },
                y: 30,
                content: String::from("go"),
                kind: TextKind::ArrowCaption,
                rotation: Some(Rotation { dx: 200, dy: 0, cx: 200, cy: 50 }),
            },
            Primitive::Line { x1: Halves { twice: 200 }, y1: 50, x2: 300, y2: 50, kind: LineKind::Activity },
        ]
    );
}

#[test]
fn node_shapes() {
    let mut doc = Vec::new();
    step("abcd", "").draw(100, 200, &mut doc);
    assert_eq!(doc[0], Primitive::Rect { x: 68, y: 168, width: 64, height: 50, kind: uml_composer::primitive::RectKind::StepBox });
    Node::if_node(String::from("c")).draw(100, 200, &mut doc);
    assert_eq!(doc[2], Primitive::Rect { x: 75, y: 175, width: 35, height: 35, kind: uml_composer::primitive::RectKind::DecisionDiamond });
    end().draw(100, 200, &mut doc);
    assert_eq!(doc[4], Primitive::Circle { cx: 100, cy: 200, r: 25, kind: CircleKind::EndRing });
    assert_eq!(doc[5], Primitive::Circle { cx: 100, cy: 200, r: 20, kind: CircleKind::EndDot });
    assert_eq!(Node::start_node().get_kind(), Type::START);
    assert_eq!(step("n", "l").get_arrow_label(), String::from("l"));
    assert_eq!(step("n", "l").get_name(), String::from("n"));
}

#[test]
fn path_ending_in_decision_is_refused() {
    let mut main = Path::new(false);
    main.push_node(step("a", "")).unwrap();
    let mut alternative = Path::new(false);
    alternative.push_node(step("b", "")).unwrap();
    let mut path = Path::new(true);
    path.push_decision(String::from("c"), Condition::new(main, alternative).unwrap());
    assert!(matches!(Activity::new(path), Err(DiagramError::StructuralViolation)));
}

#[test]
fn branch_ending_in_decision_is_refused() {
    let mut inner_main = Path::new(false);
    inner_main.push_node(step("x", "")).unwrap();
    let mut inner_alt = Path::new(false);
    inner_alt.push_node(step("y", "")).unwrap();
    let mut main = Path::new(false);
    main.push_node(step("a", "")).unwrap();
    main.push_decision(String::from("d"), Condition::new(inner_main, inner_alt).unwrap());
    let mut alternative = Path::new(false);
    alternative.push_node(step("b", "")).unwrap();
    let mut path = Path::new(true);
    path.push_decision(String::from("c"), Condition::new(main, alternative).unwrap());
    path.push_node(end()).unwrap();
    assert!(!path.closes_decisions());
    assert!(matches!(Activity::new(path), Err(DiagramError::StructuralViolation)));
}
