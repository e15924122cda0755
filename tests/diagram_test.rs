use uml_composer::activity::{Activity, Node, Path, Type};
use uml_composer::actor::Actor;
use uml_composer::class::Class;
use uml_composer::diagram::{layout_diagram, Diagram};
use uml_composer::error::DiagramError;
use uml_composer::link::{ArrowType, Link, LinkType};
use uml_composer::primitive::{CircleKind, Primitive};
use uml_composer::use_case::{Context, UseCase};

fn arrow(a: &str, b: &str) -> Link {
    Link::new(String::from(a), LinkType::SolidArrow, String::from(b), String::new(), ArrowType::Missing)
}

#[test]
fn actor_alias_clashing_with_context_label_is_refused() {
    let d = Diagram::UseCase {
        contexts: vec![Context::new(String::from("shop"), vec![UseCase::new(String::from("buy"), None)])],
        actors: vec![Actor::new(String::from("Clerk"), Some(String::from("shop")))],
        links: vec![],
    };
    assert!(matches!(layout_diagram(d), Err(DiagramError::DuplicateIdentifier(ref a)) if a == "shop"));
}

#[test]
fn use_case_diagram_through_dispatcher() {
    let d = Diagram::UseCase {
        contexts: vec![Context::new(String::from("shop"), vec![UseCase::new(String::from("buy"), None), UseCase::new(String::from("pay"), None)])],
        actors: vec![Actor::new(String::from("Client"), Some(String::from("c")))],
        links: vec![arrow("c", "buy"), arrow("buy", "pay")],
    };
    let doc = layout_diagram(d).unwrap();
    assert_eq!((doc.width, doc.height), (500 + 350 + 10, 500));
}

#[test]
fn class_diagram_through_dispatcher() {
    let d = Diagram::Class {
        classes: vec![
            Class::new(String::from("A"), vec![], vec![], false),
            Class::new(String::from("B"), vec![], vec![], false),
            Class::new(String::from("C"), vec![], vec![], true),
        ],
        links: vec![arrow("A", "B")],
    };
    let doc = layout_diagram(d).unwrap();
    assert_eq!((doc.width, doc.height), (3000, 1200));
}

#[test]
fn activity_diagram_through_dispatcher() {
    let mut path = Path::new(true);
    path.push_node(Node::new(Type::STEP, String::from("go"), String::new())).unwrap();
    path.push_node(Node::new(Type::END, String::new(), String::new())).unwrap();
    let doc = layout_diagram(Diagram::Activity(Activity::new(path).unwrap())).unwrap();
    assert_eq!((doc.width, doc.height), (200, 3 * 130 + 50));
    assert_eq!(doc.primitives[1], Primitive::Circle { cx: 100, cy: 25, r: 25, kind: CircleKind::StartDot });
    assert_eq!(doc.primitives.last(), Some(&Primitive::Circle { cx: 100, cy: 285, r: 20, kind: CircleKind::EndDot }));
}

#[test]
fn unknown_endpoint_is_reported_by_dispatcher() {
    let d = Diagram::UseCase {
        contexts: vec![Context::new(String::from("shop"), vec![UseCase::new(String::from("buy"), None)])],
        actors: vec![],
        links: vec![arrow("buy", "ghost")],
    };
    assert!(matches!(layout_diagram(d), Err(DiagramError::UnknownReference(ref a)) if a == "ghost"));
}

#[test]
fn duplicate_class_is_reported_by_dispatcher() {
    let d = Diagram::Class {
        classes: vec![Class::new(String::from("A"), vec![], vec![], false), Class::new(String::from("A"), vec![], vec![], false)],
        links: vec![],
    };
    assert!(matches!(layout_diagram(d), Err(DiagramError::DuplicateIdentifier(ref a)) if a == "A"));
}
