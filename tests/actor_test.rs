use uml_composer::actor::Actor;
use uml_composer::primitive::{CircleKind, Halves, LineKind, Primitive, TextKind};

fn thin(x1_twice: i64, y1: i64, x2: i64, y2: i64) -> Primitive {
    Primitive::Line { x1: Halves { twice: x1_twice }, y1, x2, y2, kind: LineKind::Thin { dashed: false, arrow_end: false } }
}

#[test]
fn actor_with_alias() {
    let mut actor = Actor::new(String::from("Guest"), Some(String::from("g")));
    assert_eq!(actor.get_actor_label().to_owned(), String::from("Guest"));
    assert_eq!(actor.get_actor_alias().to_owned(), String::from("g"));

    let mut doc = Vec::new();
    let (x, y, r) = (100, 100, 20);
    actor.draw(&mut doc, x, y, r);
    assert!(doc.contains(&Primitive::Circle { cx: 100, cy: 100, r: 20, kind: CircleKind::ActorHead }));
}

#[test]
fn actor_without_alias() {
    let mut actor = Actor::new(String::from("Guest2"), None);
    assert_eq!(actor.get_actor_label().to_owned(), String::from("Guest2"));
    assert_eq!(actor.get_actor_alias().to_owned(), String::from("Guest2"));

    let mut doc = Vec::new();
    actor.draw(&mut doc, 100, 100, 20);
    assert!(doc.contains(&Primitive::Circle { cx: 100, cy: 100, r: 20, kind: CircleKind::ActorHead }));
}

#[test]
fn actor_figure_geometry() {
    let mut actor = Actor::new(String::from("Guest"), Some(String::from("g")));
    let mut doc = Vec::new();
    actor.draw(&mut doc, 100, 100, 20);
    assert_eq!(actor.get_x(), 100);
    assert_eq!(actor.get_y(), 100);
    assert_eq!(
        doc,
        vec![
            Primitive::Text { x: Halves { twice: 200 }, y: 50, content: String::from("Guest"), kind: TextKind::ActorCaption, rotation: None },
            Primitive::Circle { cx: 100, cy: 100, r: 20, kind: CircleKind::ActorHead },
            thin(200, 120, 100, 160),
            thin(140, 120, 100, 140),
            thin(260, 120, 100, 140),
            thin(140, 200, 100, 160),
            thin(260, 200, 100, 160),
        ]
    );
}

#[test]
fn actor_odd_radius_lands_on_half_units() {
    let mut actor = Actor::new(String::from("A"), None);
    let mut doc = Vec::new();
    actor.draw(&mut doc, 10, 0, 5);
    // arms reach 1.5 radii to each side: 2.5 and 17.5
    assert_eq!(doc[3], thin(5, 5, 10, 10));
    assert_eq!(doc[4], thin(35, 5, 10, 10));
}

#[test]
fn actor_label_stands_above_the_head() {
    let mut actor = Actor::new(String::from("Guest"), Some(String::from("g")));
    let mut doc = Vec::new();
    actor.draw(&mut doc, 100, 100, 20);
    let labels: Vec<&Primitive> = doc.iter().filter(|p| matches!(p, Primitive::Text { .. })).collect();
    assert_eq!(labels.len(), 1);
    match labels[0] {
        Primitive::Text { x, y, content, .. } => {
            assert_eq!(*x, Halves { twice: 200 });
            assert!(*y < 100 - 20);
            assert_eq!(content, "Guest");
        }
        _ => unreachable!(),
    }
}
