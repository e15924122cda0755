use uml_composer::link::{ArrowType, Link, LinkType};
use uml_composer::primitive::{Halves, LineKind, MarkerKind, Primitive, Rotation, TextKind};

fn link(t: LinkType, label: &str, arrow: ArrowType) -> Link {
    Link::new(String::from("a"), t, String::from("b"), String::from(label), arrow)
}

fn line(x1: i64, y1: i64, x2: i64, y2: i64, dashed: bool, arrow_end: bool) -> Primitive {
    Primitive::Line { x1: Halves { twice: 2 * x1 }, y1, x2, y2, kind: LineKind::Thin { dashed, arrow_end } }
}

fn caption(content: &str) -> Primitive {
    Primitive::Text {
        x: Halves { twice: 240 },
        y: 115,
        content: String::from(content),
        kind: TextKind::LinkCaption,
        rotation: Some(Rotation { dx: 200, dy: 200, cx: 120, cy: 120 }),
    }
}

fn draw(link: &Link) -> Vec<Primitive> {
    let mut doc = Vec::new();
    link.draw(&mut doc, 20, 20, 220, 220);
    doc
}

#[test]
fn parse_into_link_solid_line() {
    let link = link(LinkType::SolidLine, "", ArrowType::Missing);
    let doc = draw(&link);
    assert_eq!(link.get_left_id().to_owned(), String::from("a"));
    assert_eq!(link.get_right_id().to_owned(), String::from("b"));
    assert_eq!(*link.get_link_type(), LinkType::SolidLine);
    assert_eq!(link.get_label().to_owned(), String::from(""));
    assert_eq!(*link.get_arrow(), ArrowType::Missing);
    assert_eq!(doc, vec![line(20, 20, 220, 220, false, false)]);
}

#[test]
fn parse_into_link_solid_line_with_label() {
    let link = link(LinkType::SolidLine, "lorem ipsum 123", ArrowType::Missing);
    let doc = draw(&link);
    assert_eq!(link.get_left_id().to_owned(), String::from("a"));
    assert_eq!(link.get_right_id().to_owned(), String::from("b"));
    assert_eq!(*link.get_link_type(), LinkType::SolidLine);
    assert_eq!(link.get_label().to_owned(), String::from("lorem ipsum 123"));
    assert_eq!(doc, vec![caption("lorem ipsum 123"), line(20, 20, 220, 220, false, false)]);
}

#[test]
fn parse_into_link_solid_line_with_label_and_arrow_left() {
    let link = link(LinkType::SolidLine, "lorem ipsum 123", ArrowType::Left);
    let doc = draw(&link);
    assert_eq!(*link.get_link_type(), LinkType::SolidLine);
    assert_eq!(link.get_label().to_owned(), String::from("lorem ipsum 123"));
    assert_eq!(*link.get_arrow(), ArrowType::Left);
    assert_eq!(doc, vec![caption("lorem ipsum 123\u{25C0}"), line(20, 20, 220, 220, false, false)]);
}

#[test]
fn parse_into_link_solid_line_with_label_and_arrow_right() {
    let link = link(LinkType::SolidLine, "lorem ipsum 123", ArrowType::Right);
    let doc = draw(&link);
    assert_eq!(*link.get_arrow(), ArrowType::Right);
    assert_eq!(doc, vec![caption("lorem ipsum 123\u{25B6}"), line(20, 20, 220, 220, false, false)]);
}

#[test]
fn parse_into_link_solid_arrow() {
    let link = link(LinkType::SolidArrow, "", ArrowType::Missing);
    let doc = draw(&link);
    assert_eq!(*link.get_link_type(), LinkType::SolidArrow);
    assert_eq!(link.get_label().to_owned(), String::from(""));
    assert_eq!(*link.get_arrow(), ArrowType::Missing);
    assert_eq!(doc.last(), Some(&line(20, 20, 220, 220, false, false)));
    assert_eq!(doc[0], Primitive::ArrowHead { x1: 20, y1: 20, x2: 220, y2: 220 });
}

#[test]
fn parse_into_link_solid_arrow_with_label() {
    let link = link(LinkType::SolidArrow, "lorem ipsum 123", ArrowType::Missing);
    let doc = draw(&link);
    assert_eq!(link.get_label().to_owned(), String::from("lorem ipsum 123"));
    assert!(doc.contains(&caption("lorem ipsum 123")));
}

#[test]
fn parse_into_link_dashed_line() {
    let link = link(LinkType::DashedLine, "", ArrowType::Missing);
    let doc = draw(&link);
    assert_eq!(*link.get_link_type(), LinkType::DashedLine);
    assert_eq!(doc, vec![line(20, 20, 220, 220, true, false)]);
}

#[test]
fn parse_into_link_dashed_line_with_label() {
    let link = link(LinkType::DashedLine, "lorem ipsum 123", ArrowType::Missing);
    let doc = draw(&link);
    assert_eq!(link.get_label().to_owned(), String::from("lorem ipsum 123"));
    assert_eq!(doc, vec![caption("lorem ipsum 123"), line(20, 20, 220, 220, true, false)]);
}

#[test]
fn parse_into_link_dashed_line_with_label_and_arrow_left() {
    let link = link(LinkType::DashedLine, "lorem ipsum 123", ArrowType::Left);
    let doc = draw(&link);
    assert_eq!(*link.get_arrow(), ArrowType::Left);
    assert_eq!(doc, vec![caption("lorem ipsum 123\u{25C0}"), line(20, 20, 220, 220, true, false)]);
}

#[test]
fn parse_into_link_dashed_line_with_label_and_arrow_right() {
    let link = link(LinkType::DashedLine, "lorem ipsum 123", ArrowType::Right);
    let doc = draw(&link);
    assert_eq!(*link.get_arrow(), ArrowType::Right);
    assert_eq!(doc, vec![caption("lorem ipsum 123\u{25B6}"), line(20, 20, 220, 220, true, false)]);
}

#[test]
fn parse_into_link_dashed_arrow() {
    let link = link(LinkType::DashedArrow, "", ArrowType::Missing);
    let doc = draw(&link);
    assert_eq!(*link.get_link_type(), LinkType::DashedArrow);
    assert_eq!(doc.last(), Some(&line(20, 20, 220, 220, true, false)));
}

#[test]
fn parse_into_link_dashed_arrow_with_label() {
    let link = link(LinkType::DashedArrow, "lorem ipsum 123", ArrowType::Missing);
    let doc = draw(&link);
    assert_eq!(*link.get_link_type(), LinkType::DashedArrow);
    assert_eq!(link.get_label().to_owned(), String::from("lorem ipsum 123"));
    assert_eq!(*link.get_arrow(), ArrowType::Missing);
    assert!(doc.contains(&caption("lorem ipsum 123")));
}

#[test]
fn parse_into_link_in_class_diagram() {
    let link = Link::new(String::from("uc1"), LinkType::SolidArrow, String::from("uc5"), String::from("Include"), ArrowType::Missing);
    let mut doc = Vec::new();
    link.draw_class_link(&mut doc, 300, 100, 1500, 400, 900);
    // first line
    assert!(doc.contains(&line(300, 100, 900, 100, false, false)));
    // middle line
    assert!(doc.contains(&line(900, 100, 900, 400, false, false)));
    // second line, ending in the arrow
    assert!(doc.contains(&line(900, 400, 1500, 400, false, true)));
    assert!(doc.contains(&Primitive::Marker(MarkerKind::ClassLink)));
}

#[test]
fn class_link_spine_keeps_dashes_but_no_arrowhead() {
    let link = Link::new(String::from("a"), LinkType::DashedArrow, String::from("b"), String::new(), ArrowType::Missing);
    let mut doc = Vec::new();
    link.draw_class_link(&mut doc, 300, 100, 1500, 400, 900);
    assert_eq!(
        doc,
        vec![
            line(900, 100, 900, 400, true, false),
            Primitive::Marker(MarkerKind::ClassLink),
            line(300, 100, 900, 100, true, false),
            line(900, 400, 1500, 400, true, true),
        ]
    );
}

#[test]
fn caption_appends_arrow_sign() {
    let l = link(LinkType::SolidLine, "go", ArrowType::Left);
    assert_eq!(l.caption(), String::from("go\u{25C0}"));
    let r = link(LinkType::SolidLine, "go", ArrowType::Right);
    assert_eq!(r.caption(), String::from("go\u{25B6}"));
}

#[test]
fn link_setters_change_one_field() {
    let mut l = link(LinkType::SolidLine, "x", ArrowType::Missing);
    l.set_arrow(ArrowType::Right);
    l.set_link_type(LinkType::DashedArrow);
    assert_eq!(*l.get_arrow(), ArrowType::Right);
    assert_eq!(*l.get_link_type(), LinkType::DashedArrow);
    assert_eq!(l.get_label().to_owned(), String::from("x"));
}

#[test]
fn quotes_are_dropped_from_link_label() {
    let link = Link::new(String::from("a"), LinkType::SolidLine, String::from("b"), String::from("\"lorem ipsum 123\""), ArrowType::Missing);
    assert_eq!(link.get_label().to_owned(), String::from("lorem ipsum 123"));
}
