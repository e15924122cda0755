use uml_composer::class::{Class, Component, Visibility};
use uml_composer::primitive::{Halves, LineKind, Primitive, RectKind, TextKind};

fn component(vis: Visibility, name: &str, kind: &str) -> Component {
    Component::new(String::from(name), vis, String::from(kind))
}

fn attributes() -> Vec<Component> {
    vec![
        component(Visibility::PRIVATE, "atrybut_prywatny", "typ"),
        component(Visibility::PUBLIC, "atrybut_publiczny", "typ"),
        component(Visibility::PROTECTED, "atrybut_chroniony", "typ"),
    ]
}

fn methods() -> Vec<Component> {
    vec![
        component(Visibility::PRIVATE, "metoda_prywatna", "typ"),
        component(Visibility::PUBLIC, "metoda_publiczna", "typ"),
        component(Visibility::PROTECTED, "metoda_chroniona", ""),
    ]
}

#[test]
fn parse_public_component() {
    let new_component = component(Visibility::PUBLIC, "name", "");
    assert_eq!(new_component.get_name().to_owned(), String::from("name"));
    assert_eq!(*new_component.get_visibility(), Visibility::PUBLIC);
    assert_eq!(new_component.get_kind().to_owned(), String::from(""));
}

#[test]
fn parse_private_component() {
    let new_component = component(Visibility::PRIVATE, "name", "");
    assert_eq!(new_component.get_name().to_owned(), String::from("name"));
    assert_eq!(*new_component.get_visibility(), Visibility::PRIVATE);
    assert_eq!(new_component.get_kind().to_owned(), String::from(""));
}

#[test]
fn parse_protected_component() {
    let new_component = component(Visibility::PROTECTED, "name", "");
    assert_eq!(new_component.get_name().to_owned(), String::from("name"));
    assert_eq!(*new_component.get_visibility(), Visibility::PROTECTED);
    assert_eq!(new_component.get_kind().to_owned(), String::from(""));
}

#[test]
fn parse_public_component_with_type() {
    let new_component = component(Visibility::PUBLIC, "cost", "double");
    assert_eq!(new_component.get_name().to_owned(), String::from("cost"));
    assert_eq!(*new_component.get_visibility(), Visibility::PUBLIC);
    assert_eq!(new_component.get_kind().to_owned(), String::from("double"));
}

#[test]
fn parse_private_component_with_type() {
    let new_component = component(Visibility::PRIVATE, "cost", "double");
    assert_eq!(new_component.get_name().to_owned(), String::from("cost"));
    assert_eq!(*new_component.get_visibility(), Visibility::PRIVATE);
    assert_eq!(new_component.get_kind().to_owned(), String::from("double"));
}

#[test]
fn parse_protected_component_with_type() {
    let new_component = component(Visibility::PROTECTED, "cost", "double");
    assert_eq!(new_component.get_name().to_owned(), String::from("cost"));
    assert_eq!(*new_component.get_visibility(), Visibility::PROTECTED);
    assert_eq!(new_component.get_kind().to_owned(), String::from("double"));
}

#[test]
fn parse_class_with_only_components() {
    let new_class = Class::new(String::from("klasa1"), attributes(), vec![], false);
    assert_eq!(new_class.get_keyword().to_owned(), String::from("class"));
    assert_eq!(new_class.get_name().to_owned(), String::from("klasa1"));
    assert_eq!(new_class.get_attributes().len(), 3);
    assert_eq!(new_class.get_methods().len(), 0)
}

#[test]
fn parse_class_with_only_methods() {
    let new_class = Class::new(String::from("klasa1"), vec![], methods(), false);
    assert_eq!(new_class.get_keyword().to_owned(), String::from("class"));
    assert_eq!(new_class.get_name().to_owned(), String::from("klasa1"));
    assert_eq!(new_class.get_attributes().len(), 0);
    assert_eq!(new_class.get_methods().len(), 3);
}

#[test]
fn parse_class_with_methods_and_attributes() {
    let new_class = Class::new(String::from("klasa1"), attributes(), methods(), false);
    assert_eq!(new_class.get_keyword().to_owned(), String::from("class"));
    assert_eq!(new_class.get_name().to_owned(), String::from("klasa1"));
    assert_eq!(new_class.get_attributes().len(), 3);
    assert_eq!(new_class.get_methods().len(), 3);
}

#[test]
fn parse_interface_with_only_components() {
    let new_class = Class::new(String::from("klasa1"), attributes(), vec![], true);
    assert_eq!(new_class.get_keyword().to_owned(), String::from("interface"));
    assert_eq!(new_class.get_name().to_owned(), String::from("klasa1"));
    assert_eq!(new_class.get_attributes().len(), 3);
    assert_eq!(new_class.get_methods().len(), 0)
}

#[test]
fn parse_interface_with_only_methods() {
    let new_class = Class::new(String::from("klasa1"), vec![], methods(), true);
    assert_eq!(new_class.get_keyword().to_owned(), String::from("interface"));
    assert_eq!(new_class.get_name().to_owned(), String::from("klasa1"));
    assert_eq!(new_class.get_attributes().len(), 0);
    assert_eq!(new_class.get_methods().len(), 3);
}

#[test]
fn parse_interface_with_methods_and_attributes() {
    let new_class = Class::new(String::from("klasa1"), attributes(), methods(), true);
    assert_eq!(new_class.get_keyword().to_owned(), String::from("interface"));
    assert_eq!(new_class.get_name().to_owned(), String::from("klasa1"));
    assert_eq!(new_class.get_attributes().len(), 3);
    assert_eq!(new_class.get_methods().len(), 3);
}

fn text(x: i64, y: i64, content: &str, kind: TextKind) -> Primitive {
    Primitive::Text { x: Halves { twice: 2 * x }, y, content: String::from(content), kind, rotation: None }
}

#[test]
fn draw_class() {
    let x: usize = 10;
    let y: usize = 20;
    let mut new_class = Class::new(String::from("klasa1"), vec![], methods(), true);
    let mut doc = Vec::new();
    new_class.draw(&mut doc, x, y);
    assert_eq!(
        doc,
        vec![
            Primitive::Rect { x: 10, y: 20, width: 390, height: 250, kind: RectKind::ClassBox },
            text(210, 57, "interface", TextKind::ClassKeyword),
            text(210, 107, "klasa1", TextKind::ClassTitle),
            Primitive::Line { x1: Halves { twice: 20 }, y1: 120, x2: 400, y2: 120, kind: LineKind::Rule },
            Primitive::Line { x1: Halves { twice: 20 }, y1: 270, x2: 400, y2: 270, kind: LineKind::Rule },
            text(25, 157, "- metoda_prywatna() : typ", TextKind::ClassMember),
            text(25, 207, "+ metoda_publiczna() : typ", TextKind::ClassMember),
            text(25, 257, "# metoda_chroniona()", TextKind::ClassMember),
        ]
    );
    assert_eq!(new_class.get_x().to_owned(), x);
    assert_eq!(new_class.get_y().to_owned(), y);
    assert_eq!(new_class.get_height().to_owned(), 250);
    assert_eq!(new_class.get_width().to_owned(), 390);
}

#[test]
fn member_line_reads_sign_name_and_type() {
    let (text, width) = component(Visibility::PROTECTED, "cost", "double").line(false);
    assert_eq!(text, String::from("# cost : double"));
    assert_eq!(width, 15 * 15);
    let (text, width) = component(Visibility::PUBLIC, "run", "").line(true);
    assert_eq!(text, String::from("+ run()"));
    assert_eq!(width, 15 * 7);
}

#[test]
fn empty_class_box() {
    let mut c = Class::new(String::from("A"), vec![], vec![], false);
    let mut doc = Vec::new();
    c.draw(&mut doc, 0, 0);
    assert_eq!(doc[0], Primitive::Rect { x: 0, y: 0, width: 0, height: 50, kind: RectKind::ClassBox });
    assert_eq!(doc.len(), 4);
}
