use uml_composer::primitive::{Halves, Primitive, TextKind};
use uml_composer::use_case::UseCase;

#[test]
fn use_case_with_alias() {
    let mut use_case = UseCase::new(String::from("Eat food"), Some(String::from("uc1")));
    assert_eq!(use_case.get_use_case_label().to_owned(), String::from("Eat food"));
    assert_eq!(use_case.get_use_case_alias().to_owned(), String::from("uc1"));
    let mut doc = Vec::new();
    let (x, y, height, width) = (50, 70, 50, 100);
    use_case.draw(&mut doc, x, y, height, width);
    assert!(matches!(doc[0], Primitive::Ellipse { cx: 50, cy: 70, .. }));
    assert!(doc.contains(&Primitive::Text {
        x: Halves { twice: 100 },
        y: 76,
        content: String::from("Eat food"),
        kind: TextKind::UseCaseCaption,
        rotation: None,
    }));
}

#[test]
fn use_case_without_alias() {
    let mut use_case = UseCase::new(String::from("Eat food"), None);
    assert_eq!(use_case.get_use_case_label().to_owned(), String::from("Eat food"));
    assert_eq!(use_case.get_use_case_alias().to_owned(), String::from("Eat food"));
    let mut doc = Vec::new();
    use_case.draw(&mut doc, 120, 100, 200, 100);
    assert!(matches!(doc[0], Primitive::Ellipse { cx: 120, cy: 100, .. }));
}

#[test]
fn use_case_ellipse_widens_for_long_labels() {
    let mut use_case = UseCase::new(String::from("Eat food"), None);
    let mut doc = Vec::new();
    use_case.draw(&mut doc, 0, 0, 50, 100);
    // 8 bytes of label: 8 * 12 + 20 = 116, more than the 50 asked for
    assert_eq!(doc[0], Primitive::Ellipse { cx: 0, cy: 0, rx: Halves { twice: 116 }, ry: 50 });
    assert_eq!(use_case.get_width(), 116);
    let mut wide = UseCase::new(String::from("x"), None);
    wide.draw(&mut doc, 0, 0, 300, 41);
    assert_eq!(wide.get_width(), 300);
    assert_eq!(doc[2], Primitive::Ellipse { cx: 0, cy: 0, rx: Halves { twice: 300 }, ry: 20 });
}

#[test]
fn use_case_starts_in_first_column() {
    let mut use_case = UseCase::new(String::from("a"), None);
    assert_eq!(use_case.get_width_number(), 1);
    use_case.set_width_number(3);
    assert_eq!(use_case.get_width_number(), 3);
}

#[test]
fn quotes_are_dropped_from_label_and_alias() {
    let with_alias = UseCase::new(String::from("\"Eat food\""), Some(String::from("\"uc1\"")));
    assert_eq!(with_alias.get_use_case_label().to_owned(), String::from("Eat food"));
    assert_eq!(with_alias.get_use_case_alias().to_owned(), String::from("uc1"));
    let without_alias = UseCase::new(String::from("\"Pay\""), None);
    assert_eq!(without_alias.get_use_case_alias().to_owned(), String::from("Pay"));
}
