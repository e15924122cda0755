use uml_composer::primitive::{Primitive, RectKind};
use uml_composer::use_case::{Context, UseCase};

#[test]
fn context_with_use_case() {
    let mut context = Context::new(
        String::from("Restaurant"),
        vec![
            UseCase::new(String::from("Eat food"), Some(String::from("uc1"))),
            UseCase::new(String::from("Pay for food"), Some(String::from("uc2"))),
        ],
    );
    assert_eq!(context.get_context_label().to_owned(), String::from("Restaurant"));
    assert_eq!(context.get_use_cases().len(), 2);
    assert_eq!(context.get_use_cases()[0].get_use_case_alias().to_owned(), String::from("uc1"));
    assert_eq!(context.get_use_cases()[0].get_use_case_label().to_owned(), String::from("Eat food"));
    assert_eq!(context.get_use_cases()[1].get_use_case_alias().to_owned(), String::from("uc2"));
    assert_eq!(context.get_use_cases()[1].get_use_case_label().to_owned(), String::from("Pay for food"));

    let mut doc = Vec::new();
    let (x, y, width, height) = (50, 100, 200, 200);
    context.draw(&mut doc, x, y, width, height);
    assert!(doc.contains(&Primitive::Rect { x: 50, y: 100, width: 200, height: 200, kind: RectKind::ContextFrame }));
}

#[test]
fn context_stacks_use_cases_of_a_column() {
    let mut context = Context::new(
        String::from("R"),
        vec![UseCase::new(String::from("a"), None), UseCase::new(String::from("b"), None), UseCase::new(String::from("c"), None)],
    );
    context.get_use_cases_mut()[2].set_width_number(2);
    context.set_width_number(2);
    let mut doc = Vec::new();
    context.draw(&mut doc, 150, 100, 700, 350);
    let ucs = context.get_use_cases();
    // column 1 holds two use cases: rows 350 / 3 = 116, capped at 100, apart
    assert_eq!((ucs[0].get_x(), ucs[0].get_y()), (325, 200));
    assert_eq!((ucs[1].get_x(), ucs[1].get_y()), (325, 300));
    // column 2 holds one: 350 / 2 = 175, capped at 100
    assert_eq!((ucs[2].get_x(), ucs[2].get_y()), (675, 200));
    // ellipses are 4/5 of 350 / 3 = 93, capped at 50, high
    assert!(matches!(doc[2], Primitive::Ellipse { ry: 25, .. }));
}

#[test]
fn context_label_is_trimmed() {
    let context = Context::new(String::from(" \tRestaurant \n"), vec![]);
    assert_eq!(context.get_context_label().to_owned(), String::from("Restaurant"));
    let inner = Context::new(String::from("Big shop"), vec![]);
    assert_eq!(inner.get_context_label().to_owned(), String::from("Big shop"));
}
