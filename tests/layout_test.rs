use uml_composer::actor::Actor;
use uml_composer::class::Class;
use uml_composer::class_layout::{class_link_routes, layout_class_diagram, ClassLinkRoute};
use uml_composer::error::DiagramError;
use uml_composer::link::{ArrowType, Link, LinkType};
use uml_composer::primitive::Document;
use uml_composer::registry::{AliasRegistry, UmlParser};
use uml_composer::use_case::{Context, UseCase};
use uml_composer::use_case_layout::layout_use_case_diagram;

fn arrow(a: &str, b: &str) -> Link {
    Link::new(String::from(a), LinkType::SolidArrow, String::from(b), String::new(), ArrowType::Missing)
}

fn chain_context() -> Context {
    let ucs = ["uc1", "uc2", "uc3", "uc4", "uc5"].iter().map(|a| UseCase::new(String::from(*a), None)).collect();
    Context::new(String::from("R"), ucs)
}

fn chain_links() -> Vec<Link> {
    vec![arrow("uc1", "uc2"), arrow("uc2", "uc3"), arrow("uc4", "uc5")]
}

#[test]
fn registering_twice_fails() {
    let mut reg = AliasRegistry::new();
    assert_eq!(UmlParser::add_alias(&mut reg, String::from("a")), Ok(()));
    assert_eq!(UmlParser::add_alias(&mut reg, String::from("b")), Ok(()));
    assert_eq!(
        UmlParser::add_alias(&mut reg, String::from("a")),
        Err(DiagramError::DuplicateIdentifier(String::from("a")))
    );
    assert_eq!(reg.len(), 2);
}

#[test]
fn registering_distinct_aliases_fills_registry() {
    let mut reg = AliasRegistry::new();
    for k in 0..25 {
        assert_eq!(UmlParser::add_alias(&mut reg, format!("alias{}", k)), Ok(()));
    }
    assert_eq!(reg.len(), 25);
    assert!(reg.contains(&String::from("alias7")));
}

#[test]
fn unknown_alias_is_reported() {
    let mut reg = AliasRegistry::new();
    UmlParser::add_alias(&mut reg, String::from("a")).unwrap();
    assert_eq!(UmlParser::check_alias(&reg, String::from("a")), Ok(()));
    assert_eq!(
        UmlParser::check_alias(&reg, String::from("c")),
        Err(DiagramError::UnknownReference(String::from("c")))
    );
}

#[test]
fn use_case_columns_follow_chains() {
    let mut context = chain_context();
    let links = chain_links();
    let mut used = vec![false; links.len()];
    let width = context.assign_columns(&links, &mut used);
    let columns: Vec<i32> = context.get_use_cases().iter().map(|u| u.get_width_number()).collect();
    assert_eq!(columns, vec![1, 2, 3, 1, 2]);
    assert_eq!(width, 3);
    assert_eq!(context.get_width_number(), 3);
    assert_eq!(used, vec![true, true, true]);
}

#[test]
fn use_case_takes_largest_proposed_column() {
    // a --> b --> c and a --> c: c is proposed 3 by the chain and 2 by the direct link
    let ucs = ["a", "b", "c"].iter().map(|a| UseCase::new(String::from(*a), None)).collect();
    let mut context = Context::new(String::from("R"), ucs);
    let links = vec![arrow("a", "b"), arrow("b", "c"), arrow("a", "c")];
    let mut used = vec![false; 3];
    assert_eq!(context.assign_columns(&links, &mut used), 3);
    let columns: Vec<i32> = context.get_use_cases().iter().map(|u| u.get_width_number()).collect();
    assert_eq!(columns, vec![1, 2, 3]);
}

#[test]
fn cyclic_links_are_used_once() {
    let ucs = ["a", "b"].iter().map(|a| UseCase::new(String::from(*a), None)).collect();
    let mut context = Context::new(String::from("R"), ucs);
    let links = vec![arrow("a", "b"), arrow("b", "a")];
    let mut used = vec![false; 2];
    assert_eq!(context.assign_columns(&links, &mut used), 3);
    let columns: Vec<i32> = context.get_use_cases().iter().map(|u| u.get_width_number()).collect();
    assert_eq!(columns, vec![3, 2]);
}

fn use_case_diagram() -> Result<(Document, Vec<Context>, Vec<Actor>), DiagramError> {
    let mut reg = AliasRegistry::new();
    let mut contexts = vec![chain_context()];
    let mut actors = vec![Actor::new(String::from("Guest"), Some(String::from("g")))];
    UmlParser::add_alias(&mut reg, String::from("R"))?;
    UmlParser::add_alias(&mut reg, String::from("g"))?;
    let mut links = chain_links();
    links.push(arrow("g", "uc1"));
    let d = layout_use_case_diagram(&mut contexts, &mut actors, &links, &mut reg)?;
    Ok((d, contexts, actors))
}

#[test]
fn use_case_diagram_layout() {
    let (d, contexts, actors) = use_case_diagram().unwrap();
    assert_eq!(d.width, 500 + 350 * 2 + 10);
    assert_eq!(d.height, 500);
    assert_eq!(contexts[0].get_width_number(), 3);
    assert_eq!((actors[0].get_x(), actors[0].get_y()), (75, 190));
    let uc3 = &contexts[0].get_use_cases()[2];
    assert_eq!(uc3.get_x(), 150 + 175 + 2 * 350);
    // the actor's link ends at the left edge of uc1's ellipse
    let uc1 = &contexts[0].get_use_cases()[0];
    let last = d.primitives.last().unwrap();
    assert_eq!(
        *last,
        uml_composer::primitive::Primitive::Line {
            x1: uml_composer::primitive::Halves { twice: 2 * 95 },
            y1: 230,
            x2: uc1.get_x() - uc1.get_width() / 2,
            y2: uc1.get_y(),
            kind: uml_composer::primitive::LineKind::Thin { dashed: false, arrow_end: false },
        }
    );
}

#[test]
fn layout_twice_gives_the_same_drawing() {
    let (d1, c1, _) = use_case_diagram().unwrap();
    let (d2, c2, _) = use_case_diagram().unwrap();
    assert_eq!(d1.primitives, d2.primitives);
    assert_eq!((d1.width, d1.height), (d2.width, d2.height));
    let pos = |c: &Vec<Context>| -> Vec<(i64, i64, i32)> {
        c[0].get_use_cases().iter().map(|u| (u.get_x(), u.get_y(), u.get_width_number())).collect()
    };
    assert_eq!(pos(&c1), pos(&c2));
}

#[test]
fn dangling_link_is_reported_before_drawing() {
    let mut reg = AliasRegistry::new();
    let mut contexts = vec![chain_context()];
    let mut actors = vec![];
    UmlParser::add_alias(&mut reg, String::from("R")).unwrap();
    let links = vec![arrow("uc1", "zz")];
    let r = layout_use_case_diagram(&mut contexts, &mut actors, &links, &mut reg);
    assert!(matches!(r, Err(DiagramError::UnknownReference(ref a)) if a == "zz"));
}

#[test]
fn duplicate_use_case_alias_is_reported() {
    let mut reg = AliasRegistry::new();
    let ucs = vec![UseCase::new(String::from("A"), Some(String::from("u"))), UseCase::new(String::from("B"), Some(String::from("u")))];
    let mut contexts = vec![Context::new(String::from("R"), ucs)];
    let mut actors = vec![];
    let r = layout_use_case_diagram(&mut contexts, &mut actors, &vec![], &mut reg);
    assert!(matches!(r, Err(DiagramError::DuplicateIdentifier(ref a)) if a == "u"));
}

fn classes() -> Vec<Class> {
    ["A", "B", "C", "D"].iter().map(|n| Class::new(String::from(*n), vec![], vec![], false)).collect()
}

#[test]
fn class_links_fan_out_along_the_box() {
    let mut cls = classes();
    let links = vec![arrow("A", "B"), arrow("C", "A"), arrow("A", "D"), arrow("A", "nowhere")];
    let mut reg = AliasRegistry::new();
    let d = layout_class_diagram(&mut cls, &links, &mut reg).unwrap();
    assert_eq!((d.width, d.height), (3000, 1800));
    assert_eq!((*cls[0].get_x(), *cls[0].get_y()), (50, 25));
    assert_eq!((*cls[1].get_x(), *cls[1].get_y()), (1850, 50));
    assert_eq!((*cls[2].get_x(), *cls[2].get_y()), (50, 175));
    assert_eq!((*cls[3].get_x(), *cls[3].get_y()), (1850, 200));
    let routes = class_link_routes(&cls, &links);
    // A is met by 4 link ends: a box 50 high spreads them over 40, a quarter apart
    assert_eq!(
        routes,
        vec![
            ClassLinkRoute { link: 0, x1: 50, y1: 35, x2: 1850, y2: 90, xs: 900 },
            ClassLinkRoute { link: 1, x1: 50, y1: 215, x2: 50, y2: 45, xs: 1050 },
            ClassLinkRoute { link: 2, x1: 50, y1: 55, x2: 1850, y2: 240, xs: 1200 },
        ]
    );
}

#[test]
fn three_links_at_a_class_split_its_edge_in_thirds() {
    let mut cls = classes();
    let links = vec![arrow("A", "B"), arrow("C", "A"), arrow("A", "D")];
    let mut reg = AliasRegistry::new();
    layout_class_diagram(&mut cls, &links, &mut reg).unwrap();
    let routes = class_link_routes(&cls, &links);
    // top at 25, 40 to spread over: 25 + 40/3, 25 + 80/3, 25 + 40
    assert_eq!((routes[0].y1, routes[1].y2, routes[2].y1), (38, 51, 65));
    assert_eq!((routes[0].xs, routes[1].xs, routes[2].xs), (900, 1100, 1300));
}

#[test]
fn duplicate_class_name_is_reported() {
    let mut cls = vec![Class::new(String::from("A"), vec![], vec![], false), Class::new(String::from("A"), vec![], vec![], true)];
    let mut reg = AliasRegistry::new();
    let r = layout_class_diagram(&mut cls, &vec![], &mut reg);
    assert!(matches!(r, Err(DiagramError::DuplicateIdentifier(ref a)) if a == "A"));
}

#[test]
fn context_width_counts_only_its_own_use_cases() {
    let mut first = Context::new(String::from("C1"), vec![UseCase::new(String::from("a"), None)]);
    let mut second = Context::new(String::from("C2"), vec![UseCase::new(String::from("b"), None)]);
    let links = vec![arrow("a", "b")];
    let mut used = vec![false];
    assert_eq!(first.assign_columns(&links, &mut used), 1);
    assert_eq!(first.get_width_number(), 1);
    assert_eq!(second.assign_columns(&links, &mut used), 1);
}

#[test]
fn two_classes_get_two_rows_of_canvas() {
    let mut cls = vec![Class::new(String::from("A"), vec![], vec![], false), Class::new(String::from("B"), vec![], vec![], false)];
    let mut reg = AliasRegistry::new();
    let d = layout_class_diagram(&mut cls, &vec![], &mut reg).unwrap();
    assert_eq!(d.height, 1200);
    let mut one = vec![Class::new(String::from("A"), vec![], vec![], false)];
    let mut reg = AliasRegistry::new();
    assert_eq!(layout_class_diagram(&mut one, &vec![], &mut reg).unwrap().height, 600);
}
