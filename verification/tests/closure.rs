use caller_utils_gen::closure::{dependency_closure, retained_types};
use caller_utils_gen::interface::{Case, CompositeTypeDef, Parameter};
use caller_utils_gen::types::{Primitive, TypeExpr};

fn named(name: &str) -> TypeExpr {
    TypeExpr::Named(name.to_string())
}

fn record(name: &str, fields: Vec<(&str, TypeExpr)>) -> CompositeTypeDef {
    CompositeTypeDef::Record {
        name: name.to_string(),
        fields: fields
            .into_iter()
            .map(|(name, ty)| Parameter { name: name.to_string(), ty })
            .collect(),
    }
}

fn variant(name: &str, cases: Vec<(&str, Option<TypeExpr>)>) -> CompositeTypeDef {
    CompositeTypeDef::Variant {
        name: name.to_string(),
        cases: cases
            .into_iter()
            .map(|(name, payload)| Case { name: name.to_string(), payload })
            .collect(),
    }
}

fn seed(names: &[&str]) -> Vec<String> {
    names.iter().map(|n| n.to_string()).collect()
}

fn table() -> Vec<CompositeTypeDef> {
    vec![
        record("order", vec![("buyer", named("person")), ("items", TypeExpr::List(Box::new(named("item"))))]),
        record("person", vec![("name", TypeExpr::Primitive(Primitive::Text))]),
        record("item", vec![("price", named("money")), ("state", named("state"))]),
        variant("state", vec![("fresh", None), ("sold", Some(named("person")))]),
        record("money", vec![("cents", TypeExpr::Primitive(Primitive::U64))]),
        record("lonely", vec![("x", TypeExpr::Primitive(Primitive::U32))]),
    ]
}

#[test]
fn closure_follows_references() {
    // `order` mentions `person` and `item`; `item` is looked at first, being
    // the last pushed, and mentions `state` and `money`.
    assert_eq!(dependency_closure(&seed(&["order"]), &table()), vec![0, 2, 4, 3, 1]);
}

#[test]
fn closure_leaves_out_what_nothing_needs() {
    let order = dependency_closure(&seed(&["state"]), &table());
    assert_eq!(order, vec![3, 1]);
    assert!(!order.contains(&5));
}

#[test]
fn closure_looks_at_the_last_seed_first() {
    assert_eq!(dependency_closure(&seed(&["person", "money"]), &table()), vec![4, 1]);
}

#[test]
fn closure_passes_over_unknown_and_repeated_names() {
    assert_eq!(dependency_closure(&seed(&["money", "nowhere", "money", "u32"]), &table()), vec![4]);
    assert_eq!(dependency_closure(&seed(&[]), &table()), Vec::<usize>::new());
    assert_eq!(dependency_closure(&seed(&["a"]), &vec![]), Vec::<usize>::new());
}

#[test]
fn closure_ends_on_types_that_refer_to_each_other() {
    let table = vec![
        record("a", vec![("next", named("b"))]),
        record("b", vec![("back", TypeExpr::Option(Box::new(named("a")))), ("own", named("b"))]),
    ];
    assert_eq!(dependency_closure(&seed(&["a"]), &table), vec![0, 1]);
}

#[test]
fn closure_takes_a_name_within_another_for_a_reference() {
    let table = vec![
        record("big", vec![("x", named("item-info"))]),
        record("item", vec![]),
        record("item-info", vec![]),
    ];
    assert_eq!(dependency_closure(&seed(&["big"]), &table), vec![0, 2, 1]);
}

#[test]
fn closure_uses_the_first_definition_of_a_name() {
    let table = vec![
        record("a", vec![("x", named("b"))]),
        record("b", vec![]),
        record("b", vec![("y", named("a"))]),
    ];
    assert_eq!(dependency_closure(&seed(&["a"]), &table), vec![0, 1]);
}

#[test]
fn retained_types_are_the_definitions_in_the_order_of_finding() {
    let all = table();
    let kept = retained_types(&seed(&["item"]), &all);
    assert_eq!(kept.len(), 4);
    assert_eq!(kept[0], all[2]);
    assert_eq!(kept[1], all[4]);
    assert_eq!(kept[2], all[3]);
    assert_eq!(kept[3], all[1]);
}

#[test]
fn no_retained_type_refers_to_a_declared_type_that_is_left_out() {
    let all = table();
    for start in ["order", "item", "state", "money", "lonely"] {
        let order = dependency_closure(&seed(&[start]), &all);
        for &at in &order {
            let refs: Vec<&str> = match at {
                0 => vec!["person", "item"],
                2 => vec!["money", "state"],
                3 => vec!["person"],
                _ => vec![],
            };
            for name in refs {
                let target = all
                    .iter()
                    .position(|d| match d {
                        CompositeTypeDef::Record { name: n, .. }
                        | CompositeTypeDef::Variant { name: n, .. } => n == name,
                    })
                    .unwrap();
                assert!(order.contains(&target));
            }
        }
    }
}
