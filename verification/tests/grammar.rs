//! Grammar tests: filters, logic groups, projections, ordering.

use lazypaw::filters::{parse_filter, parse_logic_group, FilterNode, FilterOp, FilterValue};
use lazypaw::query::{parse_order, OrderDir, NullsOrder};
use lazypaw::select::{parse_select, select_columns, select_embeds, has_star, serialize_select, SelectNode};

#[test]
fn test_parse_eq() {
    let f = parse_filter("name", "eq.alice").unwrap();
    assert_eq!(f.column, "name");
    assert!(!f.negated);
    assert!(matches!(f.operator, FilterOp::Eq));
    assert!(matches!(f.value, FilterValue::Single(ref v) if v == "alice"));
}

#[test]
fn test_parse_not_eq() {
    let f = parse_filter("name", "not.eq.alice").unwrap();
    assert!(f.negated);
    assert!(matches!(f.operator, FilterOp::Eq));
}

#[test]
fn test_parse_in() {
    let f = parse_filter("id", "in.(1,2,3)").unwrap();
    assert!(matches!(f.operator, FilterOp::In));
    if let FilterValue::List(items) = &f.value {
        assert_eq!(items, &["1", "2", "3"]);
    } else {
        panic!("Expected list value");
    }
}

#[test]
fn test_parse_like() {
    let f = parse_filter("name", "like.*alice*").unwrap();
    assert!(matches!(f.operator, FilterOp::Like));
    assert!(matches!(f.value, FilterValue::Single(ref v) if v == "%alice%"));
}

#[test]
fn test_parse_is_null() {
    let f = parse_filter("deleted_at", "is.null").unwrap();
    assert!(matches!(f.operator, FilterOp::Is));
    assert!(matches!(f.value, FilterValue::Single(ref v) if v == "null"));
}

#[test]
fn test_logic_group() {
    let nodes = parse_logic_group("(name.eq.alice,age.gt.25)").unwrap();
    assert_eq!(nodes.len(), 2);
    match &nodes[0] {
        FilterNode::Condition(f) => assert_eq!(f.column, "name"),
        _ => panic!("Expected Condition"),
    }
    match &nodes[1] {
        FilterNode::Condition(f) => assert_eq!(f.column, "age"),
        _ => panic!("Expected Condition"),
    }
}

#[test]
fn test_nested_logic_group() {
    let nodes = parse_logic_group("(status.eq.waiting,and(score.gt.50,name.like.*cat*))").unwrap();
    assert_eq!(nodes.len(), 2);
    match &nodes[0] {
        FilterNode::Condition(f) => assert_eq!(f.column, "status"),
        _ => panic!("Expected Condition"),
    }
    match &nodes[1] {
        FilterNode::And(children) => assert_eq!(children.len(), 2),
        _ => panic!("Expected And"),
    }
}

#[test]
fn test_parse_order() {
    let specs = parse_order("name.asc,age.desc.nullsfirst").unwrap();
    assert_eq!(specs.len(), 2);
    assert_eq!(specs[0].column, "name");
    assert!(matches!(specs[0].direction, OrderDir::Asc));
    assert_eq!(specs[1].column, "age");
    assert!(matches!(specs[1].direction, OrderDir::Desc));
    assert!(matches!(specs[1].nulls, Some(NullsOrder::First)));
}

#[test]
fn test_simple_columns() {
    let nodes = parse_select("id,name,email").unwrap();
    assert_eq!(nodes.len(), 3);
    assert!(matches!(&nodes[0], SelectNode::Column(c) if c == "id"));
    assert!(matches!(&nodes[1], SelectNode::Column(c) if c == "name"));
    assert!(matches!(&nodes[2], SelectNode::Column(c) if c == "email"));
}

#[test]
fn test_star_with_embed() {
    let nodes = parse_select("*,orders(*)").unwrap();
    assert_eq!(nodes.len(), 2);
    assert!(matches!(&nodes[0], SelectNode::Star));
    if let SelectNode::Embed(e) = &nodes[1] {
        assert_eq!(e.name, "orders");
        assert!(e.fk_hint.is_none());
        assert_eq!(e.columns.len(), 1);
        assert!(matches!(&e.columns[0], SelectNode::Star));
    } else {
        panic!("Expected embed");
    }
}

#[test]
fn test_embed_with_fk_hint() {
    let nodes = parse_select("*,orders!fk_customer(id,amount)").unwrap();
    assert_eq!(nodes.len(), 2);
    if let SelectNode::Embed(e) = &nodes[1] {
        assert_eq!(e.name, "orders");
        assert_eq!(e.fk_hint.as_deref(), Some("fk_customer"));
        assert_eq!(e.columns.len(), 2);
    } else {
        panic!("Expected embed");
    }
}

#[test]
fn test_nested_embed() {
    let nodes = parse_select("*,orders(items(*))").unwrap();
    assert_eq!(nodes.len(), 2);
    if let SelectNode::Embed(e) = &nodes[1] {
        assert_eq!(e.name, "orders");
        assert_eq!(e.columns.len(), 1);
        if let SelectNode::Embed(inner) = &e.columns[0] {
            assert_eq!(inner.name, "items");
        } else {
            panic!("Expected nested embed");
        }
    } else {
        panic!("Expected embed");
    }
}

#[test]
fn test_empty_in_list_parses_empty() {
    let f = parse_filter("id", "in.()").unwrap();
    if let FilterValue::List(items) = &f.value {
        assert!(items.is_empty());
    } else {
        panic!("Expected list value");
    }
}

#[test]
fn test_unknown_operator_is_bad_request() {
    let r = parse_filter("name", "resembles.alice");
    assert!(r.is_err());
}

#[test]
fn test_unmatched_paren_in_select() {
    let r = parse_select("*,orders(id");
    assert!(r.is_err());
}

#[test]
fn test_empty_select_is_star() {
    let nodes = parse_select("").unwrap();
    assert_eq!(nodes.len(), 1);
    assert!(matches!(&nodes[0], SelectNode::Star));
    assert!(has_star(&nodes));
}

#[test]
fn test_select_helpers() {
    let nodes = parse_select("id,alias:name,orders(*)").unwrap();
    let cols = select_columns(&nodes);
    assert_eq!(cols, vec!["id".to_string(), "name".to_string()]);
    assert!(!has_star(&nodes));
    let embeds = select_embeds(&nodes);
    assert_eq!(embeds.len(), 1);
    assert_eq!(embeds[0].name, "orders");
}

fn select_nodes_equal(a: &[SelectNode], b: &[SelectNode]) -> bool {
    if a.len() != b.len() {
        return false;
    }
    for (x, y) in a.iter().zip(b.iter()) {
        let same = match (x, y) {
            (SelectNode::Star, SelectNode::Star) => true,
            (SelectNode::Column(c), SelectNode::Column(d)) => c == d,
            (SelectNode::Embed(e), SelectNode::Embed(f)) => {
                e.name == f.name && e.fk_hint == f.fk_hint
                    && select_nodes_equal(&e.columns, &f.columns)
            }
            _ => false,
        };
        if !same {
            return false;
        }
    }
    true
}

#[test]
fn test_select_round_trip() {
    for input in ["id,name", "*,orders(*)", "*,orders!fk_customer(id,items(*))", "a,b(c,d(*))"] {
        let tree = parse_select(input).unwrap();
        let text = serialize_select(&tree);
        let again = parse_select(&text).unwrap();
        assert!(select_nodes_equal(&tree, &again), "round trip changed the tree for {}", input);
    }
}
