//! Tests of the bracket-string parser against id_tree traversals.

use parsed_to_plot::LibError;
use parsed_to_plot::String2StructureBuilder;
use parsed_to_plot::String2Tree;

fn parse_tree(example: &str) -> id_tree::Tree<String> {
    let mut constituency = String::from(example);
    let mut string2tree: String2Tree = String2StructureBuilder::new();
    string2tree.build(&mut constituency).unwrap();
    string2tree.get_structure()
}

fn pre_order_labels(tree: &id_tree::Tree<String>) -> Vec<String> {
    let root = tree.root_node_id().unwrap();
    tree.traverse_pre_order(root).unwrap().map(|n| n.data().clone()).collect()
}

fn level_order_labels(tree: &id_tree::Tree<String>) -> Vec<String> {
    let root = tree.root_node_id().unwrap();
    tree.traverse_level_order(root).unwrap().map(|n| n.data().clone()).collect()
}

fn post_order_labels(tree: &id_tree::Tree<String>) -> Vec<String> {
    let root = tree.root_node_id().unwrap();
    tree.traverse_post_order(root).unwrap().map(|n| n.data().clone()).collect()
}

#[test]
fn level_order() {
    let example = "(S (NP (det The) (N people)) (VP (V watch) (NP (det the) (N game))))";
    let golden = vec![
        "S", "NP", "VP", "det", "N", "V", "NP", "The", "people", "watch", "det", "N", "the",
        "game",
    ];
    let tree = parse_tree(example);
    assert_eq!(golden, level_order_labels(&tree));
}

#[test]
fn pre_order() {
    let example = "(S (NP (det The) (N people)) (VP (V watch) (NP (det the) (N game))))";
    let golden = vec![
        "S", "NP", "det", "The", "N", "people", "VP", "V", "watch", "NP", "det", "the", "N",
        "game",
    ];
    let tree = parse_tree(example);
    assert_eq!(golden, pre_order_labels(&tree));
}

#[test]
fn math_mode() {
    let example = "(S (0 (1) (2 (3))))";
    let golden = vec!["S", "0", "1", "2", "3"];
    let tree = parse_tree(example);
    assert_eq!(golden, pre_order_labels(&tree));
}

#[test]
fn empty_tree() {
    let example = "(S)";
    let golden = vec!["S"];
    let tree = parse_tree(example);
    assert_eq!(golden, post_order_labels(&tree));
}

#[test]
fn non_trivial_root() {
    let example = "(0 (1))";
    let golden = vec!["0", "1"];
    let tree = parse_tree(example);
    assert_eq!(golden, pre_order_labels(&tree));
}

#[test]
fn null_tree_reports_error() {
    let mut constituency = String::from("()");
    let mut string2tree: String2Tree = String2StructureBuilder::new();
    let err = string2tree.build(&mut constituency).unwrap_err();
    assert_eq!(err, LibError::NullNode);
    assert_eq!(err.message(), "found a null node in input string");
}

#[test]
fn missing_closures_reports_error() {
    let mut constituency = String::from("(S (0 (1");
    let mut string2tree: String2Tree = String2StructureBuilder::new();
    let err = string2tree.build(&mut constituency).unwrap_err();
    assert_eq!(err, LibError::UnbalancedBrackets);
    assert_eq!(err.message(), "number of closers and openers don't match");
}

#[test]
fn missing_opening_reports_error() {
    let mut constituency = String::from("S (0 (1");
    let mut string2tree: String2Tree = String2StructureBuilder::new();
    let err = string2tree.build(&mut constituency).unwrap_err();
    assert_eq!(err, LibError::NoMatchingParenthesis);
}

#[test]
fn inconsistent_closers_reports_error() {
    let mut constituency = String::from("(S (0)) (1 2)");
    let mut string2tree: String2Tree = String2StructureBuilder::new();
    let err = string2tree.build(&mut constituency).unwrap_err();
    assert_eq!(err, LibError::InconsistentClosers);
}

#[test]
fn consecutive_opens_reports_error() {
    let mut constituency = String::from("((S a))");
    let mut string2tree: String2Tree = String2StructureBuilder::new();
    let err = string2tree.build(&mut constituency).unwrap_err();
    assert_eq!(err, LibError::ConsecutiveOpenBrackets);
}
