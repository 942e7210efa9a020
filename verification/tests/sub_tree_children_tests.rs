//! Tests of the subtree child counting.

use parsed_to_plot::String2StructureBuilder;
use parsed_to_plot::String2Tree;
use parsed_to_plot::sub_tree_children::get_sub_children;
use parsed_to_plot::sub_tree_children::is_leaf;

fn parse_tree(example: &str) -> id_tree::Tree<String> {
    let mut constituency = String::from(example);
    let mut string2tree: String2Tree = String2StructureBuilder::new();
    string2tree.build(&mut constituency).unwrap();
    string2tree.get_structure()
}

fn counts_by_label(example: &str, as_leaves: bool) -> Vec<(String, usize)> {
    let tree = parse_tree(example);
    get_sub_children(&tree, as_leaves).unwrap()
}

#[test]
fn as_leaves_validation() {
    let example = "(0 (1 (2) (3 (4) (5))))";
    let golden = vec![("0", 3), ("1", 3), ("2", 1), ("3", 2), ("4", 1), ("5", 1)];
    let pairs = counts_by_label(example, true);
    let got: Vec<(&str, usize)> = pairs.iter().map(|(l, c)| (l.as_str(), *c)).collect();
    assert_eq!(got, golden);
}

#[test]
fn not_as_leaves_validation_1() {
    let example = "(0 (1 (2) (3 (4) (5))))";
    let golden = vec![("0", 6), ("1", 5), ("2", 1), ("3", 3), ("4", 1), ("5", 1)];
    let pairs = counts_by_label(example, false);
    let got: Vec<(&str, usize)> = pairs.iter().map(|(l, c)| (l.as_str(), *c)).collect();
    assert_eq!(got, golden);
}

#[test]
fn not_as_leaves_validation_2() {
    let example = "(0 (1 (2)) (3 (4) (5)))";
    let golden = vec![("0", 6), ("1", 2), ("2", 1), ("3", 3), ("4", 1), ("5", 1)];
    let pairs = counts_by_label(example, false);
    let got: Vec<(&str, usize)> = pairs.iter().map(|(l, c)| (l.as_str(), *c)).collect();
    assert_eq!(got, golden);
}

#[test]
fn is_leaf_test() {
    let tree = parse_tree("(S (NP (det The) (N people)) (VP (V watch) (NP (det the) (N game))))");
    let root_node_id = tree.root_node_id().unwrap();
    let is_leaf_result: bool = is_leaf(&tree, root_node_id).unwrap();
    assert_eq!(is_leaf_result, false);
}
