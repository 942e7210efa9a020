//! Tests of the tree-to-string reconstruction, the round trip with the
//! bracket parser, and traversal determinism.

use parsed_to_plot::String2StructureBuilder;
use parsed_to_plot::String2Tree;
use parsed_to_plot::Structure2PlotBuilder;
use parsed_to_plot::Tree2String;

fn inverse_check(example: String, inverse: bool) -> String {
    // check by building a tree and returning to the original input,
    // expecting x = f(f^-1(x))
    let mut constituency = example;
    let mut string2tree: String2Tree = String2StructureBuilder::new();
    string2tree.build(&mut constituency).unwrap();
    let tree = string2tree.get_structure();

    let mut tree2string: Tree2String = Structure2PlotBuilder::new(tree);
    tree2string.build().unwrap();

    tree2string.get_constituency(inverse)
}

#[test]
fn tree_double_leaf() {
    let example = String::from("(S (NP (det The) (N people)) (VP (V watch) (NP (det the) (N game))))");
    let inverse = true;
    let prediction = inverse_check(example.clone(), inverse);
    assert_eq!(
        example, prediction,
        "\nfailed, original example:\n {}\n != \n prediction: {}",
        example, prediction
    );
}

#[test]
fn tree_single_leaf() {
    let example = String::from("(36 (9 (3) (3)) (4 (2) (2)))");
    let inverse = false;
    let prediction = inverse_check(example.clone(), inverse);
    assert_eq!(
        example, prediction,
        "\nfailed, original example:\n {}\n != \nprediction: {}",
        example, prediction
    );
}

#[test]
fn math_expression_round_trip() {
    let example = String::from("(S (0 (1) (2 (3))))");
    let prediction = inverse_check(example.clone(), false);
    assert_eq!(example, prediction);
}

#[test]
fn repeated_builds_render_identically() {
    let example = String::from("(S (NP (det The) (N people)) (VP (V watch)))");
    let first = inverse_check(example.clone(), false);
    let second = inverse_check(example, false);
    assert_eq!(first, second);
}
