//! Tests of the configuration protocol and the tree plot layout.

use parsed_to_plot::Config;
use parsed_to_plot::DataType;
use parsed_to_plot::LibError;
use parsed_to_plot::String2StructureBuilder;
use parsed_to_plot::String2Tree;
use parsed_to_plot::Structure2PlotBuilder;
use parsed_to_plot::Tree2Plot;

fn args_of(selector: &str) -> Vec<String> {
    vec![
        "PROGRAM_NAME".to_string(),
        selector.to_string(),
        "Input/constituency.txt".to_string(),
        "Output".to_string(),
    ]
}

#[test]
fn out_file_path() {
    let save_to = Config::get_out_file("Output", "img");
    assert_eq!(save_to, "Output/img.png");
}

#[test]
fn constituency_selection_keeps_lines() {
    let lines = vec!["(S (a))".to_string(), "(T (b))".to_string()];
    match Config::new(&args_of("c"), lines.clone()).unwrap() {
        DataType::Constituency(v) => assert_eq!(v, lines),
        DataType::Dependency(_) => panic!("wrong data type selected"),
    }
}

#[test]
fn dependency_selection_splits_sentences() {
    let lines = vec![
        "".to_string(),
        "a".to_string(),
        "b".to_string(),
        "".to_string(),
        "c".to_string(),
    ];
    match Config::new(&args_of("d"), lines).unwrap() {
        DataType::Dependency(v) => {
            assert_eq!(v, vec![vec!["a".to_string(), "b".to_string()], vec!["c".to_string()]]);
        },
        DataType::Constituency(_) => panic!("wrong data type selected"),
    }
}

#[test]
fn invalid_selector_reports_error() {
    match Config::new(&args_of("e"), Vec::new()) {
        Ok(_) => panic!("selector should be refused"),
        Err(err) => {
            assert_eq!(err, LibError::BadSelector);
            assert_eq!(err.message(), "input selector is invalid");
        },
    }
}

#[test]
fn invalid_length_reports_error() {
    let mut args = args_of("c");
    args.push("---".to_string());
    match Config::new(&args, Vec::new()) {
        Ok(_) => panic!("argument count should be refused"),
        Err(err) => assert_eq!(err, LibError::WrongArgCount),
    }
}

#[test]
fn tree_plot_layout_of_small_tree() {
    // (0 (1 (2) (3)) (4)): three leaves, so the root spans [0, 6] in half
    // leaf units and sits at 3; node 1 gets [0, 4], node 4 gets [4, 6]
    let mut constituency = String::from("(0 (1 (2) (3)) (4))");
    let mut string2tree: String2Tree = String2StructureBuilder::new();
    string2tree.build(&mut constituency).unwrap();
    let tree = string2tree.get_structure();

    let mut tree2plot: Tree2Plot = Structure2PlotBuilder::new(tree);
    tree2plot.build().unwrap();
    let data = tree2plot.get_plot_data();

    let got: Vec<(String, u64, u64, u64, u64)> =
        data.iter().map(|d| (d.label.clone(), d.x, d.y, d.lo, d.hi)).collect();
    let expected = vec![
        ("0".to_string(), 3, 0, 0, 6),
        ("1".to_string(), 2, 1, 0, 4),
        ("2".to_string(), 1, 2, 0, 2),
        ("3".to_string(), 3, 2, 2, 4),
        ("4".to_string(), 5, 1, 4, 6),
    ];
    assert_eq!(got, expected);
}
