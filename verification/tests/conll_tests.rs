//! Tests of the tabular dependency parser, its serializer, and the
//! arc-height extraction.

use parsed_to_plot::Conll2Plot;
use parsed_to_plot::Conll2String;
use parsed_to_plot::LibError;
use parsed_to_plot::String2Conll;
use parsed_to_plot::String2StructureBuilder;
use parsed_to_plot::Structure2PlotBuilder;

fn example_rows() -> Vec<String> {
    [
        "0\tThe\tthe\tDET\t_\t_\t1\tdet\t_\t_",
        "1\tpeople\tpeople\tNOUN\t_\t_\t2\tnsubj\t_\t_",
        "2\twatch\twatch\tVERB\t_\t_\t2\tROOT\t_\t_",
        "3\tthe\tthe\tDET\t_\t_\t4\tdet\t_\t_",
        "4\tgame\tgame\tNOUN\t_\t_\t2\tdobj\t_\t_",
    ]
        .map(|x| x.to_string())
        .to_vec()
}

#[test]
fn load_sequence() {
    let mut dependency = example_rows();
    let gold_first_token_form = "The";
    let gold_last_token_id = 4;

    let mut string2conll: String2Conll = String2StructureBuilder::new();
    string2conll.build(&mut dependency).unwrap();
    let conll = string2conll.get_structure();

    let prediction_first_token_form = conll.first().unwrap().get_token_form();
    assert_eq!(prediction_first_token_form, gold_first_token_form);

    let prediction_last_token_id = conll.last().unwrap().get_token_id();
    assert_eq!(prediction_last_token_id, gold_last_token_id);
}

#[test]
fn conll() {
    let example = example_rows();
    let prediction = inverse_check(example.clone());
    assert_eq!(
        example, prediction,
        "\n failed, original example: \n {:?} \n != \n prediction: \n {:?}",
        example, prediction
    );
}

fn inverse_check(example: Vec<String>) -> Vec<String> {
    // check by building a token sequence and returning to the original
    // input, expecting x = f(f^-1(x))
    let mut dependency = example;
    let mut string2conll: String2Conll = String2StructureBuilder::new();
    string2conll.build(&mut dependency).unwrap();
    let conll = string2conll.get_structure();

    let mut conll2string: Conll2String = Structure2PlotBuilder::new(conll);
    conll2string.build().unwrap();

    conll2string.get_conll()
}

#[test]
fn root_token_is_watch() {
    let mut dependency = example_rows();
    let mut string2conll: String2Conll = String2StructureBuilder::new();
    string2conll.build(&mut dependency).unwrap();
    let conll = string2conll.get_structure();
    let root: Vec<usize> = conll
        .iter()
        .filter(|t| t.get_token_id() == t.get_token_head())
        .map(|t| t.get_token_id())
        .collect();
    assert_eq!(root, vec![2]);
    assert_eq!(conll[2].get_token_form(), "watch");
}

#[test]
fn wrong_field_count_reports_error() {
    let mut dependency = vec!["0\tThe\tthe".to_string()];
    let mut string2conll: String2Conll = String2StructureBuilder::new();
    let err = string2conll.build(&mut dependency).unwrap_err();
    assert_eq!(err, LibError::WrongFieldCount);
}

#[test]
fn bad_number_reports_error() {
    let mut dependency = vec!["x\tThe\tthe\tDET\t_\t_\t1\tdet\t_\t_".to_string()];
    let mut string2conll: String2Conll = String2StructureBuilder::new();
    let err = string2conll.build(&mut dependency).unwrap_err();
    assert_eq!(err, LibError::BadNumber);
}

#[test]
fn arc_heights_of_example() {
    let mut dependency = example_rows();
    let mut string2conll: String2Conll = String2StructureBuilder::new();
    string2conll.build(&mut dependency).unwrap();
    let conll = string2conll.get_structure();

    let mut conll2plot: Conll2Plot = Structure2PlotBuilder::new(conll);
    conll2plot.build().unwrap();
    let data = conll2plot.output.unwrap();

    // visit order: nearest dependents first, heights assigned bottom-up
    let got: Vec<(u64, u64, i64)> =
        data.conll_plot_data.iter().map(|d| (d.start, d.end, d.height)).collect();
    let expected = vec![(1, 0, 1), (2, 1, 1), (4, 3, 1), (2, 4, 2), (2, 2, -1)];
    assert_eq!(got, expected);
}

#[test]
fn equal_height_arcs_do_not_overlap() {
    let mut dependency = example_rows();
    let mut string2conll: String2Conll = String2StructureBuilder::new();
    string2conll.build(&mut dependency).unwrap();
    let conll = string2conll.get_structure();

    let mut conll2plot: Conll2Plot = Structure2PlotBuilder::new(conll);
    conll2plot.build().unwrap();
    let data = conll2plot.output.unwrap();

    let arcs: Vec<(u64, u64, i64)> = data
        .conll_plot_data
        .iter()
        .filter(|d| d.height >= 0)
        .map(|d| (d.start.min(d.end), d.start.max(d.end), d.height))
        .collect();
    for a in &arcs {
        for b in &arcs {
            if a != b && a.2 == b.2 {
                // same height: spans may touch at endpoints only
                let overlap_lo = a.0.max(b.0);
                let overlap_hi = a.1.min(b.1);
                assert!(
                    overlap_lo >= overlap_hi,
                    "arcs {:?} and {:?} overlap at equal height",
                    a,
                    b
                );
            }
        }
    }
}

#[test]
fn multiple_roots_reports_error() {
    let mut dependency = vec![
        "0\ta\ta\tX\t_\t_\t0\tROOT\t_\t_".to_string(),
        "1\tb\tb\tX\t_\t_\t1\tROOT\t_\t_".to_string(),
    ];
    let mut string2conll: String2Conll = String2StructureBuilder::new();
    string2conll.build(&mut dependency).unwrap();
    let conll = string2conll.get_structure();
    let mut conll2plot: Conll2Plot = Structure2PlotBuilder::new(conll);
    let err = conll2plot.build().unwrap_err();
    assert_eq!(err, LibError::MultipleRoots);
    assert_eq!(err.message(), "not supporting more than one root");
}

#[test]
fn no_root_reports_error() {
    let mut dependency = vec![
        "0\ta\ta\tX\t_\t_\t1\tdep\t_\t_".to_string(),
        "1\tb\tb\tX\t_\t_\t0\tdep\t_\t_".to_string(),
    ];
    let mut string2conll: String2Conll = String2StructureBuilder::new();
    string2conll.build(&mut dependency).unwrap();
    let conll = string2conll.get_structure();
    let mut conll2plot: Conll2Plot = Structure2PlotBuilder::new(conll);
    let err = conll2plot.build().unwrap_err();
    assert_eq!(err, LibError::NoRoot);
}

#[test]
fn empty_conll_serialization_reports_error() {
    let tokens: Vec<parsed_to_plot::Token> = Vec::new();
    let mut conll2string: Conll2String = Structure2PlotBuilder::new(tokens);
    let err = conll2string.build().unwrap_err();
    assert_eq!(err, LibError::EmptyStructure);
}
