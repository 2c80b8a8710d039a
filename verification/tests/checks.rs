use nbsanity::checks::{
    analyze, any_failed, find_closest, Check, CellExecutionIsSequential, FileNotNamedUntitled,
    HasTitleCell, NoEmptyCells,
};
use nbsanity::notebook::{Cell, CodeCell, Notebook};

// test check find closest
#[test]
fn test_find_closest() {
    let found = find_closest("CellExecutionIsSequentialX".to_string());
    assert_eq!(
        found,
        Check::CellExecutionIsSequential(CellExecutionIsSequential {})
    );
}

#[test]
fn not_untitled_error_if_untitled() {
    let notebook = Notebook::new("Untitled.ipynb".into());
    let result = Check::FileNotNamedUntitled(FileNotNamedUntitled {}).check(&notebook);
    assert!(result.fail());
    assert_eq!(
        result.failures[0].description,
        "Notebook filename contains 'Untitled'"
    );
}

// test that untitled check does nothing if the filename is not untitled
#[test]
fn not_untitled_pass_if_not_untitled() {
    let notebook = Notebook::new("something else".into());
    let result = Check::FileNotNamedUntitled(FileNotNamedUntitled {}).check(&notebook);
    assert!(result.pass());
}

// test analyze
#[test]
fn analyze_returns_all_results() {
    let notebook = Notebook::new("Untitled.ipynb".into());
    let results = analyze(&notebook, &vec![]);
    assert_eq!(results.len(), Check::all().len());
}

// test any failed
#[test]
fn any_failed_returns_true_if_any_failed() {
    let notebook = Notebook::new("Untitled.ipynb".into());
    let results = analyze(&notebook, &vec![]);
    assert!(any_failed(&results));
}

// test check empty cells true if any cell is empty
#[test]
fn check_empty_cells_fail_if_any_cell_is_empty() {
    let mut notebook = Notebook::new("test.ipynb".into());
    notebook.cells.push(Cell::Code(CodeCell::default()));
    let got = Check::NoEmptyCells(NoEmptyCells {}).check(&notebook);
    assert!(got.fail());
}

#[test]
fn check_string_roundtrip() {
    for check in Check::all().iter() {
        assert_eq!(Check::from_str(&check.name()).unwrap(), *check);
    }
}

#[test]
fn check_from_str_strum() {
    assert_eq!(
        Check::from_str("FileNotNamedUntitled").unwrap(),
        Check::FileNotNamedUntitled(FileNotNamedUntitled)
    )
}

#[test]
fn check_display_strum() {
    let got = format!("{}", Check::FileNotNamedUntitled(FileNotNamedUntitled).name());
    assert_eq!(got, "FileNotNamedUntitled")
}

#[test]
fn check_to_str_strum() {
    let got = Check::FileNotNamedUntitled(FileNotNamedUntitled).name();
    assert_eq!(got, "FileNotNamedUntitled")
}

#[test]
fn check_from_string() {
    let check = Check::from_str("FileNotNamedUntitled");
    assert_eq!(
        check.unwrap(),
        Check::FileNotNamedUntitled(FileNotNamedUntitled)
    );
}

// // test check empty cells false if has cells that aren't empty
#[test]
fn check_empty_cells_pass_if_all_cells_are_not_empty() {
    let mut notebook = Notebook::new("test.ipynb".into());
    let mut cell = CodeCell::default();
    cell.source = vec!["print('hello')".into()];
    notebook.cells = vec![Cell::Code(cell)];
    let got = Check::NoEmptyCells(NoEmptyCells {}).check(&notebook);
    assert!(got.pass());
}

#[test]
fn unknown_check_reports_the_attempted_name() {
    let err = Check::from_str("NotARealCheck").unwrap_err();
    assert_eq!(err.name, "NotARealCheck");
    assert_eq!(
        find_closest("NoEmptyCellsX".to_string()).name(),
        "NoEmptyCells"
    );
}

#[test]
fn uppercase_filename_still_counts_as_untitled() {
    let notebook = Notebook::new("UNTITLED.IPYNB".into());
    let result = Check::FileNotNamedUntitled(FileNotNamedUntitled {}).check(&notebook);
    assert!(result.fail());
    let clean = Notebook::new("analysis.ipynb".into());
    assert!(Check::FileNotNamedUntitled(FileNotNamedUntitled {}).check(&clean).pass());
}

#[test]
fn has_title_cell_passes_on_heading_prose_first_cell() {
    let mut notebook = Notebook::new("titled.ipynb".into());
    let mut cell = nbsanity::notebook::MarkdownCell {
        id: None,
        metadata: nbsanity::notebook::CellMetaData {
            jupyter: None,
            collapsed: None,
            name: None,
            tags: None,
        },
        source: vec!["# Title".into()],
        idx: None,
    };
    cell.idx = Some(0);
    notebook.cells.push(Cell::Markdown(cell));
    let got = Check::HasTitleCell(HasTitleCell {}).check(&notebook);
    assert!(got.pass());
}

#[test]
fn has_title_cell_fails_when_first_cell_is_code() {
    let mut notebook = Notebook::new("titled.ipynb".into());
    let mut cell = CodeCell::default();
    cell.source = vec!["# Title".into()];
    notebook.cells.push(Cell::Code(cell));
    let got = Check::HasTitleCell(HasTitleCell {}).check(&notebook);
    assert!(got.fail());
    assert_eq!(got.failures[0].cell_id, 0);
    assert_eq!(got.failures[0].description, "Notebook does not have a title cell");
}
