use nbsanity::checks::{
    analyze, any_failed, report_lines, Check, CellExecutionIsSequential, NoEmptyCells,
};
use nbsanity::notebook::{Cell, CellMetaData, CodeCell, MarkdownCell, Notebook};

fn code_cell(count: Option<i32>, source: Vec<String>) -> Cell {
    let mut cell = CodeCell::default();
    cell.execution_count = count;
    cell.source = source;
    cell.idx = None;
    Cell::Code(cell)
}

fn prose_cell(source: Vec<String>) -> Cell {
    Cell::Markdown(MarkdownCell {
        id: None,
        metadata: CellMetaData {
            jupyter: None,
            collapsed: None,
            name: None,
            tags: None,
        },
        source,
        idx: None,
    })
}

fn notebook_with(name: &str, cells: Vec<Cell>) -> Notebook {
    let mut notebook = Notebook::new(name);
    notebook.cells = cells;
    notebook.add_cell_indices();
    notebook
}

#[test]
fn sequential_counts_in_order_pass() {
    let notebook = notebook_with(
        "seq.ipynb",
        vec![
            code_cell(Some(1), vec!["a = 1".into()]),
            code_cell(Some(2), vec!["b = 2".into()]),
            code_cell(Some(3), vec!["c = 3".into()]),
        ],
    );
    let got = Check::CellExecutionIsSequential(CellExecutionIsSequential {}).check(&notebook);
    assert!(got.pass());
}

#[test]
fn sequential_counts_out_of_order_fail_twice() {
    let notebook = notebook_with(
        "seq.ipynb",
        vec![
            code_cell(Some(1), vec!["a = 1".into()]),
            code_cell(Some(3), vec!["b = 2".into()]),
            code_cell(Some(2), vec!["c = 3".into()]),
        ],
    );
    let got = Check::CellExecutionIsSequential(CellExecutionIsSequential {}).check(&notebook);
    assert!(got.fail());
    assert_eq!(got.failures.len(), 2);
    assert_eq!(got.failures[0].cell_id, 1);
    assert_eq!(got.failures[0].description, "Not executed in order, got 3");
    assert_eq!(got.failures[1].cell_id, 2);
    assert_eq!(got.failures[1].description, "Not executed in order, got 2");
}

#[test]
fn sequential_skips_prose_but_keeps_counting() {
    let notebook = notebook_with(
        "seq.ipynb",
        vec![
            code_cell(Some(1), vec!["a = 1".into()]),
            prose_cell(vec!["# notes".into()]),
            code_cell(Some(2), vec!["b = 2".into()]),
        ],
    );
    let got = Check::CellExecutionIsSequential(CellExecutionIsSequential {}).check(&notebook);
    assert!(got.pass());
}

#[test]
fn unrun_empty_cell_gets_two_findings() {
    let notebook = notebook_with("run.ipynb", vec![code_cell(None, vec![])]);
    let results = analyze(&notebook, &[]);
    let sequential = &results[1];
    assert_eq!(sequential.check, Check::CellExecutionIsSequential(CellExecutionIsSequential {}));
    assert_eq!(sequential.failures.len(), 1);
    assert_eq!(sequential.failures[0].description, "Cell was not run");
    assert_eq!(sequential.failures[0].cell_id, 0);
    let empty = &results[2];
    assert_eq!(empty.check, Check::NoEmptyCells(NoEmptyCells {}));
    assert_eq!(empty.failures.len(), 1);
    assert_eq!(empty.failures[0].description, "Cell is empty");
}

#[test]
fn negative_count_is_rendered_in_the_finding() {
    let notebook = notebook_with("seq.ipynb", vec![code_cell(Some(-3), vec!["x".into()])]);
    let got = Check::CellExecutionIsSequential(CellExecutionIsSequential {}).check(&notebook);
    assert_eq!(got.failures[0].description, "Not executed in order, got -3");
}

#[test]
fn whitespace_only_prose_cell_is_empty() {
    let notebook = notebook_with(
        "blank.ipynb",
        vec![prose_cell(vec!["   ".into(), "".into()])],
    );
    let got = Check::NoEmptyCells(NoEmptyCells {}).check(&notebook);
    assert!(got.fail());
    assert_eq!(got.failures[0].cell_id, 0);
    let titled = notebook_with("blank.ipynb", vec![prose_cell(vec!["# Title".into()])]);
    assert!(Check::NoEmptyCells(NoEmptyCells {}).check(&titled).pass());
}

#[test]
fn untitled_default_notebook_fails_every_check() {
    let notebook = notebook_with("Untitled.ipynb", vec![code_cell(None, vec![])]);
    let results = analyze(&notebook, &[]);
    assert_eq!(results.len(), 4);
    for result in results.iter() {
        assert!(result.fail());
    }
    assert!(any_failed(&results));
}

#[test]
fn disabling_a_check_removes_only_its_result() {
    let notebook = notebook_with("Untitled.ipynb", vec![code_cell(None, vec![])]);
    let full = analyze(&notebook, &[]);
    let disabled = analyze(
        &notebook,
        &[Check::NoEmptyCells(NoEmptyCells {})],
    );
    assert_eq!(disabled.len(), 3);
    let kept: Vec<&nbsanity::checks::AnalysisResult> = full
        .iter()
        .filter(|r| r.check != Check::NoEmptyCells(NoEmptyCells {}))
        .collect();
    for (a, b) in disabled.iter().zip(kept.iter()) {
        assert_eq!(a.check, b.check);
        assert_eq!(a.failures.len(), b.failures.len());
        for (fa, fb) in a.failures.iter().zip(b.failures.iter()) {
            assert_eq!(fa.cell_id, fb.cell_id);
            assert_eq!(fa.description, fb.description);
        }
    }
}

#[test]
fn report_lines_have_the_documented_shape() {
    let mut cells = Vec::new();
    for _ in 0..13 {
        cells.push(prose_cell(vec!["# ok".into()]));
    }
    cells.push(code_cell(None, vec!["x".into()]));
    let mut notebook = notebook_with("Untitled.ipynb", cells);
    notebook.cells[0] = prose_cell(vec!["# Title".into()]);
    notebook.add_cell_indices();
    let results = analyze(&notebook, &[]);
    let lines = report_lines(&results, &notebook);
    assert_eq!(
        lines,
        vec![
            "Untitled.ipynb <Cell: 0> Notebook filename contains 'Untitled' [FileNotNamedUntitled]"
                .to_string(),
            "Untitled.ipynb <Cell: 13> Cell was not run [CellExecutionIsSequential]".to_string(),
        ]
    );
}

#[test]
fn clean_notebook_passes_every_check() {
    let notebook = notebook_with(
        "analysis.ipynb",
        vec![
            prose_cell(vec!["# Title".into()]),
            code_cell(Some(1), vec!["a = 1".into()]),
            code_cell(Some(2), vec!["print(a)".into()]),
        ],
    );
    let results = analyze(&notebook, &[]);
    assert_eq!(results.len(), 4);
    for result in results.iter() {
        assert!(result.pass());
    }
    assert!(!any_failed(&results));
    assert!(report_lines(&results, &notebook).is_empty());
}

#[test]
fn position_assignment_is_idempotent() {
    let mut notebook = notebook_with(
        "pos.ipynb",
        vec![
            prose_cell(vec!["# Title".into()]),
            code_cell(Some(1), vec!["a".into()]),
            code_cell(Some(2), vec!["b".into()]),
        ],
    );
    notebook.add_cell_indices();
    notebook.add_cell_indices();
    for (i, cell) in notebook.cells.iter().enumerate() {
        let idx = match cell {
            Cell::Code(c) => c.idx,
            Cell::Markdown(c) => c.idx,
        };
        assert_eq!(idx, Some(i));
    }
}

#[test]
fn code_and_markdown_cells_filter_in_order() {
    let notebook = notebook_with(
        "mix.ipynb",
        vec![
            prose_cell(vec!["# Title".into()]),
            code_cell(Some(1), vec!["a".into()]),
            prose_cell(vec!["notes".into()]),
            code_cell(Some(2), vec!["b".into()]),
        ],
    );
    let codes = notebook.code_cells();
    assert_eq!(codes.len(), 2);
    assert_eq!(codes[0].idx, Some(1));
    assert_eq!(codes[1].idx, Some(3));
    let prose = notebook.markdown_cells();
    assert_eq!(prose.len(), 2);
    assert_eq!(prose[0].idx, Some(0));
    assert_eq!(prose[1].idx, Some(2));
}

#[test]
fn config_root_path_defaults_to_current_directory() {
    let with_root = nbsanity::config::Config {
        root: Some("notebooks".to_string()),
        disable: None,
    };
    assert_eq!(with_root.root_path(), "notebooks");
    let without_root = nbsanity::config::Config {
        root: None,
        disable: Some(vec![]),
    };
    assert_eq!(without_root.root_path(), ".");
}

#[test]
fn filename_str_uses_placeholder_without_a_path() {
    let mut notebook = Notebook::new("a.ipynb");
    assert_eq!(notebook.filename_str(), "a.ipynb");
    notebook.filename = None;
    assert_eq!(notebook.filename_str(), "???");
}
