//! The document model: a notebook is an ordered sequence of code and prose
//! cells, a display name, and free-form metadata. Checks never mutate a
//! notebook; the one mutating operation is position assignment, which stamps
//! each cell with its offset in the cell sequence.

use vstd::prelude::*;

verus! {

/// One recorded output of a code cell. The checks ignore outputs; they are
/// kept for round-trip fidelity.
#[derive(Debug, Clone)]
pub struct CellOutput {
    pub name: Option<String>,
    pub output_type: Option<String>,
    pub text: Option<Vec<String>>,
}

#[derive(Debug, Clone)]
pub struct JupyterCellMetaData {
    pub source_hidden: Option<bool>,
    pub outputs_hidden: Option<bool>,
}

#[derive(Debug, Clone)]
pub struct CellMetaData {
    pub jupyter: Option<JupyterCellMetaData>,
    pub collapsed: Option<bool>,
    pub name: Option<String>,
    pub tags: Option<Vec<String>>,
}

/// A code cell: source lines, an optional execution count (absent means the
/// cell was never run), recorded outputs, and the cell's position in the
/// document once assigned.
#[derive(Debug, Clone)]
pub struct CodeCell {
    pub id: Option<String>,
    pub metadata: CellMetaData,
    pub execution_count: Option<i32>,
    pub outputs: Vec<CellOutput>,
    pub source: Vec<String>,
    pub idx: Option<usize>,
}

/// A prose (markdown) cell: source lines and the cell's position in the
/// document once assigned.
#[derive(Debug, Clone)]
pub struct MarkdownCell {
    pub id: Option<String>,
    pub metadata: CellMetaData,
    pub source: Vec<String>,
    pub idx: Option<usize>,
}

#[derive(Debug, Clone)]
pub enum Cell {
    Code(CodeCell),
    Markdown(MarkdownCell),
}

pub struct KernelSpec {
    pub display_name: String,
    pub language: Option<String>,
    pub name: String,
}

pub struct CodeMirrorMode {
    pub name: String,
    pub version: i8,
}

pub struct LanguageInfo {
    pub name: String,
    pub codemirror_mode: Option<CodeMirrorMode>,
    pub file_extension: Option<String>,
    pub mimetype: Option<String>,
    pub nbconvert_exporter: Option<String>,
    pub pygments_lexer: Option<String>,
    pub version: Option<String>,
}

pub struct VsCodeInterpreter {
    pub hash: String,
}

pub struct VsCode {
    pub interpreter: VsCodeInterpreter,
}

pub struct Author {
    pub name: Option<String>,
}

/// Notebook-level metadata. The checks ignore it; it is kept for round-trip
/// fidelity.
pub struct NotebookMeta {
    pub kernelspec: Option<KernelSpec>,
    pub language_info: Option<LanguageInfo>,
    pub orig_nbformat: Option<i8>,
    pub title: Option<String>,
    pub vscode: Option<VsCode>,
    pub authors: Option<Vec<Author>>,
}

/// True when no metadata field is set.
pub open spec fn meta_unset(m: NotebookMeta) -> bool {
    &&& m.kernelspec is None
    &&& m.language_info is None
    &&& m.orig_nbformat is None
    &&& m.title is None
    &&& m.vscode is None
    &&& m.authors is None
}

impl Default for NotebookMeta {
    fn default() -> (m: NotebookMeta)
        ensures
            meta_unset(m),
    {
        NotebookMeta {
            kernelspec: None,
            language_info: None,
            orig_nbformat: None,
            title: None,
            vscode: None,
            authors: None,
        }
    }
}

/// A notebook document: an ordered cell sequence, a display name derived from
/// the source path, and format metadata.
pub struct Notebook {
    pub filename: Option<String>,
    pub cells: Vec<Cell>,
    pub nbformat: i32,
    pub nbformat_minor: i32,
    pub metadata: NotebookMeta,
}

/// The source lines of a cell, code or prose alike.
pub open spec fn cell_source(c: Cell) -> Seq<String> {
    match c {
        Cell::Code(cc) => cc.source@,
        Cell::Markdown(mc) => mc.source@,
    }
}

/// The position index of a cell, if one has been assigned.
pub open spec fn cell_idx(c: Cell) -> Option<usize> {
    match c {
        Cell::Code(cc) => cc.idx,
        Cell::Markdown(mc) => mc.idx,
    }
}

/// The given cell with its position index set to `i` and every other field
/// unchanged.
pub open spec fn with_idx(c: Cell, i: usize) -> Cell {
    match c {
        Cell::Code(cc) => Cell::Code(CodeCell { idx: Some(i), ..cc }),
        Cell::Markdown(mc) => Cell::Markdown(MarkdownCell { idx: Some(i), ..mc }),
    }
}

/// The cell sequence with every cell stamped with its offset.
pub open spec fn stamped(cells: Seq<Cell>) -> Seq<Cell> {
    Seq::new(cells.len(), |i: int| with_idx(cells[i], i as usize))
}

/// Position assignment is idempotent: stamping an already stamped cell
/// sequence changes nothing, whatever the ordering of the cells was.
pub proof fn lemma_stamp_idempotent(cells: Seq<Cell>)
    ensures
        stamped(stamped(cells)) == stamped(cells),
{
    assert forall|i: int| 0 <= i < cells.len() implies #[trigger] stamped(stamped(cells))[i]
        == stamped(cells)[i] by {
        let c = cells[i];
        assert(with_idx(with_idx(c, i as usize), i as usize) == with_idx(c, i as usize));
    }
    assert(stamped(stamped(cells)) =~= stamped(cells));
}

/// The code cells of a cell sequence, in document order.
pub open spec fn code_cells_of(cells: Seq<Cell>) -> Seq<CodeCell>
    decreases cells.len(),
{
    if cells.len() == 0 {
        Seq::empty()
    } else {
        code_cells_of(cells.drop_last()) + match cells.last() {
            Cell::Code(c) => seq![c],
            Cell::Markdown(_) => Seq::empty(),
        }
    }
}

/// The prose cells of a cell sequence, in document order.
pub open spec fn markdown_cells_of(cells: Seq<Cell>) -> Seq<MarkdownCell>
    decreases cells.len(),
{
    if cells.len() == 0 {
        Seq::empty()
    } else {
        markdown_cells_of(cells.drop_last()) + match cells.last() {
            Cell::Code(_) => Seq::empty(),
            Cell::Markdown(c) => seq![c],
        }
    }
}

proof fn lemma_code_cells_of_take_step(cells: Seq<Cell>, i: int)
    requires
        0 <= i < cells.len(),
    ensures
        code_cells_of(cells.take(i + 1)) == code_cells_of(cells.take(i)) + match cells[i] {
            Cell::Code(c) => seq![c],
            Cell::Markdown(_) => Seq::<CodeCell>::empty(),
        },
{
    assert(cells.take(i + 1).drop_last() =~= cells.take(i));
    assert(cells.take(i + 1).last() == cells[i]);
}

proof fn lemma_markdown_cells_of_take_step(cells: Seq<Cell>, i: int)
    requires
        0 <= i < cells.len(),
    ensures
        markdown_cells_of(cells.take(i + 1)) == markdown_cells_of(cells.take(i)) + match cells[i] {
            Cell::Code(_) => Seq::<MarkdownCell>::empty(),
            Cell::Markdown(c) => seq![c],
        },
{
    assert(cells.take(i + 1).drop_last() =~= cells.take(i));
    assert(cells.take(i + 1).last() == cells[i]);
}

/// Order-preserving filter of the code cells out of a cell sequence.
pub fn extract_code_cells<'a>(cells: &'a [Cell]) -> (out: Vec<&'a CodeCell>)
    ensures
        out@.len() == code_cells_of(cells@).len(),
        forall|k: int| 0 <= k < out@.len() ==> *out@[k] == code_cells_of(cells@)[k],
{
    let n = cells.len();
    let mut out: Vec<&CodeCell> = Vec::new();
    let mut i: usize = 0;
    while i < n
        invariant
            n == cells@.len(),
            i <= n,
            out@.len() == code_cells_of(cells@.take(i as int)).len(),
            forall|k: int| 0 <= k < out@.len() ==> *out@[k] == code_cells_of(
                cells@.take(i as int),
            )[k],
        decreases n - i,
    {
        proof {
            lemma_code_cells_of_take_step(cells@, i as int);
        }
        match &cells[i] {
            Cell::Code(c) => {
                out.push(c);
            },
            Cell::Markdown(_) => {},
        }
        i = i + 1;
    }
    proof {
        assert(cells@.take(n as int) =~= cells@);
    }
    out
}

/// Order-preserving filter of the prose cells out of a cell sequence.
pub fn extract_markdown_cells<'a>(cells: &'a [Cell]) -> (out: Vec<&'a MarkdownCell>)
    ensures
        out@.len() == markdown_cells_of(cells@).len(),
        forall|k: int| 0 <= k < out@.len() ==> *out@[k] == markdown_cells_of(cells@)[k],
{
    let n = cells.len();
    let mut out: Vec<&MarkdownCell> = Vec::new();
    let mut i: usize = 0;
    while i < n
        invariant
            n == cells@.len(),
            i <= n,
            out@.len() == markdown_cells_of(cells@.take(i as int)).len(),
            forall|k: int| 0 <= k < out@.len() ==> *out@[k] == markdown_cells_of(
                cells@.take(i as int),
            )[k],
        decreases n - i,
    {
        proof {
            lemma_markdown_cells_of_take_step(cells@, i as int);
        }
        match &cells[i] {
            Cell::Code(_) => {},
            Cell::Markdown(c) => {
                out.push(c);
            },
        }
        i = i + 1;
    }
    proof {
        assert(cells@.take(n as int) =~= cells@);
    }
    out
}

/// The display name of a notebook: its source path, or a placeholder when the
/// notebook has none (for example, when constructed purely in memory).
pub open spec fn spec_display_name(nb: Notebook) -> Seq<char> {
    match nb.filename {
        Some(f) => f@,
        None => "???"@,
    }
}

impl Notebook {
    /// An empty notebook with the given display name.
    pub fn new(filename: &str) -> (nb: Notebook)
        ensures
            nb.filename matches Some(f) && f@ == filename@,
            nb.cells@ == Seq::<Cell>::empty(),
            nb.nbformat == 0,
            nb.nbformat_minor == 0,
            meta_unset(nb.metadata),
    {
        let mut notebook = Notebook {
            filename: Some(filename.to_owned()),
            cells: Vec::new(),
            nbformat: 0,
            nbformat_minor: 0,
            metadata: NotebookMeta::default(),
        };
        notebook.add_cell_indices();
        proof {
            assert(notebook.cells@ =~= Seq::<Cell>::empty());
        }
        notebook
    }

    /// The display name as text.
    pub fn filename_str(&self) -> (r: &str)
        ensures
            r@ == spec_display_name(*self),
    {
        match &self.filename {
            Some(f) => f.as_str(),
            None => "???",
        }
    }

    /// Walks the cells in order and stamps each with its 0-based offset.
    /// Everything else about the notebook is left as it was.
    pub fn add_cell_indices(&mut self)
        ensures
            final(self).cells@ == stamped(old(self).cells@),
            final(self).filename == old(self).filename,
            final(self).nbformat == old(self).nbformat,
            final(self).nbformat_minor == old(self).nbformat_minor,
            final(self).metadata == old(self).metadata,
    {
        let ghost pre = *self;
        let n = self.cells.len();
        let mut i: usize = 0;
        while i < n
            invariant
                n == pre.cells@.len(),
                i <= n,
                self.cells@.len() == n,
                forall|k: int| 0 <= k < i ==> self.cells@[k] == stamped(pre.cells@)[k],
                forall|k: int| i <= k < n ==> self.cells@[k] == pre.cells@[k],
                self.filename == pre.filename,
                self.nbformat == pre.nbformat,
                self.nbformat_minor == pre.nbformat_minor,
                self.metadata == pre.metadata,
            decreases n - i,
        {
            match &mut self.cells[i] {
                Cell::Code(c) => {
                    c.idx = Some(i);
                },
                Cell::Markdown(c) => {
                    c.idx = Some(i);
                },
            }
            i = i + 1;
        }
        proof {
            assert(self.cells@ =~= stamped(pre.cells@));
        }
    }

    /// The notebook's code cells, in document order.
    pub fn code_cells(&self) -> (out: Vec<&CodeCell>)
        ensures
            out@.len() == code_cells_of(self.cells@).len(),
            forall|k: int| 0 <= k < out@.len() ==> *out@[k] == code_cells_of(self.cells@)[k],
    {
        extract_code_cells(self.cells.as_slice())
    }

    /// The notebook's prose cells, in document order.
    pub fn markdown_cells(&self) -> (out: Vec<&MarkdownCell>)
        ensures
            out@.len() == markdown_cells_of(self.cells@).len(),
            forall|k: int| 0 <= k < out@.len() ==> *out@[k] == markdown_cells_of(self.cells@)[k],
    {
        extract_markdown_cells(self.cells.as_slice())
    }
}

impl Default for CodeCell {
    /// A fresh code cell: no source, no outputs, execution count 1, stamped
    /// at position 0.
    fn default() -> (c: CodeCell)
        ensures
            c.id is None,
            c.metadata.jupyter is None,
            c.metadata.collapsed is None,
            c.metadata.name is None,
            c.metadata.tags is None,
            c.execution_count == Some(1i32),
            c.outputs@ == Seq::<CellOutput>::empty(),
            c.source@ == Seq::<String>::empty(),
            c.idx == Some(0usize),
    {
        CodeCell {
            id: None,
            metadata: CellMetaData {
                jupyter: None,
                collapsed: None,
                name: None,
                tags: None,
            },
            execution_count: Some(1),
            outputs: Vec::new(),
            source: Vec::new(),
            idx: Some(0),
        }
    }
}

} // verus!
