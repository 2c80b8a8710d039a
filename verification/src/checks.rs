//! The check engine: a fixed registry of independent style rules, each of
//! which inspects a notebook and reports findings, plus name resolution and
//! fuzzy matching over the registry.

use crate::notebook::{
    Cell, CodeCell, Notebook, cell_idx, cell_source, code_cells_of, spec_display_name,
};
use crate::text::{
    dec_digits, dec_str, i32_to_string, is_blank_line, line_is_blank, seq_contains, str_contains,
    str_eq, u64_to_string,
};
use vstd::prelude::*;

verus! {

/// What `str::to_lowercase` returns for a given character sequence.
pub uninterp spec fn lower_of(s: Seq<char>) -> Seq<char>;

/// Relies on str::to_lowercase: the lowercased text is a function of the
/// input characters alone.
#[verifier::external_body]
fn lowercase(s: &str) -> (r: String)
    ensures
        r@ == lower_of(s@),
{
    s.to_lowercase()
}

/// What `strsim::levenshtein` returns for a given pair of character
/// sequences.
pub uninterp spec fn lev_of(a: Seq<char>, b: Seq<char>) -> nat;

/// Relies on strsim::levenshtein: the minimum number of single-character
/// insertions, deletions and substitutions needed to turn one string into
/// the other, a function of the two strings' characters alone.
#[verifier::external_body]
fn edit_distance(a: &str, b: &str) -> (r: usize)
    ensures
        r as nat == lev_of(a@, b@),
{
    strsim::levenshtein(a, b)
}

#[derive(Debug, PartialEq, Eq, Structural, Clone, Copy)]
pub struct FileNotNamedUntitled;

#[derive(Debug, PartialEq, Eq, Structural, Clone, Copy)]
pub struct CellExecutionIsSequential;

#[derive(Debug, PartialEq, Eq, Structural, Clone, Copy)]
pub struct NoEmptyCells;

#[derive(Debug, PartialEq, Eq, Structural, Clone, Copy)]
pub struct HasTitleCell;

/// The registry of built-in checks.
#[derive(Debug, PartialEq, Eq, Structural, Clone, Copy)]
pub enum Check {
    FileNotNamedUntitled(FileNotNamedUntitled),
    CellExecutionIsSequential(CellExecutionIsSequential),
    NoEmptyCells(NoEmptyCells),
    HasTitleCell(HasTitleCell),
}

/// The built-in checks in their fixed registry order.
pub open spec fn registry() -> Seq<Check> {
    seq![
        Check::FileNotNamedUntitled(FileNotNamedUntitled),
        Check::CellExecutionIsSequential(CellExecutionIsSequential),
        Check::NoEmptyCells(NoEmptyCells),
        Check::HasTitleCell(HasTitleCell),
    ]
}

/// The stable name of a check, used in configuration and reporting.
pub open spec fn check_name(c: Check) -> Seq<char> {
    match c {
        Check::FileNotNamedUntitled(_) => "FileNotNamedUntitled"@,
        Check::CellExecutionIsSequential(_) => "CellExecutionIsSequential"@,
        Check::NoEmptyCells(_) => "NoEmptyCells"@,
        Check::HasTitleCell(_) => "HasTitleCell"@,
    }
}

/// A failure reported by an unknown-name lookup, carrying the name that did
/// not resolve.
#[derive(Debug)]
pub struct UnknownCheck {
    pub name: String,
}

impl Check {
    /// Every built-in check, in registry order.
    pub fn all() -> (r: Vec<Check>)
        ensures
            r@ == registry(),
    {
        let mut v: Vec<Check> = Vec::new();
        v.push(Check::FileNotNamedUntitled(FileNotNamedUntitled));
        v.push(Check::CellExecutionIsSequential(CellExecutionIsSequential));
        v.push(Check::NoEmptyCells(NoEmptyCells));
        v.push(Check::HasTitleCell(HasTitleCell));
        proof {
            assert(v@ =~= registry());
        }
        v
    }

    /// The check's stable name.
    pub fn name(&self) -> (r: String)
        ensures
            r@ == check_name(*self),
    {
        match self {
            Check::FileNotNamedUntitled(_) => "FileNotNamedUntitled".to_owned(),
            Check::CellExecutionIsSequential(_) => "CellExecutionIsSequential".to_owned(),
            Check::NoEmptyCells(_) => "NoEmptyCells".to_owned(),
            Check::HasTitleCell(_) => "HasTitleCell".to_owned(),
        }
    }

    /// Resolves a name to the registered check bearing it; a name that no
    /// check bears is returned in the error.
    pub fn from_str(s: &str) -> (r: Result<Check, UnknownCheck>)
        ensures
            match r {
                Ok(c) => registry().contains(c) && check_name(c) == s@,
                Err(e) => {
                    &&& e.name@ == s@
                    &&& forall|c: Check| registry().contains(c) ==> check_name(c) != s@
                },
            },
    {
        let r = if str_eq(s, "FileNotNamedUntitled") {
            Ok(Check::FileNotNamedUntitled(FileNotNamedUntitled))
        } else if str_eq(s, "CellExecutionIsSequential") {
            Ok(Check::CellExecutionIsSequential(CellExecutionIsSequential))
        } else if str_eq(s, "NoEmptyCells") {
            Ok(Check::NoEmptyCells(NoEmptyCells))
        } else if str_eq(s, "HasTitleCell") {
            Ok(Check::HasTitleCell(HasTitleCell))
        } else {
            Err(UnknownCheck { name: s.to_owned() })
        };
        proof {
            match r {
                Ok(c) => {
                    assert(registry().contains(c)) by {
                        lemma_registry_members();
                    }
                },
                Err(_) => {
                    assert forall|c: Check| registry().contains(c) implies check_name(c) != s@ by {
                        lemma_registry_members();
                    }
                },
            }
        }
        r
    }
}

/// Every check in the registry is one of the four built-in checks, and each
/// of the four is in the registry.
proof fn lemma_registry_members()
    ensures
        forall|c: Check| #[trigger] registry().contains(c) <==> (c
            == Check::FileNotNamedUntitled(FileNotNamedUntitled) || c
            == Check::CellExecutionIsSequential(CellExecutionIsSequential) || c
            == Check::NoEmptyCells(NoEmptyCells) || c == Check::HasTitleCell(HasTitleCell)),
{
    assert forall|c: Check| #[trigger] registry().contains(c) implies (c
        == Check::FileNotNamedUntitled(FileNotNamedUntitled) || c
        == Check::CellExecutionIsSequential(CellExecutionIsSequential) || c
        == Check::NoEmptyCells(NoEmptyCells) || c == Check::HasTitleCell(HasTitleCell)) by {
        let i = choose|i: int| 0 <= i < registry().len() && registry()[i] == c;
    }
    assert(registry()[0] == Check::FileNotNamedUntitled(FileNotNamedUntitled));
    assert(registry()[1] == Check::CellExecutionIsSequential(CellExecutionIsSequential));
    assert(registry()[2] == Check::NoEmptyCells(NoEmptyCells));
    assert(registry()[3] == Check::HasTitleCell(HasTitleCell));
}

/// The edit distance between a check's name and the given text.
pub open spec fn check_dist(c: Check, s: Seq<char>) -> nat {
    lev_of(check_name(c), s)
}

/// The check at registry position `i` is the one `find_closest` picks for
/// `s`: no check's name is strictly closer, and no earlier check's name is
/// as close.
pub open spec fn is_closest(r: Check, s: Seq<char>, i: int) -> bool {
    &&& 0 <= i < registry().len()
    &&& r == registry()[i]
    &&& forall|j: int| 0 <= j < registry().len() ==> check_dist(r, s) <= check_dist(
        #[trigger] registry()[j],
        s,
    )
    &&& forall|j: int| 0 <= j < i ==> check_dist(#[trigger] registry()[j], s) > check_dist(r, s)
}

/// The registered check whose name is closest to `s` by edit distance, ties
/// broken by registry order: the first minimal-distance match wins.
pub fn find_closest(s: String) -> (r: Check)
    ensures
        exists|i: int| is_closest(r, s@, i),
{
    let checks = Check::all();
    let first = checks[0];
    let first_name = first.name();
    let mut best = first;
    let mut best_d = edit_distance(first_name.as_str(), s.as_str());
    let ghost mut best_i: int = 0;
    let mut j: usize = 1;
    while j < 4
        invariant
            checks@ == registry(),
            1 <= j <= 4,
            0 <= best_i < j,
            best == registry()[best_i],
            best_d as nat == check_dist(best, s@),
            forall|k: int| 0 <= k < j ==> best_d as nat <= check_dist(#[trigger] registry()[k], s@),
            forall|k: int| 0 <= k < best_i ==> check_dist(#[trigger] registry()[k], s@)
                > best_d as nat,
        decreases 4 - j,
    {
        let c = checks[j];
        let c_name = c.name();
        let d = edit_distance(c_name.as_str(), s.as_str());
        if d < best_d {
            best = c;
            best_d = d;
            proof {
                best_i = j as int;
            }
        }
        j = j + 1;
    }
    proof {
        assert(is_closest(best, s@, best_i));
    }
    best
}

/// Fuzzy matching resolves a near miss: a name at edit distance 1 from one
/// registered check's name, and at distance at least 2 from every other, is
/// closest to exactly that check.
pub proof fn lemma_closest_near_miss(s: Seq<char>, i: int)
    requires
        0 <= i < registry().len(),
        check_dist(registry()[i], s) == 1,
        forall|j: int| 0 <= j < registry().len() && j != i ==> check_dist(
            #[trigger] registry()[j],
            s,
        ) >= 2,
    ensures
        is_closest(registry()[i], s, i),
        forall|r: Check, j: int| is_closest(r, s, j) ==> r == registry()[i],
{
    assert forall|r: Check, j: int| is_closest(r, s, j) implies r == registry()[i] by {
        assert(check_dist(r, s) <= check_dist(registry()[i], s));
        if j != i {
            assert(check_dist(registry()[j], s) >= 2);
        }
    }
}

/// One reported finding: a cell position and a human-readable description.
#[derive(Debug)]
pub struct ResultFailure {
    pub cell_id: usize,
    pub description: String,
}

/// A check's name together with the findings it produced; the check passed
/// exactly when it produced none.
#[derive(Debug)]
pub struct AnalysisResult {
    pub check: Check,
    pub failures: Vec<ResultFailure>,
}

/// The reported failures carry exactly the positions and descriptions of the
/// model findings, in order.
pub open spec fn failures_match(fs: Seq<ResultFailure>, model: Seq<(int, Seq<char>)>) -> bool {
    &&& fs.len() == model.len()
    &&& forall|k: int| 0 <= k < fs.len() ==> (#[trigger] fs[k]).cell_id as int == model[k].0 && fs[
        k
    ].description@ == model[k].1
}

proof fn lemma_failures_match_push(
    fs: Seq<ResultFailure>,
    model: Seq<(int, Seq<char>)>,
    f: ResultFailure,
    e: (int, Seq<char>),
)
    requires
        failures_match(fs, model),
        f.cell_id as int == e.0,
        f.description@ == e.1,
    ensures
        failures_match(fs.push(f), model.push(e)),
{
}

impl AnalysisResult {
    /// A fresh result for the given check, with no findings yet.
    pub fn new(check: Check) -> (r: AnalysisResult)
        ensures
            r.check == check,
            r.failures@ == Seq::<ResultFailure>::empty(),
    {
        AnalysisResult { check, failures: Vec::new() }
    }

    /// The check failed: it produced at least one finding.
    pub fn fail(&self) -> (r: bool)
        ensures
            r == (self.failures@.len() > 0),
    {
        !self.failures.is_empty()
    }

    /// The check passed: it produced no findings.
    pub fn pass(&self) -> (r: bool)
        ensures
            r == (self.failures@.len() == 0),
    {
        self.failures.is_empty()
    }

    /// Records one more finding.
    pub fn add_failure(&mut self, cell_id: usize, description: String)
        ensures
            final(self).check == old(self).check,
            final(self).failures@ == old(self).failures@.push(
                ResultFailure { cell_id, description },
            ),
    {
        self.failures.push(ResultFailure { cell_id, description });
    }
}

/// The position a finding is reported at: the cell's assigned index, or the
/// largest index when none was assigned.
pub open spec fn idx_or_max(idx: Option<usize>) -> int {
    match idx {
        Some(i) => i as int,
        None => usize::MAX as int,
    }
}

/// The findings of `FileNotNamedUntitled`: one document-level finding exactly
/// when the lowercased display name contains "untitled".
pub open spec fn untitled_findings(nb: Notebook) -> Seq<(int, Seq<char>)> {
    if seq_contains(lower_of(spec_display_name(nb)), "untitled"@) {
        seq![(0int, "Notebook filename contains 'Untitled'"@)]
    } else {
        Seq::empty()
    }
}

impl FileNotNamedUntitled {
    pub fn check(&self, notebook: &Notebook) -> (r: AnalysisResult)
        ensures
            result_matches(r, Check::FileNotNamedUntitled(FileNotNamedUntitled), *notebook),
    {
        let mut result = AnalysisResult::new(Check::FileNotNamedUntitled(FileNotNamedUntitled));
        let low = lowercase(notebook.filename_str());
        if str_contains(low.as_str(), "untitled") {
            result.add_failure(0, "Notebook filename contains 'Untitled'".to_owned());
        }
        result
    }
}

/// The findings a single code cell contributes to `CellExecutionIsSequential`
/// when it stands at offset `k` among the code cells: a cell never run is
/// reported as such; a cell whose recorded count is not `k + 1` is reported
/// as out of order.
pub open spec fn code_cell_findings(c: CodeCell, k: int) -> Seq<(int, Seq<char>)> {
    match c.execution_count {
        None => seq![(idx_or_max(c.idx), "Cell was not run"@)],
        Some(n) => if n as int == k + 1 {
            Seq::empty()
        } else {
            seq![
                (idx_or_max(c.idx), "Not executed in order, got "@ + dec_str(n as int)),
            ]
        },
    }
}

/// The findings of `CellExecutionIsSequential` over the code cells in
/// document order: the expected counter runs 1, 2, ... across the code cells
/// and increments for every code cell whether or not it matched.
pub open spec fn sequential_findings(codes: Seq<CodeCell>) -> Seq<(int, Seq<char>)>
    decreases codes.len(),
{
    if codes.len() == 0 {
        Seq::empty()
    } else {
        sequential_findings(codes.drop_last()) + code_cell_findings(
            codes.last(),
            codes.len() - 1,
        )
    }
}

proof fn lemma_sequential_findings_take_step(codes: Seq<CodeCell>, i: int)
    requires
        0 <= i < codes.len(),
    ensures
        sequential_findings(codes.take(i + 1)) == sequential_findings(codes.take(i))
            + code_cell_findings(codes[i], i),
{
    assert(codes.take(i + 1).drop_last() =~= codes.take(i));
    assert(codes.take(i + 1).last() == codes[i]);
}

impl CellExecutionIsSequential {
    pub fn check(&self, notebook: &Notebook) -> (r: AnalysisResult)
        ensures
            result_matches(
                r,
                Check::CellExecutionIsSequential(CellExecutionIsSequential),
                *notebook,
            ),
    {
        let mut result = AnalysisResult::new(
            Check::CellExecutionIsSequential(CellExecutionIsSequential),
        );
        let codes = notebook.code_cells();
        let ghost cseq = code_cells_of(notebook.cells@);
        let n = codes.len();
        let mut k: usize = 0;
        while k < n
            invariant
                n == cseq.len(),
                codes@.len() == n,
                forall|j: int| 0 <= j < n ==> *codes@[j] == cseq[j],
                k <= n,
                result.check == Check::CellExecutionIsSequential(CellExecutionIsSequential),
                failures_match(result.failures@, sequential_findings(cseq.take(k as int))),
            decreases n - k,
        {
            proof {
                lemma_sequential_findings_take_step(cseq, k as int);
            }
            let ghost pre_model = sequential_findings(cseq.take(k as int));
            let cell = codes[k];
            match cell.execution_count {
                Some(count) => {
                    if !(count >= 1 && count as usize == k + 1) {
                        let id = match cell.idx {
                            Some(i) => i,
                            None => usize::MAX,
                        };
                        let mut msg = "Not executed in order, got ".to_owned();
                        msg.append(i32_to_string(count).as_str());
                        let ghost f = (idx_or_max(cell.idx), msg@);
                        result.add_failure(id, msg);
                        proof {
                            assert(pre_model + code_cell_findings(cseq[k as int], k as int)
                                =~= pre_model.push(f));
                        }
                    } else {
                        proof {
                            assert(pre_model + code_cell_findings(cseq[k as int], k as int)
                                =~= pre_model);
                        }
                    }
                },
                None => {
                    let id = match cell.idx {
                        Some(i) => i,
                        None => usize::MAX,
                    };
                    let msg = "Cell was not run".to_owned();
                    let ghost f = (idx_or_max(cell.idx), msg@);
                    result.add_failure(id, msg);
                    proof {
                        assert(pre_model + code_cell_findings(cseq[k as int], k as int)
                            =~= pre_model.push(f));
                    }
                },
            }
            k = k + 1;
        }
        proof {
            assert(cseq.take(n as int) =~= cseq);
        }
        result
    }
}

/// A cell is empty when every source line is blank; a cell with no source
/// lines is empty.
pub open spec fn cell_is_empty(c: Cell) -> bool {
    forall|i: int| 0 <= i < cell_source(c).len() ==> is_blank_line(#[trigger] cell_source(c)[i]@)
}

/// The findings a single cell contributes to `NoEmptyCells`: one finding at
/// the cell's assigned position when the cell is empty. An empty cell with
/// no assigned position contributes nothing.
pub open spec fn empty_cell_findings(c: Cell) -> Seq<(int, Seq<char>)> {
    if cell_is_empty(c) && cell_idx(c) is Some {
        seq![(cell_idx(c).unwrap() as int, "Cell is empty"@)]
    } else {
        Seq::empty()
    }
}

/// The findings of `NoEmptyCells` over all cells in document order.
pub open spec fn empty_findings(cells: Seq<Cell>) -> Seq<(int, Seq<char>)>
    decreases cells.len(),
{
    if cells.len() == 0 {
        Seq::empty()
    } else {
        empty_findings(cells.drop_last()) + empty_cell_findings(cells.last())
    }
}

proof fn lemma_empty_findings_take_step(cells: Seq<Cell>, i: int)
    requires
        0 <= i < cells.len(),
    ensures
        empty_findings(cells.take(i + 1)) == empty_findings(cells.take(i)) + empty_cell_findings(
            cells[i],
        ),
{
    assert(cells.take(i + 1).drop_last() =~= cells.take(i));
    assert(cells.take(i + 1).last() == cells[i]);
}

/// True exactly when every source line of the cell is blank.
fn cell_empty(c: &Cell) -> (r: bool)
    ensures
        r == cell_is_empty(*c),
{
    let src = match c {
        Cell::Code(cc) => &cc.source,
        Cell::Markdown(mc) => &mc.source,
    };
    let n = src.len();
    let mut i: usize = 0;
    while i < n
        invariant
            n == src@.len(),
            src@ == cell_source(*c),
            i <= n,
            forall|k: int| 0 <= k < i ==> is_blank_line(#[trigger] src@[k]@),
        decreases n - i,
    {
        if !line_is_blank(src[i].as_str()) {
            return false;
        }
        i = i + 1;
    }
    true
}

impl NoEmptyCells {
    pub fn check(&self, notebook: &Notebook) -> (r: AnalysisResult)
        ensures
            result_matches(r, Check::NoEmptyCells(NoEmptyCells), *notebook),
    {
        let mut result = AnalysisResult::new(Check::NoEmptyCells(NoEmptyCells));
        let n = notebook.cells.len();
        let mut i: usize = 0;
        while i < n
            invariant
                n == notebook.cells@.len(),
                i <= n,
                result.check == Check::NoEmptyCells(NoEmptyCells),
                failures_match(result.failures@, empty_findings(notebook.cells@.take(i as int))),
            decreases n - i,
        {
            proof {
                lemma_empty_findings_take_step(notebook.cells@, i as int);
            }
            let ghost pre_model = empty_findings(notebook.cells@.take(i as int));
            let cell = &notebook.cells[i];
            let empty = cell_empty(cell);
            let idx = match cell {
                Cell::Code(cc) => cc.idx,
                Cell::Markdown(mc) => mc.idx,
            };
            match idx {
                Some(id) if empty => {
                    let msg = "Cell is empty".to_owned();
                    let ghost f = (id as int, msg@);
                    result.add_failure(id, msg);
                    proof {
                        assert(pre_model + empty_cell_findings(notebook.cells@[i as int])
                            =~= pre_model.push(f));
                    }
                },
                _ => {
                    proof {
                        assert(pre_model + empty_cell_findings(notebook.cells@[i as int])
                            =~= pre_model);
                    }
                },
            }
            i = i + 1;
        }
        proof {
            assert(notebook.cells@.take(n as int) =~= notebook.cells@);
        }
        result
    }
}

/// A line opens a heading when its first character is the heading marker.
pub open spec fn heading_line(l: Seq<char>) -> bool {
    l.len() > 0 && l[0] == '#'
}

/// The document has a title cell: its first cell exists, is a prose cell,
/// has at least one source line, and that line opens a heading.
pub open spec fn has_title(cells: Seq<Cell>) -> bool {
    &&& cells.len() > 0
    &&& cells[0] is Markdown
    &&& cell_source(cells[0]).len() > 0
    &&& heading_line(cell_source(cells[0])[0]@)
}

/// The findings of `HasTitleCell`: one document-level finding exactly when
/// the document has no title cell.
pub open spec fn title_findings(cells: Seq<Cell>) -> Seq<(int, Seq<char>)> {
    if has_title(cells) {
        Seq::empty()
    } else {
        seq![(0int, "Notebook does not have a title cell"@)]
    }
}

impl HasTitleCell {
    pub fn check(&self, notebook: &Notebook) -> (r: AnalysisResult)
        ensures
            result_matches(r, Check::HasTitleCell(HasTitleCell), *notebook),
    {
        let mut result = AnalysisResult::new(Check::HasTitleCell(HasTitleCell));
        let mut pass = false;
        if notebook.cells.len() > 0 {
            match &notebook.cells[0] {
                Cell::Markdown(first) => {
                    if first.source.len() > 0 {
                        let line = first.source[0].as_str();
                        if !line.is_empty() && line.get_char(0) == '#' {
                            pass = true;
                        }
                    }
                },
                Cell::Code(_) => {},
            }
        }
        if !pass {
            result.add_failure(0, "Notebook does not have a title cell".to_owned());
        }
        result
    }
}

/// A document whose first cell is a code cell has no title cell, whatever
/// that cell holds; one whose first cell is a prose cell with a heading
/// first line has one.
pub proof fn lemma_title_cell(cells: Seq<Cell>)
    ensures
        cells.len() > 0 && cells[0] is Code ==> title_findings(cells).len() == 1,
        has_title(cells) ==> title_findings(cells).len() == 0,
{
}

/// The findings the given check produces on the given notebook.
pub open spec fn check_findings(c: Check, nb: Notebook) -> Seq<(int, Seq<char>)> {
    match c {
        Check::FileNotNamedUntitled(_) => untitled_findings(nb),
        Check::CellExecutionIsSequential(_) => sequential_findings(code_cells_of(nb.cells@)),
        Check::NoEmptyCells(_) => empty_findings(nb.cells@),
        Check::HasTitleCell(_) => title_findings(nb.cells@),
    }
}

/// The result names the check it came from and lists exactly the check's
/// findings on the notebook.
pub open spec fn result_matches(r: AnalysisResult, c: Check, nb: Notebook) -> bool {
    &&& r.check == c
    &&& failures_match(r.failures@, check_findings(c, nb))
}

impl Check {
    /// Runs this check against a notebook.
    pub fn check(&self, notebook: &Notebook) -> (r: AnalysisResult)
        ensures
            result_matches(r, *self, *notebook),
    {
        match self {
            Check::FileNotNamedUntitled(c) => c.check(notebook),
            Check::CellExecutionIsSequential(c) => c.check(notebook),
            Check::NoEmptyCells(c) => c.check(notebook),
            Check::HasTitleCell(c) => c.check(notebook),
        }
    }
}

/// The checks that remain enabled: the given checks in order, with those in
/// the exclusion list left out entirely.
pub open spec fn enabled_checks(all: Seq<Check>, exclude: Seq<Check>) -> Seq<Check>
    decreases all.len(),
{
    if all.len() == 0 {
        Seq::empty()
    } else {
        let rest = enabled_checks(all.drop_last(), exclude);
        if exclude.contains(all.last()) {
            rest
        } else {
            rest.push(all.last())
        }
    }
}

proof fn lemma_enabled_checks_take_step(all: Seq<Check>, exclude: Seq<Check>, i: int)
    requires
        0 <= i < all.len(),
    ensures
        enabled_checks(all.take(i + 1), exclude) == if exclude.contains(all[i]) {
            enabled_checks(all.take(i), exclude)
        } else {
            enabled_checks(all.take(i), exclude).push(all[i])
        },
{
    assert(all.take(i + 1).drop_last() =~= all.take(i));
    assert(all.take(i + 1).last() == all[i]);
}

fn contains_check(s: &[Check], c: Check) -> (r: bool)
    ensures
        r == s@.contains(c),
{
    let n = s.len();
    let mut i: usize = 0;
    while i < n
        invariant
            n == s@.len(),
            i <= n,
            forall|k: int| 0 <= k < i ==> s@[k] != c,
        decreases n - i,
    {
        if s[i] == c {
            return true;
        }
        i = i + 1;
    }
    false
}

/// Runs every enabled built-in check against the notebook and returns their
/// results in registry order; excluded checks are omitted from the output
/// entirely.
pub fn analyze(notebook: &Notebook, exclude: &[Check]) -> (results: Vec<AnalysisResult>)
    ensures
        results@.len() == enabled_checks(registry(), exclude@).len(),
        forall|k: int| 0 <= k < results@.len() ==> result_matches(
            #[trigger] results@[k],
            enabled_checks(registry(), exclude@)[k],
            *notebook,
        ),
{
    let checks = Check::all();
    let mut results: Vec<AnalysisResult> = Vec::new();
    let n = checks.len();
    let mut i: usize = 0;
    while i < n
        invariant
            checks@ == registry(),
            n == registry().len(),
            i <= n,
            results@.len() == enabled_checks(registry().take(i as int), exclude@).len(),
            forall|k: int| 0 <= k < results@.len() ==> result_matches(
                #[trigger] results@[k],
                enabled_checks(registry().take(i as int), exclude@)[k],
                *notebook,
            ),
        decreases n - i,
    {
        proof {
            lemma_enabled_checks_take_step(registry(), exclude@, i as int);
        }
        let c = checks[i];
        if !contains_check(exclude, c) {
            let r = c.check(notebook);
            results.push(r);
        }
        i = i + 1;
    }
    proof {
        assert(registry().take(n as int) =~= registry());
    }
    results
}

/// At least one of the results lists a finding.
pub fn any_failed(results: &[AnalysisResult]) -> (r: bool)
    ensures
        r == exists|i: int| 0 <= i < results@.len() && #[trigger] results@[i].failures@.len() > 0,
{
    let n = results.len();
    let mut i: usize = 0;
    while i < n
        invariant
            n == results@.len(),
            i <= n,
            forall|k: int| 0 <= k < i ==> #[trigger] results@[k].failures@.len() == 0,
        decreases n - i,
    {
        if results[i].fail() {
            return true;
        }
        i = i + 1;
    }
    false
}

/// With nothing excluded, every check remains enabled, in registry order.
pub proof fn lemma_enabled_empty(all: Seq<Check>)
    ensures
        enabled_checks(all, Seq::empty()) == all,
    decreases all.len(),
{
    if all.len() > 0 {
        lemma_enabled_empty(all.drop_last());
        assert(enabled_checks(all, Seq::empty()) =~= all);
    } else {
        assert(enabled_checks(all, Seq::empty()) =~= all);
    }
}

/// A full run fails exactly when some check produces a finding: results from
/// `analyze` with nothing excluded report a failure if and only if some
/// registered check's findings on the notebook are non-empty.
pub proof fn lemma_any_failed_iff_some_check_fails(nb: Notebook, results: Seq<AnalysisResult>)
    requires
        results.len() == enabled_checks(registry(), Seq::empty()).len(),
        forall|k: int| 0 <= k < results.len() ==> result_matches(
            #[trigger] results[k],
            enabled_checks(registry(), Seq::empty())[k],
            nb,
        ),
    ensures
        (exists|i: int| 0 <= i < results.len() && #[trigger] results[i].failures@.len() > 0) <==> (
        exists|c: Check| #[trigger] registry().contains(c) && check_findings(c, nb).len() > 0),
{
    lemma_enabled_empty(registry());
    if exists|i: int| 0 <= i < results.len() && #[trigger] results[i].failures@.len() > 0 {
        let i = choose|i: int| 0 <= i < results.len() && #[trigger] results[i].failures@.len() > 0;
        assert(registry().contains(registry()[i]));
        assert(check_findings(registry()[i], nb).len() > 0);
    }
    if exists|c: Check| #[trigger] registry().contains(c) && check_findings(c, nb).len() > 0 {
        let c = choose|c: Check| #[trigger] registry().contains(c) && check_findings(c, nb).len()
            > 0;
        let i = choose|i: int| 0 <= i < registry().len() && registry()[i] == c;
        assert(results[i].failures@.len() > 0);
    }
}

/// Disabling checks only removes their results: the enabled checks under an
/// exclusion list are exactly the full registry order filtered to the checks
/// not excluded, so every surviving check keeps its place and its findings.
pub proof fn lemma_disable_is_filter(all: Seq<Check>, exclude: Seq<Check>)
    ensures
        enabled_checks(all, exclude) == all.filter(|c: Check| !exclude.contains(c)),
    decreases all.len(),
{
    reveal(Seq::filter);
    if all.len() > 0 {
        lemma_disable_is_filter(all.drop_last(), exclude);
    }
}

/// The reported line for one finding: the document's display name, the cell
/// position, the description, and the issuing check's name.
pub open spec fn failure_line(nameview: Seq<char>, checkname: Seq<char>, f: ResultFailure)
    -> Seq<char> {
    nameview + " <Cell: "@ + dec_digits(f.cell_id as int) + "> "@ + f.description@ + " ["@
        + checkname + "]"@
}

/// The lines one result contributes, one per finding, in order.
pub open spec fn result_lines(nameview: Seq<char>, r: AnalysisResult) -> Seq<Seq<char>> {
    Seq::new(r.failures@.len(), |k: int| failure_line(nameview, check_name(r.check), r.failures@[k]))
}

/// The full report: every result's lines, in result order.
pub open spec fn report_of(nameview: Seq<char>, results: Seq<AnalysisResult>) -> Seq<Seq<char>>
    decreases results.len(),
{
    if results.len() == 0 {
        Seq::empty()
    } else {
        report_of(nameview, results.drop_last()) + result_lines(nameview, results.last())
    }
}

proof fn lemma_report_of_take_step(nameview: Seq<char>, results: Seq<AnalysisResult>, i: int)
    requires
        0 <= i < results.len(),
    ensures
        report_of(nameview, results.take(i + 1)) == report_of(nameview, results.take(i))
            + result_lines(nameview, results[i]),
{
    assert(results.take(i + 1).drop_last() =~= results.take(i));
    assert(results.take(i + 1).last() == results[i]);
}

/// Renders one line per finding, in the order the results stand in.
pub fn report_lines(results: &[AnalysisResult], notebook: &Notebook) -> (out: Vec<String>)
    ensures
        out@.len() == report_of(spec_display_name(*notebook), results@).len(),
        forall|k: int| 0 <= k < out@.len() ==> (#[trigger] out@[k])@ == report_of(
            spec_display_name(*notebook),
            results@,
        )[k],
{
    let ghost nv = spec_display_name(*notebook);
    let mut out: Vec<String> = Vec::new();
    let n = results.len();
    let mut i: usize = 0;
    while i < n
        invariant
            n == results@.len(),
            i <= n,
            nv == spec_display_name(*notebook),
            out@.len() == report_of(nv, results@.take(i as int)).len(),
            forall|k: int| 0 <= k < out@.len() ==> (#[trigger] out@[k])@ == report_of(
                nv,
                results@.take(i as int),
            )[k],
        decreases n - i,
    {
        proof {
            lemma_report_of_take_step(nv, results@, i as int);
        }
        let ghost pre_len = out@.len();
        let r = &results[i];
        let cname = r.check.name();
        let m = r.failures.len();
        let mut j: usize = 0;
        while j < m
            invariant
                n == results@.len(),
                i < n,
                r == &results@[i as int],
                m == r.failures@.len(),
                j <= m,
                nv == spec_display_name(*notebook),
                cname@ == check_name(r.check),
                pre_len == report_of(nv, results@.take(i as int)).len(),
                out@.len() == pre_len + j,
                forall|k: int| 0 <= k < pre_len ==> (#[trigger] out@[k])@ == report_of(
                    nv,
                    results@.take(i as int),
                )[k],
                forall|k: int| 0 <= k < j ==> (#[trigger] out@[pre_len + k])@ == result_lines(
                    nv,
                    results@[i as int],
                )[k],
            decreases m - j,
        {
            let f = &r.failures[j];
            let mut line = notebook.filename_str().to_owned();
            line.append(" <Cell: ");
            line.append(u64_to_string(f.cell_id as u64).as_str());
            line.append("> ");
            line.append(f.description.as_str());
            line.append(" [");
            line.append(cname.as_str());
            line.append("]");
            proof {
                assert(line@ =~= failure_line(nv, check_name(r.check), r.failures@[j as int]));
            }
            out.push(line);
            j = j + 1;
        }
        proof {
            let full = report_of(nv, results@.take(i as int + 1));
            assert(full == report_of(nv, results@.take(i as int)) + result_lines(
                nv,
                results@[i as int],
            ));
            assert forall|k: int| 0 <= k < out@.len() implies (#[trigger] out@[k])@ == full[k] by {
                if pre_len <= k {
                    let kk = k - pre_len;
                    assert((out@[pre_len + kk])@ == result_lines(nv, results@[i as int])[kk]);
                }
            }
        }
        i = i + 1;
    }
    proof {
        assert(results@.take(n as int) =~= results@);
    }
    out
}

} // verus!
