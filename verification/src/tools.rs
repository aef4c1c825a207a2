//! The notebook editing tools: what each tool computes from the request and
//! the notebook it works on. Reading and writing the notebook file is left
//! to the caller.
use vstd::prelude::*;

use crate::error::EditError;
use crate::format::{
    format_single_cell, llm_format_to_notebook, notebook_is, notebook_text, notebook_to_llm_format,
    notebook_ok, cell_ok, parse_text, single_cell_text, str_eq, text_of, truncate, truncated,
};
use crate::notebook::{
    cell_type_tag, fresh_cell, is_v4_uuid_text, source_text, Cell, CellSource, CellType, Notebook,
};
use crate::text::{
    can_cut_bytes, join, lemma_join_push, lines_of, push_str, split_lines, starts_with, views,
};

verus! {

/// Request of the `read_notebook` tool. With neither `offset` nor `limit`
/// the whole rendering is returned; otherwise its lines from `offset` on
/// (none meaning 0), at most `limit` of them (none meaning no limit).
pub struct ReadNotebookRequest {
    pub path: String,
    pub limit: Option<usize>,
    pub offset: Option<usize>,
}

/// The number of lines `read_notebook` shows when a request leaves the
/// limit out.
pub const DEFAULT_READ_LIMIT: usize = 100;

/// Request of the `write_notebook` tool.
pub struct WriteNotebookRequest {
    pub path: String,
    pub content: String,
}

/// Answer of the `write_notebook` tool.
pub struct WriteNotebookResponse {
    pub message: String,
    pub warnings: Vec<String>,
}

/// Request of the `list_cells` tool.
pub struct ListCellsRequest {
    pub path: String,
}

/// One entry of the `list_cells` answer.
pub struct CellInfo {
    pub id: Option<String>,
    pub cell_type: String,
    pub index: usize,
    pub source_preview: String,
}

/// Request of the `get_cell` tool.
pub struct GetCellRequest {
    pub path: String,
    pub cell_id: String,
}

/// Request of the `add_cell` tool. The new cell goes after the cell with id
/// `after_cell_id` if one is given, else after the cell at the 0-based
/// `after_index` if one is given, else at the end.
pub struct AddCellRequest {
    pub path: String,
    pub cell_type: String,
    pub content: String,
    pub after_cell_id: Option<String>,
    pub after_index: Option<usize>,
}

/// Answer of the `add_cell` tool.
pub struct AddCellResponse {
    pub message: String,
    pub cell_id: String,
}

/// Request of the `update_cell` tool.
pub struct UpdateCellRequest {
    pub path: String,
    pub cell_id: String,
    pub content: String,
}

/// Request of the `delete_cell` tool.
pub struct DeleteCellRequest {
    pub path: String,
    pub cell_id: String,
}

// ---------------------------------------------------------------------------
// Specifications
// ---------------------------------------------------------------------------

/// The cell carries the given id.
pub open spec fn has_id(c: Cell, id: Seq<char>) -> bool {
    c.id matches Some(s) && s@ == id
}

/// Index of the first cell at or after `from` that carries the id.
pub open spec fn cell_index(cells: Seq<Cell>, id: Seq<char>, from: int) -> Option<int>
    decreases cells.len() - from,
{
    if from < 0 || from >= cells.len() {
        None
    } else if has_id(cells[from], id) {
        Some(from)
    } else {
        cell_index(cells, id, from + 1)
    }
}

/// Index of the first cell that carries the id.
pub open spec fn find_cell(cells: Seq<Cell>, id: Seq<char>) -> Option<int> {
    cell_index(cells, id, 0)
}

/// The cell type named by `code`, `markdown` or `raw`.
pub open spec fn cell_type_of_tag(s: Seq<char>) -> Option<CellType> {
    if s == "code"@ {
        Some(CellType::Code)
    } else if s == "markdown"@ {
        Some(CellType::Markdown)
    } else if s == "raw"@ {
        Some(CellType::Raw)
    } else {
        None
    }
}

/// The final component of a path, as far as it is known: a non-empty piece
/// of the path without a `/`.
pub open spec fn is_file_name_of(name: Seq<char>, path: Seq<char>) -> bool {
    &&& name.len() > 0
    &&& !name.contains('/')
    &&& exists|a: int| 0 <= a && a + name.len() <= path.len() && #[trigger] path.subrange(a, a + name.len()) == name
}

/// The cells with the source of cell `k` replaced.
pub open spec fn with_source(cells: Seq<Cell>, k: int, content: String) -> Seq<Cell> {
    cells.update(k, Cell { source: CellSource::Single(content), ..cells[k] })
}

/// Where `add_cell` inserts: after the anchor cell, after the cell at the
/// given index, or at the end; nothing when the anchor or index is missing.
pub open spec fn insert_position(cells: Seq<Cell>, after: Option<String>, index: Option<usize>) -> Option<int> {
    match after {
        Some(a) => match find_cell(cells, a@) {
            Some(k) => Some(k + 1),
            None => None,
        },
        None => match index {
            Some(k) => if k < cells.len() {
                Some(k + 1)
            } else {
                None
            },
            None => Some(cells.len() as int),
        },
    }
}

/// The text after the last `/` of a path (all of it when there is none).
pub open spec fn after_last_slash(p: Seq<char>) -> Seq<char>
    decreases p.len(),
{
    if p.len() == 0 || p.last() == '/' {
        Seq::empty()
    } else {
        after_last_slash(p.drop_last()).push(p.last())
    }
}

/// The file name of a path that every platform reads alike: one without `\`
/// or `:`, not starting with `//`, whose text after its last `/` is a name
/// other than `.` and `..`.
pub open spec fn plain_last_component(p: Seq<char>) -> Option<Seq<char>> {
    let n = after_last_slash(p);
    if !p.contains('\\') && !p.contains(':') && !starts_with(p, "//"@) && n.len() > 0 && n
        != "."@ && n != ".."@ {
        Some(n)
    } else {
        None
    }
}

/// The first line a read shows: `offset`, at most the number of lines.
pub open spec fn window_start(n: nat, offset: Option<usize>) -> int {
    match offset {
        Some(o) => if o <= n {
            o as int
        } else {
            n as int
        },
        None => 0,
    }
}

/// The line after the last one a read shows.
pub open spec fn window_end(n: nat, lo: int, limit: Option<usize>) -> int {
    match limit {
        Some(k) => if k <= n - lo {
            lo + k
        } else {
            n as int
        },
        None => n as int,
    }
}

/// What a read shows of a text: all of it when neither offset nor limit is
/// given; otherwise the lines in the window, joined by line feeds.
pub open spec fn read_view(t: Seq<char>, offset: Option<usize>, limit: Option<usize>) -> Seq<char> {
    if offset is None && limit is None {
        t
    } else {
        let ls = lines_of(t);
        let lo = window_start(ls.len(), offset);
        join(ls.subrange(lo, window_end(ls.len(), lo, limit)), "\n"@)
    }
}

/// The notebook differs from another at most in its cells.
pub open spec fn same_but_cells(a: Notebook, b: Notebook) -> bool {
    &&& a.nbformat == b.nbformat
    &&& a.nbformat_minor == b.nbformat_minor
    &&& a.metadata == b.metadata
}

/// Every cell's source can be cut to its first 100 bytes.
pub open spec fn previews_ok(nb: Notebook) -> bool {
    forall|i: int|
        0 <= i < nb.cells@.len() ==> can_cut_bytes(
            source_text(#[trigger] nb.cells@[i].source),
            100,
        )
}

// ---------------------------------------------------------------------------
// Trusted items
// ---------------------------------------------------------------------------

/// Calls `std::path::Path::file_name` on the path and `OsStr::to_str` on the
/// result. The documentation gives the final component of the path, or
/// nothing when the path ends in `..` or has no component; which component
/// that is depends on the platform's separators, so only its shape is stated.
/// For a path that every platform reads alike (`plain_last_component`) the
/// final component is the text after its last `/`, and `to_str` cannot fail
/// on text that came from a `&str`.
#[verifier::external_body]
fn path_file_name(path: &str) -> (res: Option<String>)
    ensures
        res is Some ==> is_file_name_of(res->0@, path@),
        plain_last_component(path@) is Some ==> res is Some && res->0@ == plain_last_component(
            path@,
        )->0,
{
    std::path::Path::new(path).file_name().and_then(|n| n.to_str()).map(|n| n.to_string())
}

// ---------------------------------------------------------------------------
// Executable functions
// ---------------------------------------------------------------------------

/// The index of the first cell that carries the id.
pub fn find_cell_index(cells: &Vec<Cell>, id: &str) -> (res: Option<usize>)
    ensures
        res matches Some(k) ==> find_cell(cells@, id@) == Some(k as int) && k < cells@.len(),
        res is None ==> find_cell(cells@, id@) is None,
{
    let mut i: usize = 0;
    while i < cells.len()
        invariant
            i <= cells@.len(),
            find_cell(cells@, id@) == cell_index(cells@, id@, i as int),
        decreases cells@.len() - i,
    {
        match &cells[i].id {
            Some(s) => {
                if str_eq(s.as_str(), id) {
                    return Some(i);
                }
            },
            None => {},
        }
        i = i + 1;
    }
    None
}

/// The cell type named by `code`, `markdown` or `raw`.
pub fn parse_cell_type(s: &str) -> (res: Result<CellType, EditError>)
    ensures
        cell_type_of_tag(s@) matches Some(t) ==> res == Ok::<CellType, EditError>(t),
        cell_type_of_tag(s@) is None ==> (res matches Err(EditError::InvalidCellType(x)) && x@
            == s@),
{
    if str_eq(s, "code") {
        Ok(CellType::Code)
    } else if str_eq(s, "markdown") {
        Ok(CellType::Markdown)
    } else if str_eq(s, "raw") {
        Ok(CellType::Raw)
    } else {
        Err(EditError::InvalidCellType(text_of(s)))
    }
}

/// The lines of a text that a read shows (see `read_view`).
pub fn line_window(text: &str, offset: Option<usize>, limit: Option<usize>) -> (res: String)
    ensures
        res@ == read_view(text@, offset, limit),
{
    if offset.is_none() && limit.is_none() {
        return text_of(text);
    }
    let lines = split_lines(text);
    let ghost ls = views(lines@);
    let n = lines.len();
    let lo: usize = match offset {
        Some(o) => if o <= n {
            o
        } else {
            n
        },
        None => 0,
    };
    let hi: usize = match limit {
        Some(k) => if k <= n - lo {
            lo + k
        } else {
            n
        },
        None => n,
    };
    assert(lo == window_start(ls.len(), offset) && hi == window_end(ls.len(), lo as int, limit));
    let mut out = String::new();
    let mut i: usize = lo;
    assert(ls.subrange(lo as int, lo as int) =~= Seq::<Seq<char>>::empty());
    while i < hi
        invariant
            ls == views(lines@),
            lo <= i <= hi <= n == lines@.len(),
            out@ == join(ls.subrange(lo as int, i as int), "\n"@),
        decreases hi - i,
    {
        proof {
            assert(ls.subrange(lo as int, i + 1) =~= ls.subrange(lo as int, i as int).push(
                lines@[i as int]@,
            ));
            if i > lo {
                lemma_join_push(ls.subrange(lo as int, i as int), "\n"@, lines@[i as int]@);
            } else {
                assert(ls.subrange(lo as int, i + 1) =~= seq![lines@[i as int]@]);
            }
        }
        if i > lo {
            push_str(&mut out, "\n");
        }
        push_str(&mut out, lines[i].as_str());
        i = i + 1;
    }
    out
}

/// `read_notebook`: the LLM-friendly rendering of the notebook, titled with
/// the file name of the request's path, or the requested window of its lines.
pub fn read_notebook(req: ReadNotebookRequest, notebook: &Notebook) -> (res: String)
    requires
        notebook_ok(*notebook),
    ensures
        exists|f: Option<Seq<char>>|
            #![trigger notebook_text(*notebook, f)]
            res@ == read_view(notebook_text(*notebook, f), req.offset, req.limit) && (f matches Some(
                n,
            ) ==> is_file_name_of(n, req.path@)),
        plain_last_component(req.path@) is Some ==> res@ == read_view(
            notebook_text(*notebook, plain_last_component(req.path@)),
            req.offset,
            req.limit,
        ),
{
    let filename = path_file_name(req.path.as_str());
    let text = match &filename {
        Some(n) => notebook_to_llm_format(notebook, Some(n.as_str())),
        None => notebook_to_llm_format(notebook, None),
    };
    let res = line_window(text.as_str(), req.offset, req.limit);
    proof {
        let f = match filename {
            Some(n) => Some(n@),
            None => None::<Seq<char>>,
        };
        assert(text@ == notebook_text(*notebook, f));
    }
    res
}

/// `write_notebook`: the notebook parsed from the request's markdown, and
/// the answer to give once it is written to the request's path.
pub fn write_notebook(req: WriteNotebookRequest) -> (res: Result<
    (Notebook, WriteNotebookResponse),
    EditError,
>)
    ensures
        res is Ok <==> parse_text(req.content@).cells.len() > 0,
        res matches Err(e) ==> e == EditError::NoValidCells,
        res matches Ok((nb, r)) ==> {
            &&& notebook_is(nb, parse_text(req.content@))
            &&& r.message@ == "Notebook written successfully to: "@ + req.path@
            &&& views(r.warnings@) == parse_text(req.content@).warnings
        },
{
    let (notebook, warnings) = match llm_format_to_notebook(req.content.as_str()) {
        Ok(p) => p,
        Err(e) => {
            return Err(e);
        },
    };
    let mut message = String::new();
    push_str(&mut message, "Notebook written successfully to: ");
    push_str(&mut message, req.path.as_str());
    Ok((notebook, WriteNotebookResponse { message, warnings }))
}

/// `list_cells`: id, type, position and a preview of the source of every cell.
pub fn list_cells(req: ListCellsRequest, notebook: &Notebook) -> (res: Vec<CellInfo>)
    requires
        previews_ok(*notebook),
    ensures
        res@.len() == notebook.cells@.len(),
        forall|i: int|
            0 <= i < res@.len() ==> {
                let info = #[trigger] res@[i];
                let c = notebook.cells@[i];
                &&& info.id == c.id
                &&& info.cell_type@ == cell_type_tag(c.cell_type)
                &&& info.index == i
                &&& info.source_preview@ == truncated(source_text(c.source), 100)
            },
{
    let mut res: Vec<CellInfo> = Vec::new();
    let mut i: usize = 0;
    while i < notebook.cells.len()
        invariant
            i <= notebook.cells@.len(),
            previews_ok(*notebook),
            res@.len() == i,
            forall|j: int|
                0 <= j < i ==> {
                    let info = #[trigger] res@[j];
                    let c = notebook.cells@[j];
                    &&& info.id == c.id
                    &&& info.cell_type@ == cell_type_tag(c.cell_type)
                    &&& info.index == j
                    &&& info.source_preview@ == truncated(source_text(c.source), 100)
                },
        decreases notebook.cells@.len() - i,
    {
        let cell = &notebook.cells[i];
        let source = cell.source.as_string();
        let preview = truncate(source.as_str(), 100);
        let id = match &cell.id {
            Some(s) => Some(s.clone()),
            None => None,
        };
        let info = CellInfo {
            id,
            cell_type: text_of(cell.cell_type.tag()),
            index: i,
            source_preview: preview,
        };
        res.push(info);
        i = i + 1;
    }
    res
}

/// `get_cell`: the rendering of the first cell that carries the requested id.
pub fn get_cell(req: GetCellRequest, notebook: &Notebook) -> (res: Result<String, EditError>)
    requires
        find_cell(notebook.cells@, req.cell_id@) matches Some(k) ==> cell_ok(notebook.cells@[k]),
    ensures
        find_cell(notebook.cells@, req.cell_id@) matches Some(k) ==> res matches Ok(s) && s@
            == single_cell_text(notebook.cells@[k], *notebook),
        find_cell(notebook.cells@, req.cell_id@) is None ==> res == Err::<String, EditError>(
            EditError::CellNotFound(req.cell_id),
        ),
{
    match find_cell_index(&notebook.cells, req.cell_id.as_str()) {
        Some(k) => Ok(format_single_cell(&notebook.cells[k], notebook)),
        None => Err(EditError::CellNotFound(req.cell_id)),
    }
}

/// `add_cell`: inserts a new cell with a fresh id after the requested cell,
/// or at the end.
pub fn add_cell(req: AddCellRequest, notebook: &mut Notebook) -> (res: Result<
    AddCellResponse,
    EditError,
>)
    ensures
        cell_type_of_tag(req.cell_type@) is None ==> (res matches Err(
            EditError::InvalidCellType(x),
        ) && x@ == req.cell_type@) && *final(notebook) == *old(notebook),
        cell_type_of_tag(req.cell_type@) is Some && req.after_cell_id is Some && find_cell(
            old(notebook).cells@,
            req.after_cell_id->0@,
        ) is None ==> res == Err::<AddCellResponse, EditError>(
            EditError::InsertAfterNotFound(req.after_cell_id->0),
        ) && *final(notebook) == *old(notebook),
        cell_type_of_tag(req.cell_type@) is Some && req.after_cell_id is None && req.after_index is Some
            && req.after_index->0 >= old(notebook).cells@.len() ==> res == Err::<
            AddCellResponse,
            EditError,
        >(EditError::IndexOutOfRange(req.after_index->0)) && *final(notebook) == *old(notebook),
        match (
            cell_type_of_tag(req.cell_type@),
            insert_position(old(notebook).cells@, req.after_cell_id, req.after_index),
        ) {
            (Some(t), Some(pos)) => res matches Ok(r) && {
                &&& is_v4_uuid_text(r.cell_id@)
                &&& r.message@ == "Cell added successfully with ID: "@ + r.cell_id@
                &&& final(notebook).cells@ == old(notebook).cells@.insert(
                    pos,
                    fresh_cell(t, req.content, r.cell_id),
                )
                &&& same_but_cells(*final(notebook), *old(notebook))
            },
            _ => true,
        },
{
    let cell_type = match parse_cell_type(req.cell_type.as_str()) {
        Ok(t) => t,
        Err(e) => {
            return Err(e);
        },
    };
    let n = notebook.cells.len();
    let insert_index = match &req.after_cell_id {
        Some(after_id) => match find_cell_index(&notebook.cells, after_id.as_str()) {
            Some(pos) => {
                assert(pos < n);
                pos + 1
            },
            None => {
                return Err(EditError::InsertAfterNotFound(req.after_cell_id.unwrap()));
            },
        },
        None => match req.after_index {
            Some(k) => {
                if k < n {
                    k + 1
                } else {
                    return Err(EditError::IndexOutOfRange(k));
                }
            },
            None => n,
        },
    };
    let new_cell = Cell::new(cell_type, req.content);
    let cell_id = match &new_cell.id {
        Some(id) => id.clone(),
        None => String::new(),
    };
    notebook.cells.insert(insert_index, new_cell);
    let mut message = String::new();
    push_str(&mut message, "Cell added successfully with ID: ");
    push_str(&mut message, cell_id.as_str());
    Ok(AddCellResponse { message, cell_id })
}

/// `update_cell`: replaces the source of the first cell that carries the
/// requested id.
pub fn update_cell(req: UpdateCellRequest, notebook: &mut Notebook) -> (res: Result<
    String,
    EditError,
>)
    ensures
        find_cell(old(notebook).cells@, req.cell_id@) matches Some(k) ==> res matches Ok(m) && {
            &&& m@ == "Cell updated successfully: "@ + req.cell_id@
            &&& final(notebook).cells@ == with_source(old(notebook).cells@, k, req.content)
            &&& same_but_cells(*final(notebook), *old(notebook))
        },
        find_cell(old(notebook).cells@, req.cell_id@) is None ==> res == Err::<String, EditError>(
            EditError::CellNotFound(req.cell_id),
        ) && *final(notebook) == *old(notebook),
{
    match find_cell_index(&notebook.cells, req.cell_id.as_str()) {
        Some(k) => {
            let mut cell = notebook.cells.remove(k);
            cell.source = CellSource::Single(req.content);
            notebook.cells.insert(k, cell);
            proof {
                assert(notebook.cells@ =~= with_source(old(notebook).cells@, k as int, req.content));
            }
            let mut message = String::new();
            push_str(&mut message, "Cell updated successfully: ");
            push_str(&mut message, req.cell_id.as_str());
            Ok(message)
        },
        None => Err(EditError::CellNotFound(req.cell_id)),
    }
}

/// `delete_cell`: removes the first cell that carries the requested id.
pub fn delete_cell(req: DeleteCellRequest, notebook: &mut Notebook) -> (res: Result<
    String,
    EditError,
>)
    ensures
        find_cell(old(notebook).cells@, req.cell_id@) matches Some(k) ==> res matches Ok(m) && {
            &&& m@ == "Cell deleted successfully: "@ + req.cell_id@ + " (type: "@ + cell_type_tag(
                old(notebook).cells@[k].cell_type,
            ) + ")"@
            &&& final(notebook).cells@ == old(notebook).cells@.remove(k)
            &&& same_but_cells(*final(notebook), *old(notebook))
        },
        find_cell(old(notebook).cells@, req.cell_id@) is None ==> res == Err::<String, EditError>(
            EditError::CellNotFound(req.cell_id),
        ) && *final(notebook) == *old(notebook),
{
    match find_cell_index(&notebook.cells, req.cell_id.as_str()) {
        Some(k) => {
            let removed = notebook.cells.remove(k);
            let mut message = String::new();
            push_str(&mut message, "Cell deleted successfully: ");
            push_str(&mut message, req.cell_id.as_str());
            push_str(&mut message, " (type: ");
            push_str(&mut message, removed.cell_type.tag());
            push_str(&mut message, ")");
            Ok(message)
        },
        None => Err(EditError::CellNotFound(req.cell_id)),
    }
}

} // verus!
