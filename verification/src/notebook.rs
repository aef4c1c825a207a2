//! The in-memory model of a Jupyter notebook (nbformat 4).
use vstd::prelude::*;

use crate::text::{concat, push_str, views};

verus! {

/// A JSON value as it appears in a notebook's outputs and attachments.
/// Numbers keep their JSON text; object members keep their order.
#[derive(Debug)]
pub enum JsonValue {
    Null,
    Bool(bool),
    Number(String),
    String(String),
    Array(Vec<JsonValue>),
    Object(Vec<JsonMember>),
}

/// One `"key": value` member of a JSON object.
#[derive(Debug)]
pub struct JsonMember {
    pub key: String,
    pub value: JsonValue,
}

/// A whole notebook.
#[derive(Debug)]
pub struct Notebook {
    pub nbformat: u32,
    pub nbformat_minor: u32,
    pub metadata: NotebookMetadata,
    pub cells: Vec<Cell>,
}

/// Notebook-level metadata.
#[derive(Debug)]
pub struct NotebookMetadata {
    pub kernelspec: Option<KernelSpec>,
    pub language_info: Option<LanguageInfo>,
    pub title: Option<String>,
    pub warnings: Option<Vec<String>>,
}

/// The kernel a notebook runs on.
#[derive(Debug)]
pub struct KernelSpec {
    pub name: String,
    pub display_name: String,
}

/// The programming language of a notebook.
#[derive(Debug)]
pub struct LanguageInfo {
    pub name: String,
    pub file_extension: Option<String>,
    pub mimetype: Option<String>,
}

/// One cell of a notebook.
#[derive(Debug)]
pub struct Cell {
    pub id: Option<String>,
    pub cell_type: CellType,
    pub source: CellSource,
    pub metadata: CellMetadata,
    pub outputs: Option<Vec<Output>>,
    pub execution_count: Option<u32>,
    pub attachments: Option<JsonValue>,
}

/// The kind of a cell.
#[derive(Debug, Clone, Copy, PartialEq, Eq, Structural)]
pub enum CellType {
    Code,
    Markdown,
    Raw,
}

/// A cell's text, stored either whole or as a list of lines.
#[derive(Debug)]
pub enum CellSource {
    Single(String),
    Multi(Vec<String>),
}

/// Cell-level metadata.
#[derive(Debug)]
pub struct CellMetadata {
    pub name: Option<String>,
    pub tags: Option<Vec<String>>,
    pub collapsed: bool,
    pub scrolled: bool,
    pub jupyter: Option<JupyterMetadata>,
}

/// Visibility flags that Jupyter keeps for a cell.
#[derive(Debug)]
pub struct JupyterMetadata {
    pub source_hidden: Option<bool>,
    pub outputs_hidden: Option<bool>,
}

/// One output of a code cell.
#[derive(Debug)]
pub enum Output {
    Stream { name: String, text: CellSource },
    ExecuteResult { data: JsonValue, metadata: JsonValue, execution_count: Option<u32> },
    DisplayData { data: JsonValue, metadata: JsonValue },
    Error { ename: String, evalue: String, traceback: Vec<String> },
}

// ---------------------------------------------------------------------------
// Specifications
// ---------------------------------------------------------------------------

/// The text of a cell source: the whole string, or the lines joined with nothing between.
pub open spec fn source_text(src: CellSource) -> Seq<char> {
    match src {
        CellSource::Single(s) => s@,
        CellSource::Multi(lines) => concat(views(lines@)),
    }
}

/// The name `Display` gives a cell type.
pub open spec fn cell_type_name(t: CellType) -> Seq<char> {
    match t {
        CellType::Code => "Code"@,
        CellType::Markdown => "Markdown"@,
        CellType::Raw => "Raw"@,
    }
}

/// The name the notebook JSON uses for a cell type (lower case).
pub open spec fn cell_type_tag(t: CellType) -> Seq<char> {
    match t {
        CellType::Code => "code"@,
        CellType::Markdown => "markdown"@,
        CellType::Raw => "raw"@,
    }
}

/// A lower-case hexadecimal digit.
pub open spec fn is_lower_hex(c: char) -> bool {
    ('0' <= c && c <= '9') || ('a' <= c && c <= 'f')
}

/// The hyphenated lower-case text of a random (version 4, RFC 9562 variant) UUID,
/// such as `67e55044-10b1-426f-9247-bb680e5fe0c8`.
pub open spec fn is_v4_uuid_text(s: Seq<char>) -> bool {
    &&& s.len() == 36
    &&& forall|i: int|
        0 <= i < 36 ==> if i == 8 || i == 13 || i == 18 || i == 23 {
            s[i] == '-'
        } else {
            is_lower_hex(#[trigger] s[i])
        }
    &&& s[14] == '4'
    &&& (s[19] == '8' || s[19] == '9' || s[19] == 'a' || s[19] == 'b')
}

/// Empty cell metadata.
pub open spec fn empty_cell_metadata() -> CellMetadata {
    CellMetadata { name: None, tags: None, collapsed: false, scrolled: false, jupyter: None }
}

/// Empty notebook metadata.
pub open spec fn empty_notebook_metadata() -> NotebookMetadata {
    NotebookMetadata { kernelspec: None, language_info: None, title: None, warnings: None }
}

/// A fresh cell of the given type and text, carrying the given id and nothing else.
pub open spec fn fresh_cell(t: CellType, source: String, id: String) -> Cell {
    Cell {
        id: Some(id),
        cell_type: t,
        source: CellSource::Single(source),
        metadata: empty_cell_metadata(),
        outputs: None,
        execution_count: None,
        attachments: None,
    }
}

// ---------------------------------------------------------------------------
// Trusted items
// ---------------------------------------------------------------------------

/// Calls `uuid::Uuid::new_v4` and renders it with `to_string`. The uuid crate
/// sets the version nibble to 4 and the variant bits to `10`, and `Display`
/// writes the hyphenated lower-case form; which UUID comes out is random.
/// The call panics only if the operating system cannot supply random bytes,
/// which no argument controls.
#[verifier::external_body]
fn new_v4_uuid_string() -> (s: String)
    ensures
        is_v4_uuid_text(s@),
{
    uuid::Uuid::new_v4().to_string()
}

// ---------------------------------------------------------------------------
// Executable functions
// ---------------------------------------------------------------------------

impl Default for CellMetadata {
    fn default() -> (r: Self)
        ensures
            r == empty_cell_metadata(),
    {
        CellMetadata { name: None, tags: None, collapsed: false, scrolled: false, jupyter: None }
    }
}

impl Default for NotebookMetadata {
    fn default() -> (r: Self)
        ensures
            r == empty_notebook_metadata(),
    {
        NotebookMetadata { kernelspec: None, language_info: None, title: None, warnings: None }
    }
}

impl Default for Notebook {
    fn default() -> (r: Self)
        ensures
            r.nbformat == 4,
            r.nbformat_minor == 5,
            r.metadata == empty_notebook_metadata(),
            r.cells@.len() == 0,
    {
        Notebook {
            nbformat: 4,
            nbformat_minor: 5,
            metadata: NotebookMetadata::default(),
            cells: Vec::new(),
        }
    }
}

impl Notebook {
    /// An empty nbformat 4.5 notebook.
    pub fn new() -> (r: Self)
        ensures
            r.nbformat == 4,
            r.nbformat_minor == 5,
            r.metadata == empty_notebook_metadata(),
            r.cells@.len() == 0,
    {
        Self::default()
    }
}

impl Cell {
    /// A new cell with a freshly generated id and the given text.
    pub fn new(cell_type: CellType, source: String) -> (c: Self)
        ensures
            c.id matches Some(id) && is_v4_uuid_text(id@),
            c == fresh_cell(cell_type, source, c.id->0),
    {
        Cell {
            id: Some(Self::generate_id()),
            cell_type,
            source: CellSource::Single(source),
            metadata: CellMetadata::default(),
            outputs: None,
            execution_count: None,
            attachments: None,
        }
    }

    /// The cell's id, generating and storing one first if it has none.
    pub fn get_or_generate_id(&mut self) -> (id: String)
        ensures
            old(self).id matches Some(old_id) ==> id == old_id && *final(self) == *old(self),
            old(self).id is None ==> is_v4_uuid_text(id@) && *final(self) == (Cell {
                id: Some(id),
                ..*old(self)
            }),
    {
        match &self.id {
            Some(id) => id.clone(),
            None => {
                let id = Self::generate_id();
                self.id = Some(id.clone());
                id
            },
        }
    }

    /// A fresh random id.
    pub fn generate_id() -> (id: String)
        ensures
            is_v4_uuid_text(id@),
    {
        new_v4_uuid_string()
    }
}

impl CellType {
    /// The name `Display` gives the cell type: `Code`, `Markdown` or `Raw`.
    pub fn display_name(&self) -> (s: &'static str)
        ensures
            s@ == cell_type_name(*self),
    {
        match self {
            CellType::Code => "Code",
            CellType::Markdown => "Markdown",
            CellType::Raw => "Raw",
        }
    }

    /// The lower-case name of the cell type: `code`, `markdown` or `raw`.
    pub fn tag(&self) -> (s: &'static str)
        ensures
            s@ == cell_type_tag(*self),
    {
        match self {
            CellType::Code => "code",
            CellType::Markdown => "markdown",
            CellType::Raw => "raw",
        }
    }
}

impl CellSource {
    /// The whole text of the source.
    pub fn as_string(&self) -> (s: String)
        ensures
            s@ == source_text(*self),
    {
        match self {
            CellSource::Single(s) => s.clone(),
            CellSource::Multi(lines) => {
                let mut out = String::new();
                let mut i: usize = 0;
                while i < lines.len()
                    invariant
                        i <= lines@.len(),
                        out@ == concat(views(lines@.take(i as int))),
                    decreases lines@.len() - i,
                {
                    proof {
                        crate::text::lemma_concat_push(views(lines@.take(i as int)), lines@[i as int]@);
                        assert(views(lines@.take(i + 1)) =~= views(lines@.take(i as int)).push(
                            lines@[i as int]@,
                        ));
                    }
                    push_str(&mut out, lines[i].as_str());
                    i = i + 1;
                }
                assert(lines@.take(lines@.len() as int) =~= lines@);
                out
            },
        }
    }
}

} // verus!
