//! The LLM-friendly markdown rendering of notebooks, and the parser that
//! turns such markdown back into a notebook.
use vstd::prelude::*;

use crate::notebook::{
    source_text, cell_type_name, Cell, CellSource, CellType, JsonMember, JsonValue, Notebook,
    Output,
};
use crate::error::EditError;
use crate::notebook::{empty_cell_metadata, KernelSpec, LanguageInfo, NotebookMetadata};
use crate::text::{
    clone_strings, lines_of, split_lines, starts_with, trim, trim_bounds, slice_starts_with, byte_len, byte_prefix, can_cut_bytes, chars_of, chars_within_bytes, decimal, ends_with_char,
    join, lemma_join_push, lemma_utf8_len_take_mono, push_decimal, push_str, slice_equals, string_of, trim_end, trimmed_end,
    utf8_len, views,
};

verus! {

// ---------------------------------------------------------------------------
// Specifications: JSON data summaries
// ---------------------------------------------------------------------------

/// Index of the first member at or after `from` whose key is `key`.
pub open spec fn member_index(ms: Seq<JsonMember>, key: Seq<char>, from: int) -> Option<int>
    decreases ms.len() - from,
{
    if from < 0 || from >= ms.len() {
        None
    } else if ms[from].key@ == key {
        Some(from)
    } else {
        member_index(ms, key, from + 1)
    }
}

/// The value of the member with the given key (`Map::get`).
pub open spec fn member_get(ms: Seq<JsonMember>, key: Seq<char>) -> Option<JsonValue> {
    match member_index(ms, key, 0) {
        Some(k) => Some(ms[k].value),
        None => None,
    }
}

/// The text of a JSON string, or nothing for any other value (`Value::as_str`).
pub open spec fn json_str(v: JsonValue) -> Option<Seq<char>> {
    match v {
        JsonValue::String(s) => Some(s@),
        _ => None,
    }
}

/// `s` cut to its first `n` bytes with `...` appended when it is longer.
pub open spec fn truncated(s: Seq<char>, n: nat) -> Seq<char> {
    if utf8_len(s) <= n {
        s
    } else {
        byte_prefix(s, n) + "..."@
    }
}

/// A short description of an output's data bundle.
pub open spec fn data_summary(data: JsonValue) -> Seq<char> {
    match data {
        JsonValue::Object(ms) => match member_get(ms@, "text/plain"@) {
            Some(v) => truncated(
                match json_str(v) {
                    Some(s) => s,
                    None => Seq::empty(),
                },
                100,
            ),
            None => match member_get(ms@, "text/html"@) {
                Some(v) => "<html: "@ + decimal(
                    match json_str(v) {
                        Some(s) => (utf8_len(s) as usize) as nat,
                        None => 0,
                    },
                ) + " chars>"@,
                None => if member_index(ms@, "image/png"@, 0) is Some || member_index(
                    ms@,
                    "image/jpeg"@,
                    0,
                ) is Some {
                    "<image data>"@
                } else {
                    "<data>"@
                },
            },
        },
        _ => "<data>"@,
    }
}

/// Summarising the data bundle does not cut a text inside a character.
pub open spec fn data_summary_ok(data: JsonValue) -> bool {
    match data {
        JsonValue::Object(ms) => match member_get(ms@, "text/plain"@) {
            Some(JsonValue::String(s)) => can_cut_bytes(s@, 100),
            _ => true,
        },
        _ => true,
    }
}

/// The MIME type under which display data is shown: its first key.
pub open spec fn display_mime(data: JsonValue) -> Seq<char> {
    match data {
        JsonValue::Object(ms) => if ms@.len() > 0 {
            ms@[0].key@
        } else {
            "unknown"@
        },
        _ => "unknown"@,
    }
}

// ---------------------------------------------------------------------------
// Specifications: rendering
// ---------------------------------------------------------------------------

/// The traceback lines of an error output, each as `  - line\n`.
pub open spec fn traceback_text(lines: Seq<Seq<char>>) -> Seq<char>
    decreases lines.len(),
{
    if lines.len() == 0 {
        Seq::empty()
    } else {
        traceback_text(lines.drop_last()) + "  - "@ + lines.last() + "\n"@
    }
}

/// The one-entry rendering of an output.
pub open spec fn output_text(o: Output) -> Seq<char> {
    match o {
        Output::Stream { name, text } => "- Stream ("@ + name@ + "): "@ + trim_end(
            source_text(text),
        ),
        Output::ExecuteResult { data, .. } => "- Result: "@ + data_summary(data),
        Output::DisplayData { data, .. } => "- Display ("@ + display_mime(data) + "): "@
            + data_summary(data),
        Output::Error { ename, evalue, traceback } => "- Error: "@ + ename@ + ": "@ + evalue@ + (
        if traceback@.len() > 0 {
            "\n  Traceback:\n"@ + traceback_text(views(traceback@))
        } else {
            Seq::empty()
        }),
    }
}

/// Rendering the output does not cut a text inside a character.
pub open spec fn output_ok(o: Output) -> bool {
    match o {
        Output::ExecuteResult { data, .. } => data_summary_ok(data),
        Output::DisplayData { data, .. } => data_summary_ok(data),
        _ => true,
    }
}

/// The outputs, each rendered and followed by a newline.
pub open spec fn outputs_list_text(os: Seq<Output>) -> Seq<char>
    decreases os.len(),
{
    if os.len() == 0 {
        Seq::empty()
    } else {
        outputs_list_text(os.drop_last()) + output_text(os.last()) + "\n"@
    }
}

/// The outputs section of a cell (empty when it has no outputs).
pub open spec fn outputs_section(outputs: Option<Vec<Output>>) -> Seq<char> {
    match outputs {
        Some(os) => if os@.len() > 0 {
            "\n### Outputs\n"@ + outputs_list_text(os@)
        } else {
            Seq::empty()
        },
        None => Seq::empty(),
    }
}

/// The language named in a code fence: `raw` for raw cells, else the notebook's language.
pub open spec fn fence_language(t: CellType, lang: Option<Seq<char>>) -> Seq<char> {
    if t == CellType::Raw {
        "raw"@
    } else {
        match lang {
            Some(l) => l,
            None => "python"@,
        }
    }
}

/// The source section of a cell: a fenced block for code and raw cells,
/// the text itself (ending in a newline) for markdown cells.
pub open spec fn source_section(t: CellType, text: Seq<char>, lang: Option<Seq<char>>) -> Seq<
    char,
> {
    if t == CellType::Markdown {
        if ends_with_char(text, '\n') {
            text
        } else {
            text + "\n"@
        }
    } else {
        "```"@ + fence_language(t, lang) + "\n"@ + text + "\n```\n"@
    }
}

/// The id shown for a cell.
pub open spec fn shown_id(id: Option<String>) -> Seq<char> {
    match id {
        Some(s) => s@,
        None => "<no-id>"@,
    }
}

/// The heading line of a cell's block.
pub open spec fn cell_heading(t: CellType, id: Seq<char>) -> Seq<char> {
    "## Cell: "@ + cell_type_name(t) + " (id: "@ + id + ")\n\n"@
}

/// A cell's block: heading, source section and outputs section.
pub open spec fn cell_block(c: Cell, lang: Option<Seq<char>>) -> Seq<char> {
    cell_heading(c.cell_type, shown_id(c.id)) + "### Source\n"@ + source_section(
        c.cell_type,
        source_text(c.source),
        lang,
    ) + outputs_section(c.outputs)
}

/// Rendering the cell does not cut a text inside a character.
pub open spec fn cell_ok(c: Cell) -> bool {
    match c.outputs {
        Some(os) => forall|i: int| 0 <= i < os@.len() ==> output_ok(#[trigger] os@[i]),
        None => true,
    }
}

/// Rendering the notebook does not cut a text inside a character.
pub open spec fn notebook_ok(nb: Notebook) -> bool {
    forall|i: int| 0 <= i < nb.cells@.len() ==> cell_ok(#[trigger] nb.cells@[i])
}

/// The notebook's language name, if it records one.
pub open spec fn notebook_language(nb: Notebook) -> Option<Seq<char>> {
    match nb.metadata.language_info {
        Some(li) => Some(li.name@),
        None => None,
    }
}

/// The rendering of one cell on its own.
pub open spec fn single_cell_text(c: Cell, nb: Notebook) -> Seq<char> {
    cell_block(c, notebook_language(nb)) + "\n---\n"@
}

/// The cells' blocks, each followed by a separator.
pub open spec fn cells_text(cells: Seq<Cell>, lang: Option<Seq<char>>) -> Seq<char>
    decreases cells.len(),
{
    if cells.len() == 0 {
        Seq::empty()
    } else {
        cells_text(cells.drop_last(), lang) + cell_block(cells.last(), lang) + "\n---\n\n"@
    }
}

/// The format line of the metadata.
pub open spec fn format_line(nb: Notebook) -> Seq<char> {
    "- Format: nbformat "@ + decimal(nb.nbformat as nat) + "."@ + decimal(nb.nbformat_minor as nat)
        + "\n"@
}

/// The language line of the metadata, if the notebook names a language.
pub open spec fn language_line(nb: Notebook) -> Seq<char> {
    match nb.metadata.language_info {
        Some(li) => "- Language: "@ + li.name@ + "\n"@,
        None => Seq::empty(),
    }
}

/// The kernel line of the metadata, if the notebook names a kernel.
pub open spec fn kernel_line(nb: Notebook) -> Seq<char> {
    match nb.metadata.kernelspec {
        Some(k) => "- Kernel: "@ + k.name@ + "\n"@,
        None => Seq::empty(),
    }
}

/// The warnings line of the metadata, if there are warnings.
pub open spec fn warnings_line(nb: Notebook) -> Seq<char> {
    match nb.metadata.warnings {
        Some(w) => if w@.len() > 0 {
            "- Warnings: "@ + join(views(w@), ", "@) + "\n"@
        } else {
            Seq::empty()
        },
        None => Seq::empty(),
    }
}

/// The metadata lines of the notebook rendering.
pub open spec fn metadata_text(nb: Notebook) -> Seq<char> {
    "## Metadata\n"@ + format_line(nb) + language_line(nb) + kernel_line(nb) + warnings_line(nb)
}

/// The whole LLM-friendly rendering of a notebook.
pub open spec fn notebook_text(nb: Notebook, filename: Option<Seq<char>>) -> Seq<char> {
    "# Notebook: "@ + (match filename {
        Some(f) => f,
        None => "notebook"@,
    }) + "\n\n"@ + metadata_text(nb) + "\n---\n\n"@ + cells_text(
        nb.cells@,
        notebook_language(nb),
    )
}

// ---------------------------------------------------------------------------
// Executable rendering
// ---------------------------------------------------------------------------

/// `s` cut to its first `max_len` bytes, with `...` appended when it was longer.
pub fn truncate(s: &str, max_len: usize) -> (res: String)
    requires
        can_cut_bytes(s@, max_len as nat),
    ensures
        res@ == truncated(s@, max_len as nat),
{
    let cs = chars_of(s);
    let k = chars_within_bytes(&cs, max_len);
    if k == cs.len() {
        assert(cs@.take(k as int) =~= s@);
        return string_of(&cs, 0, cs.len());
    }
    proof {
        assert(cs@.take(cs@.len() as int) =~= s@);
        if k + 1 < cs@.len() {
            lemma_utf8_len_take_mono(cs@, k as int + 1, cs@.len() as int);
        }
        assert(utf8_len(s@) > max_len);
        let j = choose|j: int| 0 <= j <= s@.len() && #[trigger] utf8_len(s@.take(j)) == max_len;
        if j < k {
            lemma_utf8_len_take_mono(cs@, j, k as int);
        } else if j > k + 1 {
            lemma_utf8_len_take_mono(cs@, k as int + 1, j);
        }
        assert(j == k);
        lemma_byte_prefix_unique(s@, max_len as nat, k as int);
    }
    let mut res = string_of(&cs, 0, k);
    push_str(&mut res, "...");
    assert(cs@.subrange(0, k as int) =~= s@.take(k as int));
    res
}

/// The first `n` bytes of `s` are its first `k` characters.
pub proof fn lemma_byte_prefix_unique(s: Seq<char>, n: nat, k: int)
    requires
        0 <= k <= s.len(),
        utf8_len(s.take(k)) == n,
    ensures
        byte_prefix(s, n) == s.take(k),
{
    let j = choose|j: int| 0 <= j <= s.len() && #[trigger] utf8_len(s.take(j)) == n;
    if j < k {
        lemma_utf8_len_take_mono(s, j, k);
    } else if j > k {
        lemma_utf8_len_take_mono(s, k, j);
    }
}

/// A new string holding the text of a slice.
pub fn text_of(s: &str) -> (res: String)
    ensures
        res@ == s@,
{
    let mut res = String::new();
    push_str(&mut res, s);
    assert(res@ =~= s@);
    res
}

/// The text of a JSON string member.
fn member_text<'a>(ms: &'a Vec<JsonMember>, key: &str) -> (res: Option<Option<&'a String>>)
    ensures
        res is Some <==> member_get(ms@, key@) is Some,
        res matches Some(o) ==> match o {
            Some(s) => json_str(member_get(ms@, key@)->0) == Some(s@),
            None => json_str(member_get(ms@, key@)->0) is None,
        },
{
    match find_member(ms, key) {
        Some(k) => match &ms[k].value {
            JsonValue::String(s) => Some(Some(s)),
            _ => Some(None),
        },
        None => None,
    }
}

/// Whether two string slices hold the same text.
pub fn str_eq(a: &str, b: &str) -> (r: bool)
    ensures
        r == (a@ == b@),
{
    let ca = chars_of(a);
    let cb = chars_of(b);
    let r = slice_equals(&ca, 0, ca.len(), &cb);
    assert(ca@.subrange(0, ca@.len() as int) =~= a@);
    r
}

/// The index of the first member with the given key.
pub fn find_member(ms: &Vec<JsonMember>, key: &str) -> (res: Option<usize>)
    ensures
        res matches Some(k) ==> member_index(ms@, key@, 0) == Some(k as int) && k < ms@.len(),
        res is None ==> member_index(ms@, key@, 0) is None,
{
    let mut i: usize = 0;
    while i < ms.len()
        invariant
            i <= ms@.len(),
            member_index(ms@, key@, 0) == member_index(ms@, key@, i as int),
        decreases ms@.len() - i,
    {
        if str_eq(ms[i].key.as_str(), key) {
            return Some(i);
        }
        i = i + 1;
    }
    None
}

/// A short description of an output's data bundle.
pub fn summarize_data(data: &JsonValue) -> (res: String)
    requires
        data_summary_ok(*data),
    ensures
        res@ == data_summary(*data),
{
    match data {
        JsonValue::Object(ms) => {
            match member_text(ms, "text/plain") {
                Some(Some(s)) => {
                    return truncate(s.as_str(), 100);
                },
                Some(None) => {
                    assert(utf8_len(Seq::<char>::empty()) == 0);
                    return String::new();
                },
                None => {},
            }
            match member_text(ms, "text/html") {
                Some(o) => {
                    let n: usize = match o {
                        Some(s) => byte_len(s.as_str()),
                        None => 0,
                    };
                    let mut res = String::new();
                    push_str(&mut res, "<html: ");
                    push_decimal(&mut res, n as u64);
                    push_str(&mut res, " chars>");
                    return res;
                },
                None => {},
            }
            if find_member(ms, "image/png").is_some() || find_member(ms, "image/jpeg").is_some() {
                return text_of("<image data>");
            }
            text_of("<data>")
        },
        _ => text_of("<data>"),
    }
}

/// The one-entry rendering of an output.
pub fn format_output(output: &Output) -> (res: String)
    requires
        output_ok(*output),
    ensures
        res@ == output_text(*output),
{
    let mut s = String::new();
    match output {
        Output::Stream { name, text } => {
            push_str(&mut s, "- Stream (");
            push_str(&mut s, name.as_str());
            push_str(&mut s, "): ");
            let t = text.as_string();
            let t2 = trimmed_end(t.as_str());
            push_str(&mut s, t2.as_str());
        },
        Output::ExecuteResult { data, .. } => {
            push_str(&mut s, "- Result: ");
            let d = summarize_data(data);
            push_str(&mut s, d.as_str());
        },
        Output::DisplayData { data, .. } => {
            push_str(&mut s, "- Display (");
            match data {
                JsonValue::Object(ms) => {
                    if ms.len() > 0 {
                        push_str(&mut s, ms[0].key.as_str());
                    } else {
                        push_str(&mut s, "unknown");
                    }
                },
                _ => {
                    push_str(&mut s, "unknown");
                },
            }
            push_str(&mut s, "): ");
            let d = summarize_data(data);
            push_str(&mut s, d.as_str());
        },
        Output::Error { ename, evalue, traceback } => {
            push_str(&mut s, "- Error: ");
            push_str(&mut s, ename.as_str());
            push_str(&mut s, ": ");
            push_str(&mut s, evalue.as_str());
            if traceback.len() > 0 {
                push_str(&mut s, "\n  Traceback:\n");
                let ghost before = s@;
                let mut i: usize = 0;
                while i < traceback.len()
                    invariant
                        i <= traceback@.len(),
                        s@ == before + traceback_text(views(traceback@.take(i as int))),
                    decreases traceback@.len() - i,
                {
                    proof {
                        assert(views(traceback@.take(i + 1)).drop_last() =~= views(
                            traceback@.take(i as int),
                        ));
                    }
                    push_str(&mut s, "  - ");
                    push_str(&mut s, traceback[i].as_str());
                    push_str(&mut s, "\n");
                    i = i + 1;
                }
                assert(traceback@.take(traceback@.len() as int) =~= traceback@);
            }
        },
    }
    s
}

/// The language name as an optional view.
pub open spec fn opt_view(lang: Option<&str>) -> Option<Seq<char>> {
    match lang {
        Some(l) => Some(l@),
        None => None,
    }
}

/// Appends the heading line of a cell's block.
fn push_heading(out: &mut String, cell: &Cell)
    ensures
        final(out)@ == old(out)@ + cell_heading(cell.cell_type, shown_id(cell.id)),
{
    let ghost start = out@;
    push_str(out, "## Cell: ");
    push_str(out, cell.cell_type.display_name());
    push_str(out, " (id: ");
    match &cell.id {
        Some(id) => push_str(out, id.as_str()),
        None => push_str(out, "<no-id>"),
    }
    push_str(out, ")\n\n");
    assert(out@ =~= start + cell_heading(cell.cell_type, shown_id(cell.id)));
}

/// Appends the source section of a cell.
fn push_source_section(out: &mut String, cell: &Cell, lang: Option<&str>)
    ensures
        final(out)@ == old(out)@ + source_section(
            cell.cell_type,
            source_text(cell.source),
            opt_view(lang),
        ),
{
    let ghost start = out@;
    let text = cell.source.as_string();
    match cell.cell_type {
        CellType::Markdown => {
            push_str(out, text.as_str());
            if !(!text.as_str().is_empty() && last_char_is_newline(text.as_str())) {
                push_str(out, "\n");
            }
        },
        _ => {
            push_str(out, "```");
            if cell.cell_type == CellType::Raw {
                push_str(out, "raw");
            } else {
                match lang {
                    Some(l) => push_str(out, l),
                    None => push_str(out, "python"),
                }
            }
            push_str(out, "\n");
            push_str(out, text.as_str());
            push_str(out, "\n```\n");
        },
    }
    assert(out@ =~= start + source_section(cell.cell_type, source_text(cell.source), opt_view(lang)));
}

/// Appends the outputs section of a cell.
fn push_outputs_section(out: &mut String, outputs: &Option<Vec<Output>>)
    requires
        outputs matches Some(os) ==> forall|j: int| 0 <= j < os@.len() ==> output_ok(#[trigger] os@[j]),
    ensures
        final(out)@ == old(out)@ + outputs_section(*outputs),
{
    let ghost start = out@;
    match outputs {
        Some(os) => {
            if os.len() > 0 {
                push_str(out, "\n### Outputs\n");
                let ghost before = out@;
                let mut i: usize = 0;
                while i < os.len()
                    invariant
                        i <= os@.len(),
                        forall|j: int| 0 <= j < os@.len() ==> output_ok(#[trigger] os@[j]),
                        out@ == before + outputs_list_text(os@.take(i as int)),
                    decreases os@.len() - i,
                {
                    proof {
                        assert(os@.take(i + 1).drop_last() =~= os@.take(i as int));
                    }
                    let o = format_output(&os[i]);
                    push_str(out, o.as_str());
                    push_str(out, "\n");
                    assert(out@ =~= before + outputs_list_text(os@.take(i + 1)));
                    i = i + 1;
                }
                assert(os@.take(os@.len() as int) =~= os@);
            }
        },
        None => {},
    }
    assert(out@ =~= start + outputs_section(*outputs));
}

/// Appends a cell's block: heading, source section and outputs section.
fn push_cell_block(out: &mut String, cell: &Cell, lang: Option<&str>)
    requires
        cell_ok(*cell),
    ensures
        final(out)@ == old(out)@ + cell_block(*cell, opt_view(lang)),
{
    let ghost start = out@;
    push_heading(out, cell);
    push_str(out, "### Source\n");
    push_source_section(out, cell, lang);
    push_outputs_section(out, &cell.outputs);
    assert(out@ =~= start + cell_block(*cell, opt_view(lang)));
}

/// Whether the last character of a non-empty text is a newline.
fn last_char_is_newline(s: &str) -> (b: bool)
    requires
        s@.len() > 0,
    ensures
        b == (s@.last() == '\n'),
{
    let cs = chars_of(s);
    cs[cs.len() - 1] == '\n'
}

/// The rendering of one cell on its own, as shown by `get_cell`.
pub fn format_single_cell(cell: &Cell, notebook: &Notebook) -> (res: String)
    requires
        cell_ok(*cell),
    ensures
        res@ == single_cell_text(*cell, *notebook),
{
    let mut out = String::new();
    let lang: Option<&str> = match &notebook.metadata.language_info {
        Some(li) => Some(li.name.as_str()),
        None => None,
    };
    push_cell_block(&mut out, cell, lang);
    push_str(&mut out, "\n---\n");
    assert(out@ =~= single_cell_text(*cell, *notebook));
    out
}

/// The whole LLM-friendly rendering of a notebook.
pub fn notebook_to_llm_format(notebook: &Notebook, filename: Option<&str>) -> (res: String)
    requires
        notebook_ok(*notebook),
    ensures
        res@ == notebook_text(*notebook, opt_view(filename)),
{
    let mut out = String::new();
    push_str(&mut out, "# Notebook: ");
    match filename {
        Some(f) => push_str(&mut out, f),
        None => push_str(&mut out, "notebook"),
    }
    push_str(&mut out, "\n\n");
    let ghost head = out@;
    push_metadata(&mut out, notebook);
    assert(out@ =~= head + metadata_text(*notebook));
    push_str(&mut out, "\n---\n\n");
    let ghost before = out@;
    let lang: Option<&str> = match &notebook.metadata.language_info {
        Some(li) => Some(li.name.as_str()),
        None => None,
    };
    let mut i: usize = 0;
    while i < notebook.cells.len()
        invariant
            i <= notebook.cells@.len(),
            notebook_ok(*notebook),
            (match lang {
                Some(l) => Some(l@),
                None => None,
            }) == notebook_language(*notebook),
            out@ == before + cells_text(notebook.cells@.take(i as int), notebook_language(*notebook)),
        decreases notebook.cells@.len() - i,
    {
        proof {
            assert(notebook.cells@.take(i + 1).drop_last() =~= notebook.cells@.take(i as int));
        }
        push_cell_block(&mut out, &notebook.cells[i], lang);
        push_str(&mut out, "\n---\n\n");
        assert(out@ =~= before + cells_text(notebook.cells@.take(i + 1), notebook_language(*notebook)));
        i = i + 1;
    }
    assert(notebook.cells@.take(notebook.cells@.len() as int) =~= notebook.cells@);
    out
}

/// Appends the metadata lines of the notebook rendering.
#[verifier::spinoff_prover]
#[verifier::rlimit(30)]
fn push_metadata(out: &mut String, notebook: &Notebook)
    ensures
        final(out)@ == old(out)@ + metadata_text(*notebook),
{
    let ghost head = out@;
    push_str(out, "## Metadata\n");
    let ghost p1 = out@;
    push_str(out, "- Format: nbformat ");
    push_decimal(out, notebook.nbformat as u64);
    push_str(out, ".");
    push_decimal(out, notebook.nbformat_minor as u64);
    push_str(out, "\n");
    assert(out@ =~= p1 + format_line(*notebook));
    let ghost p2 = out@;
    match &notebook.metadata.language_info {
        Some(li) => {
            push_str(out, "- Language: ");
            push_str(out, li.name.as_str());
            push_str(out, "\n");
        },
        None => {},
    }
    assert(out@ =~= p2 + language_line(*notebook));
    let ghost p3 = out@;
    match &notebook.metadata.kernelspec {
        Some(k) => {
            push_str(out, "- Kernel: ");
            push_str(out, k.name.as_str());
            push_str(out, "\n");
        },
        None => {},
    }
    assert(out@ =~= p3 + kernel_line(*notebook));
    let ghost p4 = out@;
    match &notebook.metadata.warnings {
        Some(w) => {
            if w.len() > 0 {
                push_str(out, "- Warnings: ");
                push_joined(out, w, ", ");
                push_str(out, "\n");
            }
        },
        None => {},
    }
    assert(out@ =~= p4 + warnings_line(*notebook));
    assert(out@ =~= head + metadata_text(*notebook));
}

/// Appends the parts joined with `sep`.
fn push_joined(out: &mut String, parts: &Vec<String>, sep: &str)
    ensures
        final(out)@ == old(out)@ + join(views(parts@), sep@),
{
    let ghost start = out@;
    let mut i: usize = 0;
    while i < parts.len()
        invariant
            i <= parts@.len(),
            out@ == start + join(views(parts@.take(i as int)), sep@),
        decreases parts@.len() - i,
    {
        proof {
            assert(views(parts@.take(i + 1)) =~= views(parts@.take(i as int)).push(parts@[i as int]@));
            if i > 0 {
                lemma_join_push(views(parts@.take(i as int)), sep@, parts@[i as int]@);
            } else {
                assert(views(parts@.take(1)) =~= seq![parts@[0]@]);
            }
        }
        if i > 0 {
            push_str(out, sep);
        }
        push_str(out, parts[i].as_str());
        assert(out@ =~= start + join(views(parts@.take(i + 1)), sep@));
        i = i + 1;
    }
    assert(parts@.take(parts@.len() as int) =~= parts@);
}

// ---------------------------------------------------------------------------
// Specifications: parsing
// ---------------------------------------------------------------------------

/// The regular expression a cell heading line must match.
pub const CELL_HEADER_PATTERN: &'static str = r"^## Cell: (Code|Markdown|Raw) \(id: (.+)\)$";

/// The heading text before the id, for a cell type.
pub open spec fn header_prefix(t: CellType) -> Seq<char> {
    "## Cell: "@ + cell_type_name(t) + " (id: "@
}

/// The id in a heading line of the given cell type: the line is the prefix,
/// a non-empty id without line feeds, and `)`.
pub open spec fn header_id(line: Seq<char>, t: CellType) -> Option<Seq<char>> {
    let p = header_prefix(t);
    if starts_with(line, p) && line.len() >= p.len() + 2 && line.last() == ')' && !line.subrange(
        p.len() as int,
        line.len() - 1,
    ).contains('\n') {
        Some(line.subrange(p.len() as int, line.len() - 1))
    } else {
        None
    }
}

/// The cell type and id of a heading line that matches `CELL_HEADER_PATTERN`.
pub open spec fn header_fields(line: Seq<char>) -> Option<(CellType, Seq<char>)> {
    match header_id(line, CellType::Code) {
        Some(id) => Some((CellType::Code, id)),
        None => match header_id(line, CellType::Markdown) {
            Some(id) => Some((CellType::Markdown, id)),
            None => match header_id(line, CellType::Raw) {
                Some(id) => Some((CellType::Raw, id)),
                None => None,
            },
        },
    }
}

/// The capture groups the heading pattern yields on a line: the whole line,
/// the cell type's name and the id.
pub open spec fn header_captures(line: Seq<char>) -> Option<Seq<Option<Seq<char>>>> {
    match header_fields(line) {
        Some((t, id)) => Some(seq![Some(line), Some(cell_type_name(t)), Some(id)]),
        None => None,
    }
}

/// The views of a list of optional capture texts.
pub open spec fn captures_view(c: Option<Vec<Option<String>>>) -> Option<Seq<Option<Seq<char>>>> {
    match c {
        Some(v) => Some(
            v@.map_values(
                |o: Option<String>|
                    match o {
                        Some(s) => Some(s@),
                        None => None,
                    },
            ),
        ),
        None => None,
    }
}

/// What `Regex::new(pattern)` followed by `captures(haystack)` yields: the
/// text of each capture group, or nothing when the pattern does not compile
/// or does not match.
pub uninterp spec fn regex_captures_result(pattern: Seq<char>, haystack: Seq<char>) -> Option<
    Seq<Option<Seq<char>>>,
>;

/// The state of the scan over a cell's source lines: the scan's result
/// (text so far and lines consumed) once it stops at line `idx`.
pub open spec fn scan_source(
    lines: Seq<Seq<char>>,
    t: CellType,
    idx: int,
    found: bool,
    in_block: bool,
    source: Seq<char>,
    consumed: int,
) -> (Seq<char>, int)
    decreases lines.len() - idx,
{
    if idx < 0 || idx >= lines.len() {
        (source, consumed)
    } else {
        let line = lines[idx];
        let tr = trim(line);
        if tr == "### Source"@ {
            scan_source(lines, t, idx + 1, true, in_block, source, idx + 1)
        } else if !found {
            scan_source(lines, t, idx + 1, found, in_block, source, consumed)
        } else if t == CellType::Markdown {
            if starts_with(tr, "### "@) || tr == "---"@ {
                (source, consumed)
            } else {
                scan_source(lines, t, idx + 1, found, in_block, source + line + seq!['\n'], idx + 1)
            }
        } else if starts_with(tr, "```"@) {
            if in_block {
                (source, idx + 1)
            } else {
                scan_source(lines, t, idx + 1, found, true, source, idx + 1)
            }
        } else if in_block {
            scan_source(lines, t, idx + 1, found, in_block, source + line + seq!['\n'], idx + 1)
        } else if starts_with(tr, "### "@) || tr == "---"@ {
            (source, consumed)
        } else {
            scan_source(lines, t, idx + 1, found, in_block, source, consumed)
        }
    }
}

/// The text of a cell's source read from the lines after its heading, and
/// how many of those lines belong to the cell.
pub open spec fn cell_source_of(lines: Seq<Seq<char>>, t: CellType) -> (Seq<char>, int) {
    scan_source(lines, t, 0, false, false, Seq::empty(), 0)
}

/// The number of lines a scan consumes stays within the lines.
pub proof fn lemma_scan_source_bounds(
    lines: Seq<Seq<char>>,
    t: CellType,
    idx: int,
    found: bool,
    in_block: bool,
    source: Seq<char>,
    consumed: int,
)
    requires
        0 <= consumed <= idx <= lines.len(),
    ensures
        0 <= scan_source(lines, t, idx, found, in_block, source, consumed).1 <= lines.len(),
    decreases lines.len() - idx,
{
    if idx < lines.len() {
        let tr = trim(lines[idx]);
        if tr == "### Source"@ {
            lemma_scan_source_bounds(lines, t, idx + 1, true, in_block, source, idx + 1);
        } else if !found {
            lemma_scan_source_bounds(lines, t, idx + 1, found, in_block, source, consumed);
        } else if t == CellType::Markdown {
            if !(starts_with(tr, "### "@) || tr == "---"@) {
                lemma_scan_source_bounds(
                    lines,
                    t,
                    idx + 1,
                    found,
                    in_block,
                    source + lines[idx] + seq!['\n'],
                    idx + 1,
                );
            }
        } else if starts_with(tr, "```"@) {
            if !in_block {
                lemma_scan_source_bounds(lines, t, idx + 1, found, true, source, idx + 1);
            }
        } else if in_block {
            lemma_scan_source_bounds(
                lines,
                t,
                idx + 1,
                found,
                in_block,
                source + lines[idx] + seq!['\n'],
                idx + 1,
            );
        } else if !(starts_with(tr, "### "@) || tr == "---"@) {
            lemma_scan_source_bounds(lines, t, idx + 1, found, in_block, source, consumed);
        }
    }
}

/// A cell read back from the markdown text.
pub struct ParsedCell {
    pub cell_type: CellType,
    pub id: Seq<char>,
    pub source: Seq<char>,
}

/// What the parser has gathered so far.
pub struct ParseState {
    pub language: Option<Seq<char>>,
    pub kernel: Option<Seq<char>>,
    pub cells: Seq<ParsedCell>,
    pub warnings: Seq<Seq<char>>,
}

/// Nothing gathered yet.
pub open spec fn empty_parse_state() -> ParseState {
    ParseState { language: None, kernel: None, cells: Seq::empty(), warnings: Seq::empty() }
}

/// The effect of one line of the metadata block.
pub open spec fn meta_line_effect(m: Seq<char>, st: ParseState) -> ParseState {
    if starts_with(m, "- Language:"@) {
        ParseState { language: Some(trim(m.skip(11))), ..st }
    } else if starts_with(m, "- Kernel:"@) {
        ParseState { kernel: Some(trim(m.skip(9))), ..st }
    } else {
        st
    }
}

/// Reads metadata lines from `j` up to the next line starting with `---`;
/// yields the index of that line and the updated state.
pub open spec fn parse_meta(lines: Seq<Seq<char>>, j: int, st: ParseState) -> (int, ParseState)
    decreases lines.len() - j,
{
    if 0 <= j < lines.len() && !starts_with(trim(lines[j]), "---"@) {
        parse_meta(lines, j + 1, meta_line_effect(trim(lines[j]), st))
    } else {
        (j, st)
    }
}

/// The metadata block ends at or after where it starts, within the lines.
pub proof fn lemma_parse_meta_bounds(lines: Seq<Seq<char>>, j: int, st: ParseState)
    requires
        0 <= j <= lines.len(),
    ensures
        j <= parse_meta(lines, j, st).0 <= lines.len(),
    decreases lines.len() - j,
{
    if j < lines.len() && !starts_with(trim(lines[j]), "---"@) {
        lemma_parse_meta_bounds(lines, j + 1, meta_line_effect(trim(lines[j]), st));
    }
}

/// The warning recorded for a heading line that cannot be parsed.
pub open spec fn header_warning(line_number: nat) -> Seq<char> {
    "Could not parse cell header at line "@ + decimal(line_number)
}

/// Reads the lines from `i` on.
pub open spec fn parse_doc(lines: Seq<Seq<char>>, i: int, st: ParseState) -> ParseState
    decreases lines.len() - i,
{
    if i < 0 || i >= lines.len() {
        st
    } else {
        let tr = trim(lines[i]);
        if starts_with(tr, "## Metadata"@) {
            let r = parse_meta(lines, i + 1, st);
            proof {
                lemma_parse_meta_bounds(lines, i + 1, st);
            }
            parse_doc(lines, r.0, r.1)
        } else if starts_with(tr, "## Cell:"@) {
            match header_fields(tr) {
                Some((t, id)) => {
                    let sc = cell_source_of(lines.skip(i + 1), t);
                    proof {
                        lemma_scan_source_bounds(lines.skip(i + 1), t, 0, false, false, Seq::empty(), 0);
                    }
                    parse_doc(
                        lines,
                        i + 1 + sc.1,
                        ParseState {
                            cells: st.cells.push(ParsedCell { cell_type: t, id: id, source: sc.0 }),
                            ..st
                        },
                    )
                },
                None => parse_doc(
                    lines,
                    i + 1,
                    ParseState { warnings: st.warnings.push(header_warning((i + 1) as nat)), ..st },
                ),
            }
        } else {
            parse_doc(lines, i + 1, st)
        }
    }
}

/// Everything the parser gathers from a markdown text.
pub open spec fn parse_text(content: Seq<char>) -> ParseState {
    parse_doc(lines_of(content), 0, empty_parse_state())
}

/// A notebook cell built from a parsed cell.
pub open spec fn cell_is(c: Cell, pc: ParsedCell) -> bool {
    &&& c.id matches Some(s) && s@ == pc.id
    &&& c.cell_type == pc.cell_type
    &&& c.source matches CellSource::Single(x) && x@ == pc.source
    &&& c.metadata == empty_cell_metadata()
    &&& c.outputs is None
    &&& c.execution_count is None
    &&& c.attachments is None
}

/// The notebook's language and kernel are those gathered.
pub open spec fn metadata_is(md: NotebookMetadata, st: ParseState) -> bool {
    &&& match st.language {
        Some(l) => md.language_info matches Some(li) && li.name@ == l && li.file_extension is None
            && li.mimetype is None,
        None => md.language_info is None,
    }
    &&& match st.kernel {
        Some(k) => md.kernelspec matches Some(ks) && ks.name@ == k && ks.display_name@ == k,
        None => md.kernelspec is None,
    }
    &&& md.title is None
}

/// The notebook's cells are those gathered.
pub open spec fn cells_are(cells: Seq<Cell>, pcs: Seq<ParsedCell>) -> bool {
    &&& cells.len() == pcs.len()
    &&& forall|k: int| 0 <= k < cells.len() ==> cell_is(#[trigger] cells[k], pcs[k])
}

/// The notebook built from a finished parse.
pub open spec fn notebook_is(nb: Notebook, st: ParseState) -> bool {
    &&& nb.nbformat == 4
    &&& nb.nbformat_minor == 5
    &&& metadata_is(nb.metadata, st)
    &&& cells_are(nb.cells@, st.cells)
    &&& if st.warnings.len() > 0 {
        nb.metadata.warnings matches Some(w) && views(w@) == st.warnings
    } else {
        nb.metadata.warnings is None
    }
}

// ---------------------------------------------------------------------------
// Trusted items: regex
// ---------------------------------------------------------------------------

/// Calls `regex::Regex::new(pattern)` and then `Regex::captures(haystack)`,
/// returning the text of every capture group (`Captures::get`), group 0
/// first. The result is a function of the pattern and the haystack. For the
/// heading pattern the regex crate's documented syntax gives the groups
/// exactly: `^`/`$` anchor at the ends of the haystack, `.` matches any
/// character but `\n`, and the three names and the literal text leave one way
/// to split a matching line.
#[verifier::external_body]
fn regex_captures(pattern: &str, haystack: &str) -> (res: Option<Vec<Option<String>>>)
    ensures
        captures_view(res) == regex_captures_result(pattern@, haystack@),
        pattern@ == CELL_HEADER_PATTERN@ ==> captures_view(res) == header_captures(haystack@),
{
    let re = regex::Regex::new(pattern).ok()?;
    let caps = re.captures(haystack)?;
    Some((0..caps.len()).map(|i| caps.get(i).map(|m| m.as_str().to_string())).collect())
}

// ---------------------------------------------------------------------------
// Executable parsing
// ---------------------------------------------------------------------------

/// The cell type and id of a cell heading line.
pub fn parse_cell_header(line: &str) -> (res: Option<(CellType, Option<String>)>)
    ensures
        res is None <==> header_fields(line@) is None,
        res matches Some((t, id)) ==> (header_fields(line@) matches Some((t2, id2)) && t == t2
            && (id matches Some(s) && s@ == id2)),
{
    let caps = regex_captures(CELL_HEADER_PATTERN, line);
    proof {
        reveal_strlit("Code");
        reveal_strlit("Markdown");
        reveal_strlit("Raw");
    }
    let caps = match caps {
        Some(c) => c,
        None => {
            return None;
        },
    };
    proof {
        let cv = captures_view(Some(caps))->0;
        assert(cv.len() == caps@.len());
        if caps@.len() >= 3 {
            assert(cv[1] == (match caps@[1] {
                Some(s) => Some(s@),
                None => None,
            }));
            assert(cv[2] == (match caps@[2] {
                Some(s) => Some(s@),
                None => None,
            }));
        }
    }
    if caps.len() < 3 {
        return None;
    }
    let cell_type = match &caps[1] {
        Some(name) => {
            if str_eq(name.as_str(), "Code") {
                CellType::Code
            } else if str_eq(name.as_str(), "Markdown") {
                CellType::Markdown
            } else if str_eq(name.as_str(), "Raw") {
                CellType::Raw
            } else {
                return None;
            }
        },
        None => {
            return None;
        },
    };
    let id = match &caps[2] {
        Some(s) => s.clone(),
        None => {
            return None;
        },
    };
    Some((cell_type, Some(id)))
}

/// Reads a cell's source from the lines that follow its heading: the text
/// and the number of lines that belong to the cell.
pub fn parse_cell_source(lines: &[String], cell_type: CellType) -> (res: Result<
    (String, usize),
    EditError,
>)
    ensures
        res matches Ok((src, n)) && src@ == cell_source_of(views(lines@), cell_type).0 && n
            == cell_source_of(views(lines@), cell_type).1,
{
    let ghost ls = views(lines@);
    let p_source = chars_of("### Source");
    let p_h3 = chars_of("### ");
    let p_rule = chars_of("---");
    let p_fence = chars_of("```");
    let mut source = String::new();
    let mut consumed: usize = 0;
    let mut in_code_block = false;
    let mut found_source = false;
    let mut idx: usize = 0;
    while idx < lines.len()
        invariant
            ls == views(lines@),
            p_source@ == "### Source"@,
            p_h3@ == "### "@,
            p_rule@ == "---"@,
            p_fence@ == "```"@,
            consumed <= idx <= lines@.len(),
            cell_source_of(ls, cell_type) == scan_source(
                ls,
                cell_type,
                idx as int,
                found_source,
                in_code_block,
                source@,
                consumed as int,
            ),
        decreases lines@.len() - idx,
    {
        let line = &lines[idx];
        let cs = chars_of(line.as_str());
        let (lo, hi) = trim_bounds(&cs, 0, cs.len());
        proof {
            assert(cs@.subrange(0, cs@.len() as int) =~= cs@);
            assert(ls[idx as int] == line@);
        }
        if slice_equals(&cs, lo, hi, &p_source) {
            found_source = true;
            consumed = idx + 1;
            idx = idx + 1;
            continue;
        }
        if !found_source {
            idx = idx + 1;
            continue;
        }
        let ends = slice_starts_with(&cs, lo, hi, &p_h3) || slice_equals(&cs, lo, hi, &p_rule);
        if cell_type == CellType::Markdown {
            if ends {
                return Ok((source, consumed));
            }
            let ghost before = source@;
            push_str(&mut source, line.as_str());
            push_str(&mut source, "\n");
            proof {
                reveal_strlit("\n");
                assert(source@ =~= before + line@ + seq!['\n']);
            }
            consumed = idx + 1;
        } else {
            if slice_starts_with(&cs, lo, hi, &p_fence) {
                if in_code_block {
                    consumed = idx + 1;
                    return Ok((source, consumed));
                }
                in_code_block = true;
                consumed = idx + 1;
                idx = idx + 1;
                continue;
            }
            if in_code_block {
                let ghost before = source@;
                push_str(&mut source, line.as_str());
                push_str(&mut source, "\n");
                proof {
                    reveal_strlit("\n");
                    assert(source@ =~= before + line@ + seq!['\n']);
                }
                consumed = idx + 1;
            } else if ends {
                return Ok((source, consumed));
            }
        }
        idx = idx + 1;
    }
    Ok((source, consumed))
}

/// The parser's state matches the notebook and warnings built so far.
pub open spec fn state_is(nb: Notebook, w: Seq<String>, st: ParseState) -> bool {
    &&& nb.nbformat == 4
    &&& nb.nbformat_minor == 5
    &&& metadata_is(nb.metadata, st)
    &&& nb.metadata.warnings is None
    &&& cells_are(nb.cells@, st.cells)
    &&& views(w) == st.warnings
}

/// Reads the metadata lines from `start` up to the next line that starts
/// with `---`, recording language and kernel; returns the index of that line.
fn read_metadata(
    lines: &Vec<String>,
    start: usize,
    md: &mut NotebookMetadata,
    Ghost(st): Ghost<ParseState>,
) -> (j: usize)
    requires
        start <= lines@.len(),
        metadata_is(*old(md), st),
    ensures
        j as int == parse_meta(views(lines@), start as int, st).0,
        metadata_is(*final(md), parse_meta(views(lines@), start as int, st).1),
        final(md).warnings == old(md).warnings,
        parse_meta(views(lines@), start as int, st).1.cells == st.cells,
        parse_meta(views(lines@), start as int, st).1.warnings == st.warnings,
{
    let ghost ls = views(lines@);
    let p_rule = chars_of("---");
    let p_lang = chars_of("- Language:");
    let p_kernel = chars_of("- Kernel:");
    proof {
        reveal_strlit("- Language:");
        reveal_strlit("- Kernel:");
    }
    let ghost mut cur = st;
    let mut j = start;
    while j < lines.len()
        invariant
            ls == views(lines@),
            p_rule@ == "---"@,
            p_lang@ == "- Language:"@,
            p_kernel@ == "- Kernel:"@,
            p_lang@.len() == 11,
            p_kernel@.len() == 9,
            start <= j <= lines@.len(),
            parse_meta(ls, start as int, st) == parse_meta(ls, j as int, cur),
            metadata_is(*md, cur),
            md.warnings == old(md).warnings,
            cur.cells == st.cells,
            cur.warnings == st.warnings,
        decreases lines@.len() - j,
    {
        let cs = chars_of(lines[j].as_str());
        let (lo, hi) = trim_bounds(&cs, 0, cs.len());
        proof {
            assert(cs@.subrange(0, cs@.len() as int) =~= cs@);
            assert(ls[j as int] == lines@[j as int]@);
        }
        if slice_starts_with(&cs, lo, hi, &p_rule) {
            return j;
        }
        let ghost m = cs@.subrange(lo as int, hi as int);
        if slice_starts_with(&cs, lo, hi, &p_lang) {
            assert(p_lang@.len() == 11);
            let (a, b) = trim_bounds(&cs, lo + 11, hi);
            proof {
                assert(cs@.subrange(lo + 11, hi as int) =~= m.skip(11));
            }
            let name = string_of(&cs, a, b);
            md.language_info = Some(LanguageInfo { name, file_extension: None, mimetype: None });
            proof {
                cur = ParseState { language: Some(trim(m.skip(11))), ..cur };
            }
        } else if slice_starts_with(&cs, lo, hi, &p_kernel) {
            assert(p_kernel@.len() == 9);
            let (a, b) = trim_bounds(&cs, lo + 9, hi);
            proof {
                assert(cs@.subrange(lo + 9, hi as int) =~= m.skip(9));
            }
            let name = string_of(&cs, a, b);
            let display_name = string_of(&cs, a, b);
            md.kernelspec = Some(KernelSpec { name, display_name });
            proof {
                cur = ParseState { kernel: Some(trim(m.skip(9))), ..cur };
            }
        }
        j = j + 1;
    }
    j
}

/// Reads a notebook back from its LLM-friendly markdown text. Also returns
/// the warnings about heading lines that could not be parsed.
pub fn llm_format_to_notebook(content: &str) -> (res: Result<(Notebook, Vec<String>), EditError>)
    ensures
        res is Ok <==> parse_text(content@).cells.len() > 0,
        res matches Err(e) ==> e == EditError::NoValidCells,
        res matches Ok((nb, w)) ==> notebook_is(nb, parse_text(content@)) && views(w@)
            == parse_text(content@).warnings,
{
    let lines = split_lines(content);
    let ghost ls = views(lines@);
    let mut warnings: Vec<String> = Vec::new();
    let mut notebook = Notebook::new();
    let ghost mut st = empty_parse_state();
    let p_meta = chars_of("## Metadata");
    let p_cell = chars_of("## Cell:");
    let mut i: usize = 0;
    assert(views(warnings@) =~= Seq::<Seq<char>>::empty());
    while i < lines.len()
        invariant
            ls == views(lines@),
            ls == lines_of(content@),
            p_meta@ == "## Metadata"@,
            p_cell@ == "## Cell:"@,
            i <= lines@.len(),
            parse_text(content@) == parse_doc(ls, i as int, st),
            state_is(notebook, warnings@, st),
        decreases lines@.len() - i,
    {
        let cs = chars_of(lines[i].as_str());
        let (lo, hi) = trim_bounds(&cs, 0, cs.len());
        proof {
            assert(cs@.subrange(0, cs@.len() as int) =~= cs@);
            assert(ls[i as int] == lines@[i as int]@);
        }
        if slice_starts_with(&cs, lo, hi, &p_meta) {
            let j = read_metadata(&lines, i + 1, &mut notebook.metadata, Ghost(st));
            proof {
                lemma_parse_meta_bounds(ls, i + 1, st);
                st = parse_meta(ls, i + 1, st).1;
            }
            i = j;
        } else if slice_starts_with(&cs, lo, hi, &p_cell) {
            let tr = string_of(&cs, lo, hi);
            match parse_cell_header(tr.as_str()) {
                Some((t, id)) => {
                    let rest = vstd::slice::slice_subrange(lines.as_slice(), i + 1, lines.len());
                    proof {
                        assert(views(rest@) =~= ls.skip(i + 1));
                        lemma_scan_source_bounds(ls.skip(i + 1), t, 0, false, false, Seq::empty(), 0);
                    }
                    match parse_cell_source(rest, t) {
                        Ok((source, consumed)) => {
                            let ghost src = source@;
                            let mut cell = Cell::new(t, source);
                            cell.id = id;
                            let ghost pc = ParsedCell {
                                cell_type: t,
                                id: (header_fields(trim(ls[i as int]))->0).1,
                                source: src,
                            };
                            assert(cell_is(cell, pc));
                            notebook.cells.push(cell);
                            proof {
                                st = ParseState { cells: st.cells.push(pc), ..st };
                                assert(cells_are(notebook.cells@, st.cells));
                            }
                            i = i + 1 + consumed;
                        },
                        Err(e) => {
                            return Err(e);
                        },
                    }
                },
                None => {
                    let mut w = String::new();
                    push_str(&mut w, "Could not parse cell header at line ");
                    push_decimal(&mut w, (i + 1) as u64);
                    proof {
                        assert(views(warnings@.push(w)) =~= views(warnings@).push(w@));
                        st = ParseState { warnings: st.warnings.push(w@), ..st };
                    }
                    warnings.push(w);
                    i = i + 1;
                },
            }
        } else {
            i = i + 1;
        }
    }
    if notebook.cells.len() == 0 {
        return Err(EditError::NoValidCells);
    }
    if warnings.len() > 0 {
        notebook.metadata.warnings = Some(clone_strings(&warnings));
    }
    Ok((notebook, warnings))
}

} // verus!
