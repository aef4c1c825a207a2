//! Properties that relate the notebook operations to each other.
use vstd::prelude::*;

use crate::format::{
    member_index, truncated, cell_block, cells_text, data_summary, notebook_language, output_text, outputs_section, shown_id,
    single_cell_text,
};
use crate::notebook::{
    cell_type_tag, fresh_cell, source_text, Cell, CellSource, CellType, JsonMember, JsonValue,
    Notebook, Output,
};
use crate::roundtrip::lemma_trim_end_prefix;
use crate::text::{can_cut_bytes, decimal, is_ws, join, lines_of, trim_end, utf8_len};
use crate::tools::{
    cell_index, cell_type_of_tag, find_cell, has_id, insert_position, read_view, with_source,
};

verus! {

/// The renderings of the cells one by one, as `get_cell` shows them, each
/// followed by a blank line.
pub open spec fn single_cells_text(cells: Seq<Cell>, nb: Notebook) -> Seq<char>
    decreases cells.len(),
{
    if cells.len() == 0 {
        Seq::empty()
    } else {
        single_cells_text(cells.drop_last(), nb) + single_cell_text(cells.last(), nb) + "\n"@
    }
}

/// The rendering of a whole notebook shows every cell exactly as `get_cell`
/// shows it on its own, followed by a blank line, in the notebook's order.
pub proof fn law_notebook_rendering_is_cell_renderings(nb: Notebook, cells: Seq<Cell>)
    ensures
        cells_text(cells, notebook_language(nb)) == single_cells_text(cells, nb),
    decreases cells.len(),
{
    reveal_strlit("\n---\n\n");
    reveal_strlit("\n---\n");
    reveal_strlit("\n");
    if cells.len() > 0 {
        law_notebook_rendering_is_cell_renderings(nb, cells.drop_last());
        let b = cell_block(cells.last(), notebook_language(nb));
        assert(b + "\n---\n\n"@ =~= b + "\n---\n"@ + "\n"@);
        assert(cells_text(cells, notebook_language(nb)) =~= single_cells_text(cells, nb));
    }
}

/// The first cell carrying an id keeps being found at the same place when
/// a cell's source is replaced.
proof fn lemma_cell_index_with_source(cells: Seq<Cell>, k: int, content: String, id: Seq<char>, from: int)
    requires
        0 <= k < cells.len(),
        0 <= from,
    ensures
        cell_index(with_source(cells, k, content), id, from) == cell_index(cells, id, from),
    decreases cells.len() - from,
{
    if from < cells.len() {
        let c2 = with_source(cells, k, content);
        assert(has_id(c2[from], id) == has_id(cells[from], id));
        lemma_cell_index_with_source(cells, k, content, id, from + 1);
    }
}

/// After `update_cell` replaces the source of the cell with a given id,
/// looking that id up (as `get_cell` does) finds the same cell, now holding
/// the new source, with its type, id, metadata and outputs unchanged.
pub proof fn law_update_then_get(cells: Seq<Cell>, id: Seq<char>, content: String)
    requires
        find_cell(cells, id) is Some,
    ensures
        find_cell(with_source(cells, find_cell(cells, id)->0, content), id) == find_cell(cells, id),
        ({
            let k = find_cell(cells, id)->0;
            let c = with_source(cells, k, content)[k];
            &&& c.source == CellSource::Single(content)
            &&& c.id == cells[k].id
            &&& c.cell_type == cells[k].cell_type
            &&& c.metadata == cells[k].metadata
            &&& c.outputs == cells[k].outputs
        }),
{
    lemma_find_cell_range(cells, id, 0);
    lemma_cell_index_with_source(cells, find_cell(cells, id)->0, content, id, 0);
}

/// A found cell lies within the searched range and is the first one there
/// carrying the id.
pub proof fn lemma_find_cell_range(cells: Seq<Cell>, id: Seq<char>, from: int)
    ensures
        cell_index(cells, id, from) matches Some(k) ==> from <= k < cells.len() && has_id(
            cells[k],
            id,
        ) && forall|m: int| from <= m < k ==> !has_id(#[trigger] cells[m], id),
        cell_index(cells, id, from) is None ==> forall|m: int|
            0 <= from <= m < cells.len() ==> !has_id(#[trigger] cells[m], id),
    decreases cells.len() - from,
{
    if from >= 0 && from < cells.len() && !has_id(cells[from], id) {
        lemma_find_cell_range(cells, id, from + 1);
    }
}

/// The first cell at or after `from` that carries the id is the one at `k`.
proof fn lemma_cell_index_is(cells: Seq<Cell>, id: Seq<char>, from: int, k: int)
    requires
        0 <= from <= k < cells.len(),
        has_id(cells[k], id),
        forall|m: int| from <= m < k ==> !has_id(#[trigger] cells[m], id),
    ensures
        cell_index(cells, id, from) == Some(k),
    decreases k - from,
{
    if from < k {
        lemma_cell_index_is(cells, id, from + 1, k);
    }
}

/// When `add_cell` inserts a cell whose fresh id no cell before the
/// insertion point carries, looking that id up finds the new cell, and
/// `delete_cell` with that id gives back exactly the cells there were before.
pub proof fn law_delete_undoes_add(
    cells: Seq<Cell>,
    pos: int,
    t: CellType,
    content: String,
    new_id: String,
)
    requires
        0 <= pos <= cells.len(),
        forall|m: int| 0 <= m < pos ==> !has_id(#[trigger] cells[m], new_id@),
    ensures
        find_cell(cells.insert(pos, fresh_cell(t, content, new_id)), new_id@) == Some(pos),
        cells.insert(pos, fresh_cell(t, content, new_id)).remove(pos) == cells,
{
    let cells2 = cells.insert(pos, fresh_cell(t, content, new_id));
    assert forall|m: int| 0 <= m < pos implies !has_id(#[trigger] cells2[m], new_id@) by {
        assert(cells2[m] == cells[m]);
    }
    lemma_cell_index_is(cells2, new_id@, 0, pos);
    assert(cells2.remove(pos) =~= cells);
}

/// `add_cell` with an anchor puts the new cell right after the anchor,
/// which keeps its place.
pub proof fn law_add_after_anchor(cells: Seq<Cell>, anchor: Seq<char>, new_cell: Cell)
    requires
        find_cell(cells, anchor) is Some,
    ensures
        ({
            let k = find_cell(cells, anchor)->0;
            let cells2 = cells.insert(k + 1, new_cell);
            &&& cells2[k] == cells[k]
            &&& cells2[k + 1] == new_cell
            &&& find_cell(cells2, anchor) == Some(k)
        }),
{
    let k = find_cell(cells, anchor)->0;
    lemma_find_cell_range(cells, anchor, 0);
    let cells2 = cells.insert(k + 1, new_cell);
    assert forall|m: int| 0 <= m < k implies !has_id(#[trigger] cells2[m], anchor) by {
        assert(cells2[m] == cells[m]);
    }
    lemma_cell_index_is(cells2, anchor, 0, k);
}

/// A code cell is shown with its source fenced under the notebook's
/// language name (`python` when the notebook records none), followed by its
/// outputs and a rule.
pub proof fn law_code_fence_names_language(c: Cell, nb: Notebook)
    requires
        c.cell_type == CellType::Code,
    ensures
        single_cell_text(c, nb) == "## Cell: Code (id: "@ + shown_id(c.id) + ")\n\n### Source\n```"@
            + (match nb.metadata.language_info {
            Some(li) => li.name@,
            None => "python"@,
        }) + "\n"@ + source_text(c.source) + "\n```\n"@ + outputs_section(c.outputs) + "\n---\n"@,
{
    reveal_strlit("## Cell: Code (id: ");
    reveal_strlit(")\n\n### Source\n```");
    reveal_strlit("## Cell: ");
    reveal_strlit("Code");
    reveal_strlit(" (id: ");
    reveal_strlit(")\n\n");
    reveal_strlit("### Source\n");
    reveal_strlit("```");
    let l = match nb.metadata.language_info {
        Some(li) => li.name@,
        None => "python"@,
    };
    let id = shown_id(c.id);
    let tail = "\n"@ + source_text(c.source) + "\n```\n"@ + outputs_section(c.outputs) + "\n---\n"@;
    assert("## Cell: Code (id: "@ =~= "## Cell: "@ + "Code"@ + " (id: "@);
    assert(")\n\n### Source\n```"@ =~= ")\n\n"@ + "### Source\n"@ + "```"@);
    assert(single_cell_text(c, nb) =~= "## Cell: "@ + "Code"@ + " (id: "@ + id + ")\n\n"@
        + "### Source\n"@ + "```"@ + l + tail);
}

/// A raw cell is shown with its source fenced as `raw`, followed by its
/// outputs and a rule, whatever the notebook's language.
pub proof fn law_raw_fence(c: Cell, nb: Notebook)
    requires
        c.cell_type == CellType::Raw,
    ensures
        single_cell_text(c, nb) == "## Cell: Raw (id: "@ + shown_id(c.id)
            + ")\n\n### Source\n```raw\n"@ + source_text(c.source) + "\n```\n"@ + outputs_section(
            c.outputs,
        ) + "\n---\n"@,
{
    reveal_strlit("## Cell: Raw (id: ");
    reveal_strlit(")\n\n### Source\n```raw\n");
    reveal_strlit("## Cell: ");
    reveal_strlit("Raw");
    reveal_strlit("raw");
    reveal_strlit(" (id: ");
    reveal_strlit(")\n\n");
    reveal_strlit("### Source\n");
    reveal_strlit("```");
    reveal_strlit("\n");
    let id = shown_id(c.id);
    let tail = source_text(c.source) + "\n```\n"@ + outputs_section(c.outputs) + "\n---\n"@;
    assert("## Cell: Raw (id: "@ =~= "## Cell: "@ + "Raw"@ + " (id: "@);
    assert(")\n\n### Source\n```raw\n"@ =~= ")\n\n"@ + "### Source\n"@ + "```"@ + "raw"@ + "\n"@);
    assert(single_cell_text(c, nb) =~= "## Cell: "@ + "Raw"@ + " (id: "@ + id + ")\n\n"@
        + "### Source\n"@ + "```"@ + "raw"@ + "\n"@ + tail);
}

/// When a data bundle's first `text/plain` member is a string, the summary is
/// that string, cut to its first 100 bytes with `...` appended when it is
/// longer, whatever other members (HTML, images) the bundle holds.
pub proof fn law_plain_text_summary(ms: Vec<JsonMember>, i: int, s: String)
    requires
        0 <= i < ms@.len(),
        ms@[i].key@ == "text/plain"@,
        ms@[i].value == JsonValue::String(s),
        forall|j: int| 0 <= j < i ==> (#[trigger] ms@[j]).key@ != "text/plain"@,
        can_cut_bytes(s@, 100),
    ensures
        utf8_len(s@) <= 100 ==> data_summary(JsonValue::Object(ms)) == s@,
        utf8_len(s@) > 100 ==> exists|k: int|
            0 <= k <= s@.len() && utf8_len(#[trigger] s@.take(k)) == 100 && data_summary(
                JsonValue::Object(ms),
            ) == s@.take(k) + "..."@,
{
    lemma_member_index_first(ms@, "text/plain"@, 0, i);
    if utf8_len(s@) > 100 {
        let k = choose|k: int| 0 <= k <= s@.len() && #[trigger] utf8_len(s@.take(k)) == 100;
        assert(data_summary(JsonValue::Object(ms)) == s@.take(k) + "..."@);
    }
}

/// Each cell type's lower-case name parses back to that type, and only those
/// names parse: `code`, `markdown` and `raw` give Code, Markdown and Raw.
pub proof fn law_cell_type_tags(t: CellType, s: Seq<char>)
    ensures
        cell_type_of_tag(cell_type_tag(t)) == Some(t),
        cell_type_of_tag(s) matches Some(u) ==> s == cell_type_tag(u),
        cell_type_of_tag("code"@) == Some(CellType::Code),
        cell_type_of_tag("markdown"@) == Some(CellType::Markdown),
        cell_type_of_tag("raw"@) == Some(CellType::Raw),
{
    reveal_strlit("code");
    reveal_strlit("markdown");
    reveal_strlit("raw");
    assert("code"@ != "markdown"@) by {
        assert("code"@.len() != "markdown"@.len());
    }
    assert("code"@ != "raw"@) by {
        assert("code"@.len() != "raw"@.len());
    }
    assert("markdown"@ != "raw"@) by {
        assert("markdown"@.len() != "raw"@.len());
    }
}

/// With no anchor id, a 0-based index `k` of an existing cell puts the new
/// cell right after the cell at `k` (also when that is the last cell): the
/// cells up to `k` keep their places and the rest move one place on. An
/// index past the last cell is refused, and with no index the cell is
/// appended.
pub proof fn law_add_after_index(cells: Seq<Cell>, k: usize, new_cell: Cell)
    ensures
        k < cells.len() ==> insert_position(cells, None, Some(k)) is Some && ({
            let r = cells.insert(insert_position(cells, None, Some(k))->0, new_cell);
            &&& r.len() == cells.len() + 1
            &&& r[k + 1] == new_cell
            &&& forall|j: int| 0 <= j <= k ==> r[j] == cells[j]
            &&& forall|j: int| k < j < cells.len() ==> #[trigger] r[j + 1] == cells[j]
        }),
        k >= cells.len() ==> insert_position(cells, None, Some(k)) is None,
        insert_position(cells, None, None) == Some(cells.len() as int),
        cells.insert(cells.len() as int, new_cell) == cells.push(new_cell),
{
    assert(cells.insert(cells.len() as int, new_cell) =~= cells.push(new_cell));
}

/// An anchor id takes precedence over an index: the new cell goes right
/// after the first cell carrying the id, and a missing anchor is refused.
pub proof fn law_anchor_before_index(cells: Seq<Cell>, a: String, index: Option<usize>)
    ensures
        find_cell(cells, a@) matches Some(k) ==> insert_position(cells, Some(a), index) == Some(
            k + 1,
        ),
        find_cell(cells, a@) is None ==> insert_position(cells, Some(a), index) is None,
{
}

/// What a read shows: the whole text without offset and limit; otherwise,
/// of the text's lines, `limit` lines from `offset` (fewer where the text
/// ends, none past its end), joined by line feeds.
pub proof fn law_read_window(t: Seq<char>, o: usize, k: usize)
    ensures
        read_view(t, None, None) == t,
        o + k <= lines_of(t).len() ==> read_view(t, Some(o), Some(k)) == join(
            lines_of(t).subrange(o as int, o + k),
            "\n"@,
        ),
        o <= lines_of(t).len() < o + k ==> read_view(t, Some(o), Some(k)) == join(
            lines_of(t).skip(o as int),
            "\n"@,
        ),
        o <= lines_of(t).len() ==> read_view(t, Some(o), None) == join(
            lines_of(t).skip(o as int),
            "\n"@,
        ),
        o > lines_of(t).len() ==> read_view(t, Some(o), Some(k)) == Seq::<char>::empty()
            && read_view(t, Some(o), None) == Seq::<char>::empty(),
        k <= lines_of(t).len() ==> read_view(t, None, Some(k)) == join(
            lines_of(t).take(k as int),
            "\n"@,
        ),
{
    let ls = lines_of(t);
    assert(ls.skip(o as int) =~= ls.subrange(o as int, ls.len() as int));
    assert(ls.take(k as int) =~= ls.subrange(0, k as int));
    assert(ls.subrange(ls.len() as int, ls.len() as int) =~= Seq::<Seq<char>>::empty());
}

/// The text shown for a stream output is the stream's text with only its
/// trailing white space removed: a prefix of the text that ends in a
/// non-space character (or is empty), past which only white space follows.
pub proof fn law_stream_keeps_leading_space(name: String, text: CellSource)
    ensures
        exists|m: int|
            #![trigger source_text(text).take(m)]
            0 <= m <= source_text(text).len() && output_text(Output::Stream { name, text })
                == "- Stream ("@ + name@ + "): "@ + source_text(text).take(m) && (m == 0 || !is_ws(
                source_text(text)[m - 1],
            )) && forall|j: int| m <= j < source_text(text).len() ==> is_ws(source_text(text)[j]),
{
    let t = source_text(text);
    lemma_trim_end_prefix(t);
    lemma_trim_end_last(t);
    let m = trim_end(t).len() as int;
    assert(t.take(m) == trim_end(t));
    if m > 0 {
        assert(t[m - 1] == trim_end(t).last());
    }
    assert forall|j: int| m <= j < t.len() implies is_ws(t[j]) by {
        if !is_ws(t[j]) {
            assert(j < trim_end(t).len());
        }
    }
}

/// Trimming the end leaves nothing or a text that ends in a non-space character.
proof fn lemma_trim_end_last(s: Seq<char>)
    ensures
        trim_end(s).len() == 0 || !is_ws(trim_end(s).last()),
    decreases s.len(),
{
    if s.len() > 0 && is_ws(s.last()) {
        lemma_trim_end_last(s.drop_last());
    }
}

/// A markdown cell is shown with its text as it is, ending in exactly the
/// line feed it had or one added, followed by its outputs and a rule.
pub proof fn law_markdown_cell(c: Cell, nb: Notebook)
    requires
        c.cell_type == CellType::Markdown,
    ensures
        single_cell_text(c, nb) == "## Cell: Markdown (id: "@ + shown_id(c.id)
            + ")\n\n### Source\n"@ + source_text(c.source) + (if source_text(c.source).len() > 0
            && source_text(c.source).last() == '\n' {
            Seq::<char>::empty()
        } else {
            "\n"@
        }) + outputs_section(c.outputs) + "\n---\n"@,
{
    reveal_strlit("## Cell: Markdown (id: ");
    reveal_strlit(")\n\n### Source\n");
    reveal_strlit("## Cell: ");
    reveal_strlit("Markdown");
    reveal_strlit(" (id: ");
    reveal_strlit(")\n\n");
    reveal_strlit("### Source\n");
    let id = shown_id(c.id);
    let t = source_text(c.source);
    let tail = outputs_section(c.outputs) + "\n---\n"@;
    assert("## Cell: Markdown (id: "@ =~= "## Cell: "@ + "Markdown"@ + " (id: "@);
    assert(")\n\n### Source\n"@ =~= ")\n\n"@ + "### Source\n"@);
    if t.len() > 0 && t.last() == '\n' {
        assert(single_cell_text(c, nb) =~= "## Cell: "@ + "Markdown"@ + " (id: "@ + id + ")\n\n"@
            + "### Source\n"@ + t + Seq::<char>::empty() + tail);
    } else {
        assert(single_cell_text(c, nb) =~= "## Cell: "@ + "Markdown"@ + " (id: "@ + id + ")\n\n"@
            + "### Source\n"@ + t + "\n"@ + tail);
    }
}

/// Cutting a text at a byte count: a text of at most that many bytes is
/// kept whole; a longer one becomes its characters making up exactly that
/// many bytes, followed by `...`.
pub proof fn law_truncated(s: Seq<char>, n: nat)
    requires
        can_cut_bytes(s, n),
    ensures
        utf8_len(s) <= n ==> truncated(s, n) == s,
        utf8_len(s) > n ==> exists|k: int|
            0 <= k < s.len() && utf8_len(#[trigger] s.take(k)) == n && truncated(s, n) == s.take(k)
                + "..."@,
{
    if utf8_len(s) > n {
        let k = choose|k: int| 0 <= k <= s.len() && #[trigger] utf8_len(s.take(k)) == n;
        assert(s.take(s.len() as int) =~= s);
        assert(k != s.len());
    }
}

/// When a data bundle has no `text/plain` member and its first `text/html`
/// member is a string (of a length a machine can hold), the summary gives
/// that string's length in bytes, whatever image members it holds.
pub proof fn law_html_summary(ms: Vec<JsonMember>, i: int, h: String)
    requires
        0 <= i < ms@.len(),
        ms@[i].key@ == "text/html"@,
        ms@[i].value == JsonValue::String(h),
        forall|j: int| 0 <= j < i ==> (#[trigger] ms@[j]).key@ != "text/html"@,
        forall|j: int| 0 <= j < ms@.len() ==> (#[trigger] ms@[j]).key@ != "text/plain"@,
        utf8_len(h@) <= usize::MAX,
    ensures
        data_summary(JsonValue::Object(ms)) == "<html: "@ + decimal(utf8_len(h@)) + " chars>"@,
{
    lemma_member_index_first(ms@, "text/html"@, 0, i);
    lemma_member_index_none(ms@, "text/plain"@, 0);
}

/// A data bundle with neither a `text/plain` nor a `text/html` member is
/// summarised as image data when it has a PNG or JPEG member, else as data;
/// anything but an object is data.
pub proof fn law_other_summaries(data: JsonValue)
    ensures
        data matches JsonValue::Object(ms) ==> (forall|j: int|
            0 <= j < ms@.len() ==> (#[trigger] ms@[j]).key@ != "text/plain"@ && ms@[j].key@
                != "text/html"@) ==> data_summary(data) == if exists|j: int|
            0 <= j < ms@.len() && ((#[trigger] ms@[j]).key@ == "image/png"@ || ms@[j].key@
                == "image/jpeg"@) {
            "<image data>"@
        } else {
            "<data>"@
        },
        !(data is Object) ==> data_summary(data) == "<data>"@,
{
    match data {
        JsonValue::Object(ms) => {
            if forall|j: int|
                0 <= j < ms@.len() ==> (#[trigger] ms@[j]).key@ != "text/plain"@ && ms@[j].key@
                    != "text/html"@ {
                lemma_member_index_none(ms@, "text/plain"@, 0);
                lemma_member_index_none(ms@, "text/html"@, 0);
                lemma_member_index_some(ms@, "image/png"@, 0);
                lemma_member_index_some(ms@, "image/jpeg"@, 0);
            }
        },
        _ => {},
    }
}

/// No member from `from` on has the key: none is found.
proof fn lemma_member_index_none(ms: Seq<JsonMember>, key: Seq<char>, from: int)
    requires
        0 <= from,
        forall|j: int| from <= j < ms.len() ==> (#[trigger] ms[j]).key@ != key,
    ensures
        member_index(ms, key, from) is None,
    decreases ms.len() - from,
{
    if from < ms.len() {
        lemma_member_index_none(ms, key, from + 1);
    }
}

/// A member is found from `from` on exactly when one from there has the key.
proof fn lemma_member_index_some(ms: Seq<JsonMember>, key: Seq<char>, from: int)
    requires
        0 <= from,
    ensures
        member_index(ms, key, from) is Some <==> exists|j: int|
            from <= j < ms.len() && (#[trigger] ms[j]).key@ == key,
    decreases ms.len() - from,
{
    if from < ms.len() {
        lemma_member_index_some(ms, key, from + 1);
        if ms[from].key@ != key {
            if exists|j: int| from <= j < ms.len() && (#[trigger] ms[j]).key@ == key {
                let j = choose|j: int| from <= j < ms.len() && (#[trigger] ms[j]).key@ == key;
                assert(j != from);
            }
        }
    }
}

/// The first member at or after `from` with the key is the one at `i`.
proof fn lemma_member_index_first(ms: Seq<JsonMember>, key: Seq<char>, from: int, i: int)
    requires
        0 <= from <= i < ms.len(),
        ms[i].key@ == key,
        forall|j: int| 0 <= j < i ==> (#[trigger] ms[j]).key@ != key,
    ensures
        member_index(ms, key, from) == Some(i),
    decreases i - from,
{
    if from < i {
        lemma_member_index_first(ms, key, from + 1, i);
    }
}

} // verus!
