//! Reading the markdown rendering of a notebook back: the parser recovers
//! every cell's type, id and (line-normalised) source, and the notebook's
//! language and kernel.
use vstd::prelude::*;

use crate::format::{
    meta_line_effect, cell_source_of, header_fields, header_id, header_prefix, parse_doc, parse_meta, scan_source,
    ParseState, ParsedCell,
    cell_block, cell_heading, cells_text, fence_language, metadata_text, notebook_text,
    outputs_list_text, outputs_section, shown_id, source_section, format_line, language_line,
    kernel_line, warnings_line,
};
use crate::format::{empty_parse_state, notebook_language, parse_text};
use crate::notebook::{cell_type_name, source_text, Cell, CellType, Notebook, Output};
use crate::text::{decimal, digit_char, join, views,
    find_char_from, is_ws, lemma_find_char_from_range, lines_of, starts_with, strip_cr, trim,
    trim_end, trim_start,
};

verus! {

// ---------------------------------------------------------------------------
// Lines of concatenated texts
// ---------------------------------------------------------------------------

/// The text is empty or ends with a line feed.
pub open spec fn ends_line(a: Seq<char>) -> bool {
    a.len() == 0 || a.last() == '\n'
}

/// Splitting a text that ends with a line feed, followed by more text, into
/// lines gives the lines of each part.
pub proof fn lemma_lines_append(a: Seq<char>, b: Seq<char>)
    requires
        ends_line(a),
    ensures
        lines_of(a + b) == lines_of(a) + lines_of(b),
    decreases a.len(),
{
    if a.len() == 0 {
        assert(a + b =~= b);
        assert(lines_of(a) =~= Seq::<Seq<char>>::empty());
        assert(lines_of(a) + lines_of(b) =~= lines_of(b));
    } else {
        let ab = a + b;
        lemma_find_char_from_range(a, '\n', 0);
        lemma_find_char_from_range(ab, '\n', 0);
        assert(ab[a.len() - 1] == '\n');
        let k = find_char_from(a, '\n', 0)->0;
        if find_char_from(ab, '\n', 0) is None {
            assert(false);
        }
        let k2 = find_char_from(ab, '\n', 0)->0;
        if k2 < k {
            assert(ab[k2] == a[k2]);
        }
        if k < k2 {
            assert(ab[k] == a[k]);
        }
        assert(k == k2);
        assert(ab.take(k) =~= a.take(k));
        assert(ab.skip(k + 1) =~= a.skip(k + 1) + b);
        let rest = a.skip(k + 1);
        if rest.len() > 0 {
            assert(rest.last() == a.last());
        }
        lemma_lines_append(rest, b);
        assert(lines_of(ab) =~= lines_of(a) + lines_of(b));
    }
}

/// A single line ended by a line feed.
pub proof fn lemma_lines_single(x: Seq<char>)
    requires
        !x.contains('\n'),
    ensures
        lines_of(x.push('\n')) == seq![strip_cr(x)],
{
    let s = x.push('\n');
    lemma_find_char_from_range(s, '\n', 0);
    assert(s[x.len() as int] == '\n');
    let k = find_char_from(s, '\n', 0)->0;
    if k < x.len() {
        assert(s[k] == x[k]);
        assert(x.contains(x[k]));
    }
    assert(k == x.len());
    assert(s.take(k) =~= x);
    assert(s.skip(k + 1).len() == 0);
    assert(lines_of(s.skip(k + 1)) =~= Seq::<Seq<char>>::empty());
    assert(lines_of(s) =~= seq![strip_cr(x)]);
}

// ---------------------------------------------------------------------------
// Trimming
// ---------------------------------------------------------------------------

/// Trimming the end keeps a prefix that reaches past every non-space character.
pub proof fn lemma_trim_end_prefix(s: Seq<char>)
    ensures
        trim_end(s).len() <= s.len(),
        trim_end(s) == s.take(trim_end(s).len() as int),
        forall|k: int| 0 <= k < s.len() && !is_ws(#[trigger] s[k]) ==> k < trim_end(s).len(),
    decreases s.len(),
{
    if s.len() > 0 && is_ws(s.last()) {
        lemma_trim_end_prefix(s.drop_last());
        let t = trim_end(s.drop_last());
        assert(s.drop_last().take(t.len() as int) =~= s.take(t.len() as int));
        assert forall|k: int| 0 <= k < s.len() && !is_ws(#[trigger] s[k]) implies k < trim_end(
            s,
        ).len() by {
            assert(k < s.len() - 1);
            assert(s.drop_last()[k] == s[k]);
        }
    } else {
        assert(s.take(s.len() as int) =~= s);
    }
}

/// Trimming a text that starts and ends with a non-space character changes nothing.
pub proof fn lemma_trim_solid(s: Seq<char>)
    requires
        s.len() > 0,
        !is_ws(s[0]),
        !is_ws(s.last()),
    ensures
        trim(s) == s,
{
    assert(trim_start(s) == s);
}

/// A line that starts with a prefix beginning and ending with non-space
/// characters still starts with it once trimmed.
pub proof fn lemma_trim_keeps_prefix(l: Seq<char>, q: Seq<char>)
    requires
        starts_with(l, q),
        q.len() > 0,
        !is_ws(q[0]),
        !is_ws(q.last()),
    ensures
        starts_with(trim(l), q),
        trim(l) == trim_end(l),
{
    assert(l[0] == q[0]);
    assert(trim_start(l) == l);
    lemma_trim_end_prefix(l);
    assert(l[q.len() - 1] == q.last());
    let t = trim_end(l);
    assert(t.take(q.len() as int) =~= q);
}

/// Trimming the end of a text behind a part that ends with a non-space
/// character trims only the text behind it.
pub proof fn lemma_trim_end_append(a: Seq<char>, b: Seq<char>)
    requires
        a.len() > 0,
        !is_ws(a.last()),
    ensures
        trim_end(a + b) == a + trim_end(b),
    decreases b.len(),
{
    if b.len() > 0 && is_ws(b.last()) {
        assert((a + b).drop_last() =~= a + b.drop_last());
        lemma_trim_end_append(a, b.drop_last());
    } else if b.len() > 0 {
        assert((a + b).last() == b.last());
    } else {
        assert(a + b =~= a);
    }
}

/// Trimming removes a leading space.
pub proof fn lemma_trim_leading_space(x: Seq<char>)
    ensures
        trim(seq![' '] + x) == trim(x),
{
    assert((seq![' '] + x).drop_first() =~= x);
    assert(is_ws(' '));
}

// ---------------------------------------------------------------------------
// The lines of a rendering
// ---------------------------------------------------------------------------

/// A line feed.
pub open spec fn nl() -> Seq<char> {
    seq!['\n']
}

/// One line followed by a line feed: its lines are the line itself.
pub proof fn lemma_lines_line(x: Seq<char>)
    requires
        !x.contains('\n'),
    ensures
        lines_of(x + nl()) == seq![strip_cr(x)],
{
    assert(x + nl() =~= x.push('\n'));
    lemma_lines_single(x);
}

/// A line followed by a line feed, then more text.
pub proof fn lemma_lines_line_then(x: Seq<char>, rest: Seq<char>)
    requires
        !x.contains('\n'),
    ensures
        lines_of(x + nl() + rest) == seq![strip_cr(x)] + lines_of(rest),
{
    lemma_lines_line(x);
    assert((x + nl()).last() == '\n');
    lemma_lines_append(x + nl(), rest);
}

/// The heading line of a cell's block, without its line feeds.
pub open spec fn heading_line(t: CellType, id: Seq<char>) -> Seq<char> {
    "## Cell: "@ + cell_type_name(t) + " (id: "@ + id + ")"@
}

/// The lines of a cell's source section.
pub open spec fn source_lines(t: CellType, text: Seq<char>, lang: Option<Seq<char>>) -> Seq<
    Seq<char>,
> {
    if t == CellType::Markdown {
        lines_of(source_section(t, text, lang))
    } else {
        seq![strip_cr("```"@ + fence_language(t, lang))] + lines_of(text + nl()) + seq!["```"@]
    }
}

/// The lines of a cell's outputs section.
pub open spec fn output_lines(os: Seq<Output>) -> Seq<Seq<char>> {
    if os.len() > 0 {
        seq![Seq::<char>::empty(), "### Outputs"@] + lines_of(outputs_list_text(os))
    } else {
        Seq::empty()
    }
}

/// The outputs of a cell, none when it has none.
pub open spec fn cell_outputs(c: Cell) -> Seq<Output> {
    match c.outputs {
        Some(os) => os@,
        None => Seq::empty(),
    }
}

/// The lines of a cell's block and the separator after it.
pub open spec fn block_lines(c: Cell, lang: Option<Seq<char>>) -> Seq<Seq<char>> {
    seq![heading_line(c.cell_type, shown_id(c.id)), Seq::<char>::empty(), "### Source"@]
        + source_lines(c.cell_type, source_text(c.source), lang) + output_lines(cell_outputs(c))
        + seq![Seq::<char>::empty(), "---"@, Seq::<char>::empty()]
}

/// The rendered output list ends with a line feed.
proof fn lemma_outputs_list_ends_line(os: Seq<Output>)
    ensures
        ends_line(outputs_list_text(os)),
{
    reveal_strlit("\n");
    if os.len() > 0 {
        let t = outputs_list_text(os);
        assert(t.last() == '\n');
    }
}

/// The names of the cell types hold no line feed.
proof fn lemma_cell_type_name_one_line(t: CellType)
    ensures
        !cell_type_name(t).contains('\n'),
{
    reveal_strlit("Code");
    reveal_strlit("Markdown");
    reveal_strlit("Raw");
}

/// Concatenations without line feeds hold no line feed.
proof fn lemma_no_nl_add(a: Seq<char>, b: Seq<char>)
    requires
        !a.contains('\n'),
        !b.contains('\n'),
    ensures
        !(a + b).contains('\n'),
{
    if (a + b).contains('\n') {
        let i = choose|i: int| 0 <= i < (a + b).len() && (a + b)[i] == '\n';
        if i < a.len() {
            assert(a[i] == '\n');
            assert(a.contains('\n'));
        } else {
            assert(b[i - a.len()] == '\n');
            assert(b.contains('\n'));
        }
    }
}

/// The lines of the separator after a cell's block.
proof fn lemma_sep_lines()
    ensures
        lines_of("\n---\n\n"@) == seq![Seq::<char>::empty(), "---"@, Seq::<char>::empty()],
{
    reveal_strlit("\n---\n\n");
    reveal_strlit("---");
    let e = Seq::<char>::empty();
    let sep = "\n---\n\n"@;
    assert(sep =~= e + nl() + ("---"@ + nl() + (e + nl() + e)));
    lemma_lines_line_then(e, "---"@ + nl() + (e + nl() + e));
    lemma_lines_line_then("---"@, e + nl() + e);
    lemma_lines_line_then(e, e);
    assert(lines_of(e) =~= Seq::<Seq<char>>::empty());
    assert(strip_cr(e) =~= e);
    assert(strip_cr("---"@) =~= "---"@);
    assert(lines_of(sep) =~= seq![e, "---"@, e]);
}

/// The lines of a cell's outputs section followed by the separator.
proof fn lemma_outputs_sep_lines(c: Cell)
    ensures
        lines_of(outputs_section(c.outputs) + "\n---\n\n"@) == output_lines(cell_outputs(c)) + seq![
            Seq::<char>::empty(),
            "---"@,
            Seq::<char>::empty(),
        ],
{
    reveal_strlit("\n### Outputs\n");
    reveal_strlit("### Outputs");
    lemma_sep_lines();
    let e = Seq::<char>::empty();
    let sep = "\n---\n\n"@;
    let os = cell_outputs(c);
    let outs = outputs_section(c.outputs);
    if os.len() > 0 {
        lemma_outputs_list_ends_line(os);
        let lt = outputs_list_text(os);
        assert(outs + sep =~= e + nl() + ("### Outputs"@ + nl() + (lt + sep)));
        lemma_lines_append(lt, sep);
        lemma_lines_line_then("### Outputs"@, lt + sep);
        lemma_lines_line_then(e, "### Outputs"@ + nl() + (lt + sep));
        assert(strip_cr(e) =~= e);
        assert(strip_cr("### Outputs"@) =~= "### Outputs"@);
        assert(lines_of(outs + sep) =~= output_lines(os) + seq![e, "---"@, e]);
    } else {
        assert(outs =~= e);
        assert(outs + sep =~= sep);
        assert(output_lines(os) + seq![e, "---"@, e] =~= seq![e, "---"@, e]);
    }
}

/// The lines of a cell's source section followed by more text.
proof fn lemma_source_lines_then(t: CellType, text: Seq<char>, lang: Option<Seq<char>>, rest: Seq<char>)
    requires
        !fence_language(t, lang).contains('\n'),
    ensures
        lines_of(source_section(t, text, lang) + rest) == source_lines(t, text, lang) + lines_of(rest),
{
    reveal_strlit("```");
    reveal_strlit("\n```\n");
    reveal_strlit("\n");
    let sec = source_section(t, text, lang);
    if t == CellType::Markdown {
        assert(ends_line(sec)) by {
            if !(text.len() > 0 && text.last() == '\n') {
                assert(sec =~= text + "\n"@);
            }
        }
        lemma_lines_append(sec, rest);
    } else {
        let fl = fence_language(t, lang);
        assert(sec + rest =~= "```"@ + fl + nl() + ((text + nl()) + ("```"@ + nl() + rest)));
        lemma_no_nl_add("```"@, fl);
        lemma_lines_line_then("```"@ + fl, (text + nl()) + ("```"@ + nl() + rest));
        assert((text + nl()).last() == '\n');
        lemma_lines_append(text + nl(), "```"@ + nl() + rest);
        lemma_lines_line_then("```"@, rest);
        assert(strip_cr("```"@) =~= "```"@);
        assert(lines_of(sec + rest) =~= source_lines(t, text, lang) + lines_of(rest));
    }
}

/// The heading line of a cell's block is one line.
proof fn lemma_heading_one_line(t: CellType, id: Seq<char>)
    requires
        !id.contains('\n'),
    ensures
        !heading_line(t, id).contains('\n'),
        strip_cr(heading_line(t, id)) == heading_line(t, id),
        cell_heading(t, id) == heading_line(t, id) + nl() + nl(),
{
    reveal_strlit("## Cell: ");
    reveal_strlit(" (id: ");
    reveal_strlit(")");
    reveal_strlit(")\n\n");
    lemma_cell_type_name_one_line(t);
    lemma_no_nl_add("## Cell: "@, cell_type_name(t));
    lemma_no_nl_add("## Cell: "@ + cell_type_name(t), " (id: "@);
    lemma_no_nl_add("## Cell: "@ + cell_type_name(t) + " (id: "@, id);
    lemma_no_nl_add("## Cell: "@ + cell_type_name(t) + " (id: "@ + id, ")"@);
    assert(cell_heading(t, id) =~= heading_line(t, id) + nl() + nl());
}

/// The lines of a cell's block, for a block whose id and fence language are
/// single lines.
pub proof fn lemma_block_lines(c: Cell, lang: Option<Seq<char>>)
    requires
        !shown_id(c.id).contains('\n'),
        !fence_language(c.cell_type, lang).contains('\n'),
    ensures
        lines_of(cell_block(c, lang) + "\n---\n\n"@) == block_lines(c, lang),
{
    reveal_strlit("### Source\n");
    reveal_strlit("### Source");
    let t = c.cell_type;
    let id = shown_id(c.id);
    let text = source_text(c.source);
    let h = heading_line(t, id);
    let sec = source_section(t, text, lang);
    let rest = outputs_section(c.outputs) + "\n---\n\n"@;
    let e = Seq::<char>::empty();
    lemma_outputs_sep_lines(c);
    lemma_source_lines_then(t, text, lang, rest);
    lemma_heading_one_line(t, id);
    assert(cell_block(c, lang) + "\n---\n\n"@ =~= h + nl() + (e + nl() + ("### Source"@ + nl() + (sec
        + rest))));
    lemma_lines_line_then("### Source"@, sec + rest);
    lemma_lines_line_then(e, "### Source"@ + nl() + (sec + rest));
    lemma_lines_line_then(h, e + nl() + ("### Source"@ + nl() + (sec + rest)));
    assert(strip_cr("### Source"@) =~= "### Source"@);
    assert(strip_cr(e) =~= e);
    assert(lines_of(cell_block(c, lang) + "\n---\n\n"@) =~= block_lines(c, lang));
}

/// The lines of the cells' blocks, one block after another.
pub open spec fn all_block_lines(cells: Seq<Cell>, lang: Option<Seq<char>>) -> Seq<Seq<char>>
    decreases cells.len(),
{
    if cells.len() == 0 {
        Seq::empty()
    } else {
        all_block_lines(cells.drop_last(), lang) + block_lines(cells.last(), lang)
    }
}

/// Every cell shows a single-line id and fence language.
pub open spec fn cells_one_line(cells: Seq<Cell>, lang: Option<Seq<char>>) -> bool {
    forall|k: int|
        0 <= k < cells.len() ==> !shown_id(#[trigger] cells[k].id).contains('\n')
            && !fence_language(cells[k].cell_type, lang).contains('\n')
}

/// The lines of the cells' rendering are the lines of their blocks.
pub proof fn lemma_cells_lines(cells: Seq<Cell>, lang: Option<Seq<char>>)
    requires
        cells_one_line(cells, lang),
    ensures
        lines_of(cells_text(cells, lang)) == all_block_lines(cells, lang),
    decreases cells.len(),
{
    if cells.len() == 0 {
        assert(lines_of(cells_text(cells, lang)) =~= Seq::<Seq<char>>::empty());
    } else {
        let dl = cells.drop_last();
        assert(cells_one_line(dl, lang)) by {
            assert forall|k: int| 0 <= k < dl.len() implies !shown_id(#[trigger] dl[k].id).contains(
                '\n',
            ) && !fence_language(dl[k].cell_type, lang).contains('\n') by {
                assert(dl[k] == cells[k]);
            }
        }
        lemma_cells_lines(dl, lang);
        assert(!shown_id(cells.last().id).contains('\n'));
        lemma_block_lines(cells.last(), lang);
        let a = cells_text(dl, lang);
        let b = cell_block(cells.last(), lang) + "\n---\n\n"@;
        assert(ends_line(a)) by {
            reveal_strlit("\n---\n\n");
            if dl.len() > 0 {
                assert(a.last() == '\n');
            }
        }
        assert(cells_text(cells, lang) =~= a + b);
        lemma_lines_append(a, b);
    }
}

/// Decimal numbers are digits only.
pub proof fn lemma_decimal_one_line(n: nat)
    ensures
        !decimal(n).contains('\n'),
    decreases n,
{
    if n >= 10 {
        lemma_decimal_one_line(n / 10);
        let d = decimal(n / 10);
        if decimal(n).contains('\n') {
            let i = choose|i: int| 0 <= i < decimal(n).len() && decimal(n)[i] == '\n';
            if i < d.len() {
                assert(d[i] == '\n');
                assert(d.contains('\n'));
            } else {
                assert(decimal(n)[i] == digit_char(n % 10));
            }
        }
    } else {
        if decimal(n).contains('\n') {
            assert(decimal(n)[0] == digit_char(n));
        }
    }
}

/// Joining single-line parts with a single-line separator gives one line.
pub proof fn lemma_join_one_line(parts: Seq<Seq<char>>, sep: Seq<char>)
    requires
        !sep.contains('\n'),
        forall|k: int| 0 <= k < parts.len() ==> !(#[trigger] parts[k]).contains('\n'),
    ensures
        !join(parts, sep).contains('\n'),
    decreases parts.len(),
{
    if parts.len() == 1 {
        assert(!parts[0].contains('\n'));
    } else if parts.len() > 1 {
        let dl = parts.drop_last();
        assert forall|k: int| 0 <= k < dl.len() implies !(#[trigger] dl[k]).contains('\n') by {
            assert(dl[k] == parts[k]);
        }
        lemma_join_one_line(dl, sep);
        lemma_no_nl_add(join(dl, sep), sep);
        assert(!parts.last().contains('\n'));
        lemma_no_nl_add(join(dl, sep) + sep, parts.last());
    }
}

// ---------------------------------------------------------------------------
// Parsing the lines back
// ---------------------------------------------------------------------------

/// Lines followed each by a line feed.
pub open spec fn with_nl(ls: Seq<Seq<char>>) -> Seq<char>
    decreases ls.len(),
{
    if ls.len() == 0 {
        Seq::empty()
    } else {
        ls[0] + nl() + with_nl(ls.drop_first())
    }
}

/// A line the parser passes over between cells: it does not start a
/// metadata block or a cell once trimmed.
pub open spec fn quiet(l: Seq<char>) -> bool {
    !starts_with(trim(l), "## Metadata"@) && !starts_with(trim(l), "## Cell:"@)
}

/// The parser passes over quiet lines.
pub proof fn lemma_skip_quiet(lines: Seq<Seq<char>>, i: int, j: int, st: ParseState)
    requires
        0 <= i <= j <= lines.len(),
        forall|k: int| i <= k < j ==> quiet(#[trigger] lines[k]),
    ensures
        parse_doc(lines, i, st) == parse_doc(lines, j, st),
    decreases j - i,
{
    if i < j {
        assert(quiet(lines[i]));
        lemma_skip_quiet(lines, i + 1, j, st);
    }
}

/// A heading line names its cell's type and id.
pub proof fn lemma_header_of_heading(t: CellType, id: Seq<char>)
    requires
        id.len() > 0,
        !id.contains('\n'),
    ensures
        header_fields(heading_line(t, id)) == Some((t, id)),
{
    reveal_strlit("## Cell: ");
    reveal_strlit(" (id: ");
    reveal_strlit(")");
    reveal_strlit("Code");
    reveal_strlit("Markdown");
    reveal_strlit("Raw");
    let h = heading_line(t, id);
    let p = header_prefix(t);
    assert(h =~= p + id + ")"@);
    assert(h.take(p.len() as int) =~= p);
    assert(h.subrange(p.len() as int, h.len() - 1) =~= id);
    assert(header_id(h, t) == Some(id));
    if t != CellType::Code {
        assert(h[9] != 'C');
        assert(header_prefix(CellType::Code)[9] == 'C');
        if starts_with(h, header_prefix(CellType::Code)) {
            assert(h.take(header_prefix(CellType::Code).len() as int)[9] == h[9]);
        }
        assert(header_id(h, CellType::Code) is None);
    }
    if t == CellType::Raw {
        assert(header_prefix(CellType::Markdown)[9] == 'M');
        if starts_with(h, header_prefix(CellType::Markdown)) {
            assert(h.take(header_prefix(CellType::Markdown).len() as int)[9] == h[9]);
        }
        assert(header_id(h, CellType::Markdown) is None);
    }
}

/// The scan over a code cell's fenced lines collects each line and stops
/// after the closing fence.
pub proof fn lemma_scan_code_lines(
    ls: Seq<Seq<char>>,
    t: CellType,
    idx: int,
    n: int,
    acc: Seq<char>,
    c: int,
)
    requires
        t != CellType::Markdown,
        0 <= idx,
        0 <= n,
        idx + n < ls.len(),
        forall|j: int|
            idx <= j < idx + n ==> trim(#[trigger] ls[j]) != "### Source"@ && !starts_with(
                trim(ls[j]),
                "```"@,
            ),
        starts_with(trim(ls[idx + n]), "```"@),
        trim(ls[idx + n]) != "### Source"@,
    ensures
        scan_source(ls, t, idx, true, true, acc, c) == (acc + with_nl(ls.subrange(idx, idx + n)), idx
            + n + 1),
    decreases n,
{
    if n == 0 {
        assert(ls.subrange(idx, idx) =~= Seq::<Seq<char>>::empty());
        assert(acc + with_nl(ls.subrange(idx, idx)) =~= acc);
    } else {
        assert(trim(ls[idx]) != "### Source"@);
        let acc2 = acc + ls[idx] + seq!['\n'];
        lemma_scan_code_lines(ls, t, idx + 1, n - 1, acc2, idx + 1);
        assert(ls.subrange(idx, idx + n).drop_first() =~= ls.subrange(idx + 1, idx + n));
        assert(acc2 + with_nl(ls.subrange(idx + 1, idx + n)) =~= acc + with_nl(
            ls.subrange(idx, idx + n),
        ));
    }
}

/// The scan over a markdown cell's lines collects each line and stops at
/// the first line that starts a section or is a rule.
pub proof fn lemma_scan_md_lines(
    ls: Seq<Seq<char>>,
    idx: int,
    n: int,
    in_block: bool,
    acc: Seq<char>,
    c: int,
)
    requires
        0 <= idx,
        1 <= n,
        idx + n < ls.len(),
        forall|j: int|
            idx <= j < idx + n ==> trim(#[trigger] ls[j]) != "### Source"@ && !starts_with(
                trim(ls[j]),
                "### "@,
            ) && trim(ls[j]) != "---"@,
        starts_with(trim(ls[idx + n]), "### "@) || trim(ls[idx + n]) == "---"@,
        trim(ls[idx + n]) != "### Source"@,
    ensures
        scan_source(ls, CellType::Markdown, idx, true, in_block, acc, c) == (acc + with_nl(
            ls.subrange(idx, idx + n),
        ), idx + n),
    decreases n,
{
    assert(trim(ls[idx]) != "### Source"@);
    let acc2 = acc + ls[idx] + seq!['\n'];
    assert(ls.subrange(idx, idx + n).drop_first() =~= ls.subrange(idx + 1, idx + n));
    if n == 1 {
        assert(ls.subrange(idx + 1, idx + 1) =~= Seq::<Seq<char>>::empty());
        assert(acc2 =~= acc + with_nl(ls.subrange(idx, idx + n)));
        assert(scan_source(ls, CellType::Markdown, idx + 1, true, in_block, acc2, idx + 1) == (
        acc2, idx + 1));
    } else {
        lemma_scan_md_lines(ls, idx + 1, n - 1, in_block, acc2, idx + 1);
        assert(acc2 + with_nl(ls.subrange(idx + 1, idx + n)) =~= acc + with_nl(
            ls.subrange(idx, idx + n),
        ));
    }
}

/// Adding a line at the end adds it and a line feed.
pub proof fn lemma_with_nl_push(ls: Seq<Seq<char>>, x: Seq<char>)
    ensures
        with_nl(ls.push(x)) == with_nl(ls) + x + nl(),
    decreases ls.len(),
{
    if ls.len() == 0 {
        assert(ls.push(x).drop_first() =~= Seq::<Seq<char>>::empty());
        assert(with_nl(Seq::<Seq<char>>::empty()) == Seq::<char>::empty());
        assert(with_nl(ls.push(x)) =~= with_nl(ls) + x + nl());
    } else {
        assert(ls.push(x).drop_first() =~= ls.drop_first().push(x));
        lemma_with_nl_push(ls.drop_first(), x);
        assert(with_nl(ls.push(x)) =~= with_nl(ls) + x + nl());
    }
}

/// The literal lines between and after cells are passed over.
pub proof fn lemma_quiet_literals()
    ensures
        quiet(Seq::<char>::empty()),
        quiet("---"@),
        quiet("### Outputs"@),
        trim(Seq::<char>::empty()) == Seq::<char>::empty(),
        trim("---"@) == "---"@,
        trim("### Source"@) == "### Source"@,
        trim("### Outputs"@) == "### Outputs"@,
        trim("```"@) == "```"@,
{
    reveal_strlit("## Metadata");
    reveal_strlit("## Cell:");
    reveal_strlit("---");
    reveal_strlit("### Outputs");
    reveal_strlit("### Source");
    reveal_strlit("```");
    lemma_trim_solid("---"@);
    lemma_trim_solid("### Outputs"@);
    lemma_trim_solid("### Source"@);
    lemma_trim_solid("```"@);
    assert("---"@.len() < "## Metadata"@.len());
    assert(!starts_with("### Outputs"@, "## Metadata"@)) by {
        assert("### Outputs"@.take(11)[2] != "## Metadata"@[2]);
    }
    assert(!starts_with("### Outputs"@, "## Cell:"@)) by {
        assert("### Outputs"@.take(8)[2] != "## Cell:"@[2]);
    }
    assert(!starts_with("---"@, "## Cell:"@)) by {
        assert("---"@.len() < 8);
    }
}

/// What the parser reads back as a cell's source: its lines, each ended by
/// a line feed, and for a markdown cell one more line feed for the blank
/// line before the separator.
pub open spec fn reread_source(t: CellType, text: Seq<char>, lang: Option<Seq<char>>) -> Seq<char> {
    if t == CellType::Markdown {
        with_nl(lines_of(source_section(t, text, lang))) + nl()
    } else {
        with_nl(lines_of(text + nl()))
    }
}

/// No line of a code cell's source is a source marker or a fence.
pub open spec fn code_lines_ok(ls: Seq<Seq<char>>) -> bool {
    forall|j: int|
        0 <= j < ls.len() ==> trim(#[trigger] ls[j]) != "### Source"@ && !starts_with(
            trim(ls[j]),
            "```"@,
        )
}

/// No line of a markdown cell's source starts a section or is a rule.
pub open spec fn md_lines_ok(ls: Seq<Seq<char>>) -> bool {
    forall|j: int|
        0 <= j < ls.len() ==> !starts_with(trim(#[trigger] ls[j]), "### "@) && trim(ls[j])
            != "---"@
}

/// Every line is passed over by the parser.
pub open spec fn all_quiet(ls: Seq<Seq<char>>) -> bool {
    forall|j: int| 0 <= j < ls.len() ==> quiet(#[trigger] ls[j])
}

/// A cell whose rendering the parser reads back: a non-empty single-line
/// id, a single-line fence language, source lines that do not look like the
/// markers that end a source, and output lines that do not look like a
/// metadata block or a cell heading.
pub open spec fn cell_reads_back(c: Cell, lang: Option<Seq<char>>) -> bool {
    &&& c.id matches Some(s) && s@.len() > 0 && !s@.contains('\n')
    &&& !fence_language(c.cell_type, lang).contains('\n')
    &&& if c.cell_type == CellType::Markdown {
        md_lines_ok(lines_of(source_section(c.cell_type, source_text(c.source), lang)))
    } else {
        code_lines_ok(lines_of(source_text(c.source) + nl()))
    }
    &&& cell_outputs(c).len() > 0 ==> all_quiet(lines_of(outputs_list_text(cell_outputs(c))))
}

/// What the parser reads back of a cell.
pub open spec fn reread_cell(c: Cell, lang: Option<Seq<char>>) -> ParsedCell {
    ParsedCell {
        cell_type: c.cell_type,
        id: shown_id(c.id),
        source: reread_source(c.cell_type, source_text(c.source), lang),
    }
}

/// A fence line, even with a carriage return dropped, starts with the fence
/// once trimmed.
proof fn lemma_fence_line(fl: Seq<char>)
    ensures
        starts_with(trim(strip_cr("```"@ + fl)), "```"@),
        trim(strip_cr("```"@ + fl)) != "### Source"@,
{
    reveal_strlit("```");
    reveal_strlit("### Source");
    let f = strip_cr("```"@ + fl);
    assert(f.len() >= 3 && f[0] == '`' && f[1] == '`' && f[2] == '`') by {
        if ends_with_char_cr("```"@ + fl) {
            assert(fl.len() > 0);
        }
    }
    assert(starts_with(f, "```"@)) by {
        assert(f.take(3) =~= "```"@);
    }
    lemma_trim_keeps_prefix(f, "```"@);
    let tf = trim(f);
    assert(tf.take(3)[0] == '`');
    assert("### Source"@[0] == '#');
}

/// The text ends with a carriage return.
pub open spec fn ends_with_char_cr(s: Seq<char>) -> bool {
    s.len() > 0 && s.last() == '\r'
}

/// The lines after the heading of a code or raw cell's block.
proof fn lemma_block_source_code(ls: Seq<Seq<char>>, c: Cell, lang: Option<Seq<char>>)
    requires
        cell_reads_back(c, lang),
        c.cell_type != CellType::Markdown,
        block_lines(c, lang).len() - 1 <= ls.len(),
        forall|k: int| 0 <= k < block_lines(c, lang).len() - 1 ==> ls[k] == block_lines(c, lang)[k + 1],
    ensures
        cell_source_of(ls, c.cell_type) == (reread_source(c.cell_type, source_text(c.source), lang), lines_of(source_text(c.source) + nl()).len() + 4int),
{
    lemma_quiet_literals();
    reveal_strlit("### Source");
    reveal_strlit("```");
    let t = c.cell_type;
    let text = source_text(c.source);
    let b = block_lines(c, lang);
    let tl = lines_of(text + nl());
    let n = tl.len() as int;
    let fl = fence_language(t, lang);
    let e = Seq::<char>::empty();
    assert(ls[0] == e);
    assert(ls[1] == "### Source"@);
    assert(ls[2] == strip_cr("```"@ + fl));
    assert(forall|k: int| 0 <= k < n ==> ls[3 + k] == #[trigger] tl[k]);
    assert(ls[3 + n] == "```"@);
    lemma_fence_line(fl);
    assert(scan_source(ls, t, 0, false, false, e, 0) == scan_source(ls, t, 1, false, false, e, 0));
    assert(scan_source(ls, t, 1, false, false, e, 0) == scan_source(ls, t, 2, true, false, e, 2));
    assert(scan_source(ls, t, 2, true, false, e, 2) == scan_source(ls, t, 3, true, true, e, 3));
    assert(ls.subrange(3, 3 + n) =~= tl);
    assert forall|j: int| 3 <= j < 3 + n implies trim(#[trigger] ls[j]) != "### Source"@ && !starts_with(
        trim(ls[j]),
        "```"@,
    ) by {
        assert(ls[j] == tl[j - 3]);
    }
    assert(starts_with(trim(ls[3 + n]), "```"@)) by {
        assert(trim("```"@).take(3) =~= "```"@);
    }
    assert(trim(ls[3 + n]) != "### Source"@) by {
        assert("```"@.len() != "### Source"@.len());
    }
    lemma_scan_code_lines(ls, t, 3, n, e, 3);
    assert(e + with_nl(tl) =~= with_nl(tl));
}

/// The lines after the heading of a markdown cell's block.
proof fn lemma_block_source_md(ls: Seq<Seq<char>>, c: Cell, lang: Option<Seq<char>>)
    requires
        cell_reads_back(c, lang),
        c.cell_type == CellType::Markdown,
        block_lines(c, lang).len() - 1 <= ls.len(),
        forall|k: int| 0 <= k < block_lines(c, lang).len() - 1 ==> ls[k] == block_lines(c, lang)[k + 1],
    ensures
        cell_source_of(ls, c.cell_type) == (reread_source(c.cell_type, source_text(c.source), lang), lines_of(source_section(c.cell_type, source_text(c.source), lang)).len() + 3int),
{
    lemma_quiet_literals();
    reveal_strlit("### Source");
    reveal_strlit("### ");
    reveal_strlit("### Outputs");
    reveal_strlit("---");
    let t = c.cell_type;
    let text = source_text(c.source);
    let b = block_lines(c, lang);
    let sl = lines_of(source_section(t, text, lang));
    let m = sl.len() as int;
    let e = Seq::<char>::empty();
    let os = cell_outputs(c);
    assert(ls[0] == e);
    assert(ls[1] == "### Source"@);
    assert(forall|k: int| 0 <= k < m ==> ls[2 + k] == #[trigger] sl[k]);
    assert(ls[2 + m] == e);
    assert(ls[3 + m] == (if os.len() > 0 { "### Outputs"@ } else { "---"@ }));
    assert(scan_source(ls, t, 0, false, false, e, 0) == scan_source(ls, t, 1, false, false, e, 0));
    assert(scan_source(ls, t, 1, false, false, e, 0) == scan_source(ls, t, 2, true, false, e, 2));
    assert(ls.subrange(2, 3 + m) =~= sl.push(e));
    assert(starts_with("### Source"@, "### "@)) by {
        assert("### Source"@.take(4) =~= "### "@);
    }
    assert forall|j: int| 2 <= j < 3 + m implies trim(#[trigger] ls[j]) != "### Source"@ && !starts_with(
        trim(ls[j]),
        "### "@,
    ) && trim(ls[j]) != "---"@ by {
        if j < 2 + m {
            assert(ls[j] == sl[j - 2]);
            if trim(ls[j]) == "### Source"@ {
                assert(starts_with(trim(ls[j]), "### "@));
            }
        } else {
            assert(ls[j] == e);
        }
    }
    assert(starts_with(trim(ls[3 + m]), "### "@) || trim(ls[3 + m]) == "---"@) by {
        if os.len() > 0 {
            assert("### Outputs"@.take(4) =~= "### "@);
        }
    }
    assert(trim(ls[3 + m]) != "### Source"@) by {
        assert("### Outputs"@.len() != "### Source"@.len());
        assert("---"@.len() != "### Source"@.len());
    }
    lemma_scan_md_lines(ls, 2, m + 1, false, e, 2);
    lemma_with_nl_push(sl, e);
    assert(e + with_nl(sl.push(e)) =~= with_nl(sl) + nl());
}

/// The lines after a block's source section are all passed over.
proof fn lemma_tail_quiet(c: Cell, lang: Option<Seq<char>>)
    requires
        cell_reads_back(c, lang),
    ensures
        all_quiet(output_lines(cell_outputs(c)) + seq![Seq::<char>::empty(), "---"@, Seq::<char>::empty()]),
{
    lemma_quiet_literals();
    let os = cell_outputs(c);
    let tail = output_lines(os) + seq![Seq::<char>::empty(), "---"@, Seq::<char>::empty()];
    assert forall|j: int| 0 <= j < tail.len() implies quiet(#[trigger] tail[j]) by {
        let ol = output_lines(os);
        if j < ol.len() {
            let lt = lines_of(outputs_list_text(os));
            if j >= 2 {
                assert(ol[j] == lt[j - 2]);
            }
        }
    }
}

/// The heading line of a block starts a cell once trimmed, not a metadata block.
proof fn lemma_heading_parse_facts(t: CellType, id: Seq<char>)
    requires
        id.len() > 0,
        !id.contains('\n'),
    ensures
        trim(heading_line(t, id)) == heading_line(t, id),
        !starts_with(heading_line(t, id), "## Metadata"@),
        starts_with(heading_line(t, id), "## Cell:"@),
{
    reveal_strlit("## Cell: ");
    reveal_strlit(" (id: ");
    reveal_strlit(")");
    reveal_strlit("## Metadata");
    reveal_strlit("## Cell:");
    let h = heading_line(t, id);
    assert(h[0] == '#');
    assert(h.last() == ')');
    lemma_trim_solid(h);
    assert(h.take(8) =~= "## Cell:"@);
    if starts_with(h, "## Metadata"@) {
        assert(h.take(11)[3] == h[3]);
    }
}

/// The parser reads a cell's block back as the cell's type, id and source.
pub proof fn lemma_parse_block(
    lines: Seq<Seq<char>>,
    i: int,
    c: Cell,
    lang: Option<Seq<char>>,
    st: ParseState,
)
    requires
        cell_reads_back(c, lang),
        0 <= i,
        i + block_lines(c, lang).len() <= lines.len(),
        forall|k: int| 0 <= k < block_lines(c, lang).len() ==> lines[i + k] == block_lines(c, lang)[k],
    ensures
        parse_doc(lines, i, st) == parse_doc(
            lines,
            i + block_lines(c, lang).len(),
            ParseState { cells: st.cells.push(reread_cell(c, lang)), ..st },
        ),
{
    let b = block_lines(c, lang);
    let t = c.cell_type;
    let id = shown_id(c.id);
    let text = source_text(c.source);
    let h = heading_line(t, id);
    let st2 = ParseState { cells: st.cells.push(reread_cell(c, lang)), ..st };
    lemma_heading_parse_facts(t, id);
    lemma_header_of_heading(t, id);
    assert(b[0] == h);
    assert(lines[i + 0] == b[0]);
    assert(lines[i] == h);
    let ls = lines.skip(i + 1);
    assert forall|k: int| 0 <= k < b.len() - 1 implies ls[k] == b[k + 1] by {
        assert(lines[i + (k + 1)] == b[k + 1]);
    }
    let sl = source_lines(t, text, lang);
    let tail = output_lines(cell_outputs(c)) + seq![Seq::<char>::empty(), "---"@, Seq::<char>::empty()];
    assert(b =~= seq![h, Seq::<char>::empty(), "### Source"@] + sl + tail);
    lemma_tail_quiet(c, lang);
    let consumed = if t == CellType::Markdown {
        lemma_block_source_md(ls, c, lang);
        lines_of(source_section(t, text, lang)).len() + 3int
    } else {
        lemma_block_source_code(ls, c, lang);
        lines_of(text + nl()).len() + 4int
    };
    assert(cell_source_of(ls, t) == (reread_source(t, text, lang), consumed));
    assert(parse_doc(lines, i, st) == parse_doc(lines, i + 1 + consumed, st2));
    assert(i + 1 + consumed >= i + 3 + sl.len());
    assert forall|k: int| i + 1 + consumed <= k < i + b.len() implies quiet(#[trigger] lines[k]) by {
        assert(lines[i + (k - i)] == b[k - i]);
        assert(b[k - i] == tail[k - i - 3 - sl.len()]);
    }
    lemma_skip_quiet(lines, i + 1 + consumed, i + b.len(), st2);
}

/// What the parser reads back of the cells, in order.
pub open spec fn reread_cells(cells: Seq<Cell>, lang: Option<Seq<char>>) -> Seq<ParsedCell>
    decreases cells.len(),
{
    if cells.len() == 0 {
        Seq::empty()
    } else {
        reread_cells(cells.drop_last(), lang).push(reread_cell(cells.last(), lang))
    }
}

/// Every cell reads back.
pub open spec fn cells_read_back(cells: Seq<Cell>, lang: Option<Seq<char>>) -> bool {
    forall|k: int| 0 <= k < cells.len() ==> cell_reads_back(#[trigger] cells[k], lang)
}

/// The parser reads the cells' blocks back as the cells.
pub proof fn lemma_parse_blocks(
    lines: Seq<Seq<char>>,
    i: int,
    cells: Seq<Cell>,
    lang: Option<Seq<char>>,
    st: ParseState,
)
    requires
        cells_read_back(cells, lang),
        0 <= i,
        i + all_block_lines(cells, lang).len() <= lines.len(),
        forall|k: int|
            0 <= k < all_block_lines(cells, lang).len() ==> lines[i + k] == all_block_lines(
                cells,
                lang,
            )[k],
    ensures
        parse_doc(lines, i, st) == parse_doc(
            lines,
            i + all_block_lines(cells, lang).len(),
            ParseState { cells: st.cells + reread_cells(cells, lang), ..st },
        ),
    decreases cells.len(),
{
    if cells.len() == 0 {
        assert(st.cells + reread_cells(cells, lang) =~= st.cells);
        assert(ParseState { cells: st.cells + reread_cells(cells, lang), ..st } == st);
    } else {
        let dl = cells.drop_last();
        let c = cells.last();
        let a = all_block_lines(dl, lang);
        let b = block_lines(c, lang);
        assert(all_block_lines(cells, lang) == a + b);
        assert forall|k: int| 0 <= k < dl.len() implies cell_reads_back(#[trigger] dl[k], lang) by {
            assert(dl[k] == cells[k]);
        }
        assert forall|k: int| 0 <= k < a.len() implies lines[i + k] == a[k] by {
            assert(lines[i + k] == all_block_lines(cells, lang)[k]);
        }
        lemma_parse_blocks(lines, i, dl, lang, st);
        let st1 = ParseState { cells: st.cells + reread_cells(dl, lang), ..st };
        assert(cell_reads_back(cells[cells.len() - 1], lang));
        assert forall|k: int| 0 <= k < b.len() implies lines[(i + a.len()) + k] == b[k] by {
            assert(lines[i + (a.len() + k)] == all_block_lines(cells, lang)[a.len() + k]);
        }
        lemma_parse_block(lines, i + a.len(), c, lang, st1);
        assert(st1.cells.push(reread_cell(c, lang)) =~= st.cells + reread_cells(cells, lang));
    }
}

/// A text that trimming leaves unchanged starts and ends with non-space characters.
pub proof fn lemma_trim_fixed(x: Seq<char>)
    requires
        trim(x) == x,
        x.len() > 0,
    ensures
        !is_ws(x[0]),
        !is_ws(x.last()),
{
    lemma_trim_start_len(x);
    let y = trim_start(x);
    lemma_trim_end_prefix(y);
    if is_ws(x[0]) {
        assert(trim_start(x) == trim_start(x.drop_first()));
        lemma_trim_start_len(x.drop_first());
    }
    assert(y == x);
    if is_ws(x.last()) {
        assert(trim_end(x) == trim_end(x.drop_last()));
        lemma_trim_end_prefix(x.drop_last());
    }
}

/// Trimming the start never lengthens a text.
pub proof fn lemma_trim_start_len(x: Seq<char>)
    ensures
        trim_start(x).len() <= x.len(),
    decreases x.len(),
{
    if x.len() > 0 && is_ws(x[0]) {
        lemma_trim_start_len(x.drop_first());
    }
}

/// A text that starts with a prefix still does so after a final carriage
/// return is dropped, if it is longer than the prefix.
proof fn lemma_strip_cr_keeps_prefix(x: Seq<char>, q: Seq<char>)
    requires
        starts_with(x, q),
        x.len() > q.len(),
    ensures
        starts_with(strip_cr(x), q),
{
    let y = strip_cr(x);
    assert(y.take(q.len() as int) =~= q) by {
        assert forall|k: int| 0 <= k < q.len() implies y[k] == q[k] by {
            assert(x.take(q.len() as int)[k] == x[k]);
        }
    }
}

/// Dropping a final white-space character does not change the trimmed text.
proof fn lemma_trim_drop_ws_last(s: Seq<char>)
    requires
        s.len() > 0,
        is_ws(s.last()),
    ensures
        trim(s) == trim(s.drop_last()),
    decreases s.len(),
{
    if is_ws(s[0]) {
        if s.len() == 1 {
            assert(s.drop_first() =~= Seq::<char>::empty());
            assert(s.drop_last() =~= Seq::<char>::empty());
        } else {
            lemma_trim_drop_ws_last(s.drop_first());
            assert(s.drop_last().drop_first() =~= s.drop_first().drop_last());
            assert(s.drop_last()[0] == s[0]);
        }
    } else {
        assert(s.len() > 1);
        assert(s.drop_last()[0] == s[0]);
    }
}

/// Trimming the end first does not change the trimmed text.
proof fn lemma_trim_of_trim_end(x: Seq<char>)
    ensures
        trim(trim_end(x)) == trim(x),
    decreases x.len(),
{
    if x.len() > 0 && is_ws(x.last()) {
        lemma_trim_drop_ws_last(x);
        lemma_trim_of_trim_end(x.drop_last());
    }
}

/// A line `label value`: once trimmed it still starts with the label, and
/// what follows the label trims to the trimmed value.
proof fn lemma_labelled_line(label: Seq<char>, value: Seq<char>)
    requires
        label.len() > 0,
        !is_ws(label[0]),
        !is_ws(label.last()),
    ensures
        ({
            let m = trim(strip_cr(label + seq![' '] + value));
            &&& starts_with(m, label)
            &&& trim(m.skip(label.len() as int)) == trim(value)
        }),
{
    let l = label + seq![' '] + value;
    let v2 = if value.len() > 0 && value.last() == '\r' {
        value.drop_last()
    } else {
        value
    };
    assert(strip_cr(l) =~= label + (seq![' '] + v2)) by {
        if value.len() > 0 {
            assert(l.last() == value.last());
        } else {
            assert(l.last() == ' ');
        }
    }
    assert(trim(v2) == trim(value)) by {
        if value.len() > 0 && value.last() == '\r' {
            assert(is_ws('\r'));
            lemma_trim_drop_ws_last(value);
        }
    }
    let l2 = label + (seq![' '] + v2);
    assert(l2[0] == label[0]);
    assert(trim_start(l2) == l2);
    lemma_trim_end_append(label, seq![' '] + v2);
    let m = trim(l2);
    assert(m == label + trim_end(seq![' '] + v2));
    assert(m.take(label.len() as int) =~= label);
    assert(m.skip(label.len() as int) =~= trim_end(seq![' '] + v2));
    lemma_trim_of_trim_end(seq![' '] + v2);
    lemma_trim_leading_space(v2);
}

/// Two texts that differ at an index inside both are not prefixes of each other.
proof fn lemma_differ_at(m: Seq<char>, q: Seq<char>, k: int)
    requires
        0 <= k < q.len(),
        k < m.len(),
        m[k] != q[k],
    ensures
        !starts_with(m, q),
{
    if starts_with(m, q) {
        assert(m.take(q.len() as int)[k] == m[k]);
    }
}

/// The language line of the metadata block.
proof fn lemma_meta_language(name: Seq<char>, st: ParseState)
    requires
        !name.contains('\n'),
    ensures
        lines_of("- Language: "@ + name + "\n"@) == seq![strip_cr("- Language: "@ + name)],
        !starts_with(trim(strip_cr("- Language: "@ + name)), "---"@),
        meta_line_effect(trim(strip_cr("- Language: "@ + name)), st) == (ParseState {
            language: Some(trim(name)),
            ..st
        }),
{
    reveal_strlit("- Language: ");
    reveal_strlit("- Language:");
    reveal_strlit("---");
    reveal_strlit("\n");
    let label = "- Language:"@;
    assert("- Language: "@ =~= label + seq![' ']);
    assert("- Language: "@ + name =~= label + seq![' '] + name);
    lemma_labelled_line(label, name);
    lemma_no_nl_add("- Language: "@, name);
    assert("- Language: "@ + name + "\n"@ =~= ("- Language: "@ + name) + nl());
    lemma_lines_line("- Language: "@ + name);
    let m = trim(strip_cr("- Language: "@ + name));
    assert(m.take(11) =~= label);
    assert(m[1] == m.take(11)[1]);
    lemma_differ_at(m, "---"@, 1);
}

/// The kernel line of the metadata block.
proof fn lemma_meta_kernel(name: Seq<char>, st: ParseState)
    requires
        !name.contains('\n'),
    ensures
        lines_of("- Kernel: "@ + name + "\n"@) == seq![strip_cr("- Kernel: "@ + name)],
        !starts_with(trim(strip_cr("- Kernel: "@ + name)), "---"@),
        meta_line_effect(trim(strip_cr("- Kernel: "@ + name)), st) == (ParseState {
            kernel: Some(trim(name)),
            ..st
        }),
{
    reveal_strlit("- Kernel: ");
    reveal_strlit("- Kernel:");
    reveal_strlit("- Language:");
    reveal_strlit("---");
    reveal_strlit("\n");
    let label = "- Kernel:"@;
    assert("- Kernel: "@ =~= label + seq![' ']);
    assert("- Kernel: "@ + name =~= label + seq![' '] + name);
    lemma_labelled_line(label, name);
    lemma_no_nl_add("- Kernel: "@, name);
    assert("- Kernel: "@ + name + "\n"@ =~= ("- Kernel: "@ + name) + nl());
    lemma_lines_line("- Kernel: "@ + name);
    let m = trim(strip_cr("- Kernel: "@ + name));
    assert(m.take(9) =~= label);
    assert(m[1] == m.take(9)[1]);
    assert(m[2] == m.take(9)[2]);
    lemma_differ_at(m, "---"@, 1);
    lemma_differ_at(m, "- Language:"@, 2);
}

/// A metadata line that starts with a label other than the language's and
/// the kernel's leaves the parser's state unchanged.
proof fn lemma_meta_other(label: Seq<char>, rest: Seq<char>, st: ParseState)
    requires
        label.len() >= 3,
        label[0] == '-',
        label[1] == ' ',
        label[2] != 'L',
        label[2] != 'K',
        !is_ws(label.last()),
        !is_ws(label[2]),
    ensures
        !starts_with(trim(strip_cr(label + rest)), "---"@),
        meta_line_effect(trim(strip_cr(label + rest)), st) == st,
{
    reveal_strlit("- Language:");
    reveal_strlit("- Kernel:");
    reveal_strlit("---");
    let l = label + rest;
    assert(l.take(label.len() as int) =~= label);
    if rest.len() > 0 {
        lemma_strip_cr_keeps_prefix(l, label);
    } else {
        assert(l =~= label);
        assert(strip_cr(l) == l) by {
            assert(is_ws('\r'));
        }
    }
    let q = label.take(3);
    assert(starts_with(strip_cr(l), q)) by {
        assert(strip_cr(l).take(label.len() as int) =~= label);
        assert(strip_cr(l).take(3) =~= q);
    }
    assert(!is_ws('-'));
    lemma_trim_keeps_prefix(strip_cr(l), q);
    let m = trim(strip_cr(l));
    assert(m[1] == ' ' && m[2] == label[2]) by {
        assert(m.take(3) =~= q);
    }
    lemma_differ_at(m, "---"@, 1);
    lemma_differ_at(m, "- Language:"@, 2);
    lemma_differ_at(m, "- Kernel:"@, 2);
}

/// The title shown in the first line of a rendering.
pub open spec fn title_of(f: Option<Seq<char>>) -> Seq<char> {
    match f {
        Some(x) => x,
        None => "notebook"@,
    }
}

/// The format line of the metadata, without its line feed.
pub open spec fn fmt_content(nb: Notebook) -> Seq<char> {
    "- Format: nbformat "@ + decimal(nb.nbformat as nat) + "."@ + decimal(nb.nbformat_minor as nat)
}

/// The kernel's name, if the notebook names a kernel.
pub open spec fn notebook_kernel(nb: Notebook) -> Option<Seq<char>> {
    match nb.metadata.kernelspec {
        Some(k) => Some(k.name@),
        None => None,
    }
}

/// The lines of a rendering before the first cell.
pub open spec fn head_meta_lines(nb: Notebook, f: Option<Seq<char>>) -> Seq<Seq<char>> {
    seq![
        strip_cr("# Notebook: "@ + title_of(f)),
        Seq::<char>::empty(),
        "## Metadata"@,
        fmt_content(nb),
    ] + lines_of(language_line(nb)) + lines_of(kernel_line(nb)) + lines_of(warnings_line(nb))
        + seq![Seq::<char>::empty(), "---"@, Seq::<char>::empty()]
}

/// A notebook whose rendering the parser reads back: a single-line title,
/// single-line language and kernel names, single-line warnings, and cells
/// that read back.
pub open spec fn doc_reads_back(nb: Notebook, f: Option<Seq<char>>) -> bool {
    &&& (f matches Some(x) ==> !x.contains('\n'))
    &&& (nb.metadata.language_info matches Some(li) ==> !li.name@.contains('\n'))
    &&& (nb.metadata.kernelspec matches Some(k) ==> !k.name@.contains('\n'))
    &&& (nb.metadata.warnings matches Some(w) ==> forall|k: int|
        0 <= k < w@.len() ==> !(#[trigger] w@[k])@.contains('\n'))
    &&& cells_read_back(nb.cells@, notebook_language(nb))
}

/// A decimal number ends with a digit.
proof fn lemma_decimal_last(n: nat)
    ensures
        decimal(n).len() > 0,
        decimal(n).last() == digit_char(n % 10),
    decreases n,
{
}

/// The format line is one line ending with a digit.
proof fn lemma_fmt_line(nb: Notebook)
    ensures
        !fmt_content(nb).contains('\n'),
        strip_cr(fmt_content(nb)) == fmt_content(nb),
        format_line(nb) == fmt_content(nb) + nl(),
        fmt_content(nb).len() > 0,
{
    reveal_strlit("- Format: nbformat ");
    reveal_strlit(".");
    reveal_strlit("\n");
    lemma_decimal_one_line(nb.nbformat as nat);
    lemma_decimal_one_line(nb.nbformat_minor as nat);
    lemma_no_nl_add("- Format: nbformat "@, decimal(nb.nbformat as nat));
    lemma_no_nl_add("- Format: nbformat "@ + decimal(nb.nbformat as nat), "."@);
    lemma_no_nl_add(
        "- Format: nbformat "@ + decimal(nb.nbformat as nat) + "."@,
        decimal(nb.nbformat_minor as nat),
    );
    lemma_decimal_last(nb.nbformat_minor as nat);
    assert(fmt_content(nb).last() == decimal(nb.nbformat_minor as nat).last());
    assert(format_line(nb) =~= fmt_content(nb) + nl());
}

/// The warnings line is empty or one line.
proof fn lemma_warnings_line(nb: Notebook)
    requires
        nb.metadata.warnings matches Some(w) ==> forall|k: int|
            0 <= k < w@.len() ==> !(#[trigger] w@[k])@.contains('\n'),
    ensures
        ends_line(warnings_line(nb)),
        warnings_line(nb).len() > 0 ==> exists|rest: Seq<char>|
            #![trigger "- Warnings: "@ + rest]
            lines_of(warnings_line(nb)) == seq![strip_cr("- Warnings: "@ + rest)],
        warnings_line(nb).len() == 0 ==> lines_of(warnings_line(nb)) == Seq::<Seq<char>>::empty(),
{
    reveal_strlit("\n");
    reveal_strlit(", ");
    reveal_strlit("- Warnings: ");
    match nb.metadata.warnings {
        Some(w) => {
            if w@.len() > 0 {
                let parts = views(w@);
                assert forall|k: int| 0 <= k < parts.len() implies !(#[trigger] parts[k]).contains(
                    '\n',
                ) by {
                    assert(parts[k] == w@[k]@);
                }
                lemma_join_one_line(parts, ", "@);
                let j = join(parts, ", "@);
                lemma_no_nl_add("- Warnings: "@, j);
                assert(warnings_line(nb) =~= ("- Warnings: "@ + j) + nl());
                lemma_lines_line("- Warnings: "@ + j);
                assert(lines_of(warnings_line(nb)) == seq![strip_cr("- Warnings: "@ + j)]);
            } else {
                assert(lines_of(Seq::<char>::empty()) =~= Seq::<Seq<char>>::empty());
            }
        },
        None => {
            assert(lines_of(Seq::<char>::empty()) =~= Seq::<Seq<char>>::empty());
        },
    }
}

/// The lines of the metadata's optional lines, the separator and the cells.
proof fn lemma_doc_tail_lines(nb: Notebook)
    requires
        doc_reads_back(nb, None),
    ensures
        lines_of(language_line(nb) + (kernel_line(nb) + (warnings_line(nb) + ("\n---\n\n"@
            + cells_text(nb.cells@, notebook_language(nb)))))) == lines_of(language_line(nb))
            + lines_of(kernel_line(nb)) + lines_of(warnings_line(nb)) + seq![
            Seq::<char>::empty(),
            "---"@,
            Seq::<char>::empty(),
        ] + all_block_lines(nb.cells@, notebook_language(nb)),
{
    reveal_strlit("\n");
    let lang = notebook_language(nb);
    let cells = nb.cells@;
    let ll = language_line(nb);
    let kl = kernel_line(nb);
    let wl = warnings_line(nb);
    let ct = cells_text(cells, lang);
    let sep = "\n---\n\n"@;
    assert(cells_one_line(cells, lang)) by {
        assert forall|k: int| 0 <= k < cells.len() implies !shown_id(#[trigger] cells[k].id).contains(
            '\n',
        ) && !fence_language(cells[k].cell_type, lang).contains('\n') by {
            assert(cell_reads_back(cells[k], lang));
        }
    }
    lemma_cells_lines(cells, lang);
    lemma_sep_lines();
    assert(ends_line(sep)) by {
        reveal_strlit("\n---\n\n");
    }
    lemma_lines_append(sep, ct);
    lemma_warnings_line(nb);
    lemma_lines_append(wl, sep + ct);
    assert(ends_line(kl)) by {
        if kl.len() > 0 {
            assert(kl.last() == '\n');
        }
    }
    lemma_lines_append(kl, wl + (sep + ct));
    assert(ends_line(ll)) by {
        if ll.len() > 0 {
            assert(ll.last() == '\n');
        }
    }
    lemma_lines_append(ll, kl + (wl + (sep + ct)));
    assert(lines_of(ll + (kl + (wl + (sep + ct)))) =~= lines_of(ll) + lines_of(kl) + lines_of(wl)
        + seq![Seq::<char>::empty(), "---"@, Seq::<char>::empty()] + all_block_lines(cells, lang));
}

/// What follows the format line in a notebook's rendering.
pub open spec fn doc_rest(nb: Notebook) -> Seq<char> {
    language_line(nb) + (kernel_line(nb) + (warnings_line(nb) + ("\n---\n\n"@ + cells_text(
        nb.cells@,
        notebook_language(nb),
    ))))
}

/// A notebook's rendering, line by line up to the format line.
#[verifier::spinoff_prover]
#[verifier::rlimit(40)]
proof fn lemma_doc_text_shape(nb: Notebook, f: Option<Seq<char>>)
    ensures
        notebook_text(nb, f) == ("# Notebook: "@ + title_of(f)) + nl() + (Seq::<char>::empty() + nl()
            + ("## Metadata"@ + nl() + (fmt_content(nb) + nl() + doc_rest(nb)))),
{
    let t = "# Notebook: "@ + title_of(f);
    let hm = "## Metadata"@;
    let fc = fmt_content(nb);
    let ll = language_line(nb);
    let kl = kernel_line(nb);
    let wl = warnings_line(nb);
    let sep = "\n---\n\n"@;
    let ct = cells_text(nb.cells@, notebook_language(nb));
    let mt = metadata_text(nb);
    assert("\n\n"@ =~= nl() + nl()) by {
        reveal_strlit("\n\n");
    }
    assert("## Metadata\n"@ =~= hm + nl()) by {
        reveal_strlit("## Metadata\n");
        reveal_strlit("## Metadata");
    }
    lemma_fmt_line(nb);
    assert(mt == (hm + nl()) + (fc + nl()) + ll + kl + wl);
    assert(mt + (sep + ct) =~= hm + nl() + (fc + nl() + (ll + (kl + (wl + (sep + ct)))))) by {
        let a = hm + nl();
        let b = fc + nl();
        assert(a + b + ll + kl + wl + (sep + ct) =~= a + (b + (ll + (kl + (wl + (sep + ct))))));
    }
    assert(notebook_text(nb, f) == t + "\n\n"@ + mt + sep + ct);
    assert(t + (nl() + nl()) + mt + sep + ct =~= t + nl() + (nl() + (mt + (sep + ct))));
    assert(Seq::<char>::empty() + nl() =~= nl());
}

/// Four one-line lines in front of a text.
proof fn lemma_four_lines(x0: Seq<char>, x2: Seq<char>, x3: Seq<char>, r: Seq<char>)
    requires
        !x0.contains('\n'),
        !x2.contains('\n'),
        !x3.contains('\n'),
    ensures
        lines_of(x0 + nl() + (Seq::<char>::empty() + nl() + (x2 + nl() + (x3 + nl() + r))))
            == seq![strip_cr(x0), strip_cr(Seq::<char>::empty()), strip_cr(x2), strip_cr(x3)]
            + lines_of(r),
{
    let e = Seq::<char>::empty();
    lemma_lines_line_then(x3, r);
    lemma_lines_line_then(x2, x3 + nl() + r);
    lemma_lines_line_then(e, x2 + nl() + (x3 + nl() + r));
    lemma_lines_line_then(x0, e + nl() + (x2 + nl() + (x3 + nl() + r)));
    assert(seq![strip_cr(x0)] + (seq![strip_cr(e)] + (seq![strip_cr(x2)] + (seq![strip_cr(x3)]
        + lines_of(r)))) =~= seq![strip_cr(x0), strip_cr(e), strip_cr(x2), strip_cr(x3)]
        + lines_of(r));
}

/// The lines of a notebook's rendering.
pub proof fn lemma_doc_lines(nb: Notebook, f: Option<Seq<char>>)
    requires
        doc_reads_back(nb, f),
    ensures
        lines_of(notebook_text(nb, f)) == head_meta_lines(nb, f) + all_block_lines(
            nb.cells@,
            notebook_language(nb),
        ),
{
    let e = Seq::<char>::empty();
    let x0 = "# Notebook: "@ + title_of(f);
    let hm = "## Metadata"@;
    let fc = fmt_content(nb);
    let r4 = doc_rest(nb);
    assert(!x0.contains('\n')) by {
        reveal_strlit("# Notebook: ");
        reveal_strlit("notebook");
        lemma_no_nl_add("# Notebook: "@, title_of(f));
    }
    assert(!hm.contains('\n') && strip_cr(hm) == hm) by {
        reveal_strlit("## Metadata");
        assert(strip_cr(hm) =~= hm);
    }
    assert(strip_cr(e) =~= e);
    lemma_fmt_line(nb);
    assert(doc_reads_back(nb, None));
    lemma_doc_tail_lines(nb);
    lemma_doc_text_shape(nb, f);
    lemma_four_lines(x0, hm, fc, r4);
    let abl = all_block_lines(nb.cells@, notebook_language(nb));
    let mid = lines_of(language_line(nb)) + lines_of(kernel_line(nb)) + lines_of(warnings_line(nb));
    let tail = seq![e, "---"@, e];
    assert(lines_of(r4) == mid + tail + abl);
    assert(head_meta_lines(nb, f) == seq![strip_cr(x0), e, hm, fc] + mid + tail);
    assert(seq![strip_cr(x0), e, hm, fc] + (mid + tail + abl) =~= seq![strip_cr(x0), e, hm, fc]
        + mid + tail + abl);
}

/// An optional text, trimmed.
pub open spec fn trim_opt(o: Option<Seq<char>>) -> Option<Seq<char>> {
    match o {
        Some(x) => Some(trim(x)),
        None => None,
    }
}

/// The parser's state once it has read a rendering's metadata block.
pub open spec fn meta_state(nb: Notebook, st: ParseState) -> ParseState {
    ParseState { language: trim_opt(notebook_language(nb)), kernel: trim_opt(notebook_kernel(nb)), ..st }
}

/// The metadata lines a rendering writes, from the format line through the
/// closing `---`.
pub open spec fn meta_block_lines(nb: Notebook) -> Seq<Seq<char>> {
    seq![fmt_content(nb)] + lines_of(language_line(nb)) + lines_of(kernel_line(nb)) + lines_of(
        warnings_line(nb),
    ) + seq![Seq::<char>::empty(), "---"@]
}

/// The parser reads a metadata line and goes on with the next one.
proof fn lemma_meta_step(lines: Seq<Seq<char>>, j: int, st: ParseState, st2: ParseState)
    requires
        0 <= j < lines.len(),
        !starts_with(trim(lines[j]), "---"@),
        meta_line_effect(trim(lines[j]), st) == st2,
    ensures
        parse_meta(lines, j, st) == parse_meta(lines, j + 1, st2),
{
}

/// The parser reads the optional lines of the metadata block: what it
/// gathers is what the notebook records.
proof fn lemma_meta_optional(lines: Seq<Seq<char>>, j: int, nb: Notebook, st: ParseState)
    requires
        doc_reads_back(nb, None),
        st.language is None,
        st.kernel is None,
        0 <= j,
        ({
            let m = lines_of(language_line(nb)) + lines_of(kernel_line(nb)) + lines_of(
                warnings_line(nb),
            );
            &&& j + m.len() <= lines.len()
            &&& forall|k: int| 0 <= k < m.len() ==> lines[j + k] == #[trigger] m[k]
        }),
    ensures
        ({
            let m = lines_of(language_line(nb)) + lines_of(kernel_line(nb)) + lines_of(
                warnings_line(nb),
            );
            parse_meta(lines, j, st) == parse_meta(
                lines,
                j + m.len(),
                meta_state(nb, st),
            )
        }),
{
    let ml = lines_of(language_line(nb));
    let mk = lines_of(kernel_line(nb));
    let mw = lines_of(warnings_line(nb));
    let m = ml + mk + mw;
    let st1 = ParseState { language: trim_opt(notebook_language(nb)), ..st };
    let st2 = ParseState { kernel: trim_opt(notebook_kernel(nb)), ..st1 };
    match nb.metadata.language_info {
        Some(li) => {
            lemma_meta_language(li.name@, st);
            assert(ml == seq![strip_cr("- Language: "@ + li.name@)]);
            assert(lines[j] == m[0]);
            lemma_meta_step(lines, j, st, st1);
        },
        None => {
            assert(ml =~= Seq::<Seq<char>>::empty());
            assert(st1 == st);
        },
    }
    let j1 = j + ml.len();
    match nb.metadata.kernelspec {
        Some(k) => {
            lemma_meta_kernel(k.name@, st1);
            assert(mk == seq![strip_cr("- Kernel: "@ + k.name@)]);
            assert(lines[j1] == m[ml.len() as int]);
            lemma_meta_step(lines, j1, st1, st2);
        },
        None => {
            assert(mk =~= Seq::<Seq<char>>::empty());
            assert(st2 == st1);
        },
    }
    let j2 = j1 + mk.len();
    lemma_warnings_line(nb);
    if warnings_line(nb).len() > 0 {
        let rest = choose|rest: Seq<char>|
            #![trigger "- Warnings: "@ + rest]
            lines_of(warnings_line(nb)) == seq![strip_cr("- Warnings: "@ + rest)];
        reveal_strlit("- Warnings: ");
        reveal_strlit("- Warnings:");
        let label = "- Warnings:"@;
        assert("- Warnings: "@ + rest =~= label + (seq![' '] + rest));
        lemma_meta_other(label, seq![' '] + rest, st2);
        assert(lines[j2] == m[(ml.len() + mk.len()) as int]);
        lemma_meta_step(lines, j2, st2, st2);
    } else {
        assert(mw.len() == 0);
    }
    assert(st2 == meta_state(nb, st));
}

/// The parser reads a rendering's metadata block up to its closing `---` and
/// gathers the notebook's language and kernel.
proof fn lemma_meta_block(lines: Seq<Seq<char>>, j: int, nb: Notebook, st: ParseState)
    requires
        doc_reads_back(nb, None),
        st.language is None,
        st.kernel is None,
        0 <= j,
        j + meta_block_lines(nb).len() <= lines.len(),
        forall|k: int|
            0 <= k < meta_block_lines(nb).len() ==> lines[j + k] == #[trigger] meta_block_lines(
                nb,
            )[k],
    ensures
        meta_block_lines(nb).len() >= 3,
        parse_meta(lines, j, st) == (
            j + meta_block_lines(nb).len() - 1,
            meta_state(nb, st),
        ),
{
    let mb = meta_block_lines(nb);
    let m = lines_of(language_line(nb)) + lines_of(kernel_line(nb)) + lines_of(warnings_line(nb));
    let e = Seq::<char>::empty();
    let fc = fmt_content(nb);
    assert(mb =~= seq![fc] + m + seq![e, "---"@]);
    assert(lines[j] == mb[0]);
    assert(lines[j] == fc);
    assert(!starts_with(trim(fc), "---"@) && meta_line_effect(trim(fc), st) == st) by {
        reveal_strlit("- Format: nbformat ");
        reveal_strlit("- Format:");
        let label = "- Format:"@;
        let rest = " nbformat "@ + decimal(nb.nbformat as nat) + "."@ + decimal(
            nb.nbformat_minor as nat,
        );
        reveal_strlit(" nbformat ");
        assert(fc =~= label + rest);
        lemma_meta_other(label, rest, st);
        lemma_fmt_line(nb);
    }
    lemma_meta_step(lines, j, st, st);
    assert forall|k: int| 0 <= k < m.len() implies lines[(j + 1) + k] == #[trigger] m[k] by {
        assert(mb[1 + k] == m[k]);
        assert(lines[j + (1 + k)] == mb[1 + k]);
    }
    lemma_meta_optional(lines, j + 1, nb, st);
    let st2 = meta_state(nb, st);
    let je = j + 1 + m.len();
    lemma_quiet_literals();
    assert(lines[je] == e) by {
        assert(mb[1 + m.len() as int] == e);
        assert(lines[j + (1 + m.len())] == mb[1 + m.len() as int]);
    }
    assert(lines[je + 1] == "---"@) by {
        assert(mb[2 + m.len() as int] == "---"@);
        assert(lines[j + (2 + m.len())] == mb[2 + m.len() as int]);
    }
    assert(!starts_with(e, "---"@) && meta_line_effect(e, st2) == st2) by {
        reveal_strlit("---");
        reveal_strlit("- Language:");
        reveal_strlit("- Kernel:");
    }
    lemma_meta_step(lines, je, st2, st2);
    assert(starts_with(trim("---"@), "---"@)) by {
        assert("---"@.take(3) =~= "---"@) by {
            reveal_strlit("---");
        }
        reveal_strlit("---");
    }
}

/// The title line of a rendering is passed over by the parser.
proof fn lemma_title_quiet(f: Option<Seq<char>>)
    ensures
        quiet(strip_cr("# Notebook: "@ + title_of(f))),
{
    reveal_strlit("# Notebook: ");
    reveal_strlit("## Metadata");
    reveal_strlit("## Cell:");
    let x0 = "# Notebook: "@ + title_of(f);
    let q = seq!['#', ' ', 'N'];
    assert(x0.take(3) =~= q);
    lemma_strip_cr_keeps_prefix(x0, q);
    assert(!is_ws('#') && !is_ws('N'));
    lemma_trim_keeps_prefix(strip_cr(x0), q);
    let m = trim(strip_cr(x0));
    assert(m[1] == ' ') by {
        assert(m.take(3)[1] == q[1]);
    }
    lemma_differ_at(m, "## Metadata"@, 1);
    lemma_differ_at(m, "## Cell:"@, 1);
}

/// The parser reads a rendering's head, title and metadata, and gathers the
/// notebook's language and kernel.
proof fn lemma_parse_head(nb: Notebook, f: Option<Seq<char>>)
    requires
        doc_reads_back(nb, f),
    ensures
        ({
            let lines = lines_of(notebook_text(nb, f));
            parse_doc(lines, 0, empty_parse_state()) == parse_doc(
                lines,
                head_meta_lines(nb, f).len() as int,
                ParseState {
                    language: trim_opt(notebook_language(nb)),
                    kernel: trim_opt(notebook_kernel(nb)),
                    ..empty_parse_state()
                },
            )
        }),
{
    let e = Seq::<char>::empty();
    let hm = "## Metadata"@;
    let x0 = "# Notebook: "@ + title_of(f);
    let h = head_meta_lines(nb, f);
    let mb = meta_block_lines(nb);
    let n = mb.len() as int;
    let abl = all_block_lines(nb.cells@, notebook_language(nb));
    lemma_doc_lines(nb, f);
    let lines = lines_of(notebook_text(nb, f));
    assert(lines == h + abl);
    let st0 = empty_parse_state();
    assert(h =~= seq![strip_cr(x0), e, hm] + mb + seq![e]);
    lemma_title_quiet(f);
    lemma_quiet_literals();
    assert(lines[0] == strip_cr(x0));
    assert(lines[1] == e);
    lemma_skip_quiet(lines, 0, 2, st0);
    assert(lines[2] == hm);
    assert(trim(hm) == hm && starts_with(hm, hm)) by {
        reveal_strlit("## Metadata");
        lemma_trim_solid(hm);
        assert(hm.take(hm.len() as int) =~= hm);
    }
    assert(doc_reads_back(nb, None));
    assert forall|k: int| 0 <= k < mb.len() implies lines[3 + k] == #[trigger] mb[k] by {
        assert(h[3 + k] == mb[k]);
    }
    lemma_meta_block(lines, 3, nb, st0);
    let st1 = ParseState {
        language: trim_opt(notebook_language(nb)),
        kernel: trim_opt(notebook_kernel(nb)),
        ..empty_parse_state()
    };
    assert(parse_doc(lines, 2, st0) == parse_doc(lines, 2 + n, st1));
    assert(lines[2 + n] == "---"@) by {
        assert(h[2 + n] == mb[n - 1]);
    }
    assert(lines[3 + n] == e) by {
        assert(h[3 + n] == e);
    }
    assert(h.len() == 4 + mb.len());
    lemma_skip_quiet(lines, 2 + n, h.len() as int, st1);
}

/// Reading back the rendering of a notebook gives its language and kernel
/// names (trimmed) and its cells, each with its type, identifier and source,
/// and no warning.
pub proof fn law_parse_reads_rendering_back(nb: Notebook, f: Option<Seq<char>>)
    requires
        doc_reads_back(nb, f),
    ensures
        parse_text(notebook_text(nb, f)) == (ParseState {
            language: trim_opt(notebook_language(nb)),
            kernel: trim_opt(notebook_kernel(nb)),
            cells: reread_cells(nb.cells@, notebook_language(nb)),
            warnings: Seq::empty(),
        }),
{
    let lang = notebook_language(nb);
    let h = head_meta_lines(nb, f);
    let abl = all_block_lines(nb.cells@, lang);
    lemma_doc_lines(nb, f);
    let lines = lines_of(notebook_text(nb, f));
    lemma_parse_head(nb, f);
    let st1 = ParseState {
        language: trim_opt(lang),
        kernel: trim_opt(notebook_kernel(nb)),
        ..empty_parse_state()
    };
    assert forall|k: int| 0 <= k < abl.len() implies lines[h.len() + k] == abl[k] by {
        assert(lines[h.len() + k] == (h + abl)[h.len() + k]);
    }
    lemma_parse_blocks(lines, h.len() as int, nb.cells@, lang, st1);
    assert(st1.cells + reread_cells(nb.cells@, lang) =~= reread_cells(nb.cells@, lang));
}

} // verus!
