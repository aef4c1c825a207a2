use jupyter_edit::error::EditError;
use jupyter_edit::format::{
    format_output, format_single_cell, llm_format_to_notebook, notebook_to_llm_format,
    parse_cell_header, parse_cell_source, summarize_data, truncate,
};
use jupyter_edit::notebook::{
    Cell, CellMetadata, CellSource, CellType, JsonMember, JsonValue, KernelSpec, LanguageInfo,
    Notebook, NotebookMetadata, Output,
};

fn s(x: &str) -> String {
    x.to_string()
}

fn object(members: Vec<(&str, JsonValue)>) -> JsonValue {
    JsonValue::Object(
        members.into_iter().map(|(k, v)| JsonMember { key: s(k), value: v }).collect(),
    )
}

fn cell(t: CellType, id: Option<&str>, src: &str, outputs: Option<Vec<Output>>) -> Cell {
    Cell {
        id: id.map(s),
        cell_type: t,
        source: CellSource::Single(s(src)),
        metadata: CellMetadata::default(),
        outputs,
        execution_count: None,
        attachments: None,
    }
}

fn sample_notebook() -> Notebook {
    let mut nb = Notebook::new();
    nb.metadata.language_info =
        Some(LanguageInfo { name: s("python"), file_extension: Some(s(".py")), mimetype: None });
    nb.metadata.kernelspec = Some(KernelSpec { name: s("python3"), display_name: s("Python 3") });
    nb.cells.push(cell(CellType::Markdown, Some("m1"), "# Title", None));
    nb.cells.push(cell(
        CellType::Code,
        Some("c1"),
        "print(1)",
        Some(vec![Output::Stream {
            name: s("stdout"),
            text: CellSource::Multi(vec![s("1\n"), s("  \n")]),
        }]),
    ));
    nb
}

#[test]
fn truncate_keeps_short_text() {
    assert_eq!(truncate("hello", 100), "hello");
    assert_eq!(truncate(&"a".repeat(100), 100), "a".repeat(100));
}

#[test]
fn truncate_cuts_long_text_at_byte_count() {
    assert_eq!(truncate(&"a".repeat(150), 100), format!("{}...", "a".repeat(100)));
    // 60 two-byte characters: byte 100 lies between characters 50 and 51.
    assert_eq!(truncate(&"é".repeat(60), 100), format!("{}...", "é".repeat(50)));
}

#[test]
fn summarize_plain_text_html_images() {
    let plain = object(vec![("text/plain", JsonValue::String(s("42")))]);
    assert_eq!(summarize_data(&plain), "42");
    let plain_not_string = object(vec![("text/plain", JsonValue::Null)]);
    assert_eq!(summarize_data(&plain_not_string), "");
    let html = object(vec![("text/html", JsonValue::String(s("<b>é</b>")))]);
    assert_eq!(summarize_data(&html), "<html: 9 chars>");
    let png = object(vec![("image/png", JsonValue::String(s("iVBOR")))]);
    assert_eq!(summarize_data(&png), "<image data>");
    let jpeg = object(vec![("image/jpeg", JsonValue::Null)]);
    assert_eq!(summarize_data(&jpeg), "<image data>");
    let other = object(vec![("application/json", JsonValue::Null)]);
    assert_eq!(summarize_data(&other), "<data>");
    assert_eq!(summarize_data(&JsonValue::Array(vec![])), "<data>");
    let long = object(vec![("text/plain", JsonValue::String("x".repeat(120)))]);
    assert_eq!(summarize_data(&long), format!("{}...", "x".repeat(100)));
}

#[test]
fn format_each_output_kind() {
    let stream = Output::Stream { name: s("stdout"), text: CellSource::Single(s("hi\n\n")) };
    assert_eq!(format_output(&stream), "- Stream (stdout): hi");
    let result = Output::ExecuteResult {
        data: object(vec![("text/plain", JsonValue::String(s("3")))]),
        metadata: object(vec![]),
        execution_count: Some(1),
    };
    assert_eq!(format_output(&result), "- Result: 3");
    let display = Output::DisplayData {
        data: object(vec![("image/png", JsonValue::String(s("..."))), ("text/plain", JsonValue::String(s("<Figure>")))]),
        metadata: object(vec![]),
    };
    assert_eq!(format_output(&display), "- Display (image/png): <Figure>");
    let display_empty = Output::DisplayData { data: JsonValue::Null, metadata: JsonValue::Null };
    assert_eq!(format_output(&display_empty), "- Display (unknown): <data>");
    let error = Output::Error {
        ename: s("ValueError"),
        evalue: s("bad"),
        traceback: vec![s("line 1"), s("line 2")],
    };
    assert_eq!(
        format_output(&error),
        "- Error: ValueError: bad\n  Traceback:\n  - line 1\n  - line 2\n"
    );
    let error_no_tb = Output::Error { ename: s("E"), evalue: s("v"), traceback: vec![] };
    assert_eq!(format_output(&error_no_tb), "- Error: E: v");
}

#[test]
fn format_single_cells() {
    let nb = sample_notebook();
    assert_eq!(
        format_single_cell(&nb.cells[0], &nb),
        "## Cell: Markdown (id: m1)\n\n### Source\n# Title\n\n---\n"
    );
    assert_eq!(
        format_single_cell(&nb.cells[1], &nb),
        "## Cell: Code (id: c1)\n\n### Source\n```python\nprint(1)\n```\n\n### Outputs\n- Stream (stdout): 1\n\n---\n"
    );
    let raw = cell(CellType::Raw, None, "raw text\n", None);
    assert_eq!(
        format_single_cell(&raw, &Notebook::new()),
        "## Cell: Raw (id: <no-id>)\n\n### Source\n```raw\nraw text\n\n```\n\n---\n"
    );
    let code = cell(CellType::Code, Some("x"), "", Some(vec![]));
    assert_eq!(
        format_single_cell(&code, &Notebook::new()),
        "## Cell: Code (id: x)\n\n### Source\n```python\n\n```\n\n---\n"
    );
}

#[test]
fn format_whole_notebook() {
    let mut nb = sample_notebook();
    nb.metadata.warnings = Some(vec![s("w1"), s("w2")]);
    let text = notebook_to_llm_format(&nb, Some("demo.ipynb"));
    assert_eq!(
        text,
        "# Notebook: demo.ipynb\n\n## Metadata\n- Format: nbformat 4.5\n- Language: python\n- Kernel: python3\n- Warnings: w1, w2\n\n---\n\n\
## Cell: Markdown (id: m1)\n\n### Source\n# Title\n\n---\n\n\
## Cell: Code (id: c1)\n\n### Source\n```python\nprint(1)\n```\n\n### Outputs\n- Stream (stdout): 1\n\n---\n\n"
    );
    let empty = Notebook::new();
    assert_eq!(
        notebook_to_llm_format(&empty, None),
        "# Notebook: notebook\n\n## Metadata\n- Format: nbformat 4.5\n\n---\n\n"
    );
}

#[test]
fn cell_headers() {
    let (t, id) = parse_cell_header("## Cell: Code (id: abc-1)").unwrap();
    assert_eq!(t, CellType::Code);
    assert_eq!(id, Some(s("abc-1")));
    let (t, id) = parse_cell_header("## Cell: Markdown (id: a (b))").unwrap();
    assert_eq!(t, CellType::Markdown);
    assert_eq!(id, Some(s("a (b)")));
    let (t, _) = parse_cell_header("## Cell: Raw (id: r)").unwrap();
    assert_eq!(t, CellType::Raw);
    assert!(parse_cell_header("## Cell: Code (id: )").is_none());
    assert!(parse_cell_header("## Cell: Python (id: x)").is_none());
    assert!(parse_cell_header("## Cell: Code (id: x) ").is_none());
    assert!(parse_cell_header("## Cell: Code").is_none());
}

#[test]
fn cell_sources() {
    let lines: Vec<String> =
        ["", "### Source", "```python", "a = 1", "### Source", "```", "", "---"].iter().map(|x| s(x)).collect();
    let (src, n) = parse_cell_source(&lines, CellType::Code).unwrap();
    assert_eq!(src, "a = 1\n");
    assert_eq!(n, 6);
    let md: Vec<String> = ["", "### Source", "Hello", "  world", "", "---", "x"].iter().map(|x| s(x)).collect();
    let (src, n) = parse_cell_source(&md, CellType::Markdown).unwrap();
    assert_eq!(src, "Hello\n  world\n\n");
    assert_eq!(n, 5);
    let none: Vec<String> = ["no source here"].iter().map(|x| s(x)).collect();
    let (src, n) = parse_cell_source(&none, CellType::Code).unwrap();
    assert_eq!(src, "");
    assert_eq!(n, 0);
}

#[test]
fn parse_markdown_back() {
    let text = "# Notebook: x\n\n## Metadata\n- Format: nbformat 4.5\n- Language:  julia \n- Kernel: julia-1.9\n\n---\n\n\
## Cell: Code (id: c1)\n\n### Source\n```julia\nx = 1\ny = 2\n```\n\n---\n\n\
## Cell: Oops\n\n\
## Cell: Markdown (id: m1)\n\n### Source\nSome *text*\n\n---\n";
    let (nb, warnings) = llm_format_to_notebook(text).unwrap();
    assert_eq!(warnings, vec![s("Could not parse cell header at line 20")]);
    assert_eq!(nb.metadata.warnings, Some(warnings.clone()));
    assert_eq!(nb.nbformat, 4);
    assert_eq!(nb.nbformat_minor, 5);
    assert_eq!(nb.metadata.language_info.as_ref().unwrap().name, "julia");
    let k = nb.metadata.kernelspec.as_ref().unwrap();
    assert_eq!(k.name, "julia-1.9");
    assert_eq!(k.display_name, "julia-1.9");
    assert_eq!(nb.cells.len(), 2);
    assert_eq!(nb.cells[0].id.as_deref(), Some("c1"));
    assert_eq!(nb.cells[0].cell_type, CellType::Code);
    assert_eq!(nb.cells[0].source.as_string(), "x = 1\ny = 2\n");
    assert!(nb.cells[0].outputs.is_none());
    assert_eq!(nb.cells[1].id.as_deref(), Some("m1"));
    assert_eq!(nb.cells[1].cell_type, CellType::Markdown);
    assert_eq!(nb.cells[1].source.as_string(), "Some *text*\n\n");
}

#[test]
fn parse_without_cells_fails() {
    match llm_format_to_notebook("# Notebook: x\n\nno cells\n") {
        Err(e) => {
            assert!(matches!(e, EditError::NoValidCells));
            assert_eq!(
                e.message(),
                "Could not parse notebook content. No valid cells found (minimum 1 required)"
            );
        }
        Ok(_) => panic!("expected an error"),
    }
}

#[test]
fn parse_without_warnings_leaves_metadata_empty() {
    let (nb, warnings) = llm_format_to_notebook("## Cell: Raw (id: r)\n### Source\n```\nraw\n```\n").unwrap();
    assert!(warnings.is_empty());
    assert!(nb.metadata.warnings.is_none());
    assert!(nb.metadata.language_info.is_none());
    assert_eq!(nb.cells[0].source.as_string(), "raw\n");
}

#[test]
fn metadata_lines_override_and_stop_at_rule() {
    let (nb, _) = llm_format_to_notebook(
        "## Metadata\n- Language: a\n- Language: b\n  --- \n- Kernel: k\n## Cell: Code (id: 1)\n### Source\n```\n```\n",
    )
    .unwrap();
    assert_eq!(nb.metadata.language_info.unwrap().name, "b");
    assert!(nb.metadata.kernelspec.is_none());
    let _ = NotebookMetadata::default();
}

#[test]
fn rendering_reads_back() {
    let mut nb = sample_notebook();
    nb.metadata.warnings = Some(vec![s("w1")]);
    nb.cells.push(cell(CellType::Raw, Some("r1"), "raw\r\ntext", None));
    let text = notebook_to_llm_format(&nb, Some("demo.ipynb"));
    let (back, warnings) = llm_format_to_notebook(&text).unwrap();
    assert!(warnings.is_empty());
    assert_eq!(back.metadata.language_info.as_ref().unwrap().name, "python");
    assert_eq!(back.metadata.kernelspec.as_ref().unwrap().name, "python3");
    assert_eq!(back.cells.len(), 3);
    assert_eq!(back.cells[0].id.as_deref(), Some("m1"));
    assert_eq!(back.cells[0].cell_type, CellType::Markdown);
    assert_eq!(back.cells[0].source.as_string(), "# Title\n\n");
    assert_eq!(back.cells[1].id.as_deref(), Some("c1"));
    assert_eq!(back.cells[1].cell_type, CellType::Code);
    assert_eq!(back.cells[1].source.as_string(), "print(1)\n");
    assert_eq!(back.cells[2].id.as_deref(), Some("r1"));
    assert_eq!(back.cells[2].cell_type, CellType::Raw);
    assert_eq!(back.cells[2].source.as_string(), "raw\ntext\n");
}

#[test]
fn rendering_is_cells_rendered_one_by_one() {
    let nb = sample_notebook();
    let text = notebook_to_llm_format(&nb, None);
    let mut cells = String::new();
    for c in &nb.cells {
        cells.push_str(&format_single_cell(c, &nb));
        cells.push('\n');
    }
    assert!(text.ends_with(&cells));
    assert_eq!(
        text,
        format!("# Notebook: notebook\n\n## Metadata\n- Format: nbformat 4.5\n- Language: python\n- Kernel: python3\n\n---\n\n{}", cells)
    );
}

#[test]
fn rendering_reads_back_trimmed_names() {
    let mut nb = sample_notebook();
    nb.metadata.language_info.as_mut().unwrap().name = s(" julia\t");
    nb.metadata.kernelspec.as_mut().unwrap().name = s("k1 \r");
    let text = notebook_to_llm_format(&nb, None);
    let (back, warnings) = llm_format_to_notebook(&text).unwrap();
    assert!(warnings.is_empty());
    assert_eq!(back.metadata.language_info.as_ref().unwrap().name, "julia");
    assert_eq!(back.metadata.kernelspec.as_ref().unwrap().name, "k1");
    assert_eq!(back.cells.len(), 2);
    assert_eq!(back.cells[1].source.as_string(), "print(1)\n");
}
