use jupyter_edit::error::EditError;
use jupyter_edit::notebook::{Cell, CellMetadata, CellSource, CellType, Notebook};
use jupyter_edit::tools::{
    add_cell, delete_cell, get_cell, list_cells, parse_cell_type, read_notebook, update_cell,
    write_notebook, AddCellRequest, DeleteCellRequest, GetCellRequest, ListCellsRequest,
    ReadNotebookRequest, UpdateCellRequest, WriteNotebookRequest, line_window, DEFAULT_READ_LIMIT,
};

fn s(x: &str) -> String {
    x.to_string()
}

fn cell(t: CellType, id: Option<&str>, src: &str) -> Cell {
    Cell {
        id: id.map(s),
        cell_type: t,
        source: CellSource::Single(s(src)),
        metadata: CellMetadata::default(),
        outputs: None,
        execution_count: None,
        attachments: None,
    }
}

fn three_cells() -> Notebook {
    let mut nb = Notebook::new();
    nb.cells.push(cell(CellType::Code, Some("a"), "x = 1"));
    nb.cells.push(cell(CellType::Markdown, Some("b"), "# B"));
    nb.cells.push(cell(CellType::Raw, None, "raw"));
    nb
}

fn is_uuid_v4(id: &str) -> bool {
    let b: Vec<char> = id.chars().collect();
    b.len() == 36
        && b.iter().enumerate().all(|(i, c)| {
            if [8, 13, 18, 23].contains(&i) {
                *c == '-'
            } else {
                c.is_ascii_digit() || ('a'..='f').contains(c)
            }
        })
        && b[14] == '4'
        && "89ab".contains(b[19])
}

#[test]
fn read_notebook_uses_file_name() {
    let nb = three_cells();
    let text = read_notebook(ReadNotebookRequest { path: s("/tmp/dir/demo.ipynb"), limit: None, offset: None }, &nb);
    assert!(text.starts_with("# Notebook: demo.ipynb\n\n## Metadata\n"));
    assert!(text.contains("## Cell: Raw (id: <no-id>)"));
    let text = read_notebook(ReadNotebookRequest { path: s("/tmp/.."), limit: None, offset: None }, &nb);
    assert!(text.starts_with("# Notebook: notebook\n"));
}

#[test]
fn write_notebook_parses_content() {
    let (nb, resp) = write_notebook(WriteNotebookRequest {
        path: s("/tmp/out.ipynb"),
        content: s("## Cell: Code (id: 7)\n### Source\n```\nprint()\n```\n## Cell: ?\n"),
    })
    .unwrap();
    assert_eq!(resp.message, "Notebook written successfully to: /tmp/out.ipynb");
    assert_eq!(resp.warnings, vec![s("Could not parse cell header at line 6")]);
    assert_eq!(nb.cells.len(), 1);
    assert_eq!(nb.cells[0].source.as_string(), "print()\n");
    match write_notebook(WriteNotebookRequest { path: s("p"), content: s("nothing") }) {
        Err(EditError::NoValidCells) => {}
        _ => panic!("expected NoValidCells"),
    }
}

#[test]
fn list_cells_previews() {
    let mut nb = three_cells();
    nb.cells.push(cell(CellType::Code, Some("long"), &"y".repeat(120)));
    let infos = list_cells(ListCellsRequest { path: s("p") }, &nb);
    assert_eq!(infos.len(), 4);
    assert_eq!(infos[0].id.as_deref(), Some("a"));
    assert_eq!(infos[0].cell_type, "code");
    assert_eq!(infos[1].cell_type, "markdown");
    assert_eq!(infos[2].cell_type, "raw");
    assert_eq!(infos[2].id, None);
    for (i, info) in infos.iter().enumerate() {
        assert_eq!(info.index, i);
    }
    assert_eq!(infos[0].source_preview, "x = 1");
    assert_eq!(infos[3].source_preview, format!("{}...", "y".repeat(100)));
}

#[test]
fn get_cell_by_id() {
    let nb = three_cells();
    let text = get_cell(GetCellRequest { path: s("p"), cell_id: s("b") }, &nb).unwrap();
    assert_eq!(text, "## Cell: Markdown (id: b)\n\n### Source\n# B\n\n---\n");
    match get_cell(GetCellRequest { path: s("p"), cell_id: s("zz") }, &nb) {
        Err(e) => assert_eq!(e.message(), "Cell not found with ID: zz"),
        Ok(_) => panic!("expected an error"),
    }
}

#[test]
fn add_cell_after_id_and_at_end() {
    let mut nb = three_cells();
    let r = add_cell(
        AddCellRequest {
            path: s("p"),
            cell_type: s("markdown"),
            content: s("new"),
            after_cell_id: Some(s("a")),
            after_index: None,
        },
        &mut nb,
    )
    .unwrap();
    assert!(is_uuid_v4(&r.cell_id));
    assert_eq!(r.message, format!("Cell added successfully with ID: {}", r.cell_id));
    assert_eq!(nb.cells.len(), 4);
    assert_eq!(nb.cells[1].id.as_deref(), Some(r.cell_id.as_str()));
    assert_eq!(nb.cells[1].cell_type, CellType::Markdown);
    assert_eq!(nb.cells[1].source.as_string(), "new");
    assert_eq!(nb.cells[2].id.as_deref(), Some("b"));

    let r2 = add_cell(
        AddCellRequest { path: s("p"), cell_type: s("raw"), content: s("end"), after_cell_id: None, after_index: None },
        &mut nb,
    )
    .unwrap();
    assert_eq!(nb.cells.len(), 5);
    assert_eq!(nb.cells[4].id.as_deref(), Some(r2.cell_id.as_str()));
    assert_ne!(r.cell_id, r2.cell_id);
}

#[test]
fn add_cell_errors() {
    let mut nb = three_cells();
    match add_cell(
        AddCellRequest { path: s("p"), cell_type: s("Code"), content: s(""), after_cell_id: None, after_index: None },
        &mut nb,
    ) {
        Err(e) => assert_eq!(
            e.message(),
            "Invalid cell type: Code. Must be 'code', 'markdown', or 'raw'"
        ),
        Ok(_) => panic!("expected an error"),
    }
    match add_cell(
        AddCellRequest {
            path: s("p"),
            cell_type: s("code"),
            content: s(""),
            after_cell_id: Some(s("missing")),
            after_index: None,
        },
        &mut nb,
    ) {
        Err(e) => assert_eq!(e.message(), "Cell to insert after not found: missing"),
        Ok(_) => panic!("expected an error"),
    }
    assert_eq!(nb.cells.len(), 3);
    assert!(matches!(parse_cell_type("raw"), Ok(CellType::Raw)));
    assert!(matches!(parse_cell_type("md"), Err(EditError::InvalidCellType(_))));
}

#[test]
fn update_cell_replaces_source() {
    let mut nb = three_cells();
    let m = update_cell(UpdateCellRequest { path: s("p"), cell_id: s("a"), content: s("x = 2") }, &mut nb)
        .unwrap();
    assert_eq!(m, "Cell updated successfully: a");
    assert_eq!(nb.cells[0].source.as_string(), "x = 2");
    assert_eq!(nb.cells[0].cell_type, CellType::Code);
    assert!(update_cell(UpdateCellRequest { path: s("p"), cell_id: s("q"), content: s("") }, &mut nb)
        .is_err());
}

#[test]
fn delete_cell_removes_first_match() {
    let mut nb = three_cells();
    let m = delete_cell(DeleteCellRequest { path: s("p"), cell_id: s("b") }, &mut nb).unwrap();
    assert_eq!(m, "Cell deleted successfully: b (type: markdown)");
    assert_eq!(nb.cells.len(), 2);
    assert_eq!(nb.cells[1].source.as_string(), "raw");
    match delete_cell(DeleteCellRequest { path: s("p"), cell_id: s("b") }, &mut nb) {
        Err(e) => assert_eq!(e.message(), "Cell not found with ID: b"),
        Ok(_) => panic!("expected an error"),
    }
}

#[test]
fn add_then_delete_restores_cells() {
    let mut nb = three_cells();
    let r = add_cell(
        AddCellRequest { path: s("p"), cell_type: s("code"), content: s("tmp"), after_cell_id: Some(s("b")), after_index: None },
        &mut nb,
    )
    .unwrap();
    delete_cell(DeleteCellRequest { path: s("p"), cell_id: r.cell_id }, &mut nb).unwrap();
    let ids: Vec<Option<String>> = nb.cells.iter().map(|c| c.id.clone()).collect();
    assert_eq!(ids, vec![Some(s("a")), Some(s("b")), None]);
}

#[test]
fn update_then_get_shows_new_source() {
    let mut nb = three_cells();
    update_cell(UpdateCellRequest { path: s("p"), cell_id: s("b"), content: s("changed") }, &mut nb)
        .unwrap();
    let text = get_cell(GetCellRequest { path: s("p"), cell_id: s("b") }, &nb).unwrap();
    assert_eq!(text, "## Cell: Markdown (id: b)\n\n### Source\nchanged\n\n---\n");
}

#[test]
fn generated_ids_are_v4_uuids() {
    let c = Cell::new(CellType::Code, s("x"));
    assert!(is_uuid_v4(c.id.as_deref().unwrap()));
    let id = Cell::generate_id();
    assert!(is_uuid_v4(&id));
    let mut c2 = cell(CellType::Code, None, "");
    let g = c2.get_or_generate_id();
    assert!(is_uuid_v4(&g));
    assert_eq!(c2.id.as_deref(), Some(g.as_str()));
    let mut c3 = cell(CellType::Code, Some("keep"), "");
    assert_eq!(c3.get_or_generate_id(), "keep");
}

#[test]
fn multi_line_source_joins() {
    let src = CellSource::Multi(vec![s("a\n"), s("b"), s("")]);
    assert_eq!(src.as_string(), "a\nb");
    assert_eq!(CellSource::Multi(vec![]).as_string(), "");
}

#[test]
fn read_notebook_titles_with_plain_file_name() {
    let mut nb = jupyter_edit::notebook::Notebook::new();
    nb.cells.push(Cell {
        id: Some(s("c1")),
        cell_type: CellType::Code,
        source: CellSource::Multi(vec![s("x = 1\n"), s("x")]),
        metadata: CellMetadata::default(),
        outputs: None,
        execution_count: None,
        attachments: None,
    });
    let text = read_notebook(ReadNotebookRequest { path: s("/tmp/a.ipynb"), limit: None, offset: None }, &nb);
    assert_eq!(
        text,
        "# Notebook: a.ipynb\n\n## Metadata\n- Format: nbformat 4.5\n\n---\n\n## Cell: Code (id: c1)\n\n### Source\n```python\nx = 1\nx\n```\n\n---\n\n"
    );
    let text = read_notebook(ReadNotebookRequest { path: s("a.ipynb"), limit: None, offset: None }, &nb);
    assert!(text.starts_with("# Notebook: a.ipynb\n"));
}

#[test]
fn read_notebook_line_window() {
    let nb = three_cells();
    let whole = read_notebook(ReadNotebookRequest { path: s("n.ipynb"), limit: None, offset: None }, &nb);
    let lines: Vec<&str> = whole.lines().collect();
    let part = read_notebook(ReadNotebookRequest { path: s("n.ipynb"), limit: Some(3), offset: Some(2) }, &nb);
    assert_eq!(part, lines[2..5].join("\n"));
    assert_eq!(part, "## Metadata\n- Format: nbformat 4.5\n");
    let head = read_notebook(ReadNotebookRequest { path: s("n.ipynb"), limit: Some(1), offset: None }, &nb);
    assert_eq!(head, "# Notebook: n.ipynb");
    let tail = read_notebook(ReadNotebookRequest { path: s("n.ipynb"), limit: None, offset: Some(lines.len() - 2) }, &nb);
    assert_eq!(tail, lines[lines.len() - 2..].join("\n"));
    let none = read_notebook(ReadNotebookRequest { path: s("n.ipynb"), limit: Some(5), offset: Some(1000) }, &nb);
    assert_eq!(none, "");
    assert_eq!(line_window("a\nb\nc\n", Some(1), Some(1)), "b");
    assert_eq!(line_window("a\nb\nc\n", None, Some(100)), "a\nb\nc");
    assert_eq!(DEFAULT_READ_LIMIT, 100);
}

#[test]
fn add_cell_after_index() {
    let mut nb = three_cells();
    let r = add_cell(
        AddCellRequest { path: s("p"), cell_type: s("code"), content: s("i"), after_cell_id: None, after_index: Some(0) },
        &mut nb,
    )
    .unwrap();
    assert_eq!(nb.cells.len(), 4);
    assert_eq!(nb.cells[1].id.as_deref(), Some(r.cell_id.as_str()));
    assert_eq!(nb.cells[0].id.as_deref(), Some("a"));
    // an id anchor takes precedence over an index
    let r2 = add_cell(
        AddCellRequest { path: s("p"), cell_type: s("raw"), content: s("j"), after_cell_id: Some(s("b")), after_index: Some(0) },
        &mut nb,
    )
    .unwrap();
    assert_eq!(nb.cells[3].id.as_deref(), Some(r2.cell_id.as_str()));
    match add_cell(
        AddCellRequest { path: s("p"), cell_type: s("code"), content: s(""), after_cell_id: None, after_index: Some(5) },
        &mut nb,
    ) {
        Err(e) => {
            assert!(matches!(e, EditError::IndexOutOfRange(5)));
            assert_eq!(e.message(), "Cell index to insert after out of range: 5");
        }
        Ok(_) => panic!("expected an error"),
    }
    assert_eq!(nb.cells.len(), 5);
}
