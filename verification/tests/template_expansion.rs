use shader_provenance::{
    apply_template, count_newlines, ErrId, LineRange, NamedStorages, StringStorage,
};

#[test]
fn literal_spans_and_sections_interleave() {
    let mut first = StringStorage::default();
    first.add_identifier_string(ErrId(100), "AA\nBB");
    let mut second = StringStorage::default();
    second.add_string("cc\n");
    second.add_identifier_string(ErrId(200), "dd");

    let mut storages = NamedStorages::default();
    storages.insert("first".to_owned(), first);
    storages.insert("second".to_owned(), second);

    let out = apply_template("L1\n//%first//%\nL2//%second//%L3", storages);
    assert_eq!(out.storage, "L1\nAA\nBB\nL2cc\nddL3".to_owned());
    // first landed with its range shifted by the one terminator before it
    assert_eq!(out.line_numbers.get(ErrId(100)), Some(LineRange::new(2, 4)));
    // second landed after four terminators
    assert_eq!(out.line_numbers.get(ErrId(200)), Some(LineRange::new(5, 6)));
    assert_eq!(out.current_line_no, 1 + out.storage.matches('\n').count());
}

#[test]
fn template_without_placeholders_is_copied() {
    let storages = NamedStorages::default();
    let out = apply_template("plain text\nwith lines\n", storages);
    assert_eq!(out.storage, "plain text\nwith lines\n".to_owned());
    assert_eq!(out.current_line_no, 3);
    assert_eq!(out.line_numbers.get(ErrId(0)), None);
}

#[test]
fn empty_template_yields_one_empty_span() {
    let storages = NamedStorages::default();
    let out = apply_template("", storages);
    assert_eq!(out.storage, "".to_owned());
    assert_eq!(out.current_line_no, 1);
}

#[test]
fn counting_newlines() {
    assert_eq!(count_newlines(""), 0);
    assert_eq!(count_newlines("abc"), 0);
    assert_eq!(count_newlines("\n"), 1);
    assert_eq!(count_newlines("a\nb\nc\n"), 3);
    assert_eq!(count_newlines("\n\n\n\n"), 4);
}
