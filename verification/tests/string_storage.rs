use shader_provenance::{apply_template, ErrId, LineRange, NamedStorages, StringStorage};

#[test]
fn test() {
    let mut s1 = StringStorage::default();
    s1.add_string("1\n2\n3\n");
    s1.add_identifier_string(ErrId(1), "\n4\n5\n");

    assert_eq!(s1.storage, "1\n2\n3\n\n4\n5\n".to_owned());
    assert_eq!(s1.current_line_no, 7);
    assert_eq!(s1.line_numbers.get(ErrId(1)), Some(LineRange::new(4, 8)));

    let mut s2 = StringStorage::default();
    s2.add_string("a\nb");
    s2.add_identifier_string(ErrId(2), "c\nd");

    assert_eq!(s2.storage, "a\nbc\nd".to_owned());
    assert_eq!(s2.current_line_no, 3);
    assert_eq!(s2.line_numbers.get(ErrId(2)), Some(LineRange::new(2, 4)));

    let mut storages = NamedStorages::default();
    storages.insert("s1".to_owned(), s1);
    storages.insert("s2".to_owned(), s2);

    let s = apply_template("abc\n//%s2//%\n\ne\nf\n//%s1//%\n9", storages);

    assert_eq!(s.storage, "abc\na\nbc\nd\n\ne\nf\n1\n2\n3\n\n4\n5\n\n9".to_owned());
    assert_eq!(s.current_line_no, 15);
    assert_eq!(s.line_numbers.get(ErrId(1)), Some(LineRange::new(11, 15)));
    assert_eq!(s.line_numbers.get(ErrId(2)), Some(LineRange::new(3, 5)));
}

#[test]
fn cursor_counts_terminators() {
    let mut s = StringStorage::default();
    assert_eq!(s.current_line_no, 1);
    s.add_string("no terminator");
    assert_eq!(s.current_line_no, 1 + s.storage.matches('\n').count());
    s.add_string("two\nmore\n");
    assert_eq!(s.current_line_no, 1 + s.storage.matches('\n').count());
    s.add_identifier_string(ErrId(9), "x\ny");
    assert_eq!(s.current_line_no, 1 + s.storage.matches('\n').count());
    assert_eq!(s.current_line_no, 4);
}

#[test]
fn recorded_range_contains_every_spanned_line() {
    let mut s = StringStorage::default();
    s.add_string("head\n");
    s.add_identifier_string(ErrId(5), "a\nb\nc");
    // the fragment spans lines 2, 3 and 4; the recorded range is 2..5
    let range = s.line_numbers.get(ErrId(5)).unwrap();
    assert_eq!(range, LineRange::new(2, 5));
    for line in 2..5 {
        assert!(range.contains(line));
        assert_eq!(s.line_numbers.get_identifier(line), Some((ErrId(5), line - 2 + 1)));
    }
}

#[test]
fn splice_shifts_by_cursor_minus_one() {
    let mut a = StringStorage::default();
    a.add_string("one\ntwo\n");
    let cursor = a.current_line_no;
    assert_eq!(cursor, 3);

    let mut b = StringStorage::default();
    b.add_identifier_string(ErrId(7), "x\ny");
    assert_eq!(b.line_numbers.get(ErrId(7)), Some(LineRange::new(1, 3)));
    let b_text = b.storage.clone();

    a.add_string_storage(b);
    // text equals direct append; the range moved by cursor - 1
    assert_eq!(a.storage, format!("one\ntwo\n{}", b_text));
    assert_eq!(a.line_numbers.get(ErrId(7)), Some(LineRange::new(1 + cursor - 1, 3 + cursor - 1)));
}

#[test]
fn index_offset_and_merge() {
    let mut a = shader_provenance::LineNumbersByKey::default();
    a.add(ErrId(1), LineRange::new(1, 4));
    a.add(ErrId(2), LineRange::new(4, 6));
    a.offset(10);
    assert_eq!(a.get(ErrId(1)), Some(LineRange::new(11, 14)));
    assert_eq!(a.get(ErrId(2)), Some(LineRange::new(14, 16)));

    let mut b = shader_provenance::LineNumbersByKey::default();
    b.add(ErrId(3), LineRange::new(2, 3));
    a.extend(b);
    assert_eq!(a.get(ErrId(3)), Some(LineRange::new(2, 3)));
    assert_eq!(a.get(ErrId(4)), None);
}

#[test]
fn reverse_lookup_breaks_ties_by_identifier_order() {
    let mut index = shader_provenance::LineNumbersByKey::default();
    // overlapping ranges: the first identifier in key order wins
    index.add(ErrId(20), LineRange::new(1, 10));
    index.add(ErrId(10), LineRange::new(5, 8));
    assert_eq!(index.get_identifier(6), Some((ErrId(10), 2)));
    assert_eq!(index.get_identifier(3), Some((ErrId(20), 3)));
    assert_eq!(index.get_identifier(10), None);
    assert_eq!(index.find_owner(6), Some((ErrId(10), 2)));
    assert_eq!(index.find_owner(10), None);
}
