use shader_provenance::{
    apply_template, back_map, ErrId, LineRange, NamedStorages, RawDiagnostic, StringStorage,
};

fn expanded_document() -> StringStorage {
    let mut s1 = StringStorage::default();
    s1.add_string("1\n2\n3\n");
    s1.add_identifier_string(ErrId(1), "\n4\n5\n");
    let mut s2 = StringStorage::default();
    s2.add_string("a\nb");
    s2.add_identifier_string(ErrId(2), "c\nd");
    let mut storages = NamedStorages::default();
    storages.insert("s1".to_owned(), s1);
    storages.insert("s2".to_owned(), s2);
    apply_template("abc\n//%s2//%\n\ne\nf\n//%s1//%\n9", storages)
}

#[test]
fn back_maps_to_owner_and_default() {
    let doc = expanded_document();
    assert_eq!(doc.line_numbers.get(ErrId(1)), Some(LineRange::new(11, 15)));
    let diags = vec![
        RawDiagnostic::Line(13, "bad call".to_owned()),
        RawDiagnostic::Line(1, "top level".to_owned()),
    ];
    let errors = back_map(&doc.line_numbers, &diags);
    let owned = errors.get_bucket(ErrId(1)).unwrap();
    assert_eq!(owned.len(), 1);
    assert_eq!(owned[0], (3, "bad call".to_owned()));
    let unattributed = errors.get_bucket(ErrId(0)).unwrap();
    assert_eq!(unattributed.len(), 1);
    assert_eq!(unattributed[0], (1, "top level".to_owned()));
    assert!(errors.get_bucket(ErrId(2)).is_none());
}

#[test]
fn back_map_is_deterministic() {
    let doc = expanded_document();
    let diags = vec![
        RawDiagnostic::Line(13, "one".to_owned()),
        RawDiagnostic::Line(3, "two".to_owned()),
        RawDiagnostic::Unparsed("garbled".to_owned()),
        RawDiagnostic::Line(0, "three".to_owned()),
    ];
    let first = back_map(&doc.line_numbers, &diags);
    let second = back_map(&doc.line_numbers, &diags);
    for id in [ErrId(0), ErrId(1), ErrId(2), ErrId(3)] {
        assert_eq!(first.get_bucket(id), second.get_bucket(id));
    }
}

#[test]
fn lines_outside_every_range_fall_to_default() {
    let doc = expanded_document();
    let diags = vec![
        RawDiagnostic::Line(0, "zero".to_owned()),
        RawDiagnostic::Line(10000, "past the end".to_owned()),
    ];
    let errors = back_map(&doc.line_numbers, &diags);
    let bucket = errors.get_bucket(ErrId(0)).unwrap();
    assert_eq!(bucket.len(), 2);
    assert_eq!(bucket[0], (0, "zero".to_owned()));
    assert_eq!(bucket[1], (10000, "past the end".to_owned()));
    assert!(errors.get_bucket(ErrId(1)).is_none());
    assert!(errors.get_bucket(ErrId(2)).is_none());
}

#[test]
fn unparsed_messages_carry_the_sentinel() {
    let doc = expanded_document();
    let diags = vec![RawDiagnostic::Unparsed("linker exploded".to_owned())];
    let errors = back_map(&doc.line_numbers, &diags);
    let bucket = errors.get_bucket(ErrId(0)).unwrap();
    assert_eq!(bucket[0], (usize::MAX, "linker exploded".to_owned()));
}

#[test]
fn bucket_order_follows_arrival_order() {
    let doc = expanded_document();
    let diags = vec![
        RawDiagnostic::Line(13, "first".to_owned()),
        RawDiagnostic::Line(12, "second".to_owned()),
        RawDiagnostic::Line(14, "third".to_owned()),
    ];
    let errors = back_map(&doc.line_numbers, &diags);
    let bucket = errors.get_bucket(ErrId(1)).unwrap();
    assert_eq!(
        bucket.as_slice(),
        &[
            (3, "first".to_owned()),
            (2, "second".to_owned()),
            (4, "third".to_owned()),
        ]
    );
}
