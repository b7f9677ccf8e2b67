use pagedown::pdf_import::{import_object, PdfObject};

fn name(s: &str) -> Vec<u8> {
    s.as_bytes().to_vec()
}

#[test]
fn each_source_object_is_copied_once_under_a_fresh_id() {
    let src = vec![
        ((1, 0), PdfObject::Dictionary(vec![(name("Font"), PdfObject::Reference(2, 0))])),
        ((2, 0), PdfObject::Dictionary(vec![(name("Size"), PdfObject::Integer(10))])),
    ];
    let root = PdfObject::Array(vec![PdfObject::Reference(1, 0), PdfObject::Reference(2, 0), PdfObject::Reference(1, 0)]);
    let mut next = 7;
    let (copied, added) = import_object(&src, &mut next, &root).expect("all references resolve");
    assert_eq!(next, 9);
    assert_eq!(added.len(), 2);
    match copied {
        PdfObject::Array(values) => {
            assert!(matches!(values[0], PdfObject::Reference(8, 0)));
            assert!(matches!(values[1], PdfObject::Reference(9, 0)));
            assert!(matches!(values[2], PdfObject::Reference(8, 0)));
        }
        other => panic!("unexpected {other:?}"),
    }
    assert!(added.iter().any(|(id, o)| *id == (9, 0) && matches!(o, PdfObject::Dictionary(d) if matches!(d[0].1, PdfObject::Integer(10)))));
    assert!(added.iter().any(|(id, o)| *id == (8, 0) && matches!(o, PdfObject::Dictionary(d) if matches!(d[0].1, PdfObject::Reference(9, 0)))));
}

#[test]
fn a_cycle_refers_back_to_the_fresh_id() {
    let src = vec![((4, 0), PdfObject::Array(vec![PdfObject::Reference(4, 0), PdfObject::Real(1.5f32.to_bits())]))];
    let mut next = 0;
    let (copied, added) = import_object(&src, &mut next, &PdfObject::Reference(4, 0)).unwrap();
    assert!(matches!(copied, PdfObject::Reference(1, 0)));
    assert_eq!(added.len(), 1);
    match &added[0] {
        ((1, 0), PdfObject::Array(values)) => {
            assert!(matches!(values[0], PdfObject::Reference(1, 0)));
            assert!(matches!(values[1], PdfObject::Real(bits) if f32::from_bits(bits) == 1.5));
        }
        other => panic!("unexpected {other:?}"),
    }
}

#[test]
fn a_missing_reference_fails_the_import() {
    let src = vec![((1, 0), PdfObject::Null)];
    let mut next = 3;
    let root = PdfObject::Dictionary(vec![(name("A"), PdfObject::Reference(1, 0)), (name("B"), PdfObject::Reference(5, 0))]);
    assert!(import_object(&src, &mut next, &root).is_none());
}
