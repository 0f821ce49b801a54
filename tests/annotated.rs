use hecto::annotated::{Annotation, AnnotatedString, AnnotationType};

fn parts_of(a: &AnnotatedString) -> Vec<(String, Option<AnnotationType>)> {
    a.parts()
        .into_iter()
        .map(|p| (p.string, p.annotation_type))
        .collect()
}

#[test]
fn replace_rebases_annotation_after_edit() {
    let mut a = AnnotatedString::from("Hello world");
    a.add_annotation(AnnotationType::Match, 6, 11);
    a.replace(0, 5, "Hi");
    assert_eq!(a.as_string(), "Hi world");
    assert_eq!(
        a.annotation_list(),
        vec![Annotation { annotation_type: AnnotationType::Match, start: 3, end: 8 }]
    );
}

#[test]
fn replace_text_is_prefix_new_suffix() {
    let mut a = AnnotatedString::from("abcdef");
    a.replace(2, 4, "XYZ");
    assert_eq!(a.as_string(), "abXYZef");
    let mut b = AnnotatedString::from("abc");
    b.replace(1, 100, "");
    assert_eq!(b.as_string(), "a");
    let mut c = AnnotatedString::from("abc");
    c.replace(3, 2, "zz");
    assert_eq!(c.as_string(), "abc");
}

#[test]
fn replace_growing_shifts_and_clamps() {
    let mut a = AnnotatedString::from("abcdef");
    a.add_annotation(AnnotationType::Match, 0, 2);
    a.add_annotation(AnnotationType::Digit, 3, 5);
    a.add_annotation(AnnotationType::SelectedMatch, 4, 6);
    a.replace(2, 4, "WXYZ");
    assert_eq!(a.as_string(), "abWXYZef");
    assert_eq!(
        a.annotation_list(),
        vec![
            Annotation { annotation_type: AnnotationType::Match, start: 0, end: 4 },
            Annotation { annotation_type: AnnotationType::Digit, start: 4, end: 7 },
            Annotation { annotation_type: AnnotationType::SelectedMatch, start: 6, end: 8 },
        ]
    );
}

#[test]
fn replace_shrinking_drops_collapsed_annotations() {
    let mut a = AnnotatedString::from("abcdef");
    a.add_annotation(AnnotationType::Match, 2, 4);
    a.add_annotation(AnnotationType::Digit, 4, 6);
    a.replace(1, 5, "");
    assert_eq!(a.as_string(), "af");
    assert_eq!(
        a.annotation_list(),
        vec![Annotation { annotation_type: AnnotationType::Digit, start: 1, end: 2 }]
    );
}

#[test]
fn replace_same_length_keeps_annotations() {
    let mut a = AnnotatedString::from("abc");
    a.add_annotation(AnnotationType::Match, 1, 1);
    a.replace(0, 1, "z");
    assert_eq!(a.as_string(), "zbc");
    assert_eq!(a.annotation_list().len(), 1);
}

#[test]
fn truncations() {
    let mut a = AnnotatedString::from("hello world");
    a.add_annotation(AnnotationType::Match, 6, 11);
    a.truncate_left_until(6);
    assert_eq!(a.as_string(), "world");
    assert_eq!(
        a.annotation_list(),
        vec![Annotation { annotation_type: AnnotationType::Match, start: 0, end: 5 }]
    );
    a.truncate_right_from(3);
    assert_eq!(a.as_string(), "wor");
    assert_eq!(
        a.annotation_list(),
        vec![Annotation { annotation_type: AnnotationType::Match, start: 0, end: 3 }]
    );
}

#[test]
fn parts_cover_text_once() {
    let mut a = AnnotatedString::from("Hello world");
    a.add_annotation(AnnotationType::Match, 2, 4);
    a.add_annotation(AnnotationType::Match, 6, 20);
    let parts = parts_of(&a);
    let joined: String = parts.iter().map(|(s, _)| s.as_str()).collect();
    assert_eq!(joined, "Hello world");
    assert_eq!(
        parts,
        vec![
            ("He".to_string(), None),
            ("ll".to_string(), Some(AnnotationType::Match)),
            ("o ".to_string(), None),
            ("world".to_string(), Some(AnnotationType::Match)),
        ]
    );
}

#[test]
fn later_annotation_wins_on_overlap() {
    let mut a = AnnotatedString::from("abcdefghij");
    a.add_annotation(AnnotationType::Match, 0, 10);
    a.add_annotation(AnnotationType::SelectedMatch, 3, 6);
    let parts = parts_of(&a);
    assert_eq!(
        parts,
        vec![
            ("abc".to_string(), Some(AnnotationType::Match)),
            ("def".to_string(), Some(AnnotationType::SelectedMatch)),
            ("ghij".to_string(), Some(AnnotationType::Match)),
        ]
    );
}

#[test]
fn earlier_annotation_loses_on_overlap() {
    let mut a = AnnotatedString::from("abcdef");
    a.add_annotation(AnnotationType::SelectedMatch, 2, 4);
    a.add_annotation(AnnotationType::Match, 0, 6);
    let parts = parts_of(&a);
    assert_eq!(parts, vec![("abcdef".to_string(), Some(AnnotationType::Match))]);
}

#[test]
fn iterator_walks_parts() {
    let mut a = AnnotatedString::from("x😀y");
    a.add_annotation(AnnotationType::Digit, 1, 5);
    let mut it = a.iter();
    let first = it.next().unwrap();
    assert_eq!(first.string, "x");
    assert_eq!(first.annotation_type, None);
    let second = it.next().unwrap();
    assert_eq!(second.string, "😀");
    assert_eq!((second.start, second.end), (1, 5));
    assert_eq!(second.annotation_type, Some(AnnotationType::Digit));
    assert_eq!(it.next().unwrap().string, "y");
    assert!(it.next().is_none());
}

#[test]
fn empty_text_has_no_parts() {
    let a = AnnotatedString::from("");
    assert!(a.parts().is_empty());
}
