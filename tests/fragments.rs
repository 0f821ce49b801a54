use hecto::annotated::{Annotation, AnnotatedString, AnnotationType};
use hecto::line::{GraphemeWidth, Line};
use hecto::unicode::replacement_for;

#[test]
fn fragments_from_clusters_and_widths() {
    let clusters = vec!["a".to_string(), "😀".to_string(), "b".to_string()];
    let widths = vec![1, 2, 1];
    let fs = Line::fragments_from(&clusters, &widths);
    let kinds: Vec<_> = fs.iter().map(|f| (f.start, f.rendered_width, f.replacement)).collect();
    assert_eq!(
        kinds,
        vec![
            (0, GraphemeWidth::Half, None),
            (1, GraphemeWidth::Full, None),
            (5, GraphemeWidth::Half, None),
        ]
    );
    let columns: usize = fs.iter().map(|f| f.rendered_width.columns()).sum();
    assert_eq!(columns, 4);
}

#[test]
fn replacement_rule_by_width() {
    assert_eq!(replacement_for(" ", 1), None);
    assert_eq!(replacement_for("\t", 0), Some(' '));
    assert_eq!(replacement_for("\u{3000}", 2), Some('␣'));
    assert_eq!(replacement_for("\u{7}", 0), Some('▯'));
    assert_eq!(replacement_for("\u{200b}", 0), Some('·'));
    assert_eq!(replacement_for("x", 1), None);
}

#[test]
fn plain_text_is_one_part() {
    let a = AnnotatedString::from("abc");
    let parts = a.parts();
    assert_eq!(parts.len(), 1);
    assert_eq!(parts[0].string, "abc");
    assert_eq!((parts[0].start, parts[0].end), (0, 3));
    assert_eq!(parts[0].annotation_type, None);
}

#[test]
fn visible_slice_without_annotations_has_none() {
    let line = Line::from("ab\tcd");
    let a = line.get_annotated_visible_substr(0..10, None);
    assert_eq!(a.as_string(), "ab cd");
    assert!(a.annotation_list().is_empty());
}

#[test]
fn visible_slice_carries_annotations() {
    let line = Line::from("ab\tcd");
    let anns = vec![Annotation { annotation_type: AnnotationType::Match, start: 3, end: 5 }];
    let a = line.get_annotated_visible_substr(1..10, Some(&anns));
    assert_eq!(a.as_string(), "b cd");
    assert_eq!(
        a.annotation_list(),
        vec![Annotation { annotation_type: AnnotationType::Match, start: 2, end: 4 }]
    );
}
