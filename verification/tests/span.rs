use rustviz::span::{FileId, SourceMap, Span};

#[test]
fn span_merge_covers_both() {
    let a = Span::new(3, 5, FileId(1));
    let b = Span::new(1, 4, FileId(1));
    assert_eq!(a.merge(b), Span::new(1, 5, FileId(1)));
    assert_eq!(b.merge(a), Span::new(1, 5, FileId(1)));
}

#[test]
fn span_point_is_empty() {
    let p = Span::point(7, FileId(2));
    assert_eq!(p.start, 7);
    assert_eq!(p.end, 7);
    assert_eq!(p.file, FileId(2));
}

#[test]
fn source_map_allocates_sequential_ids() {
    let mut sm = SourceMap::new();
    let a = sm.add("a.rs".to_owned(), "fn main() {}".to_owned());
    let b = sm.add("b.rs".to_owned(), "".to_owned());
    assert_eq!(a, FileId(1));
    assert_eq!(b, FileId(2));
    assert_eq!(sm.get(a).unwrap().name, "a.rs");
    assert_eq!(sm.get(b).unwrap().src, "");
    assert!(sm.get(FileId(0)).is_none());
    assert!(sm.get(FileId(3)).is_none());
}

#[test]
fn line_col_counts_from_one() {
    let mut sm = SourceMap::new();
    let f = sm.add("x.rs".to_owned(), "ab\ncd\n\nefg".to_owned());
    assert_eq!(sm.line_col(Span::point(0, f)), Some((1, 1)));
    assert_eq!(sm.line_col(Span::point(1, f)), Some((1, 2)));
    assert_eq!(sm.line_col(Span::point(2, f)), Some((1, 3)));
    assert_eq!(sm.line_col(Span::point(3, f)), Some((2, 1)));
    assert_eq!(sm.line_col(Span::point(5, f)), Some((2, 3)));
    assert_eq!(sm.line_col(Span::point(6, f)), Some((3, 1)));
    assert_eq!(sm.line_col(Span::point(7, f)), Some((4, 1)));
    assert_eq!(sm.line_col(Span::point(9, f)), Some((4, 3)));
    assert_eq!(sm.line_col(Span::point(100, f)), Some((4, 94)));
}

#[test]
fn line_col_unknown_file() {
    let sm = SourceMap::new();
    assert_eq!(sm.line_col(Span::point(0, FileId(1))), None);
}
