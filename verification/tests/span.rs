use mandelbrot::span::{split, Span};

#[test]
fn a_stretch_is_cut_into_pieces_of_one_size() {
    assert_eq!(
        split(0, 10, 4),
        vec![
            Span { offset: 0, len: 4 },
            Span { offset: 4, len: 4 },
            Span { offset: 8, len: 2 },
        ]
    );
    assert_eq!(
        split(30, 9, 3),
        vec![
            Span { offset: 30, len: 3 },
            Span { offset: 33, len: 3 },
            Span { offset: 36, len: 3 },
        ]
    );
}

#[test]
fn a_piece_larger_than_the_stretch_is_the_stretch() {
    assert_eq!(split(5, 10, 10), vec![Span { offset: 5, len: 10 }]);
    assert_eq!(split(5, 10, 11), vec![Span { offset: 5, len: 10 }]);
    assert_eq!(split(5, 10, usize::MAX), vec![Span { offset: 5, len: 10 }]);
}

#[test]
fn an_empty_stretch_has_no_pieces() {
    assert_eq!(split(0, 0, 4), Vec::new());
    assert_eq!(split(usize::MAX, 0, 1), Vec::new());
}

#[test]
fn pieces_agree_with_chunks_of_a_slice() {
    for len in 0..50usize {
        for piece in 1..12usize {
            let bytes = vec![0u8; len];
            let lens: Vec<usize> = bytes.chunks(piece).map(|chunk| chunk.len()).collect();
            let spans = split(100, len, piece);
            assert_eq!(spans.len(), lens.len());
            assert_eq!(spans.len(), (len + piece - 1) / piece);
            for (i, span) in spans.iter().enumerate() {
                assert_eq!(span.offset, 100 + i * piece);
                assert_eq!(span.len, lens[i]);
            }
        }
    }
}

#[test]
fn the_stretch_may_end_at_the_largest_offset() {
    assert_eq!(
        split(usize::MAX - 5, 5, 3),
        vec![Span { offset: usize::MAX - 5, len: 3 }, Span { offset: usize::MAX - 2, len: 2 }]
    );
}
