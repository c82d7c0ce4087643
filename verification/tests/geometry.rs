use pianorium::geometry::{note_index_buffer, ol_indices, quad_index_buffer};

#[test]
fn note_indices_of_two_notes() {
    assert_eq!(
        note_index_buffer(2),
        vec![0, 2, 1, 0, 2, 3, 4, 6, 5, 4, 6, 7, 8, 10, 9, 8, 10, 11, 12, 14, 13, 12, 14, 15]
    );
    assert!(note_index_buffer(0).is_empty());
}

#[test]
fn quad_indices_of_two_quads() {
    assert_eq!(quad_index_buffer(2), vec![0, 2, 1, 0, 2, 3, 4, 6, 5, 4, 6, 7]);
}

#[test]
fn octave_lines_use_eight_quads() {
    let ind = ol_indices();
    assert_eq!(ind.len(), 48);
    assert_eq!(&ind[42..], &[28, 30, 29, 28, 30, 31]);
}

#[test]
fn indices_stay_in_their_note() {
    let ind = note_index_buffer(50);
    for (p, &i) in ind.iter().enumerate() {
        let note = (p / 12) as u32;
        assert!(8 * note <= i && i < 8 * note + 8);
        assert!(i < 8 * 50);
    }
    let q = quad_index_buffer(50);
    for (p, &i) in q.iter().enumerate() {
        let quad = (p / 6) as u32;
        assert!(4 * quad <= i && i < 4 * quad + 4);
    }
}
