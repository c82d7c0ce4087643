//! Index buffers for the drawn rectangles.
//!
//! A note is drawn as two rectangles (an outer one and an inner one), eight vertices in
//! all; an octave line or a particle is one rectangle of four vertices. Every rectangle is
//! two triangles that share the diagonal from its first to its third vertex.
use vstd::prelude::*;

verus! {

/// The twelve indices, relative to a note's first vertex, of its four triangles.
pub open spec fn note_pattern(j: int) -> int {
    seq![0int, 2, 1, 0, 2, 3, 4, 6, 5, 4, 6, 7][j]
}

/// The six indices, relative to a rectangle's first vertex, of its two triangles.
pub open spec fn quad_pattern(j: int) -> int {
    seq![0int, 2, 1, 0, 2, 3][j]
}

/// The index buffer of `count` notes: position `p` belongs to note `p / 12`.
pub open spec fn note_indices(count: nat) -> Seq<u32> {
    Seq::new(12 * count, |p: int| (8 * (p / 12) + note_pattern(p % 12)) as u32)
}

/// The index buffer of `count` rectangles: position `p` belongs to rectangle `p / 6`.
pub open spec fn quad_indices(count: nat) -> Seq<u32> {
    Seq::new(6 * count, |p: int| (4 * (p / 6) + quad_pattern(p % 6)) as u32)
}

/// The largest number of notes whose indices fit in `u32`.
pub const MAX_NOTES: usize = 0x2000_0000;

/// The largest number of rectangles whose indices fit in `u32`.
pub const MAX_QUADS: usize = 0x4000_0000;

proof fn lemma_block(i: int, j: int, w: int)
    requires
        0 <= i,
        0 <= j < w,
        w > 0,
    ensures
        (w * i + j) / w == i,
        (w * i + j) % w == j,
{
    assert((w * i + j) / w == i && (w * i + j) % w == j) by (nonlinear_arith)
        requires
            0 <= i,
            0 <= j < w,
            w > 0,
    ;
}

/// Builds the index buffer of `count` notes (the index part of `notes_to_indices`).
pub fn note_index_buffer(count: usize) -> (r: Vec<u32>)
    requires
        count <= MAX_NOTES,
    ensures
        r@ == note_indices(count as nat),
{
    let mut ind: Vec<u32> = Vec::new();
    let mut i: usize = 0;
    while i < count
        invariant
            i <= count <= MAX_NOTES,
            ind@ == note_indices(i as nat),
        decreases count - i,
    {
        let b: u32 = 8 * (i as u32);
        let pattern: [u32; 12] = [0, 2, 1, 0, 2, 3, 4, 6, 5, 4, 6, 7];
        let mut j: usize = 0;
        while j < 12
            invariant
                i < count <= MAX_NOTES,
                b == 8 * i,
                j <= 12,
                pattern@ == seq![0u32, 2, 1, 0, 2, 3, 4, 6, 5, 4, 6, 7],
                ind@.len() == 12 * i + j,
                forall|p: int|
                    0 <= p < 12 * i + j ==> #[trigger] ind@[p] == (8 * (p / 12) + note_pattern(
                        p % 12,
                    )) as u32,
            decreases 12 - j,
        {
            ind.push(b + pattern[j]);
            proof {
                lemma_block(i as int, j as int, 12);
            }
            j += 1;
        }
        proof {
            assert(ind@ =~= note_indices((i + 1) as nat));
        }
        i += 1;
    }
    ind
}

/// Builds the index buffer of `count` rectangles.
pub fn quad_index_buffer(count: usize) -> (r: Vec<u32>)
    requires
        count <= MAX_QUADS,
    ensures
        r@ == quad_indices(count as nat),
{
    let mut ind: Vec<u32> = Vec::new();
    let mut i: usize = 0;
    while i < count
        invariant
            i <= count <= MAX_QUADS,
            ind@ == quad_indices(i as nat),
        decreases count - i,
    {
        let b: u32 = 4 * (i as u32);
        let pattern: [u32; 6] = [0, 2, 1, 0, 2, 3];
        let mut j: usize = 0;
        while j < 6
            invariant
                i < count <= MAX_QUADS,
                b == 4 * i,
                j <= 6,
                pattern@ == seq![0u32, 2, 1, 0, 2, 3],
                ind@.len() == 6 * i + j,
                forall|p: int|
                    0 <= p < 6 * i + j ==> #[trigger] ind@[p] == (4 * (p / 6) + quad_pattern(
                        p % 6,
                    )) as u32,
            decreases 6 - j,
        {
            ind.push(b + pattern[j]);
            proof {
                lemma_block(i as int, j as int, 6);
            }
            j += 1;
        }
        proof {
            assert(ind@ =~= quad_indices((i + 1) as nat));
        }
        i += 1;
    }
    ind
}

/// The eight octave lines: their index buffer (the index part of `Ol::ol_to_vertind`).
pub fn ol_indices() -> (r: Vec<u32>)
    ensures
        r@ == quad_indices(8),
{
    quad_index_buffer(8)
}

/// Every index of a note buffer names a vertex of the note that its triangle belongs to:
/// the index at position `p` lies in `8 * (p / 12) .. 8 * (p / 12) + 8`, so all lie
/// below `8 * count`.
pub proof fn law_note_indices_stay_in_their_note(count: nat)
    requires
        count <= MAX_NOTES,
    ensures
        forall|p: int|
            0 <= p < 12 * count ==> 8 * (p / 12) <= #[trigger] note_indices(count)[p] < 8 * (p / 12)
                + 8,
        forall|p: int| 0 <= p < 12 * count ==> #[trigger] note_indices(count)[p] < 8 * count,
{
    assert forall|p: int| 0 <= p < 12 * count implies 8 * (p / 12) <= #[trigger] note_indices(
        count,
    )[p] < 8 * (p / 12) + 8 && note_indices(count)[p] < 8 * count by {
        let q = p / 12;
        let j = p % 12;
        assert(0 <= q < count && 0 <= j < 12) by (nonlinear_arith)
            requires
                0 <= p < 12 * count,
                q == p / 12,
                j == p % 12,
        ;
        assert(8 * q + 7 < 0x1_0000_0000);
    }
}

/// Every index of a rectangle buffer names a vertex of its own rectangle, so all lie
/// below `4 * count`.
pub proof fn law_quad_indices_stay_in_their_quad(count: nat)
    requires
        count <= MAX_QUADS,
    ensures
        forall|p: int|
            0 <= p < 6 * count ==> 4 * (p / 6) <= #[trigger] quad_indices(count)[p] < 4 * (p / 6)
                + 4,
        forall|p: int| 0 <= p < 6 * count ==> #[trigger] quad_indices(count)[p] < 4 * count,
{
    assert forall|p: int| 0 <= p < 6 * count implies 4 * (p / 6) <= #[trigger] quad_indices(
        count,
    )[p] < 4 * (p / 6) + 4 && quad_indices(count)[p] < 4 * count by {
        let q = p / 6;
        let j = p % 6;
        assert(0 <= q < count && 0 <= j < 6) by (nonlinear_arith)
            requires
                0 <= p < 6 * count,
                q == p / 6,
                j == p % 6,
        ;
        assert(4 * q + 3 < 0x1_0000_0000);
    }
}

/// The indices of the note after the first `count`: its outer rectangle (vertices 0..4)
/// and its inner one (vertices 4..8), each as two triangles sharing a diagonal, shifted to
/// its first vertex `8 * count`.
pub open spec fn next_note_triangles(count: nat) -> Seq<u32> {
    seq![0u32, 2, 1, 0, 2, 3, 4, 6, 5, 4, 6, 7].map_values(|x: u32| (x + 8 * count) as u32)
}

/// The indices of the rectangle after the first `count`, shifted to its first vertex.
pub open spec fn next_quad_triangles(count: nat) -> Seq<u32> {
    seq![0u32, 2, 1, 0, 2, 3].map_values(|x: u32| (x + 4 * count) as u32)
}

/// An empty song draws nothing, and each further note appends its own twelve indices,
/// the same for every note but for the shift to its first vertex: the buffer for
/// `count + 1` notes is the buffer for `count` notes followed by those of the new one.
pub proof fn law_each_note_appends_its_triangles(count: nat)
    requires
        count < MAX_NOTES,
    ensures
        note_indices(0) == Seq::<u32>::empty(),
        note_indices(count + 1) == note_indices(count) + next_note_triangles(count),
{
    assert(note_indices(0) =~= Seq::<u32>::empty());
    let a = note_indices(count + 1);
    let b = note_indices(count) + next_note_triangles(count);
    assert forall|p: int| 0 <= p < a.len() implies a[p] == b[p] by {
        if p < 12 * count {
            assert(b[p] == note_indices(count)[p]);
        } else {
            let j = p - 12 * count;
            lemma_block(count as int, j, 12);
            assert(p == 12 * count + j);
            assert(0 <= j < 12);
            assert(b[p] == next_note_triangles(count)[j]);
            assert(j == 0 || j == 1 || j == 2 || j == 3 || j == 4 || j == 5 || j == 6 || j == 7
                || j == 8 || j == 9 || j == 10 || j == 11);
        }
    }
    assert(a =~= b);
}

/// No rectangles draw nothing, and each further rectangle appends its own six indices,
/// shifted to its first vertex.
pub proof fn law_each_quad_appends_its_triangles(count: nat)
    requires
        count < MAX_QUADS,
    ensures
        quad_indices(0) == Seq::<u32>::empty(),
        quad_indices(count + 1) == quad_indices(count) + next_quad_triangles(count),
{
    assert(quad_indices(0) =~= Seq::<u32>::empty());
    let a = quad_indices(count + 1);
    let b = quad_indices(count) + next_quad_triangles(count);
    assert forall|p: int| 0 <= p < a.len() implies a[p] == b[p] by {
        if p < 6 * count {
            assert(b[p] == quad_indices(count)[p]);
        } else {
            let j = p - 6 * count;
            lemma_block(count as int, j, 6);
            assert(p == 6 * count + j);
            assert(0 <= j < 6);
            assert(b[p] == next_quad_triangles(count)[j]);
            assert(j == 0 || j == 1 || j == 2 || j == 3 || j == 4 || j == 5);
        }
    }
    assert(a =~= b);
}

} // verus!
