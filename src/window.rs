use vstd::prelude::*;

verus! {

/// A 3×3 matrix as rows of rows.
pub open spec fn window_view<T>(w: [[T; 3]; 3]) -> Seq<Seq<T>> {
    Seq::new(3, |i: int| w[i]@)
}

/// Whether `m` has the shape of a 3×3 matrix.
pub open spec fn is_3x3<T>(m: Seq<Seq<T>>) -> bool {
    m.len() == 3 && forall|i: int| 0 <= i < 3 ==> #[trigger] m[i].len() == 3
}

/// The clockwise rotation of a 3×3 matrix: `rotated[x][y] == m[2 - y][x]`.
pub open spec fn rotate_cw<T>(m: Seq<Seq<T>>) -> Seq<Seq<T>> {
    Seq::new(3, |x: int| Seq::new(3, |y: int| m[2 - y][x]))
}

/// `m` rotated clockwise `n` times.
pub open spec fn rotate_cw_n<T>(m: Seq<Seq<T>>, n: nat) -> Seq<Seq<T>>
    decreases n,
{
    if n == 0 {
        m
    } else {
        rotate_cw(rotate_cw_n(m, (n - 1) as nat))
    }
}

/// Rotates the matrix clockwise: `result[x][y] == input[2 - y][x]`.
pub fn rotate_3x3<T: Copy>(input: &[[T; 3]; 3]) -> (r: [[T; 3]; 3])
    ensures
        window_view(r) == rotate_cw(window_view(*input)),
{
    let r = [
        [input[2][0], input[1][0], input[0][0]],
        [input[2][1], input[1][1], input[0][1]],
        [input[2][2], input[1][2], input[0][2]],
    ];
    assert(window_view(r) =~~= rotate_cw(window_view(*input)));
    r
}

/// Rotating a 3×3 matrix four times gives back the matrix it started from.
pub proof fn lemma_rotate_four_times<T>(m: Seq<Seq<T>>)
    requires
        is_3x3(m),
    ensures
        rotate_cw(rotate_cw(rotate_cw(rotate_cw(m)))) == m,
{
    let r4 = rotate_cw(rotate_cw(rotate_cw(rotate_cw(m))));
    assert forall|i: int| 0 <= i < 3 implies #[trigger] r4[i] =~= m[i] by {
        assert(m[i].len() == 3);
    }
    assert(r4 =~= m);
}

} // verus!
