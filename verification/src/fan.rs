use vstd::prelude::*;

verus! {

/// Vertices of one circle in a batch of triangle fans.
pub const FAN_VERTICES: u32 = 12;

/// The index triple of triangle `t` of the fan of circle `num_circle`: every
/// triangle starts at the circle's first vertex and spans two neighbouring
/// rim vertices.
pub open spec fn fan_triangle(num_circle: int, t: int) -> (int, int, int) {
    let offset = num_circle * FAN_VERTICES;
    (offset, offset + t + 1, offset + t + 2)
}

/// Every triangle of circle `n`'s fan starts at the circle's first vertex
/// `n * FAN_VERTICES`, its other two corners are neighbouring vertices, and
/// all three lie in the circle's own block `[n * FAN_VERTICES, (n + 1) * FAN_VERTICES)`.
pub proof fn lemma_fan_stays_in_block(n: int)
    ensures
        forall|t: int| 0 <= t < FAN_VERTICES - 2 ==> {
            &&& (#[trigger] fan_triangle(n, t)).0 == n * FAN_VERTICES
            &&& fan_triangle(n, t).2 == fan_triangle(n, t).1 + 1
            &&& n * FAN_VERTICES < fan_triangle(n, t).1
            &&& fan_triangle(n, t).2 < (n + 1) * FAN_VERTICES
        },
{
    assert((n + 1) * FAN_VERTICES == n * FAN_VERTICES + FAN_VERTICES) by (nonlinear_arith);
}

/// The indices that draw circle `num_circle` of a batch as a triangle fan:
/// `FAN_VERTICES - 2` triangles, three indices each, into the block of
/// `FAN_VERTICES` vertices that belongs to that circle.
pub fn fan_indices(num_circle: u32) -> (indices: Vec<u32>)
    requires
        num_circle * FAN_VERTICES + FAN_VERTICES <= u32::MAX,
    ensures
        indices@.len() == 3 * (FAN_VERTICES - 2),
        forall|t: int|
            #![trigger indices@[3 * t]]
            0 <= t < FAN_VERTICES - 2 ==> {
                &&& indices@[3 * t] as int == fan_triangle(num_circle as int, t).0
                &&& indices@[3 * t + 1] as int == fan_triangle(num_circle as int, t).1
                &&& indices@[3 * t + 2] as int == fan_triangle(num_circle as int, t).2
            },
        forall|t: int| 0 <= t < FAN_VERTICES - 2 ==> #[trigger] indices@[3 * t] == num_circle * FAN_VERTICES,
        forall|k: int| 0 <= k < indices@.len() ==> num_circle * FAN_VERTICES <= #[trigger] indices@[k]
            < (num_circle + 1) * FAN_VERTICES,
{
    proof {
        lemma_fan_stays_in_block(num_circle as int);
    }
    let mut indices: Vec<u32> = Vec::new();
    let number_vertices: u32 = FAN_VERTICES;
    let offset: u32 = num_circle * number_vertices;
    for j in 0..(number_vertices - 2)
        invariant
            number_vertices == FAN_VERTICES,
            offset == num_circle * FAN_VERTICES,
            num_circle * FAN_VERTICES + FAN_VERTICES <= u32::MAX,
            indices@.len() == 3 * j,
            forall|t: int|
                #![trigger indices@[3 * t]]
                0 <= t < j ==> {
                    &&& indices@[3 * t] as int == fan_triangle(num_circle as int, t).0
                    &&& indices@[3 * t + 1] as int == fan_triangle(num_circle as int, t).1
                    &&& indices@[3 * t + 2] as int == fan_triangle(num_circle as int, t).2
                },
    {
        let ghost before = indices@;
        indices.push(offset);
        indices.push(j + offset + 1);
        indices.push(j + offset + 2);
        assert forall|t: int| 0 <= t <= j implies {
            &&& #[trigger] indices@[3 * t] as int == fan_triangle(num_circle as int, t).0
            &&& indices@[3 * t + 1] as int == fan_triangle(num_circle as int, t).1
            &&& indices@[3 * t + 2] as int == fan_triangle(num_circle as int, t).2
        } by {
            if t < j {
                assert(indices@[3 * t] == before[3 * t]);
                assert(indices@[3 * t + 1] == before[3 * t + 1]);
                assert(indices@[3 * t + 2] == before[3 * t + 2]);
            }
        }
    }
    proof {
        assert forall|k: int| 0 <= k < indices@.len() implies num_circle * FAN_VERTICES
            <= #[trigger] indices@[k] < (num_circle + 1) * FAN_VERTICES by {
            let t = k / 3;
            assert(0 <= t < FAN_VERTICES - 2);
            assert(k == 3 * t || k == 3 * t + 1 || k == 3 * t + 2);
            assert(indices@[3 * t] as int == fan_triangle(num_circle as int, t).0);
        }
    }
    indices
}

} // verus!
