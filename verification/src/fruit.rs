use vstd::prelude::*;

use rand::Rng;

use crate::body::{cell_free, overlap_free, Body, Seg};
use crate::field::Field;
use crate::geom::{overlap_at, Vec2};

verus! {

/// Every grid cell of the field lies free of the body's boxes.
pub open spec fn all_cells_free(s: Seq<Seg>, field: Field) -> bool {
    forall|gx: int, gy: int|
        -field.half_cells <= gx <= field.half_cells && -field.half_cells <= gy
            <= field.half_cells ==> #[trigger] cell_free(
            s,
            gx * field.cell,
            gy * field.cell,
            field.cell as int,
        )
}

/// A consumable target at a fixed position; the world holds at most one at a
/// time, and eating it grows the chain and triggers a re-placement.
pub struct Fruit {
    pub position: Vec2,
}

/// Relies on rand: `thread_rng` hands out the process-local generator, and
/// `Rng::gen_range` on an inclusive integer range panics only on an empty
/// range and returns a value within the bounds. Nothing more is assumed of
/// which value comes back.
#[verifier::external_body]
fn sample_between(lo: i64, hi: i64) -> (r: i64)
    requires
        lo <= hi,
    ensures
        lo <= r <= hi,
{
    rand::thread_rng().gen_range(lo..=hi)
}

impl Fruit {
    /// A fruit at a drawn grid cell of the field, in world units: each axis
    /// an independently sampled cell index in `[-half_cells, half_cells]`,
    /// scaled by the cell size.
    pub fn random(field: &Field) -> (f: Fruit)
        requires
            field.wf(),
        ensures
            -field.half() <= f.position.x <= field.half(),
            -field.half() <= f.position.y <= field.half(),
            exists|gx: int|
                -field.half_cells <= gx <= field.half_cells && f.position.x == #[trigger] (gx
                    * field.cell),
            exists|gy: int|
                -field.half_cells <= gy <= field.half_cells && f.position.y == #[trigger] (gy
                    * field.cell),
    {
        let gx = sample_between(-field.half_cells, field.half_cells);
        let gy = sample_between(-field.half_cells, field.half_cells);
        proof {
            assert(-(field.half_cells * field.cell) <= gx * field.cell <= field.half_cells
                * field.cell && field.half_cells * field.cell <= 0x1000_0000_0000_0000)
                by (nonlinear_arith)
                requires
                    -field.half_cells <= gx <= field.half_cells,
                    0 < field.cell <= 0x4000_0000,
                    0 <= field.half_cells <= 0x4000_0000,
            ;
            assert(-(field.half_cells * field.cell) <= gy * field.cell <= field.half_cells
                * field.cell) by (nonlinear_arith)
                requires
                    -field.half_cells <= gy <= field.half_cells,
                    0 < field.cell <= 0x4000_0000,
                    0 <= field.half_cells <= 0x4000_0000,
            ;
        }
        Fruit { position: Vec2 { x: gx * field.cell, y: gy * field.cell } }
    }

    /// Repeated placement: sample until a position whose box is free of every
    /// body segment is found, giving up after `attempts` draws. A returned
    /// fruit never overlaps the body and sits on a grid cell of the field;
    /// when every cell of the field is free, the very first draw succeeds, so
    /// one attempt suffices. On a partly occupied field, whether a draw
    /// succeeds is up to the randomness, so a crowded field may exhaust the
    /// attempts.
    pub fn place(body: &Body, field: &Field, attempts: u64) -> (r: Option<Fruit>)
        requires
            field.wf(),
        ensures
            r matches Some(f) ==> overlap_free(body@, f.position, field.cell as int),
            r matches Some(f) ==> -field.half() <= f.position.x <= field.half() && -field.half()
                <= f.position.y <= field.half(),
            r matches Some(f) ==> exists|gx: int|
                -field.half_cells <= gx <= field.half_cells && f.position.x == #[trigger] (gx
                    * field.cell),
            r matches Some(f) ==> exists|gy: int|
                -field.half_cells <= gy <= field.half_cells && f.position.y == #[trigger] (gy
                    * field.cell),
            attempts > 0 && all_cells_free(body@, *field) ==> r is Some,
    {
        let mut i: u64 = 0;
        while i < attempts
            invariant
                field.wf(),
                all_cells_free(body@, *field) ==> i == 0,
            decreases attempts - i,
        {
            let f = Fruit::random(field);
            if !body.collide(&f.position, field) {
                return Some(f);
            }
            proof {
                if all_cells_free(body@, *field) {
                    let gx = choose|gx: int|
                        -field.half_cells <= gx <= field.half_cells && f.position.x == #[trigger] (
                        gx * field.cell);
                    let gy = choose|gy: int|
                        -field.half_cells <= gy <= field.half_cells && f.position.y == #[trigger] (
                        gy * field.cell);
                    assert(cell_free(body@, gx * field.cell, gy * field.cell, field.cell as int));
                    let j = choose|j: int|
                        0 <= j < body@.len() && overlap_at(
                            body@[j].x,
                            body@[j].y,
                            f.position.x as int,
                            f.position.y as int,
                            field.cell as int,
                        );
                    assert(!overlap_at(
                        body@[j].x,
                        body@[j].y,
                        gx * field.cell,
                        gy * field.cell,
                        field.cell as int,
                    ));
                    assert(false);
                }
            }
            i = i + 1;
        }
        None
    }
}

} // verus!
