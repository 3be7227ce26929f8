use crate::ant::{arena_bounds, seek_step, turn_step, wander_target, Ant, DIM_LIMIT, EDGE_THRESHOLD};
use crate::fixed::{Vector, SCALE};
use rand::rngs::StdRng;
use vstd::prelude::*;

verus! {

/// Colour of an open cell of the map image.
pub const OPEN_COLOR: [u8; 4] = [155, 118, 83, 255];

/// Colour of a wall cell of the map image.
pub const WALL_COLOR: [u8; 4] = [99, 69, 44, 255];

/// Possible states of a pixel on the map.
#[derive(Clone, Copy, Debug, PartialEq, Eq, Structural)]
pub enum MapPixel {
    Open,
    Wall,
}

/// The state that a pixel colour stands for, if any.
pub open spec fn classify(c: [u8; 4]) -> Option<MapPixel> {
    if c@ == seq![155u8, 118u8, 83u8, 255u8] {
        Some(MapPixel::Open)
    } else if c@ == seq![99u8, 69u8, 44u8, 255u8] {
        Some(MapPixel::Wall)
    } else {
        None
    }
}

/// Map cells of the pixels `(x, y, rgba)` of an image of size `width` x `height`, in
/// order, with coordinates recentred on the image centre; other colours are skipped.
pub open spec fn map_cells(width: int, height: int, pixels: Seq<(u32, u32, [u8; 4])>) -> Seq<
    ((i32, i32), MapPixel),
>
    decreases pixels.len(),
{
    if pixels.len() == 0 {
        seq![]
    } else {
        let init = map_cells(width, height, pixels.drop_last());
        let p = pixels.last();
        match classify(p.2) {
            Some(k) => init.push((centred(width, height, p), k)),
            None => init,
        }
    }
}

/// The pixels lie inside an image whose size fits `i32`.
pub open spec fn pixels_inside(width: int, height: int, pixels: Seq<(u32, u32, [u8; 4])>) -> bool {
    &&& width <= i32::MAX
    &&& height <= i32::MAX
    &&& forall|i: int| 0 <= i < pixels.len() ==> (#[trigger] pixels[i]).0 < width && pixels[i].1 < height
}

/// No two pixels stand at the same coordinates.
pub open spec fn distinct_positions(pixels: Seq<(u32, u32, [u8; 4])>) -> bool {
    forall|i: int, j: int|
        0 <= i < j < pixels.len() ==> (#[trigger] pixels[i]).0 != (#[trigger] pixels[j]).0
            || pixels[i].1 != pixels[j].1
}

/// No two cells share coordinates: the cells form a map from coordinates to states.
pub open spec fn distinct_cells(cells: Seq<((i32, i32), MapPixel)>) -> bool {
    forall|i: int, j: int| 0 <= i < j < cells.len() ==> (#[trigger] cells[i]).0 != (#[trigger] cells[j]).0
}

/// Coordinates of pixel `p` relative to the centre of a `width` x `height` image.
pub open spec fn centred(width: int, height: int, p: (u32, u32, [u8; 4])) -> (i32, i32) {
    ((p.0 as int - width / 2) as i32, (p.1 as int - height / 2) as i32)
}

fn same_color(a: &[u8; 4], b: &[u8; 4]) -> (r: bool)
    ensures
        r == (a@ == b@),
{
    let eq = a[0] == b[0] && a[1] == b[1] && a[2] == b[2] && a[3] == b[3];
    proof {
        if eq {
            assert(a@ =~= b@);
        }
    }
    eq
}

/// Builds the wall map from the pixels of the map image: each pixel of the open or the wall
/// colour becomes a cell at its coordinates relative to the image centre.
pub fn generate_hashmap(width: u32, height: u32, pixels: &Vec<(u32, u32, [u8; 4])>) -> (r: Vec<
    ((i32, i32), MapPixel),
>)
    requires
        pixels_inside(width as int, height as int, pixels@),
        distinct_positions(pixels@),
    ensures
        r@ == map_cells(width as int, height as int, pixels@),
        distinct_cells(r@),
{
    let ghost w = width as int;
    let ghost h = height as int;
    let ghost mut src: Seq<int> = seq![];
    let mut map: Vec<((i32, i32), MapPixel)> = Vec::new();
    let half_w = (width / 2) as i32;
    let half_h = (height / 2) as i32;
    let open_color = OPEN_COLOR;
    let wall_color = WALL_COLOR;
    assert(open_color@ == seq![155u8, 118u8, 83u8, 255u8]);
    assert(wall_color@ == seq![99u8, 69u8, 44u8, 255u8]);
    let mut i: usize = 0;
    while i < pixels.len()
        invariant
            pixels_inside(width as int, height as int, pixels@),
            i <= pixels.len(),
            half_w == width / 2,
            half_h == height / 2,
            open_color@ == seq![155u8, 118u8, 83u8, 255u8],
            wall_color@ == seq![99u8, 69u8, 44u8, 255u8],
            map@ == map_cells(width as int, height as int, pixels@.take(i as int)),
            distinct_positions(pixels@),
            w == width,
            h == height,
            src.len() == map.len(),
            forall|k: int| 0 <= k < src.len() ==> 0 <= #[trigger] src[k] < i,
            forall|k: int|
                0 <= k < src.len() ==> (#[trigger] map@[k]).0 == centred(w, h, pixels@[src[k]]),
            distinct_cells(map@),
        decreases pixels.len() - i,
    {
        let pixel = pixels[i];
        assert(pixels@.take(i + 1).drop_last() =~= pixels@.take(i as int));
        assert(pixels@.take(i + 1).last() == pixel);
        let coords = ((pixel.0 as i32) - half_w, (pixel.1 as i32) - half_h);
        assert(coords == centred(w, h, pixel));
        proof {
            assert forall|k: int| 0 <= k < map@.len() implies (#[trigger] map@[k]).0 != coords by {
                let j = src[k];
                assert(j < i);
                let q = pixels@[j];
                assert(q.0 != pixel.0 || q.1 != pixel.1);
            }
        }
        let ghost old_map = map@;
        if same_color(&pixel.2, &open_color) {
            map.push((coords, MapPixel::Open));
            proof {
                src = src.push(i as int);
                assert(map@ == old_map.push((coords, MapPixel::Open)));
            }
        } else if same_color(&pixel.2, &wall_color) {
            map.push((coords, MapPixel::Wall));
            proof {
                src = src.push(i as int);
                assert(map@ == old_map.push((coords, MapPixel::Wall)));
            }
        }
        i = i + 1;
    }
    assert(pixels@.take(pixels.len() as int) =~= pixels@);
    map
}

/// The ants of the simulation and the wall map.
pub struct Model {
    pub ants: Vec<Ant>,
    pub map: Vec<((i32, i32), MapPixel)>,
}

impl Model {
    /// Every ant is well formed.
    pub open spec fn wf(&self) -> bool {
        forall|i: int| 0 <= i < self.ants.len() ==> (#[trigger] self.ants[i]).wf()
    }

    /// Every ant is far enough from the integer limits for one more step.
    pub open spec fn in_range(&self) -> bool {
        forall|i: int| 0 <= i < self.ants.len() ==> (#[trigger] self.ants[i]).in_range()
    }

    /// A model of `num_ants` fresh ants over `map`.
    pub fn new(num_ants: u32, map: Vec<((i32, i32), MapPixel)>, rng: &mut StdRng) -> (r: Model)
        ensures
            r.wf(),
            r.ants.len() == num_ants,
            r.map@ == map@,
            forall|i: int| 0 <= i < num_ants ==> (#[trigger] r.ants[i]).is_fresh(),
    {
        let mut ants: Vec<Ant> = Vec::new();
        let mut k: u32 = 0;
        while k < num_ants
            invariant
                k <= num_ants,
                ants.len() == k,
                forall|i: int| 0 <= i < k ==> (#[trigger] ants[i]).wf() && ants[i].is_fresh(),
            decreases num_ants - k,
        {
            ants.push(Ant::new(rng));
            k = k + 1;
        }
        Model { ants, map }
    }

    /// The ants, in insertion order.
    pub fn ants(&self) -> (r: &Vec<Ant>)
        ensures
            r@ == self.ants@,
    {
        &self.ants
    }

    /// Random-walks the wander angle of every ant, in insertion order.
    pub fn turn(&mut self, dims: Vector, rng: &mut StdRng)
        requires
            old(self).wf(),
            0 <= dims.x <= DIM_LIMIT,
            0 <= dims.y <= DIM_LIMIT,
        ensures
            final(self).wf(),
            final(self).map@ == old(self).map@,
            final(self).ants.len() == old(self).ants.len(),
            forall|i: int|
                0 <= i < old(self).ants.len() ==> turn_step(
                    old(self).ants[i],
                    #[trigger] final(self).ants[i],
                    dims@,
                ),
    {
        let n = self.ants.len();
        let mut i: usize = 0;
        while i < n
            invariant
                n == self.ants.len(),
                n == old(self).ants.len(),
                i <= n,
                0 <= dims.x <= DIM_LIMIT,
                0 <= dims.y <= DIM_LIMIT,
                self.map@ == old(self).map@,
                self.wf(),
                forall|j: int| i <= j < n ==> #[trigger] self.ants[j] == old(self).ants[j],
                forall|j: int|
                    0 <= j < i ==> turn_step(old(self).ants[j], #[trigger] self.ants[j], dims@),
            decreases n - i,
        {
            let mut ant = self.ants[i];
            ant.turn(dims, rng);
            self.ants.set(i, ant);
            i = i + 1;
        }
    }

    /// Steers every ant one tick along its wander circle, in insertion order; `headings[i]`
    /// is the unit vector at the wander angle of ant `i`.
    pub fn update(&mut self, dims: Vector, headings: &Vec<Vector>)
        requires
            old(self).wf(),
            old(self).in_range(),
            headings.len() == old(self).ants.len(),
            0 <= dims.x <= DIM_LIMIT,
            0 <= dims.y <= DIM_LIMIT,
            forall|i: int|
                0 <= i < headings.len() ==> -SCALE <= (#[trigger] headings[i]).x <= SCALE && -SCALE
                    <= headings[i].y <= SCALE,
        ensures
            final(self).wf(),
            final(self).map@ == old(self).map@,
            final(self).ants.len() == old(self).ants.len(),
            forall|i: int|
                0 <= i < old(self).ants.len() ==> seek_step(
                    old(self).ants[i],
                    #[trigger] final(self).ants[i],
                    wander_target(old(self).ants[i], headings[i]@),
                    0,
                    arena_bounds(dims@, EDGE_THRESHOLD as int),
                ),
    {
        let n = self.ants.len();
        let mut i: usize = 0;
        while i < n
            invariant
                n == self.ants.len(),
                n == old(self).ants.len(),
                n == headings.len(),
                i <= n,
                0 <= dims.x <= DIM_LIMIT,
                0 <= dims.y <= DIM_LIMIT,
                forall|j: int|
                    0 <= j < headings.len() ==> -SCALE <= (#[trigger] headings[j]).x <= SCALE
                        && -SCALE <= headings[j].y <= SCALE,
                self.map@ == old(self).map@,
                self.wf(),
                old(self).in_range(),
                forall|j: int| i <= j < n ==> #[trigger] self.ants[j] == old(self).ants[j],
                forall|j: int|
                    0 <= j < i ==> seek_step(
                        old(self).ants[j],
                        #[trigger] self.ants[j],
                        wander_target(old(self).ants[j], headings[j]@),
                        0,
                        arena_bounds(dims@, EDGE_THRESHOLD as int),
                    ),
            decreases n - i,
        {
            let mut ant = self.ants[i];
            assert(ant.in_range());
            ant.wander(dims, headings[i]);
            self.ants.set(i, ant);
            i = i + 1;
        }
    }
}

} // verus!
