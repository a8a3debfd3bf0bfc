//! The lattice: a dense 3D grid of blocks, the neighbor queries, the
//! generation step, and the stagnation-recovery transition.

use vstd::prelude::*;

use rand::Rng;

use crate::block::Block;
use crate::block::Pos;
use crate::block::Rgb;
use crate::rule::Rule;
use crate::rule::SeedPolicy;
use crate::rule::rule_next;

verus! {

use vstd::arithmetic::div_mod::lemma_fundamental_div_mod_converse;

/// How many liveness snapshots the stagnation check looks back over.
pub const HISTORY_WINDOW: usize = 5;

/// The linear index of the coordinate `(x, y, z)` in a lattice whose extents
/// along the last two axes are `h` and `d`: the `z` axis varies fastest.
pub open spec fn idx3(h: int, d: int, x: int, y: int, z: int) -> int {
    x * (h * d) + y * d + z
}

/// The first coordinate encoded in linear index `i`.
pub open spec fn x_of(h: int, d: int, i: int) -> int {
    i / (h * d)
}

/// The second coordinate encoded in linear index `i`.
pub open spec fn y_of(h: int, d: int, i: int) -> int {
    (i % (h * d)) / d
}

/// The third coordinate encoded in linear index `i`.
pub open spec fn z_of(d: int, i: int) -> int {
    i % d
}

/// Whether `(x, y, z)` lies inside the box `[0,w) x [0,h) x [0,d)`.
pub open spec fn in_box(w: int, h: int, d: int, x: int, y: int, z: int) -> bool {
    0 <= x < w && 0 <= y < h && 0 <= z < d
}

/// Encoding a coordinate of the box gives an index under `w*h*d`, and
/// decoding that index gives the coordinate back.
pub proof fn lemma_idx3_of_coord(w: int, h: int, d: int, x: int, y: int, z: int)
    requires
        0 < w && 0 < h && 0 < d,
        in_box(w, h, d, x, y, z),
    ensures
        0 <= idx3(h, d, x, y, z) < w * (h * d),
        idx3(h, d, x, y, z) == (x * h + y) * d + z,
        0 <= x * h + y <= idx3(h, d, x, y, z),
        0 <= x * h <= x * h + y,
        x_of(h, d, idx3(h, d, x, y, z)) == x,
        y_of(h, d, idx3(h, d, x, y, z)) == y,
        z_of(d, idx3(h, d, x, y, z)) == z,
{
    let hd = h * d;
    let rest = y * d + z;
    let i = idx3(h, d, x, y, z);
    assert(0 <= rest < hd && rest % d == z && rest / d == y && 0 < hd) by {
        assert(0 <= y * d && y * d + d <= hd) by (nonlinear_arith)
            requires hd == h * d, 0 <= y && y + 1 <= h && 0 < d;
        lemma_fundamental_div_mod_converse(rest, d, y, z);
    }
    assert(0 <= i < w * hd) by (nonlinear_arith)
        requires
            i == x * hd + rest,
            0 <= x && x + 1 <= w && 0 <= rest < hd;
    lemma_fundamental_div_mod_converse(i, hd, x, rest);
    assert(i == (x * h + y) * d + z) by (nonlinear_arith)
        requires i == x * (h * d) + y * d + z;
    lemma_fundamental_div_mod_converse(i, d, x * h + y, z);
    assert(0 <= x * h && x * h + y <= (x * h + y) * d) by (nonlinear_arith)
        requires 0 <= x && 0 <= h && 0 <= y && 1 <= d;
}

/// Decoding any index under `w*h*d` gives a coordinate of the box, and
/// encoding that coordinate gives the index back.
pub proof fn lemma_coord_of_idx3(w: int, h: int, d: int, i: int)
    requires
        0 < w && 0 < h && 0 < d,
        0 <= i < w * (h * d),
    ensures
        in_box(w, h, d, x_of(h, d, i), y_of(h, d, i), z_of(d, i)),
        idx3(h, d, x_of(h, d, i), y_of(h, d, i), z_of(d, i)) == i,
{
    let hd = h * d;
    let x = i / hd;
    let rest = i % hd;
    let y = rest / d;
    let z = i % d;
    assert(0 < hd) by (nonlinear_arith)
        requires hd == h * d, 0 < h && 0 < d;
    vstd::arithmetic::div_mod::lemma_fundamental_div_mod(i, hd);
    assert(0 <= rest < hd) by {
        vstd::arithmetic::div_mod::lemma_mod_bound(i, hd);
    }
    assert(0 <= x && x < w) by (nonlinear_arith)
        requires
            i == hd * x + rest,
            0 <= i && i < w * hd,
            0 <= rest < hd,
            0 < hd;
    vstd::arithmetic::div_mod::lemma_fundamental_div_mod(rest, d);
    assert(0 <= rest % d < d) by {
        vstd::arithmetic::div_mod::lemma_mod_bound(rest, d);
    }
    assert(0 <= y && y < h) by (nonlinear_arith)
        requires
            rest == d * y + rest % d,
            0 <= rest < h * d,
            0 <= rest % d < d,
            0 < d;
    assert(i == (x * h + y) * d + rest % d) by (nonlinear_arith)
        requires
            i == hd * x + rest,
            hd == h * d,
            rest == d * y + rest % d;
    lemma_fundamental_div_mod_converse(i, d, x * h + y, rest % d);
    assert(z == rest % d);
    assert(idx3(h, d, x, y, z) == i) by (nonlinear_arith)
        requires
            i == hd * x + rest,
            hd == h * d,
            rest == d * y + z;
}

/// The gradient channel for coordinate `c` of an axis with extent `extent`:
/// the fraction `c / extent` scaled into `0..128`, so the channel stays in
/// the lower half of the `0..=255` range.
pub open spec fn channel(c: int, extent: int) -> int {
    c * 128 / extent
}

/// Whether the parity seeding policy starts the cell at `(x, y, z)` alive:
/// exactly when the coordinate sum is odd. (An alternative reading groups
/// only the last axis under the parity; this lattice commits to the sum.)
pub open spec fn parity_alive(x: int, y: int, z: int) -> bool {
    (x + y + z) % 2 == 1
}

/// The liveness pattern the parity policy seeds over a `w x h x d` box,
/// by linear index.
pub open spec fn parity_live(w: int, h: int, d: int) -> Seq<bool> {
    Seq::new((w * (h * d)) as nat, |i: int| parity_alive(x_of(h, d, i), y_of(h, d, i), z_of(d, i)))
}

/// 1 when `(x, y, z)` lies in the `w x h x d` box and the pattern `live`
/// marks it alive, else 0.
pub open spec fn live_flag(live: Seq<bool>, w: int, h: int, d: int, x: int, y: int, z: int) -> int {
    if in_box(w, h, d, x, y, z) && live[idx3(h, d, x, y, z)] {
        1int
    } else {
        0int
    }
}

/// How many of the six axis-aligned adjacent coordinates of `(x, y, z)`
/// are inside the box and alive under `live`.
pub open spec fn ncount(live: Seq<bool>, w: int, h: int, d: int, x: int, y: int, z: int) -> int {
    live_flag(live, w, h, d, x - 1, y, z) + live_flag(live, w, h, d, x + 1, y, z)
        + live_flag(live, w, h, d, x, y - 1, z) + live_flag(live, w, h, d, x, y + 1, z)
        + live_flag(live, w, h, d, x, y, z - 1) + live_flag(live, w, h, d, x, y, z + 1)
}

/// One simultaneous generation step over the whole pattern: every cell's
/// next liveness comes from the rule applied to its current liveness and
/// its alive-neighbor count, all read from `live` alone.
pub open spec fn step_live(live: Seq<bool>, w: int, h: int, d: int, rule: Rule) -> Seq<bool> {
    Seq::new(live.len(), |i: int| rule_next(
        rule,
        live[i],
        ncount(live, w, h, d, x_of(h, d, i), y_of(h, d, i), z_of(d, i)),
    ))
}

/// The history after a snapshot is appended: the oldest entry leaves first
/// once the window is full.
pub open spec fn push_evict(h: Seq<Seq<bool>>, fp: Seq<bool>) -> Seq<Seq<bool>> {
    let h2 = h.push(fp);
    if h2.len() > HISTORY_WINDOW {
        h2.subrange(1, h2.len() as int)
    } else {
        h2
    }
}

/// Relies on rand's `Rng::gen_range`: a draw from the range `0..100` lies
/// in that range. Nothing else is assumed of the draw.
#[verifier::external_body]
fn random_percent() -> (r: u8)
    ensures
        r < 100,
{
    let mut rng = rand::thread_rng();
    rng.gen_range(0..100)
}

/// The gradient channel as executable arithmetic, widened so the product
/// cannot overflow.
fn channel_of(c: usize, extent: usize) -> (r: u8)
    requires
        0 < extent,
        c < extent,
    ensures
        r as int == channel(c as int, extent as int),
{
    let v: u128 = ((c as u128) * 128) / (extent as u128);
    proof {
        assert((c as int) * 128 < (extent as int) * 128) by (nonlinear_arith)
            requires (c as int) < (extent as int);
        vstd::arithmetic::div_mod::lemma_multiply_divide_lt(
            (c as int) * 128, extent as int, 128);
        vstd::arithmetic::div_mod::lemma_div_pos_is_pos((c as int) * 128, extent as int);
    }
    v as u8
}

/// The lattice. `grid` holds one block per coordinate of the box
/// `[0,width) x [0,height) x [0,depth)` once populated, at the linear index
/// `idx3`; `prev_patterns` is the rolling history of liveness snapshots that
/// the stagnation check reads.
pub struct Grid {
    pub grid: Vec<Block>,
    pub width: usize,
    pub height: usize,
    pub depth: usize,
    pub block_size: u32,
    pub prev_patterns: Vec<Vec<bool>>,
    pub seed_policy: SeedPolicy,
    pub rule: Rule,
}

/// The reasons a lattice cannot be constructed.
#[derive(Clone, Copy, PartialEq, Eq, Structural, Debug)]
pub enum GridError {
    /// Some extent is zero: the box would be empty.
    ZeroDimension,
    /// The cell count `width * height * depth` does not fit in `usize`.
    TooLarge,
}

impl Grid {
    /// The number of grid points of the box.
    pub open spec fn total(self) -> int {
        self.width * (self.height * self.depth)
    }

    /// The extents describe a non-empty box whose cell count fits in `usize`.
    pub open spec fn dims_ok(self) -> bool {
        0 < self.width && 0 < self.height && 0 < self.depth
            && self.total() <= usize::MAX
    }

    /// Whether `(x, y, z)` lies inside this lattice's box.
    pub open spec fn in_bounds(self, x: int, y: int, z: int) -> bool {
        in_box(self.width as int, self.height as int, self.depth as int, x, y, z)
    }

    /// The linear index of `(x, y, z)` in `grid`.
    pub open spec fn index_of(self, x: int, y: int, z: int) -> int {
        idx3(self.height as int, self.depth as int, x, y, z)
    }

    /// The coordinate a block at linear index `i` must carry.
    pub open spec fn pos_of(self, i: int) -> Pos {
        Pos {
            x: x_of(self.height as int, self.depth as int, i) as usize,
            y: y_of(self.height as int, self.depth as int, i) as usize,
            z: z_of(self.depth as int, i) as usize,
        }
    }

    /// The history never outgrows the window.
    pub open spec fn wf(self) -> bool {
        self.dims_ok() && self.prev_patterns@.len() <= HISTORY_WINDOW
    }

    /// The lattice is dense: one block per coordinate of the box, stored at
    /// its linear index and carrying that coordinate as its position.
    pub open spec fn populated(self) -> bool {
        self.grid@.len() == self.total()
            && forall|i: int| 0 <= i < self.grid@.len()
                ==> (#[trigger] self.grid@[i]).position == self.pos_of(i)
    }

    /// The color a block at linear index `i` carries after population: the
    /// spatial gradient, one channel per axis.
    pub open spec fn color_at(self, i: int) -> Rgb {
        Rgb {
            r: channel(x_of(self.height as int, self.depth as int, i), self.width as int) as u8,
            g: channel(y_of(self.height as int, self.depth as int, i), self.height as int) as u8,
            b: channel(z_of(self.depth as int, i), self.depth as int) as u8,
        }
    }

    /// The immutable part of a populated block at index `i`: its coordinate,
    /// its rendering size, and its gradient color.
    pub open spec fn cell_shape(self, i: int, b: Block) -> bool {
        b.position == self.pos_of(i) && b.size == self.block_size && b.color == self.color_at(i)
    }

    /// The global liveness pattern: each block's flag, by linear index.
    pub open spec fn liveness(self) -> Seq<bool> {
        self.grid@.map_values(|b: Block| b.is_alive)
    }

    /// Builds an empty lattice with the given extents, rendering size,
    /// seeding policy and stepping rule. Extents must be positive and the
    /// cell count must fit in `usize`; otherwise the matching error comes
    /// back and no lattice is made.
    pub fn new(
        width: usize,
        height: usize,
        depth: usize,
        block_size: u32,
        seed_policy: SeedPolicy,
        rule: Rule,
    ) -> (r: Result<Grid, GridError>)
        ensures
            r is Ok <==> 0 < width && 0 < height && 0 < depth
                && width * (height * depth) <= usize::MAX,
            match r {
                Ok(g) => {
                    &&& g.width == width && g.height == height && g.depth == depth
                    &&& g.block_size == block_size
                    &&& g.seed_policy == seed_policy
                    &&& g.rule == rule
                    &&& g.grid@.len() == 0
                    &&& g.prev_patterns@.len() == 0
                    &&& g.wf()
                },
                Err(e) => {
                    e == (if width == 0 || height == 0 || depth == 0 {
                        GridError::ZeroDimension
                    } else {
                        GridError::TooLarge
                    })
                },
            },
    {
        if width == 0 || height == 0 || depth == 0 {
            return Err(GridError::ZeroDimension);
        }
        let hd = match height.checked_mul(depth) {
            Some(v) => v,
            None => {
                proof {
                    assert(width * (height * depth) >= height * depth) by (nonlinear_arith)
                        requires width >= 1, height >= 1, depth >= 1;
                }
                return Err(GridError::TooLarge);
            },
        };
        let total = match width.checked_mul(hd) {
            Some(v) => v,
            None => {
                return Err(GridError::TooLarge);
            },
        };
        Ok(Grid {
            grid: Vec::new(),
            width,
            height,
            depth,
            block_size,
            prev_patterns: Vec::new(),
            seed_policy,
            rule,
        })
    }

    /// Fills (or refills) the lattice: one block per coordinate of the box,
    /// at its linear index, with the gradient color and the configured
    /// rendering size. Liveness comes from the seeding policy: under
    /// `Parity` the pattern is exactly `parity_live`; under `Random` each
    /// cell draws independently. Extents, rule, policy and history are
    /// untouched.
    #[verifier::loop_isolation(false)]
    pub fn generate_blocks(&mut self)
        requires
            old(self).dims_ok(),
        ensures
            final(self).width == old(self).width,
            final(self).height == old(self).height,
            final(self).depth == old(self).depth,
            final(self).block_size == old(self).block_size,
            final(self).seed_policy == old(self).seed_policy,
            final(self).rule == old(self).rule,
            final(self).prev_patterns == old(self).prev_patterns,
            final(self).populated(),
            forall|i: int| 0 <= i < final(self).grid@.len()
                ==> final(self).cell_shape(i, #[trigger] final(self).grid@[i]),
            old(self).seed_policy == SeedPolicy::Parity
                ==> final(self).liveness() == parity_live(
                        old(self).width as int, old(self).height as int, old(self).depth as int),
    {
        let w = self.width;
        let h = self.height;
        let d = self.depth;
        proof {
            assert(h * d <= w * (h * d)) by (nonlinear_arith)
                requires 1 <= w && 0 < h && 0 < d;
        }
        let hd = h * d;
        let total = w * hd;
        let mut cells: Vec<Block> = Vec::new();
        let mut i: usize = 0;
        while i < total
            invariant
                i <= total,
                cells@.len() == i,
                forall|j: int| 0 <= j < i ==> self.cell_shape(j, #[trigger] cells@[j]),
                self.seed_policy == SeedPolicy::Parity
                    ==> forall|j: int| 0 <= j < i
                        ==> (#[trigger] cells@[j]).is_alive == parity_alive(
                                x_of(h as int, d as int, j),
                                y_of(h as int, d as int, j),
                                z_of(d as int, j)),
            decreases total - i,
        {
            proof {
                lemma_coord_of_idx3(w as int, h as int, d as int, i as int);
            }
            let x = i / hd;
            let rest = i % hd;
            let y = rest / d;
            let z = i % d;
            let alive: bool = match self.seed_policy {
                SeedPolicy::Parity => (x as u128 + y as u128 + z as u128) % 2 == 1,
                SeedPolicy::Random => random_percent() <= 10,
            };
            let color = Rgb {
                r: channel_of(x, w),
                g: channel_of(y, h),
                b: channel_of(z, d),
            };
            let b = Block::new(Pos { x, y, z }, self.block_size, color, alive);
            cells.push(b);
            i = i + 1;
        }
        self.grid = cells;
        proof {
            if self.seed_policy == SeedPolicy::Parity {
                assert(self.liveness() =~= parity_live(w as int, h as int, d as int));
            }
        }
    }

    /// The liveness flag stored for the in-bounds coordinate `(x, y, z)`.
    pub open spec fn alive_at(self, x: int, y: int, z: int) -> bool {
        self.grid@[self.index_of(x, y, z)].is_alive
    }

    /// The block stored for an in-bounds coordinate.
    fn block_at(&self, x: usize, y: usize, z: usize) -> (b: Block)
        requires
            self.dims_ok(),
            self.populated(),
            self.in_bounds(x as int, y as int, z as int),
        ensures
            b == self.grid@[self.index_of(x as int, y as int, z as int)],
    {
        proof {
            lemma_idx3_of_coord(
                self.width as int, self.height as int, self.depth as int,
                x as int, y as int, z as int);
        }
        let i = (x * self.height + y) * self.depth + z;
        self.grid[i]
    }

    /// Looks the coordinate up: the stored block when it lies inside the
    /// box, absence when it does not. Out-of-range coordinates are never an
    /// error.
    pub fn get_block(&self, position: Pos) -> (r: Option<Block>)
        requires
            self.dims_ok(),
            self.populated(),
        ensures
            self.in_bounds(position.x as int, position.y as int, position.z as int)
                ==> r == Some(self.grid@[
                        self.index_of(position.x as int, position.y as int, position.z as int)]),
            !self.in_bounds(position.x as int, position.y as int, position.z as int)
                ==> r is None,
    {
        if position.x < self.width && position.y < self.height && position.z < self.depth {
            Some(self.block_at(position.x, position.y, position.z))
        } else {
            None
        }
    }

    /// Mutable lookup with the same bounds behavior as `get_block`: the
    /// caller may flip the block's liveness in place, and only the entry at
    /// that coordinate changes.
    pub fn get_block_mut(&mut self, position: Pos) -> (r: Option<&mut Block>)
        requires
            old(self).dims_ok(),
            old(self).populated(),
        ensures
            old(self).in_bounds(position.x as int, position.y as int, position.z as int)
                ==> {
                    let i = old(self).index_of(
                        position.x as int, position.y as int, position.z as int);
                    &&& r matches Some(b) && *b == old(self).grid@[i]
                        && final(self).grid@ == old(self).grid@.update(i, *final(b))
                },
            !old(self).in_bounds(position.x as int, position.y as int, position.z as int)
                ==> r is None && final(self).grid@ == old(self).grid@,
            final(self).width == old(self).width,
            final(self).height == old(self).height,
            final(self).depth == old(self).depth,
            final(self).block_size == old(self).block_size,
            final(self).seed_policy == old(self).seed_policy,
            final(self).rule == old(self).rule,
            final(self).prev_patterns == old(self).prev_patterns,
    {
        if position.x < self.width && position.y < self.height && position.z < self.depth {
            proof {
                lemma_idx3_of_coord(
                    self.width as int, self.height as int, self.depth as int,
                    position.x as int, position.y as int, position.z as int);
            }
            let i = (position.x * self.height + position.y) * self.depth + position.z;
            Some(&mut self.grid[i])
        } else {
            None
        }
    }

    /// The block for `(x, y, z)` as a one- or zero-element sequence: present
    /// exactly when the coordinate lies inside the box.
    pub open spec fn neighbor_cell(self, x: int, y: int, z: int) -> Seq<Block> {
        if self.in_bounds(x, y, z) {
            seq![self.grid@[self.index_of(x, y, z)]]
        } else {
            Seq::empty()
        }
    }

    /// The blocks at the six axis-aligned adjacent coordinates that exist,
    /// in the fixed order: x-1, x+1, y-1, y+1, z-1, z+1.
    pub open spec fn neighbors_at(self, x: int, y: int, z: int) -> Seq<Block> {
        self.neighbor_cell(x - 1, y, z) + self.neighbor_cell(x + 1, y, z)
            + self.neighbor_cell(x, y - 1, z) + self.neighbor_cell(x, y + 1, z)
            + self.neighbor_cell(x, y, z - 1) + self.neighbor_cell(x, y, z + 1)
    }

    /// Collects the blocks at the six axis-aligned adjacent coordinates that
    /// lie inside the box; coordinates outside it are silently skipped, and
    /// a coordinate component at zero is never decremented, so no index
    /// wraps around.
    pub fn get_neighbors(&self, position: Pos) -> (r: Vec<Block>)
        requires
            self.dims_ok(),
            self.populated(),
            self.in_bounds(position.x as int, position.y as int, position.z as int),
        ensures
            r@ == self.neighbors_at(position.x as int, position.y as int, position.z as int),
    {
        let x = position.x;
        let y = position.y;
        let z = position.z;
        let ghost xi = x as int;
        let ghost yi = y as int;
        let ghost zi = z as int;
        let mut out: Vec<Block> = Vec::new();
        if x > 0 {
            out.push(self.block_at(x - 1, y, z));
        }
        proof {
            assert(out@ =~= self.neighbor_cell(xi - 1, yi, zi));
        }
        if x + 1 < self.width {
            out.push(self.block_at(x + 1, y, z));
        }
        proof {
            assert(out@ =~= self.neighbor_cell(xi - 1, yi, zi)
                + self.neighbor_cell(xi + 1, yi, zi));
        }
        if y > 0 {
            out.push(self.block_at(x, y - 1, z));
        }
        proof {
            assert(out@ =~= self.neighbor_cell(xi - 1, yi, zi)
                + self.neighbor_cell(xi + 1, yi, zi)
                + self.neighbor_cell(xi, yi - 1, zi));
        }
        if y + 1 < self.height {
            out.push(self.block_at(x, y + 1, z));
        }
        proof {
            assert(out@ =~= self.neighbor_cell(xi - 1, yi, zi)
                + self.neighbor_cell(xi + 1, yi, zi)
                + self.neighbor_cell(xi, yi - 1, zi)
                + self.neighbor_cell(xi, yi + 1, zi));
        }
        if z > 0 {
            out.push(self.block_at(x, y, z - 1));
        }
        proof {
            assert(out@ =~= self.neighbor_cell(xi - 1, yi, zi)
                + self.neighbor_cell(xi + 1, yi, zi)
                + self.neighbor_cell(xi, yi - 1, zi)
                + self.neighbor_cell(xi, yi + 1, zi)
                + self.neighbor_cell(xi, yi, zi - 1));
        }
        if z + 1 < self.depth {
            out.push(self.block_at(x, y, z + 1));
        }
        proof {
            assert(out@ =~= self.neighbors_at(xi, yi, zi));
        }
        out
    }

    /// The alive-neighbor count of `(x, y, z)` under the current pattern.
    pub open spec fn neighbor_count(self, x: int, y: int, z: int) -> int {
        ncount(
            self.liveness(), self.width as int, self.height as int, self.depth as int, x, y, z)
    }

    /// Counts the six axis-aligned adjacent coordinates that are inside the
    /// box and hold a live block.
    pub fn count_alive_neighbors(&self, position: Pos) -> (n: u8)
        requires
            self.dims_ok(),
            self.populated(),
            self.in_bounds(position.x as int, position.y as int, position.z as int),
        ensures
            n as int == self.neighbor_count(
                position.x as int, position.y as int, position.z as int),
            n <= 6,
    {
        let x = position.x;
        let y = position.y;
        let z = position.z;
        let ghost live = self.liveness();
        let ghost wi = self.width as int;
        let ghost hi = self.height as int;
        let ghost di = self.depth as int;
        let ghost xi = x as int;
        let ghost yi = y as int;
        let ghost zi = z as int;
        let mut n: u8 = 0;
        if x > 0 && self.block_at(x - 1, y, z).is_alive {
            n = n + 1;
        }
        proof {
            if in_box(wi, hi, di, xi - 1, yi, zi) {
                lemma_idx3_of_coord(wi, hi, di, xi - 1, yi, zi);
            }
            assert(n as int == live_flag(live, wi, hi, di, xi - 1, yi, zi));
        }
        if x + 1 < self.width && self.block_at(x + 1, y, z).is_alive {
            n = n + 1;
        }
        proof {
            if in_box(wi, hi, di, xi + 1, yi, zi) {
                lemma_idx3_of_coord(wi, hi, di, xi + 1, yi, zi);
            }
            assert(n as int == live_flag(live, wi, hi, di, xi - 1, yi, zi)
                + live_flag(live, wi, hi, di, xi + 1, yi, zi));
        }
        if y > 0 && self.block_at(x, y - 1, z).is_alive {
            n = n + 1;
        }
        proof {
            if in_box(wi, hi, di, xi, yi - 1, zi) {
                lemma_idx3_of_coord(wi, hi, di, xi, yi - 1, zi);
            }
            assert(n as int == live_flag(live, wi, hi, di, xi - 1, yi, zi)
                + live_flag(live, wi, hi, di, xi + 1, yi, zi)
                + live_flag(live, wi, hi, di, xi, yi - 1, zi));
        }
        if y + 1 < self.height && self.block_at(x, y + 1, z).is_alive {
            n = n + 1;
        }
        proof {
            if in_box(wi, hi, di, xi, yi + 1, zi) {
                lemma_idx3_of_coord(wi, hi, di, xi, yi + 1, zi);
            }
            assert(n as int == live_flag(live, wi, hi, di, xi - 1, yi, zi)
                + live_flag(live, wi, hi, di, xi + 1, yi, zi)
                + live_flag(live, wi, hi, di, xi, yi - 1, zi)
                + live_flag(live, wi, hi, di, xi, yi + 1, zi));
        }
        if z > 0 && self.block_at(x, y, z - 1).is_alive {
            n = n + 1;
        }
        proof {
            if in_box(wi, hi, di, xi, yi, zi - 1) {
                lemma_idx3_of_coord(wi, hi, di, xi, yi, zi - 1);
            }
            assert(n as int == live_flag(live, wi, hi, di, xi - 1, yi, zi)
                + live_flag(live, wi, hi, di, xi + 1, yi, zi)
                + live_flag(live, wi, hi, di, xi, yi - 1, zi)
                + live_flag(live, wi, hi, di, xi, yi + 1, zi)
                + live_flag(live, wi, hi, di, xi, yi, zi - 1));
        }
        if z + 1 < self.depth && self.block_at(x, y, z + 1).is_alive {
            n = n + 1;
        }
        proof {
            if in_box(wi, hi, di, xi, yi, zi + 1) {
                lemma_idx3_of_coord(wi, hi, di, xi, yi, zi + 1);
            }
            assert(n as int == self.neighbor_count(xi, yi, zi));
        }
        n
    }

    /// Builds the next generation from the current pattern alone: every new
    /// block keeps its position, size and color, and takes the liveness that
    /// `step_live` assigns its index.
    #[verifier::loop_isolation(false)]
    fn step_cells(&self) -> (r: Vec<Block>)
        requires
            self.dims_ok(),
            self.populated(),
        ensures
            r@.len() == self.grid@.len(),
            forall|i: int| 0 <= i < r@.len()
                ==> #[trigger] r@[i] == (Block {
                    is_alive: step_live(
                        self.liveness(),
                        self.width as int, self.height as int, self.depth as int,
                        self.rule)[i],
                    ..self.grid@[i]
                }),
    {
        let w = self.width;
        let h = self.height;
        let d = self.depth;
        proof {
            assert(h * d <= w * (h * d)) by (nonlinear_arith)
                requires 1 <= w && 0 < h && 0 < d;
        }
        let hd = h * d;
        let total = w * hd;
        let ghost next = step_live(
            self.liveness(), w as int, h as int, d as int, self.rule);
        let mut out: Vec<Block> = Vec::new();
        let mut i: usize = 0;
        while i < total
            invariant
                i <= total,
                out@.len() == i,
                forall|j: int| 0 <= j < i
                    ==> #[trigger] out@[j] == (Block { is_alive: next[j], ..self.grid@[j] }),
            decreases total - i,
        {
            proof {
                lemma_coord_of_idx3(w as int, h as int, d as int, i as int);
            }
            let x = i / hd;
            let rest = i % hd;
            let y = rest / d;
            let z = i % d;
            let cur = self.block_at(x, y, z);
            let count = self.count_alive_neighbors(Pos { x, y, z });
            let alive_next = if cur.is_alive {
                crate::rule::set_contains(&self.rule.survival, count)
            } else {
                crate::rule::set_contains(&self.rule.birth, count)
            };
            out.push(Block { is_alive: alive_next, ..cur });
            i = i + 1;
        }
        out
    }

    /// The current pattern as a fresh snapshot vector.
    #[verifier::loop_isolation(false)]
    fn fingerprint(&self) -> (r: Vec<bool>)
        ensures
            r@ == self.liveness(),
    {
        let mut r: Vec<bool> = Vec::new();
        let mut i: usize = 0;
        while i < self.grid.len()
            invariant
                i <= self.grid@.len(),
                r@.len() == i,
                forall|j: int| 0 <= j < i ==> r@[j] == self.liveness()[j],
            decreases self.grid@.len() - i,
        {
            let b = self.grid[i].is_alive;
            r.push(b);
            i = i + 1;
        }
        proof {
            assert(r@ =~= self.liveness());
        }
        r
    }

    /// The history of snapshots, as sequences.
    pub open spec fn hist(self) -> Seq<Seq<bool>> {
        self.prev_patterns@.map_values(|v: Vec<bool>| v@)
    }

    /// Whether this tick judges the lattice stagnant: the window is full,
    /// and once the oldest snapshot is evicted every kept snapshot equals
    /// the one taken this tick (the current pattern).
    pub open spec fn stagnates(self) -> bool {
        self.hist().len() == HISTORY_WINDOW
            && forall|k: int| 1 <= k < HISTORY_WINDOW ==> self.hist()[k] == self.liveness()
    }

    /// Advances the lattice one generation.
    ///
    /// First the current pattern is snapshotted into the history; once the
    /// window overflows, the oldest snapshot is evicted and the remaining
    /// ones are compared against this tick's snapshot. If they all match,
    /// the lattice is stagnant: it is re-seeded by `generate_blocks` and the
    /// history is cleared. Then, stagnant or not, the next generation is
    /// computed in one simultaneous step from the pattern as it then stands
    /// and swapped in whole, so a reader afterwards sees only the completed
    /// new generation.
    #[verifier::loop_isolation(false)]
    pub fn update(&mut self)
        requires
            old(self).wf(),
            old(self).populated(),
        ensures
            final(self).width == old(self).width,
            final(self).height == old(self).height,
            final(self).depth == old(self).depth,
            final(self).block_size == old(self).block_size,
            final(self).seed_policy == old(self).seed_policy,
            final(self).rule == old(self).rule,
            final(self).wf(),
            final(self).populated(),
            !old(self).stagnates() ==> {
                &&& final(self).hist() == push_evict(old(self).hist(), old(self).liveness())
                &&& forall|i: int| 0 <= i < final(self).grid@.len()
                    ==> #[trigger] final(self).grid@[i] == (Block {
                        is_alive: step_live(
                            old(self).liveness(),
                            old(self).width as int,
                            old(self).height as int,
                            old(self).depth as int,
                            old(self).rule)[i],
                        ..old(self).grid@[i]
                    })
            },
            old(self).stagnates() ==> {
                &&& final(self).prev_patterns@.len() == 0
                &&& forall|i: int| 0 <= i < final(self).grid@.len()
                    ==> final(self).cell_shape(i, #[trigger] final(self).grid@[i])
                &&& old(self).seed_policy == SeedPolicy::Parity
                    ==> final(self).liveness() == step_live(
                            parity_live(
                                old(self).width as int,
                                old(self).height as int,
                                old(self).depth as int),
                            old(self).width as int,
                            old(self).height as int,
                            old(self).depth as int,
                            old(self).rule)
            },
    {
        let fp = self.fingerprint();
        self.prev_patterns.push(fp);
        let mut stagnant = false;
        if self.prev_patterns.len() > HISTORY_WINDOW {
            self.prev_patterns.remove(0);
            proof {
                assert(self.hist() =~= push_evict(old(self).hist(), old(self).liveness()));
            }
            let last = self.prev_patterns.len() - 1;
            let mut repeating = true;
            let mut k: usize = 0;
            while k < last
                invariant
                    k <= last,
                    repeating == (forall|j: int| 0 <= j < k
                        ==> #[trigger] self.hist()[j] == self.hist()[last as int]),
                decreases last - k,
            {
                let same = snapshots_equal(&self.prev_patterns[k], &self.prev_patterns[last]);
                proof {
                    assert(self.prev_patterns@[k as int]@ == self.hist()[k as int]);
                    assert(self.prev_patterns@[last as int]@ == self.hist()[last as int]);
                }
                repeating = repeating && same;
                k = k + 1;
            }
            stagnant = repeating;
            proof {
                let oh = old(self).hist();
                let fpv = old(self).liveness();
                let ch = self.hist();
                assert(ch == push_evict(oh, fpv));
                assert(ch.len() == HISTORY_WINDOW);
                assert(last == HISTORY_WINDOW - 1);
                assert(ch[last as int] == fpv);
                assert forall|kk: int| 1 <= kk < HISTORY_WINDOW
                    implies ch[kk - 1] == #[trigger] oh[kk] by {
                    assert(oh.push(fpv).subrange(
                        1, oh.push(fpv).len() as int)[kk - 1] == oh.push(fpv)[kk]);
                }
                if repeating {
                    assert forall|kk: int| 1 <= kk < HISTORY_WINDOW
                        implies #[trigger] oh[kk] == fpv by {
                        assert(ch[kk - 1] == ch[last as int]);
                    }
                    assert(old(self).stagnates());
                } else {
                    if old(self).stagnates() {
                        assert forall|j: int| 0 <= j < last
                            implies #[trigger] ch[j] == ch[last as int] by {
                            assert(ch[j] == oh[j + 1]);
                            assert(oh[j + 1] == fpv);
                        }
                        assert(repeating);
                    }
                }
                assert(stagnant == old(self).stagnates());
            }
        } else {
            proof {
                assert(self.hist() =~= push_evict(old(self).hist(), old(self).liveness()));
                assert(!old(self).stagnates());
            }
        }
        if stagnant {
            self.generate_blocks();
            self.prev_patterns = Vec::new();
        }
        let new_cells = self.step_cells();
        let ghost mid = *self;
        self.grid = new_cells;
        proof {
            assert(self.liveness() =~= step_live(
                mid.liveness(),
                mid.width as int, mid.height as int, mid.depth as int,
                mid.rule));
            if old(self).stagnates() && old(self).seed_policy == SeedPolicy::Parity {
                assert(mid.liveness() == parity_live(
                    old(self).width as int, old(self).height as int, old(self).depth as int));
            }
        }
    }
}

/// A populated lattice is dense: it holds exactly `width * height * depth`
/// blocks, every coordinate of the box is the position of the block stored
/// at its linear index, and no two blocks share a position.
pub proof fn lemma_dense_lattice(g: Grid)
    requires
        g.dims_ok(),
        g.populated(),
    ensures
        g.grid@.len() == g.width * (g.height * g.depth),
        forall|x: int, y: int, z: int| g.in_bounds(x, y, z)
            ==> 0 <= #[trigger] g.index_of(x, y, z) < g.grid@.len()
                && g.grid@[g.index_of(x, y, z)].position
                    == (Pos { x: x as usize, y: y as usize, z: z as usize }),
        forall|i: int, j: int|
            0 <= i < g.grid@.len() && 0 <= j < g.grid@.len() && i != j
                ==> (#[trigger] g.grid@[i]).position != (#[trigger] g.grid@[j]).position,
{
    let w = g.width as int;
    let h = g.height as int;
    let d = g.depth as int;
    assert forall|x: int, y: int, z: int| g.in_bounds(x, y, z)
        implies 0 <= #[trigger] g.index_of(x, y, z) < g.grid@.len()
            && g.grid@[g.index_of(x, y, z)].position
                == (Pos { x: x as usize, y: y as usize, z: z as usize }) by {
        lemma_idx3_of_coord(w, h, d, x, y, z);
    }
    assert forall|i: int, j: int|
        0 <= i < g.grid@.len() && 0 <= j < g.grid@.len() && i != j
            implies (#[trigger] g.grid@[i]).position != (#[trigger] g.grid@[j]).position by {
        lemma_coord_of_idx3(w, h, d, i);
        lemma_coord_of_idx3(w, h, d, j);
        if g.grid@[i].position == g.grid@[j].position {
            assert(g.pos_of(i) == g.pos_of(j));
            assert(x_of(h, d, i) == x_of(h, d, j)
                && y_of(h, d, i) == y_of(h, d, j)
                && z_of(d, i) == z_of(d, j));
            assert(i == j);
        }
    }
}

/// The neighbor query respects the boundary: an interior coordinate has
/// exactly six neighbors, the origin corner of a lattice at least 2 wide
/// along each axis has exactly three, and every returned neighbor sits at a
/// coordinate inside the box.
#[verifier::rlimit(60)]
pub proof fn lemma_neighbor_counts(g: Grid, x: int, y: int, z: int)
    requires
        g.dims_ok(),
        g.populated(),
        g.in_bounds(x, y, z),
    ensures
        0 < x && x + 1 < g.width && 0 < y && y + 1 < g.height && 0 < z && z + 1 < g.depth
            ==> g.neighbors_at(x, y, z).len() == 6,
        x == 0 && y == 0 && z == 0 && g.width >= 2 && g.height >= 2 && g.depth >= 2
            ==> g.neighbors_at(x, y, z).len() == 3,
        forall|k: int| 0 <= k < g.neighbors_at(x, y, z).len()
            ==> g.in_bounds(
                (#[trigger] g.neighbors_at(x, y, z)[k]).position.x as int,
                g.neighbors_at(x, y, z)[k].position.y as int,
                g.neighbors_at(x, y, z)[k].position.z as int),
{
    let w = g.width as int;
    let h = g.height as int;
    let d = g.depth as int;
    if g.in_bounds(x - 1, y, z) {
        lemma_idx3_of_coord(w, h, d, x - 1, y, z);
    }
    if g.in_bounds(x + 1, y, z) {
        lemma_idx3_of_coord(w, h, d, x + 1, y, z);
    }
    if g.in_bounds(x, y - 1, z) {
        lemma_idx3_of_coord(w, h, d, x, y - 1, z);
    }
    if g.in_bounds(x, y + 1, z) {
        lemma_idx3_of_coord(w, h, d, x, y + 1, z);
    }
    if g.in_bounds(x, y, z - 1) {
        lemma_idx3_of_coord(w, h, d, x, y, z - 1);
    }
    if g.in_bounds(x, y, z + 1) {
        lemma_idx3_of_coord(w, h, d, x, y, z + 1);
    }
}

/// The parity seeding is deterministic: two lattices of the same extents
/// that both carry the pattern it produces carry the same pattern.
pub proof fn lemma_parity_seed_deterministic(a: Grid, b: Grid)
    requires
        a.width == b.width,
        a.height == b.height,
        a.depth == b.depth,
        a.liveness() == parity_live(a.width as int, a.height as int, a.depth as int),
        b.liveness() == parity_live(b.width as int, b.height as int, b.depth as int),
    ensures
        a.liveness() == b.liveness(),
{
}

/// The generation swap is whole: when every block of the post-step lattice
/// carries the liveness that `step_live` assigns its index over the
/// pre-step pattern — which is what `update` ensures outside stagnation —
/// the post-step pattern is exactly the next generation of the pre-step
/// pattern. No lattice in which some cells still show the old generation
/// satisfies this, so a reader after `update` never sees a mixed state.
pub proof fn lemma_step_swap_is_whole(pre: Grid, post: Grid)
    requires
        post.grid@.len() == pre.grid@.len(),
        forall|i: int| 0 <= i < post.grid@.len()
            ==> #[trigger] post.grid@[i] == (Block {
                is_alive: step_live(
                    pre.liveness(),
                    pre.width as int, pre.height as int, pre.depth as int,
                    pre.rule)[i],
                ..pre.grid@[i]
            }),
    ensures
        post.liveness() == step_live(
            pre.liveness(), pre.width as int, pre.height as int, pre.depth as int, pre.rule),
{
    assert(post.liveness() =~= step_live(
        pre.liveness(), pre.width as int, pre.height as int, pre.depth as int, pre.rule));
}

/// Whether two snapshots hold the same pattern.
fn snapshots_equal(a: &Vec<bool>, b: &Vec<bool>) -> (r: bool)
    ensures
        r == (a@ == b@),
{
    if a.len() != b.len() {
        assert(a@ != b@);
        return false;
    }
    let mut i: usize = 0;
    while i < a.len()
        invariant
            i <= a@.len(),
            a@.len() == b@.len(),
            forall|j: int| 0 <= j < i ==> a@[j] == b@[j],
        decreases a@.len() - i,
    {
        if a[i] != b[i] {
            assert(a@ != b@);
            return false;
        }
        i = i + 1;
    }
    proof {
        assert(a@ =~= b@);
    }
    true
}

} // verus!
