use vstd::prelude::*;
use vstd::arithmetic::div_mod::*;
use vstd::arithmetic::mul::*;

verus! {

/// The materials the diorama's cubes and meshes are made of.
#[derive(Clone, Copy, Debug, PartialEq, Eq, Structural)]
pub enum BlockMaterial {
    Dirt,
    /// A grass block: grass on top, grass side on the sides, dirt below.
    GrassBlock,
    Sidewalk,
    Grass,
    Glass,
    Gold,
    AxolotlBody,
    AxolotlEye,
    AxolotlMouth,
    AxolotlGill,
    CherryWood,
    CherryLeaves,
    Water,
    PondStone,
    HouseWall,
    HouseWindow,
    HouseRoof,
    HouseDoor,
}

/// A cube of the diorama. Coordinates of its centre and its edge length are
/// in hundredths of a block.
#[derive(Clone, Copy, Debug, PartialEq, Eq, Structural)]
pub struct Block {
    pub x: i32,
    pub y: i32,
    pub z: i32,
    pub size: u32,
    pub material: BlockMaterial,
}

/// The models a mesh can be loaded from.
#[derive(Clone, Copy, Debug, PartialEq, Eq, Structural)]
pub enum Model {
    Axolotl,
}

/// A mesh placed in the diorama: position in hundredths of a block, scale in
/// hundredths, and rotation about the vertical axis in half turns.
#[derive(Clone, Copy, Debug, PartialEq, Eq, Structural)]
pub struct MeshPlacement {
    pub model: Model,
    pub x: i32,
    pub y: i32,
    pub z: i32,
    pub scale: u32,
    pub half_turns_y: u32,
    pub material: BlockMaterial,
}

/// The layout of the diorama: its cubes and its meshes, in the order they
/// were placed.
pub struct Scene {
    pub cubes: Vec<Block>,
    pub meshes: Vec<MeshPlacement>,
}

pub open spec fn block(x: int, y: int, z: int, size: int, m: BlockMaterial) -> Block {
    Block { x: x as i32, y: y as i32, z: z as i32, size: size as u32, material: m }
}

/// Cell `k` of a grid of `nx * ny * nz` cells one block apart starting at
/// (ox, oy, oz), numbered with x varying slowest and z fastest.
pub open spec fn grid_cell(
    ox: int,
    oy: int,
    oz: int,
    ny: int,
    nz: int,
    size: int,
    m: BlockMaterial,
    k: int,
) -> Block {
    block(ox + 100 * (k / nz / ny), oy + 100 * ((k / nz) % ny), oz + 100 * (k % nz), size, m)
}

/// The cubes of a full grid, in placement order.
pub open spec fn grid(
    ox: int,
    oy: int,
    oz: int,
    nx: int,
    ny: int,
    nz: int,
    size: int,
    m: BlockMaterial,
) -> Seq<Block> {
    Seq::new((nx * ny * nz) as nat, |k: int| grid_cell(ox, oy, oz, ny, nz, size, m, k))
}

pub open spec fn coord_ok(v: int) -> bool {
    -100_000_000 <= v <= 100_000_000
}

proof fn lemma_cell_indices(k: int, nx: int, ny: int, nz: int)
    requires
        nx > 0,
        ny > 0,
        nz > 0,
        0 <= k < nx * ny * nz,
    ensures
        0 <= k / nz / ny < nx,
        0 <= (k / nz) % ny < ny,
        0 <= k % nz < nz,
{
    lemma_mul_is_associative(nx, ny, nz);
    lemma_mul_is_commutative(nx * ny, nz);
    lemma_multiply_divide_lt(k, nz, nx * ny);
    lemma_div_pos_is_pos(k, nz);
    lemma_mul_is_commutative(nx, ny);
    lemma_multiply_divide_lt(k / nz, ny, nx);
    lemma_div_pos_is_pos(k / nz, ny);
    lemma_mod_pos_bound(k / nz, ny);
    lemma_mod_pos_bound(k, nz);
}

/// Appends the cubes of a grid of `nx * ny * nz` cells, one block apart,
/// starting at (ox, oy, oz), with x varying slowest and z fastest.
fn push_grid(
    cubes: &mut Vec<Block>,
    ox: i32,
    oy: i32,
    oz: i32,
    nx: i32,
    ny: i32,
    nz: i32,
    size: u32,
    m: BlockMaterial,
)
    requires
        coord_ok(ox as int),
        coord_ok(oy as int),
        coord_ok(oz as int),
        0 <= nx <= 1000,
        0 <= ny <= 1000,
        0 <= nz <= 1000,
    ensures
        final(cubes)@ == old(cubes)@ + grid(
            ox as int,
            oy as int,
            oz as int,
            nx as int,
            ny as int,
            nz as int,
            size as int,
            m,
        ),
{
    let ghost start = cubes@;
    if nx == 0 || ny == 0 || nz == 0 {
        proof {
            lemma_mul_basics(nx as int);
            lemma_mul_basics(nz as int);
            lemma_mul_basics(nx as int * ny as int);
        }
        assert(cubes@ =~= start + grid(
            ox as int,
            oy as int,
            oz as int,
            nx as int,
            ny as int,
            nz as int,
            size as int,
            m,
        ));
        return;
    }
    proof {
        lemma_mul_upper_bound(nx as int, 1000, ny as int, 1000);
        lemma_mul_upper_bound(nx as int * ny as int, 1000000, nz as int, 1000);
    }
    let total: i64 = (nx as i64) * (ny as i64) * (nz as i64);
    let mut k: i64 = 0;
    while k < total
        invariant
            0 <= k <= total,
            total as int == nx as int * ny as int * nz as int,
            nx > 0,
            ny > 0,
            nz > 0,
            nx <= 1000,
            coord_ok(ox as int),
            coord_ok(oy as int),
            coord_ok(oz as int),
            cubes@ =~= start + Seq::new(
                k as nat,
                |j: int|
                    grid_cell(ox as int, oy as int, oz as int, ny as int, nz as int, size as int, m, j),
            ),
        decreases total - k,
    {
        proof {
            lemma_cell_indices(k as int, nx as int, ny as int, nz as int);
        }
        let q = k / (nz as i64);
        let xi = q / (ny as i64);
        let yi = q % (ny as i64);
        let zi = k % (nz as i64);
        let b = Block {
            x: (ox as i64 + 100 * xi) as i32,
            y: (oy as i64 + 100 * yi) as i32,
            z: (oz as i64 + 100 * zi) as i32,
            size,
            material: m,
        };
        cubes.push(b);
        k = k + 1;
    }
}

/// The cells of a grid that a layout keeps.
#[derive(Clone, Copy, Debug, PartialEq, Eq, Structural)]
pub enum Shape {
    /// Cells below height 6 whose horizontal Manhattan distance from the
    /// column at (cx, cz) is under 4 blocks.
    Crown { cx: i32, cz: i32 },
    /// Cells on the outline of a rectangle: x equal to `x_lo` or `x_hi`, or z
    /// equal to `z_lo` or `z_hi`.
    Ring { x_lo: i32, x_hi: i32, z_lo: i32, z_hi: i32 },
}

pub open spec fn abs(v: int) -> int {
    if v < 0 {
        -v
    } else {
        v
    }
}

/// The layout `shape` keeps the cube `b`.
pub open spec fn keeps(shape: Shape, b: Block) -> bool {
    match shape {
        Shape::Crown { cx, cz } => abs(b.x - cx) + abs(b.z - cz) < 400 && b.y < 600,
        Shape::Ring { x_lo, x_hi, z_lo, z_hi } => b.x == x_lo || b.x == x_hi || b.z == z_lo
            || b.z == z_hi,
    }
}

/// The cubes of a grid that `shape` keeps, in placement order.
pub open spec fn grid_where(
    ox: int,
    oy: int,
    oz: int,
    nx: int,
    ny: int,
    nz: int,
    size: int,
    m: BlockMaterial,
    shape: Shape,
) -> Seq<Block> {
    grid(ox, oy, oz, nx, ny, nz, size, m).filter(|b: Block| keeps(shape, b))
}

fn shape_keeps(shape: Shape, b: &Block) -> (r: bool)
    requires
        -200_000_000 <= b.x <= 200_000_000,
        -200_000_000 <= b.z <= 200_000_000,
        match shape {
            Shape::Crown { cx, cz } => coord_ok(cx as int) && coord_ok(cz as int),
            Shape::Ring { .. } => true,
        },
    ensures
        r == keeps(shape, *b),
{
    match shape {
        Shape::Crown { cx, cz } => {
            let dx = b.x - cx;
            let dz = b.z - cz;
            let ax = if dx < 0 {
                -dx
            } else {
                dx
            };
            let az = if dz < 0 {
                -dz
            } else {
                dz
            };
            ax + az < 400 && b.y < 600
        },
        Shape::Ring { x_lo, x_hi, z_lo, z_hi } => b.x == x_lo || b.x == x_hi || b.z == z_lo || b.z
            == z_hi,
    }
}

/// Appends the cubes of a grid (as `push_grid` lays it out) that `shape`
/// keeps.
fn push_grid_where(
    cubes: &mut Vec<Block>,
    ox: i32,
    oy: i32,
    oz: i32,
    nx: i32,
    ny: i32,
    nz: i32,
    size: u32,
    m: BlockMaterial,
    shape: Shape,
)
    requires
        coord_ok(ox as int),
        coord_ok(oy as int),
        coord_ok(oz as int),
        0 <= nx <= 1000,
        0 <= ny <= 1000,
        0 <= nz <= 1000,
        match shape {
            Shape::Crown { cx, cz } => coord_ok(cx as int) && coord_ok(cz as int),
            Shape::Ring { .. } => true,
        },
    ensures
        final(cubes)@ == old(cubes)@ + grid_where(
            ox as int,
            oy as int,
            oz as int,
            nx as int,
            ny as int,
            nz as int,
            size as int,
            m,
            shape,
        ),
{
    let ghost start = cubes@;
    let ghost g = grid(
        ox as int,
        oy as int,
        oz as int,
        nx as int,
        ny as int,
        nz as int,
        size as int,
        m,
    );
    let ghost p = |b: Block| keeps(shape, b);
    if nx == 0 || ny == 0 || nz == 0 {
        proof {
            lemma_mul_basics(nx as int);
            lemma_mul_basics(ny as int);
            lemma_mul_basics(nz as int);
            lemma_mul_basics(nx as int * ny as int);
            assert(g.len() == 0);
            reveal_with_fuel(Seq::<_>::filter, 1);
        }
        assert(cubes@ =~= start + g.filter(p));
        return;
    }
    proof {
        lemma_mul_upper_bound(nx as int, 1000, ny as int, 1000);
        lemma_mul_upper_bound(nx as int * ny as int, 1000000, nz as int, 1000);
        reveal_with_fuel(Seq::<_>::filter, 1);
        assert(g.take(0) =~= Seq::<Block>::empty());
    }
    let total: i64 = (nx as i64) * (ny as i64) * (nz as i64);
    let mut k: i64 = 0;
    while k < total
        invariant
            0 <= k <= total,
            total as int == nx as int * ny as int * nz as int,
            g.len() == total,
            g == grid(
                ox as int,
                oy as int,
                oz as int,
                nx as int,
                ny as int,
                nz as int,
                size as int,
                m,
            ),
            p == (|b: Block| keeps(shape, b)),
            nx > 0,
            ny > 0,
            nz > 0,
            nx <= 1000,
            ny <= 1000,
            nz <= 1000,
            coord_ok(ox as int),
            coord_ok(oy as int),
            coord_ok(oz as int),
            match shape {
                Shape::Crown { cx, cz } => coord_ok(cx as int) && coord_ok(cz as int),
                Shape::Ring { .. } => true,
            },
            cubes@ == start + g.take(k as int).filter(p),
        decreases total - k,
    {
        proof {
            lemma_cell_indices(k as int, nx as int, ny as int, nz as int);
        }
        let q = k / (nz as i64);
        let xi = q / (ny as i64);
        let yi = q % (ny as i64);
        let zi = k % (nz as i64);
        let b = Block {
            x: (ox as i64 + 100 * xi) as i32,
            y: (oy as i64 + 100 * yi) as i32,
            z: (oz as i64 + 100 * zi) as i32,
            size,
            material: m,
        };
        assert(b == g[k as int]);
        let keep = shape_keeps(shape, &b);
        proof {
            reveal_with_fuel(Seq::<_>::filter, 1);
            assert(g.take(k + 1).drop_last() =~= g.take(k as int));
            assert(g.take(k + 1).last() == b);
        }
        if keep {
            cubes.push(b);
        }
        k = k + 1;
    }
    assert(g.take(total as int) =~= g);
}

/// The cubes of a cherry tree standing at (bx, bz): a trunk of four wood
/// blocks, then a crown of leaves three blocks high.
pub open spec fn tree_blocks(bx: int, bz: int) -> Seq<Block> {
    grid(bx, 0, bz, 1, 4, 1, 100, BlockMaterial::CherryWood) + grid_where(
        bx - 200,
        300,
        bz - 200,
        5,
        3,
        5,
        100,
        BlockMaterial::CherryLeaves,
        Shape::Crown { cx: bx as i32, cz: bz as i32 },
    )
}

/// Corner of the pond's water: the pond is 5 blocks by 4 centred on (5, 2).
pub open spec fn pond_x() -> int {
    250
}

pub open spec fn pond_z() -> int {
    0
}

/// The cubes of the pond: a stone border, the water inside it, and three
/// lily pads.
pub open spec fn pond_blocks() -> Seq<Block> {
    grid_where(
        pond_x() - 100,
        0,
        pond_z() - 100,
        7,
        1,
        6,
        100,
        BlockMaterial::PondStone,
        Shape::Ring {
            x_lo: (pond_x() - 100) as i32,
            x_hi: (pond_x() + 500) as i32,
            z_lo: (pond_z() - 100) as i32,
            z_hi: (pond_z() + 400) as i32,
        },
    ) + grid(pond_x(), 0, pond_z(), 5, 1, 4, 100, BlockMaterial::Water) + seq![
        block(400, 90, 150, 40, BlockMaterial::Grass),
        block(600, 90, 250, 40, BlockMaterial::Grass),
        block(500, 90, 200, 40, BlockMaterial::Grass),
    ]
}

/// Corner of the house: it spans 7 by 7 blocks from (-10, -10).
pub open spec fn house_corner_x() -> int {
    -1000
}

pub open spec fn house_corner_z() -> int {
    -1000
}

/// Cube `j` of layer `y` of the house's walls: the front wall (7 cubes, two
/// windows on layers 2 and 3), the back wall (7 cubes, a door 3 wide and 3
/// high), then the left and right walls (5 cubes each, a window on layers 2
/// and 3).
pub open spec fn wall_cell(y: int, j: int) -> Block {
    let window_row = 2 <= y <= 3;
    if j < 7 {
        block(
            house_corner_x() + 100 * j,
            100 * y,
            house_corner_z(),
            100,
            if window_row && (j == 2 || j == 4) {
                BlockMaterial::HouseWindow
            } else {
                BlockMaterial::HouseWall
            },
        )
    } else if j < 14 {
        let x = j - 7;
        block(
            house_corner_x() + 100 * x,
            100 * y,
            house_corner_z() + 600,
            100,
            if y < 3 && 2 <= x <= 4 {
                BlockMaterial::HouseDoor
            } else {
                BlockMaterial::HouseWall
            },
        )
    } else if j < 19 {
        let z = j - 13;
        block(
            house_corner_x(),
            100 * y,
            house_corner_z() + 100 * z,
            100,
            if window_row && z == 3 {
                BlockMaterial::HouseWindow
            } else {
                BlockMaterial::HouseWall
            },
        )
    } else {
        let z = j - 18;
        block(
            house_corner_x() + 600,
            100 * y,
            house_corner_z() + 100 * z,
            100,
            if window_row && z == 3 {
                BlockMaterial::HouseWindow
            } else {
                BlockMaterial::HouseWall
            },
        )
    }
}

/// The house's walls, five layers of 24 cubes.
pub open spec fn house_walls() -> Seq<Block> {
    Seq::new(120, |k: int| wall_cell(k / 24, k % 24))
}

/// The cubes of the house: its walls and a flat stone roof.
pub open spec fn house_blocks() -> Seq<Block> {
    house_walls() + grid(house_corner_x(), 500, house_corner_z(), 7, 1, 7, 100, BlockMaterial::HouseRoof)
}

/// The axolotl model: near the tree, at 15% of its size, turned half round.
pub open spec fn axolotl_placement() -> MeshPlacement {
    MeshPlacement {
        model: Model::Axolotl,
        x: -100i32,
        y: 20,
        z: 400,
        scale: 15,
        half_turns_y: 1,
        material: BlockMaterial::AxolotlBody,
    }
}

/// The single cubes of the diorama: a glass block, two gold blocks, and the
/// axolotl's eyes, mouth and gills.
pub open spec fn decoration_blocks() -> Seq<Block> {
    seq![
        block(200, 0, -200, 100, BlockMaterial::Glass),
        block(400, 100, 0, 100, BlockMaterial::Gold),
        block(-400, 0, -400, 100, BlockMaterial::Gold),
        block(-115, 50, 375, 18, BlockMaterial::AxolotlEye),
        block(-85, 50, 375, 18, BlockMaterial::AxolotlEye),
        block(-100, 35, 365, 15, BlockMaterial::AxolotlMouth),
        block(-130, 40, 400, 8, BlockMaterial::AxolotlGill),
        block(-135, 45, 400, 7, BlockMaterial::AxolotlGill),
        block(-135, 35, 400, 7, BlockMaterial::AxolotlGill),
        block(-70, 40, 400, 8, BlockMaterial::AxolotlGill),
        block(-65, 45, 400, 7, BlockMaterial::AxolotlGill),
        block(-65, 35, 400, 7, BlockMaterial::AxolotlGill),
    ]
}

/// The ground: a layer of dirt under a layer of grass blocks, 20 by 21.
pub open spec fn ground_blocks() -> Seq<Block> {
    grid(-1000, -150, -1500, 20, 1, 21, 100, BlockMaterial::Dirt) + grid(
        -1000,
        -50,
        -1500,
        20,
        1,
        21,
        100,
        BlockMaterial::GrassBlock,
    )
}

/// The stone sidewalk around the house: in front, on its right, behind it.
pub open spec fn sidewalk_blocks() -> Seq<Block> {
    grid(-1200, 0, -1400, 23, 1, 4, 100, BlockMaterial::Sidewalk) + grid(
        -400,
        0,
        -1000,
        3,
        1,
        9,
        100,
        BlockMaterial::Sidewalk,
    ) + grid(-1000, 0, -300, 9, 1, 2, 100, BlockMaterial::Sidewalk)
}

/// All cubes of the cherry tree diorama, in placement order.
pub open spec fn diorama_blocks() -> Seq<Block> {
    ground_blocks() + tree_blocks(0, -100) + tree_blocks(700, -400) + sidewalk_blocks() + grid(
        -1000,
        -50,
        -1000,
        7,
        1,
        7,
        100,
        BlockMaterial::Grass,
    ) + decoration_blocks() + pond_blocks() + house_blocks()
}

/// A property of every element of a sequence holds of every element that a
/// filter keeps.
proof fn lemma_filter_all(s: Seq<Block>, p: spec_fn(Block) -> bool, q: spec_fn(Block) -> bool)
    requires
        forall|j: int| 0 <= j < s.len() ==> q(#[trigger] s[j]),
    ensures
        forall|i: int| 0 <= i < s.filter(p).len() ==> q(#[trigger] s.filter(p)[i]),
    decreases s.len(),
{
    reveal_with_fuel(Seq::<_>::filter, 1);
    if s.len() > 0 {
        let t = s.drop_last();
        assert forall|j: int| 0 <= j < t.len() implies q(#[trigger] t[j]) by {
            assert(t[j] == s[j]);
        }
        lemma_filter_all(t, p, q);
        assert forall|i: int| 0 <= i < s.filter(p).len() implies q(#[trigger] s.filter(p)[i]) by {
            if i < t.filter(p).len() {
                assert(s.filter(p)[i] == t.filter(p)[i]);
            } else {
                assert(s.filter(p)[i] == s.last());
            }
        }
    }
}

/// A cherry tree planted at (bx, bz) is a trunk of four wood cubes straight
/// above that spot, one block apart from the ground up, and a crown of leaves
/// 3 to 5 blocks up that stays within a horizontal Manhattan distance of
/// under 4 blocks from the trunk.
pub proof fn lemma_tree_shape(bx: int, bz: int)
    requires
        -99_000_000 <= bx <= 99_000_000,
        -99_000_000 <= bz <= 99_000_000,
    ensures
        forall|i: int|
            0 <= i < 4 ==> #[trigger] tree_blocks(bx, bz)[i] == block(
                bx,
                100 * i,
                bz,
                100,
                BlockMaterial::CherryWood,
            ),
        forall|i: int|
            4 <= i < tree_blocks(bx, bz).len() ==> {
                let b = #[trigger] tree_blocks(bx, bz)[i];
                &&& b.material == BlockMaterial::CherryLeaves
                &&& b.size == 100
                &&& 300 <= b.y <= 500
                &&& abs(b.x - bx) + abs(b.z - bz) < 400
            },
{
    let trunk = grid(bx, 0, bz, 1, 4, 1, 100, BlockMaterial::CherryWood);
    let g = grid(bx - 200, 300, bz - 200, 5, 3, 5, 100, BlockMaterial::CherryLeaves);
    let shape = Shape::Crown { cx: bx as i32, cz: bz as i32 };
    let p = |b: Block| keeps(shape, b);
    let crown = g.filter(p);
    assert(trunk.len() == 4);
    assert(g.len() == 75);
    assert(tree_blocks(bx, bz) == trunk + crown);
    assert forall|i: int| 0 <= i < 4 implies #[trigger] tree_blocks(bx, bz)[i] == block(
        bx,
        100 * i,
        bz,
        100,
        BlockMaterial::CherryWood,
    ) by {
        lemma_fundamental_div_mod_converse(i, 1, i, 0);
        lemma_fundamental_div_mod_converse(i, 4, 0, i);
        assert(tree_blocks(bx, bz)[i] == trunk[i]);
    }
    let q = |b: Block|
        b.material == BlockMaterial::CherryLeaves && b.size == 100 && 300 <= b.y <= 500;
    assert forall|j: int| 0 <= j < g.len() implies q(#[trigger] g[j]) by {
        lemma_mod_pos_bound(j / 5, 3);
        lemma_div_pos_is_pos(j, 5);
    }
    lemma_filter_all(g, p, q);
    assert forall|i: int| 4 <= i < tree_blocks(bx, bz).len() implies {
        let b = #[trigger] tree_blocks(bx, bz)[i];
        &&& b.material == BlockMaterial::CherryLeaves
        &&& b.size == 100
        &&& 300 <= b.y <= 500
        &&& abs(b.x - bx) + abs(b.z - bz) < 400
    } by {
        assert(tree_blocks(bx, bz)[i] == crown[i - 4]);
        g.lemma_filter_pred(p, i - 4);
        assert(q(crown[i - 4]));
    }
}

/// Cube `k` of the house's walls is cell `k % 24` of layer `k / 24`.
proof fn lemma_wall_index(k: int)
    requires
        0 <= k < 120,
    ensures
        0 <= k / 24 < 5,
        0 <= k % 24 < 24,
        k == 24 * (k / 24) + k % 24,
        house_walls()[k] == wall_cell(k / 24, k % 24),
{
    lemma_fundamental_div_mod(k, 24);
    lemma_mod_pos_bound(k, 24);
    lemma_div_pos_is_pos(k, 24);
    lemma_multiply_divide_lt(k, 24, 5);
}

/// Some cube of the house's walls stands at block column `a`, layer `l` and
/// block row `c` counted from the house's corner (-10, -10).
pub open spec fn wall_at_cell(l: int, a: int, c: int) -> bool {
    exists|i: int|
        0 <= i < 120 && #[trigger] house_walls()[i].x == -1000 + 100 * a && house_walls()[i].y
            == 100 * l && house_walls()[i].z == -1000 + 100 * c
}

/// The house's walls are its outline, five layers high: every cube stands on
/// the outline of the 7 by 7 square with corner (-10, -10) (x = -10 or -4, or
/// z = -10 or -4) on one of the layers 0 to 4; no two cubes share a position;
/// and every cell of the outline, on every layer, holds a cube. Its door is
/// the three middle cells of the back wall (z = -4) on the three lowest
/// layers; its windows are, on layers 2 and 3, the cells x = -8 and x = -6
/// of the front wall (z = -10) and the middle cell (z = -7) of the left and
/// right walls; all other cubes are wall.
pub proof fn lemma_house_outline()
    ensures
        house_walls().len() == 120,
        forall|i: int|
            0 <= i < 120 ==> {
                let b = #[trigger] house_walls()[i];
                &&& b.size == 100
                &&& 0 <= b.y <= 400 && b.y % 100 == 0
                &&& -1000 <= b.x <= -400 && b.x % 100 == 0
                &&& -1000 <= b.z <= -400 && b.z % 100 == 0
                &&& (b.x == -1000 || b.x == -400 || b.z == -1000 || b.z == -400)
            },
        forall|i: int, j: int|
            0 <= i < 120 && 0 <= j < 120 && i != j ==> !(#[trigger] house_walls()[i].x
                == #[trigger] house_walls()[j].x && house_walls()[i].y == house_walls()[j].y
                && house_walls()[i].z == house_walls()[j].z),
        forall|l: int, a: int, c: int|
            0 <= l < 5 && 0 <= a < 7 && 0 <= c < 7 && (a == 0 || a == 6 || c == 0 || c == 6)
                ==> #[trigger] wall_at_cell(l, a, c),
        forall|i: int|
            0 <= i < 120 ==> {
                let b = #[trigger] house_walls()[i];
                let door = b.z == -400 && -800 <= b.x <= -600 && b.y < 300;
                let window = 200 <= b.y <= 300 && ((b.z == -1000 && (b.x == -800 || b.x == -600))
                    || ((b.x == -1000 || b.x == -400) && b.z == -700));
                &&& door ==> b.material == BlockMaterial::HouseDoor
                &&& window ==> b.material == BlockMaterial::HouseWindow
                &&& !door && !window ==> b.material == BlockMaterial::HouseWall
            },
{
    let w = house_walls();
    assert forall|i: int|
        0 <= i < 120 implies {
        let b = #[trigger] house_walls()[i];
        &&& b.size == 100
        &&& 0 <= b.y <= 400 && b.y % 100 == 0
        &&& -1000 <= b.x <= -400 && b.x % 100 == 0
        &&& -1000 <= b.z <= -400 && b.z % 100 == 0
        &&& (b.x == -1000 || b.x == -400 || b.z == -1000 || b.z == -400)
    } by {
        lemma_wall_index(i);
    }
    assert forall|i: int, j: int|
        0 <= i < 120 && 0 <= j < 120 && i != j implies !(#[trigger] house_walls()[i].x
        == #[trigger] house_walls()[j].x && house_walls()[i].y == house_walls()[j].y
        && house_walls()[i].z == house_walls()[j].z) by {
        lemma_wall_index(i);
        lemma_wall_index(j);
    }
    assert forall|l: int, a: int, c: int|
        0 <= l < 5 && 0 <= a < 7 && 0 <= c < 7 && (a == 0 || a == 6 || c == 0 || c == 6)
        implies #[trigger] wall_at_cell(l, a, c) by {
        let j: int = if c == 0 {
            a
        } else if c == 6 {
            7 + a
        } else if a == 0 {
            13 + c
        } else {
            18 + c
        };
        let k = 24 * l + j;
        lemma_fundamental_div_mod_converse(k, 24, l, j);
        lemma_wall_index(k);
        assert(house_walls()[k].x == -1000 + 100 * a);
    }
    assert forall|i: int|
        0 <= i < 120 implies {
        let b = #[trigger] house_walls()[i];
        let door = b.z == -400 && -800 <= b.x <= -600 && b.y < 300;
        let window = 200 <= b.y <= 300 && ((b.z == -1000 && (b.x == -800 || b.x == -600)) || ((
        b.x == -1000 || b.x == -400) && b.z == -700));
        &&& door ==> b.material == BlockMaterial::HouseDoor
        &&& window ==> b.material == BlockMaterial::HouseWindow
        &&& !door && !window ==> b.material == BlockMaterial::HouseWall
    } by {
        lemma_wall_index(i);
    }
}

/// The diorama plants two cherry trees right after its 840 ground cubes: the
/// first with its trunk straight above (0, -1), the second with its trunk
/// straight above (7, -4), behind the pond; each crown of leaves stays within
/// a Manhattan distance of under 4 blocks of its own trunk, 3 to 5 blocks up.
pub proof fn lemma_diorama_trees()
    ensures
        ({
            let d = diorama_blocks();
            let n1 = tree_blocks(0, -100).len() as int;
            let n2 = tree_blocks(700, -400).len() as int;
            &&& 840 + n1 + n2 <= d.len()
            &&& forall|k: int|
                0 <= k < 4 ==> #[trigger] d[840 + k] == block(
                    0,
                    100 * k,
                    -100,
                    100,
                    BlockMaterial::CherryWood,
                )
            &&& forall|k: int|
                0 <= k < 4 ==> #[trigger] d[840 + n1 + k] == block(
                    700,
                    100 * k,
                    -400,
                    100,
                    BlockMaterial::CherryWood,
                )
            &&& forall|i: int|
                844 <= i < 840 + n1 ==> {
                    let b = #[trigger] d[i];
                    &&& b.material == BlockMaterial::CherryLeaves
                    &&& 300 <= b.y <= 500
                    &&& abs(b.x - 0) + abs(b.z - (-100)) < 400
                }
            &&& forall|i: int|
                844 + n1 <= i < 840 + n1 + n2 ==> {
                    let b = #[trigger] d[i];
                    &&& b.material == BlockMaterial::CherryLeaves
                    &&& 300 <= b.y <= 500
                    &&& abs(b.x - 700) + abs(b.z - (-400)) < 400
                }
        }),
{
    let d = diorama_blocks();
    let g = ground_blocks();
    let t1 = tree_blocks(0, -100);
    let t2 = tree_blocks(700, -400);
    let rest = sidewalk_blocks() + grid(-1000, -50, -1000, 7, 1, 7, 100, BlockMaterial::Grass)
        + decoration_blocks() + pond_blocks() + house_blocks();
    assert(g.len() == 840);
    assert(d =~= g + t1 + t2 + rest);
    lemma_tree_shape(0, -100);
    lemma_tree_shape(700, -400);
    let n1 = t1.len() as int;
    let n2 = t2.len() as int;
    assert forall|i: int| 840 <= i < 840 + n1 implies #[trigger] d[i] == t1[i - 840] by {}
    assert forall|i: int| 840 + n1 <= i < 840 + n1 + n2 implies #[trigger] d[i] == t2[i - 840
        - n1] by {}
    assert forall|k: int| 0 <= k < 4 implies #[trigger] d[840 + k] == block(
        0,
        100 * k,
        -100,
        100,
        BlockMaterial::CherryWood,
    ) by {
        assert(d[840 + k] == t1[k]);
    }
    assert forall|k: int| 0 <= k < 4 implies #[trigger] d[840 + n1 + k] == block(
        700,
        100 * k,
        -400,
        100,
        BlockMaterial::CherryWood,
    ) by {
        assert(d[840 + n1 + k] == t2[k]);
    }
    assert forall|i: int| 844 <= i < 840 + n1 implies {
        let b = #[trigger] d[i];
        &&& b.material == BlockMaterial::CherryLeaves
        &&& 300 <= b.y <= 500
        &&& abs(b.x - 0) + abs(b.z - (-100)) < 400
    } by {
        assert(d[i] == t1[i - 840]);
    }
    assert forall|i: int| 844 + n1 <= i < 840 + n1 + n2 implies {
        let b = #[trigger] d[i];
        &&& b.material == BlockMaterial::CherryLeaves
        &&& 300 <= b.y <= 500
        &&& abs(b.x - 700) + abs(b.z - (-400)) < 400
    } by {
        assert(d[i] == t2[i - 840 - n1]);
    }
}

/// A grid of `nx * ny * nz` cells holds, at position `(i * ny + j) * nz + l`,
/// the cube at column `i`, layer `j` and row `l`: one block apart from the
/// origin along x, y and z, in that order of nesting.
pub proof fn lemma_grid_cell(
    ox: int,
    oy: int,
    oz: int,
    nx: int,
    ny: int,
    nz: int,
    size: int,
    m: BlockMaterial,
    i: int,
    j: int,
    l: int,
)
    requires
        0 <= i < nx,
        0 <= j < ny,
        0 <= l < nz,
    ensures
        grid(ox, oy, oz, nx, ny, nz, size, m).len() == nx * ny * nz,
        0 <= (i * ny + j) * nz + l < nx * ny * nz,
        grid(ox, oy, oz, nx, ny, nz, size, m)[(i * ny + j) * nz + l] == block(
            ox + 100 * i,
            oy + 100 * j,
            oz + 100 * l,
            size,
            m,
        ),
{
    let q = i * ny + j;
    let k = q * nz + l;
    lemma_fundamental_div_mod_converse(k, nz, q, l);
    lemma_fundamental_div_mod_converse(q, ny, i, j);
    lemma_mul_nonnegative(i, ny);
    lemma_mul_nonnegative(q, nz);
    lemma_mul_inequality(i + 1, nx, ny);
    lemma_mul_is_distributive_add_other_way(ny, i, 1);
    lemma_mul_is_commutative(ny, i);
    lemma_mul_is_commutative(ny, i + 1);
    lemma_mul_inequality(q + 1, nx * ny, nz);
    lemma_mul_is_distributive_add_other_way(nz, q, 1);
    lemma_mul_is_commutative(nz, q);
    lemma_mul_is_commutative(nz, q + 1);
    lemma_mul_nonnegative(nx, ny);
    lemma_mul_nonnegative(nx * ny, nz);
}

/// Every cell of a grid that `shape` keeps is among the kept cubes.
proof fn lemma_grid_where_has(
    ox: int,
    oy: int,
    oz: int,
    nx: int,
    ny: int,
    nz: int,
    size: int,
    m: BlockMaterial,
    shape: Shape,
    i: int,
    j: int,
    l: int,
)
    requires
        0 <= i < nx,
        0 <= j < ny,
        0 <= l < nz,
        keeps(shape, block(ox + 100 * i, oy + 100 * j, oz + 100 * l, size, m)),
    ensures
        grid_where(ox, oy, oz, nx, ny, nz, size, m, shape).contains(
            block(ox + 100 * i, oy + 100 * j, oz + 100 * l, size, m),
        ),
{
    lemma_grid_cell(ox, oy, oz, nx, ny, nz, size, m, i, j, l);
    let g = grid(ox, oy, oz, nx, ny, nz, size, m);
    g.lemma_filter_contains(|b: Block| keeps(shape, b), (i * ny + j) * nz + l);
}

/// A cherry tree at (bx, bz) has a leaves cube on every cell 3 to 5 blocks
/// up whose horizontal offsets `a` and `c` from the trunk (each from -2 to
/// 2) satisfy `|a| + |c| < 4`.
pub proof fn lemma_tree_crown_full(bx: int, bz: int, a: int, l: int, c: int)
    requires
        -99_000_000 <= bx <= 99_000_000,
        -99_000_000 <= bz <= 99_000_000,
        -2 <= a <= 2,
        -2 <= c <= 2,
        3 <= l <= 5,
        abs(a) + abs(c) < 4,
    ensures
        tree_blocks(bx, bz).contains(
            block(bx + 100 * a, 100 * l, bz + 100 * c, 100, BlockMaterial::CherryLeaves),
        ),
{
    let shape = Shape::Crown { cx: bx as i32, cz: bz as i32 };
    lemma_grid_where_has(
        bx - 200,
        300,
        bz - 200,
        5,
        3,
        5,
        100,
        BlockMaterial::CherryLeaves,
        shape,
        a + 2,
        l - 3,
        c + 2,
    );
    let t = tree_blocks(bx, bz);
    let trunk = grid(bx, 0, bz, 1, 4, 1, 100, BlockMaterial::CherryWood);
    let crown = grid_where(
        bx - 200,
        300,
        bz - 200,
        5,
        3,
        5,
        100,
        BlockMaterial::CherryLeaves,
        shape,
    );
    let b = block(bx + 100 * a, 100 * l, bz + 100 * c, 100, BlockMaterial::CherryLeaves);
    let k = choose|k: int| 0 <= k < crown.len() && crown[k] == b;
    assert(t == trunk + crown);
    assert(t[trunk.len() + k] == b);
}

/// The pond: every stone of its border stands on the outline of the 7 by 6
/// rectangle around the water, at ground level, and every cell of that
/// outline holds a stone; the 5 by 4 cells inside hold water, the water cube
/// of column `a` and row `c` being at (2.5 + a, 0, c); the last three cubes
/// are the lily pads.
pub proof fn lemma_pond_layout()
    ensures
        ({
            let p = pond_blocks();
            let n = p.len() - 23;
            &&& p.len() >= 23
            &&& forall|i: int|
                0 <= i < n ==> {
                    let b = #[trigger] p[i];
                    &&& b.material == BlockMaterial::PondStone
                    &&& b.y == 0
                    &&& b.size == 100
                    &&& 150 <= b.x <= 750 && 0 <= b.z + 100 <= 500
                    &&& (b.x == 150 || b.x == 750 || b.z == -100 || b.z == 400)
                }
            &&& forall|a: int, c: int|
                0 <= a < 5 && 0 <= c < 4 ==> #[trigger] p[n + 4 * a + c] == block(
                    250 + 100 * a,
                    0,
                    100 * c,
                    100,
                    BlockMaterial::Water,
                )
            &&& p[p.len() - 3] == block(400, 90, 150, 40, BlockMaterial::Grass)
            &&& p[p.len() - 2] == block(600, 90, 250, 40, BlockMaterial::Grass)
            &&& p[p.len() - 1] == block(500, 90, 200, 40, BlockMaterial::Grass)
        }),
        forall|a: int, c: int|
            -1 <= a <= 5 && -1 <= c <= 4 && (a == -1 || a == 5 || c == -1 || c == 4)
                ==> #[trigger] pond_stone_at(a, c),
{
    let shape = Shape::Ring { x_lo: 150i32, x_hi: 750i32, z_lo: -100i32, z_hi: 400i32 };
    let g = grid(150, 0, -100, 7, 1, 6, 100, BlockMaterial::PondStone);
    let pr = |b: Block| keeps(shape, b);
    let ring = g.filter(pr);
    let water = grid(250, 0, 0, 5, 1, 4, 100, BlockMaterial::Water);
    let lily = seq![
        block(400, 90, 150, 40, BlockMaterial::Grass),
        block(600, 90, 250, 40, BlockMaterial::Grass),
        block(500, 90, 200, 40, BlockMaterial::Grass),
    ];
    let p = pond_blocks();
    assert(p == ring + water + lily);
    assert(water.len() == 20);
    let n = ring.len() as int;
    let q = |b: Block|
        b.material == BlockMaterial::PondStone && b.y == 0 && b.size == 100 && 150 <= b.x <= 750
            && 0 <= b.z + 100 <= 500;
    assert forall|j: int| 0 <= j < g.len() implies q(#[trigger] g[j]) by {
        lemma_div_pos_is_pos(j, 6);
        lemma_mod_pos_bound(j, 6);
        lemma_multiply_divide_lt(j, 6, 7);
        lemma_fundamental_div_mod_converse(j / 6, 1, j / 6, 0);
    }
    lemma_filter_all(g, pr, q);
    assert forall|i: int| 0 <= i < n implies {
        let b = #[trigger] p[i];
        &&& b.material == BlockMaterial::PondStone
        &&& b.y == 0
        &&& b.size == 100
        &&& 150 <= b.x <= 750 && 0 <= b.z + 100 <= 500
        &&& (b.x == 150 || b.x == 750 || b.z == -100 || b.z == 400)
    } by {
        assert(p[i] == ring[i]);
        g.lemma_filter_pred(pr, i);
        assert(q(ring[i]));
    }
    assert forall|a: int, c: int| 0 <= a < 5 && 0 <= c < 4 implies #[trigger] p[n + 4 * a + c]
        == block(250 + 100 * a, 0, 100 * c, 100, BlockMaterial::Water) by {
        lemma_grid_cell(250, 0, 0, 5, 1, 4, 100, BlockMaterial::Water, a, 0, c);
        assert(p[n + 4 * a + c] == water[4 * a + c]);
    }
    assert forall|a: int, c: int|
        -1 <= a <= 5 && -1 <= c <= 4 && (a == -1 || a == 5 || c == -1 || c == 4) implies
        #[trigger] pond_stone_at(a, c) by {
        lemma_grid_where_has(
            150,
            0,
            -100,
            7,
            1,
            6,
            100,
            BlockMaterial::PondStone,
            shape,
            a + 1,
            0,
            c + 1,
        );
        let b = block(250 + 100 * a, 0, 100 * c, 100, BlockMaterial::PondStone);
        let k = choose|k: int| 0 <= k < ring.len() && ring[k] == b;
        assert(p[k] == b);
    }
}

/// The pond holds a stone at block column `a` and row `c` counted from the
/// water's corner (2.5, 0).
pub open spec fn pond_stone_at(a: int, c: int) -> bool {
    pond_blocks().contains(block(250 + 100 * a, 0, 100 * c, 100, BlockMaterial::PondStone))
}

/// The diorama starts with its ground, 20 by 21 blocks from (-10, -15): a
/// dirt cube at height -1.5 under a grass block at height -0.5 for every
/// cell. After the two trees come the sidewalk (23 by 4 cubes in front of
/// the house from (-12, -14), 3 by 9 on its right from (-4, -10), 9 by 2
/// behind it from (-10, -3), all at ground level) and the grass under the
/// house (7 by 7 from (-10, -10) at height -0.5).
pub proof fn lemma_diorama_ground()
    ensures
        ({
            let d = diorama_blocks();
            let o = 840 + tree_blocks(0, -100).len() + tree_blocks(700, -400).len();
            &&& o + 92 + 27 + 18 + 49 <= d.len()
            &&& forall|a: int, c: int|
                0 <= a < 20 && 0 <= c < 21 ==> #[trigger] d[21 * a + c] == block(
                    -1000 + 100 * a,
                    -150,
                    -1500 + 100 * c,
                    100,
                    BlockMaterial::Dirt,
                ) && d[420 + 21 * a + c] == block(
                    -1000 + 100 * a,
                    -50,
                    -1500 + 100 * c,
                    100,
                    BlockMaterial::GrassBlock,
                )
            &&& forall|a: int, c: int|
                0 <= a < 23 && 0 <= c < 4 ==> #[trigger] d[o + 4 * a + c] == block(
                    -1200 + 100 * a,
                    0,
                    -1400 + 100 * c,
                    100,
                    BlockMaterial::Sidewalk,
                )
            &&& forall|a: int, c: int|
                0 <= a < 3 && 0 <= c < 9 ==> #[trigger] d[o + 92 + 9 * a + c] == block(
                    -400 + 100 * a,
                    0,
                    -1000 + 100 * c,
                    100,
                    BlockMaterial::Sidewalk,
                )
            &&& forall|a: int, c: int|
                0 <= a < 9 && 0 <= c < 2 ==> #[trigger] d[o + 119 + 2 * a + c] == block(
                    -1000 + 100 * a,
                    0,
                    -300 + 100 * c,
                    100,
                    BlockMaterial::Sidewalk,
                )
            &&& forall|a: int, c: int|
                0 <= a < 7 && 0 <= c < 7 ==> #[trigger] d[o + 137 + 7 * a + c] == block(
                    -1000 + 100 * a,
                    -50,
                    -1000 + 100 * c,
                    100,
                    BlockMaterial::Grass,
                )
        }),
{
    let d = diorama_blocks();
    let dirt = grid(-1000, -150, -1500, 20, 1, 21, 100, BlockMaterial::Dirt);
    let grass = grid(-1000, -50, -1500, 20, 1, 21, 100, BlockMaterial::GrassBlock);
    let t1 = tree_blocks(0, -100);
    let t2 = tree_blocks(700, -400);
    let s1 = grid(-1200, 0, -1400, 23, 1, 4, 100, BlockMaterial::Sidewalk);
    let s2 = grid(-400, 0, -1000, 3, 1, 9, 100, BlockMaterial::Sidewalk);
    let s3 = grid(-1000, 0, -300, 9, 1, 2, 100, BlockMaterial::Sidewalk);
    let gh = grid(-1000, -50, -1000, 7, 1, 7, 100, BlockMaterial::Grass);
    let rest = decoration_blocks() + pond_blocks() + house_blocks();
    assert(d =~= dirt + grass + t1 + t2 + s1 + s2 + s3 + gh + rest);
    let o = 840 + t1.len();
    let o = o + t2.len();
    assert(dirt.len() == 420 && grass.len() == 420);
    assert(s1.len() == 92 && s2.len() == 27 && s3.len() == 18 && gh.len() == 49);
    assert forall|a: int, c: int| 0 <= a < 20 && 0 <= c < 21 implies #[trigger] d[21 * a + c]
        == block(-1000 + 100 * a, -150, -1500 + 100 * c, 100, BlockMaterial::Dirt) && d[420 + 21
        * a + c] == block(-1000 + 100 * a, -50, -1500 + 100 * c, 100, BlockMaterial::GrassBlock) by {
        lemma_grid_cell(-1000, -150, -1500, 20, 1, 21, 100, BlockMaterial::Dirt, a, 0, c);
        lemma_grid_cell(-1000, -50, -1500, 20, 1, 21, 100, BlockMaterial::GrassBlock, a, 0, c);
        assert(d[21 * a + c] == dirt[21 * a + c]);
        assert(d[420 + 21 * a + c] == grass[21 * a + c]);
    }
    assert forall|a: int, c: int| 0 <= a < 23 && 0 <= c < 4 implies #[trigger] d[o + 4 * a + c]
        == block(-1200 + 100 * a, 0, -1400 + 100 * c, 100, BlockMaterial::Sidewalk) by {
        lemma_grid_cell(-1200, 0, -1400, 23, 1, 4, 100, BlockMaterial::Sidewalk, a, 0, c);
        assert(d[o + 4 * a + c] == s1[4 * a + c]);
    }
    assert forall|a: int, c: int| 0 <= a < 3 && 0 <= c < 9 implies #[trigger] d[o + 92 + 9 * a
        + c] == block(-400 + 100 * a, 0, -1000 + 100 * c, 100, BlockMaterial::Sidewalk) by {
        lemma_grid_cell(-400, 0, -1000, 3, 1, 9, 100, BlockMaterial::Sidewalk, a, 0, c);
        assert(d[o + 92 + 9 * a + c] == s2[9 * a + c]);
    }
    assert forall|a: int, c: int| 0 <= a < 9 && 0 <= c < 2 implies #[trigger] d[o + 119 + 2 * a
        + c] == block(-1000 + 100 * a, 0, -300 + 100 * c, 100, BlockMaterial::Sidewalk) by {
        lemma_grid_cell(-1000, 0, -300, 9, 1, 2, 100, BlockMaterial::Sidewalk, a, 0, c);
        assert(d[o + 119 + 2 * a + c] == s3[2 * a + c]);
    }
    assert forall|a: int, c: int| 0 <= a < 7 && 0 <= c < 7 implies #[trigger] d[o + 137 + 7 * a
        + c] == block(-1000 + 100 * a, -50, -1000 + 100 * c, 100, BlockMaterial::Grass) by {
        lemma_grid_cell(-1000, -50, -1000, 7, 1, 7, 100, BlockMaterial::Grass, a, 0, c);
        assert(d[o + 137 + 7 * a + c] == gh[7 * a + c]);
    }
}

/// The house's roof is flat, one layer of 7 by 7 stone cubes at height 5
/// from (-10, -10), placed after the 120 wall cubes.
pub proof fn lemma_house_roof()
    ensures
        house_blocks().len() == 169,
        forall|a: int, c: int|
            0 <= a < 7 && 0 <= c < 7 ==> #[trigger] house_blocks()[120 + 7 * a + c] == block(
                -1000 + 100 * a,
                500,
                -1000 + 100 * c,
                100,
                BlockMaterial::HouseRoof,
            ),
{
    let roof = grid(-1000, 500, -1000, 7, 1, 7, 100, BlockMaterial::HouseRoof);
    assert(house_blocks() == house_walls() + roof);
    assert forall|a: int, c: int| 0 <= a < 7 && 0 <= c < 7 implies #[trigger] house_blocks()[120
        + 7 * a + c] == block(-1000 + 100 * a, 500, -1000 + 100 * c, 100, BlockMaterial::HouseRoof) by {
        lemma_grid_cell(-1000, 500, -1000, 7, 1, 7, 100, BlockMaterial::HouseRoof, a, 0, c);
        assert(house_blocks()[120 + 7 * a + c] == roof[7 * a + c]);
    }
}

/// After the grass under the house, the diorama places the glass block, the
/// two gold blocks and the axolotl's eyes, mouth and gills, then the pond,
/// and ends with the house.
pub proof fn lemma_diorama_tail()
    ensures
        ({
            let d = diorama_blocks();
            let o: int = (840 + tree_blocks(0, -100).len() + tree_blocks(700, -400).len() + 186) as int;
            let np: int = pond_blocks().len() as int;
            let nh: int = house_blocks().len() as int;
            &&& d.len() == o + 12 + np + nh
            &&& d[o] == block(200, 0, -200, 100, BlockMaterial::Glass)
            &&& d[o + 1] == block(400, 100, 0, 100, BlockMaterial::Gold)
            &&& d[o + 2] == block(-400, 0, -400, 100, BlockMaterial::Gold)
            &&& d[o + 3] == block(-115, 50, 375, 18, BlockMaterial::AxolotlEye)
            &&& d[o + 4] == block(-85, 50, 375, 18, BlockMaterial::AxolotlEye)
            &&& d[o + 5] == block(-100, 35, 365, 15, BlockMaterial::AxolotlMouth)
            &&& d[o + 6] == block(-130, 40, 400, 8, BlockMaterial::AxolotlGill)
            &&& d[o + 7] == block(-135, 45, 400, 7, BlockMaterial::AxolotlGill)
            &&& d[o + 8] == block(-135, 35, 400, 7, BlockMaterial::AxolotlGill)
            &&& d[o + 9] == block(-70, 40, 400, 8, BlockMaterial::AxolotlGill)
            &&& d[o + 10] == block(-65, 45, 400, 7, BlockMaterial::AxolotlGill)
            &&& d[o + 11] == block(-65, 35, 400, 7, BlockMaterial::AxolotlGill)
            &&& d.subrange(o + 12, o + 12 + np) == pond_blocks()
            &&& d.subrange(o + 12 + np, d.len() as int) == house_blocks()
        }),
{
    let d = diorama_blocks();
    let head = ground_blocks() + tree_blocks(0, -100) + tree_blocks(700, -400) + sidewalk_blocks()
        + grid(-1000, -50, -1000, 7, 1, 7, 100, BlockMaterial::Grass);
    assert(d == head + decoration_blocks() + pond_blocks() + house_blocks());
    let o: int = (840 + tree_blocks(0, -100).len() + tree_blocks(700, -400).len() + 186) as int;
    assert(head.len() == o);
    let np = pond_blocks().len() as int;
    assert(d.subrange(o + 12, o + 12 + np) =~= pond_blocks());
    assert(d.subrange(o + 12 + np, d.len() as int) =~= house_blocks());
}

/// Two cubes stand at the same position.
pub open spec fn same_position(a: Block, b: Block) -> bool {
    a.x == b.x && a.y == b.y && a.z == b.z
}

/// The cubes of a grid all stand at different positions.
proof fn lemma_grid_distinct(
    ox: int,
    oy: int,
    oz: int,
    nx: int,
    ny: int,
    nz: int,
    size: int,
    m: BlockMaterial,
)
    requires
        coord_ok(ox),
        coord_ok(oy),
        coord_ok(oz),
        0 < nx <= 1000,
        0 < ny <= 1000,
        0 < nz <= 1000,
    ensures
        forall|i: int, j: int|
            0 <= i < j < grid(ox, oy, oz, nx, ny, nz, size, m).len() ==> !same_position(
                #[trigger] grid(ox, oy, oz, nx, ny, nz, size, m)[i],
                #[trigger] grid(ox, oy, oz, nx, ny, nz, size, m)[j],
            ),
{
    let g = grid(ox, oy, oz, nx, ny, nz, size, m);
    assert forall|i: int, j: int| 0 <= i < j < g.len() implies !same_position(
        #[trigger] g[i],
        #[trigger] g[j],
    ) by {
        lemma_cell_indices(i, nx, ny, nz);
        lemma_cell_indices(j, nx, ny, nz);
        lemma_fundamental_div_mod(i, nz);
        lemma_fundamental_div_mod(j, nz);
        lemma_fundamental_div_mod(i / nz, ny);
        lemma_fundamental_div_mod(j / nz, ny);
        if same_position(g[i], g[j]) {
            assert(i / nz / ny == j / nz / ny);
            assert((i / nz) % ny == (j / nz) % ny);
            assert(i % nz == j % nz);
            assert(i / nz == j / nz);
            assert(false);
        }
    }
}

/// Filtering keeps cubes at pairwise different positions apart.
proof fn lemma_filter_distinct(s: Seq<Block>, p: spec_fn(Block) -> bool)
    requires
        forall|i: int, j: int|
            0 <= i < j < s.len() ==> !same_position(#[trigger] s[i], #[trigger] s[j]),
    ensures
        forall|i: int, j: int|
            0 <= i < j < s.filter(p).len() ==> !same_position(
                #[trigger] s.filter(p)[i],
                #[trigger] s.filter(p)[j],
            ),
    decreases s.len(),
{
    reveal_with_fuel(Seq::<_>::filter, 1);
    if s.len() > 0 {
        let t = s.drop_last();
        let last = s.last();
        assert forall|i: int, j: int| 0 <= i < j < t.len() implies !same_position(
            #[trigger] t[i],
            #[trigger] t[j],
        ) by {
            assert(t[i] == s[i] && t[j] == s[j]);
        }
        lemma_filter_distinct(t, p);
        let q = |b: Block| !same_position(b, last);
        assert forall|j: int| 0 <= j < t.len() implies q(#[trigger] t[j]) by {
            assert(t[j] == s[j]);
            assert(last == s[s.len() - 1]);
        }
        lemma_filter_all(t, p, q);
        let f = s.filter(p);
        let ft = t.filter(p);
        assert forall|i: int, j: int| 0 <= i < j < f.len() implies !same_position(
            #[trigger] f[i],
            #[trigger] f[j],
        ) by {
            if j < ft.len() {
                assert(f[i] == ft[i] && f[j] == ft[j]);
            } else {
                assert(f[i] == ft[i]);
                assert(f[j] == last);
                assert(q(ft[i]));
            }
        }
    }
}

/// No two leaves cubes of a cherry tree stand at the same position, nor do
/// two stones of the pond's border.
pub proof fn lemma_no_stacked_cubes(bx: int, bz: int)
    requires
        -99_000_000 <= bx <= 99_000_000,
        -99_000_000 <= bz <= 99_000_000,
    ensures
        forall|i: int, j: int|
            4 <= i < j < tree_blocks(bx, bz).len() ==> !same_position(
                #[trigger] tree_blocks(bx, bz)[i],
                #[trigger] tree_blocks(bx, bz)[j],
            ),
        forall|i: int, j: int|
            0 <= i < j < pond_blocks().len() - 23 ==> !same_position(
                #[trigger] pond_blocks()[i],
                #[trigger] pond_blocks()[j],
            ),
{
    let g = grid(bx - 200, 300, bz - 200, 5, 3, 5, 100, BlockMaterial::CherryLeaves);
    let shape = Shape::Crown { cx: bx as i32, cz: bz as i32 };
    let pc = |b: Block| keeps(shape, b);
    lemma_grid_distinct(bx - 200, 300, bz - 200, 5, 3, 5, 100, BlockMaterial::CherryLeaves);
    lemma_filter_distinct(g, pc);
    let trunk = grid(bx, 0, bz, 1, 4, 1, 100, BlockMaterial::CherryWood);
    let t = tree_blocks(bx, bz);
    assert(t == trunk + g.filter(pc));
    assert(trunk.len() == 4);
    assert forall|i: int, j: int| 4 <= i < j < t.len() implies !same_position(
        #[trigger] t[i],
        #[trigger] t[j],
    ) by {
        assert(t[i] == g.filter(pc)[i - 4] && t[j] == g.filter(pc)[j - 4]);
    }
    let rshape = Shape::Ring { x_lo: 150i32, x_hi: 750i32, z_lo: -100i32, z_hi: 400i32 };
    let rg = grid(150, 0, -100, 7, 1, 6, 100, BlockMaterial::PondStone);
    let pr = |b: Block| keeps(rshape, b);
    lemma_grid_distinct(150, 0, -100, 7, 1, 6, 100, BlockMaterial::PondStone);
    lemma_filter_distinct(rg, pr);
    let water = grid(250, 0, 0, 5, 1, 4, 100, BlockMaterial::Water);
    let lily = seq![
        block(400, 90, 150, 40, BlockMaterial::Grass),
        block(600, 90, 250, 40, BlockMaterial::Grass),
        block(500, 90, 200, 40, BlockMaterial::Grass),
    ];
    let pb = pond_blocks();
    assert(pb == rg.filter(pr) + water + lily);
    assert(water.len() == 20);
    assert forall|i: int, j: int| 0 <= i < j < pb.len() - 23 implies !same_position(
        #[trigger] pb[i],
        #[trigger] pb[j],
    ) by {
        assert(pb[i] == rg.filter(pr)[i] && pb[j] == rg.filter(pr)[j]);
    }
}

/// The diorama's one mesh is the axolotl model, placed at (-1, 0.2, 4) near
/// the first tree, at 15% of its size, turned half round about the vertical
/// axis, in its pink body material.
pub proof fn lemma_axolotl_placement()
    ensures
        axolotl_placement().model == Model::Axolotl,
        axolotl_placement().x == -100 && axolotl_placement().y == 20 && axolotl_placement().z
            == 400,
        axolotl_placement().scale == 15,
        axolotl_placement().half_turns_y == 1,
        axolotl_placement().material == BlockMaterial::AxolotlBody,
{
}

impl Scene {
    /// An empty scene.
    pub fn new() -> (s: Scene)
        ensures
            s.cubes@ == Seq::<Block>::empty(),
            s.meshes@ == Seq::<MeshPlacement>::empty(),
    {
        Scene { cubes: Vec::new(), meshes: Vec::new() }
    }

    /// Adds a cherry tree whose trunk stands at (base_x, base_z), in
    /// hundredths of a block.
    pub fn build_cherry_tree(&mut self, base_x: i32, base_z: i32)
        requires
            -99_000_000 <= base_x <= 99_000_000,
            -99_000_000 <= base_z <= 99_000_000,
        ensures
            final(self).cubes@ == old(self).cubes@ + tree_blocks(base_x as int, base_z as int),
            final(self).meshes@ == old(self).meshes@,
    {
        push_grid(&mut self.cubes, base_x, 0, base_z, 1, 4, 1, 100, BlockMaterial::CherryWood);
        push_grid_where(
            &mut self.cubes,
            base_x - 200,
            300,
            base_z - 200,
            5,
            3,
            5,
            100,
            BlockMaterial::CherryLeaves,
            Shape::Crown { cx: base_x, cz: base_z },
        );
    }

    /// Adds the pond: a 5 by 4 pool of water in a stone border, with three
    /// lily pads on the water.
    pub fn build_pond(&mut self)
        ensures
            final(self).cubes@ == old(self).cubes@ + pond_blocks(),
            final(self).meshes@ == old(self).meshes@,
    {
        let start_x: i32 = 250;
        let start_z: i32 = 0;
        push_grid_where(
            &mut self.cubes,
            start_x - 100,
            0,
            start_z - 100,
            7,
            1,
            6,
            100,
            BlockMaterial::PondStone,
            Shape::Ring {
                x_lo: start_x - 100,
                x_hi: start_x + 500,
                z_lo: start_z - 100,
                z_hi: start_z + 400,
            },
        );
        push_grid(&mut self.cubes, start_x, 0, start_z, 5, 1, 4, 100, BlockMaterial::Water);
        self.cubes.push(Block { x: 400, y: 90, z: 150, size: 40, material: BlockMaterial::Grass });
        self.cubes.push(Block { x: 600, y: 90, z: 250, size: 40, material: BlockMaterial::Grass });
        self.cubes.push(Block { x: 500, y: 90, z: 200, size: 40, material: BlockMaterial::Grass });
    }

    /// Adds the house: five layers of walls with windows and a door, and a
    /// flat roof.
    pub fn build_house(&mut self)
        ensures
            final(self).cubes@ == old(self).cubes@ + house_blocks(),
            final(self).meshes@ == old(self).meshes@,
    {
        let ghost start = self.cubes@;
        let house_x: i32 = -1000;
        let house_z: i32 = -1000;
        let house_width: i32 = 7;
        let house_depth: i32 = 7;
        let house_height: i32 = 5;
        let mut y: i32 = 0;
        while y < house_height
            invariant
                0 <= y <= house_height,
                house_x == house_corner_x(),
                house_z == house_corner_z(),
                house_width == 7,
                house_depth == 7,
                house_height == 5,
                self.cubes@ =~= start + house_walls().take(24 * y),
                self.meshes@ == old(self).meshes@,
            decreases house_height - y,
        {
            let y_pos = 100 * y;
            let is_window_row = y >= 2 && y <= 3;
            // Front wall, with two windows.
            let mut x: i32 = 0;
            while x < house_width
                invariant
                    0 <= y < 5,
                    0 <= x <= 7,
                    y_pos == 100 * y,
                    is_window_row == (2 <= y <= 3),
                    house_x == house_corner_x(),
                    house_z == house_corner_z(),
                    house_width == 7,
                    self.cubes@ =~= start + house_walls().take(24 * y + x),
                    self.meshes@ == old(self).meshes@,
                decreases 7 - x,
            {
                let is_window = is_window_row && (x == 2 || x == 4);
                let material = if is_window {
                    BlockMaterial::HouseWindow
                } else {
                    BlockMaterial::HouseWall
                };
                self.cubes.push(Block { x: house_x + 100 * x, y: y_pos, z: house_z, size: 100, material });
                proof {
                    lemma_fundamental_div_mod_converse(24 * y + x, 24, y as int, x as int);
                }
                x = x + 1;
            }
            // Back wall, with a door three blocks wide and three high.
            let mut x: i32 = 0;
            while x < house_width
                invariant
                    0 <= y < 5,
                    0 <= x <= 7,
                    y_pos == 100 * y,
                    house_x == house_corner_x(),
                    house_z == house_corner_z(),
                    house_width == 7,
                    house_depth == 7,
                    self.cubes@ =~= start + house_walls().take(24 * y + 7 + x),
                    self.meshes@ == old(self).meshes@,
                decreases 7 - x,
            {
                let is_door = y < 3 && x >= 2 && x <= 4;
                let material = if is_door {
                    BlockMaterial::HouseDoor
                } else {
                    BlockMaterial::HouseWall
                };
                self.cubes.push(
                    Block {
                        x: house_x + 100 * x,
                        y: y_pos,
                        z: house_z + 100 * (house_depth - 1),
                        size: 100,
                        material,
                    },
                );
                proof {
                    lemma_fundamental_div_mod_converse(24 * y + 7 + x, 24, y as int, 7 + x as int);
                }
                x = x + 1;
            }
            // Left wall, with a window.
            let mut z: i32 = 1;
            while z < house_depth - 1
                invariant
                    0 <= y < 5,
                    1 <= z <= 6,
                    y_pos == 100 * y,
                    is_window_row == (2 <= y <= 3),
                    house_x == house_corner_x(),
                    house_z == house_corner_z(),
                    house_depth == 7,
                    self.cubes@ =~= start + house_walls().take(24 * y + 13 + z),
                    self.meshes@ == old(self).meshes@,
                decreases 6 - z,
            {
                let is_window = is_window_row && z == 3;
                let material = if is_window {
                    BlockMaterial::HouseWindow
                } else {
                    BlockMaterial::HouseWall
                };
                self.cubes.push(Block { x: house_x, y: y_pos, z: house_z + 100 * z, size: 100, material });
                proof {
                    lemma_fundamental_div_mod_converse(24 * y + 13 + z, 24, y as int, 13 + z as int);
                }
                z = z + 1;
            }
            // Right wall, with a window.
            let mut z: i32 = 1;
            while z < house_depth - 1
                invariant
                    0 <= y < 5,
                    1 <= z <= 6,
                    y_pos == 100 * y,
                    is_window_row == (2 <= y <= 3),
                    house_x == house_corner_x(),
                    house_z == house_corner_z(),
                    house_width == 7,
                    house_depth == 7,
                    self.cubes@ =~= start + house_walls().take(24 * y + 18 + z),
                    self.meshes@ == old(self).meshes@,
                decreases 6 - z,
            {
                let is_window = is_window_row && z == 3;
                let material = if is_window {
                    BlockMaterial::HouseWindow
                } else {
                    BlockMaterial::HouseWall
                };
                self.cubes.push(
                    Block {
                        x: house_x + 100 * (house_width - 1),
                        y: y_pos,
                        z: house_z + 100 * z,
                        size: 100,
                        material,
                    },
                );
                proof {
                    lemma_fundamental_div_mod_converse(24 * y + 18 + z, 24, y as int, 18 + z as int);
                }
                z = z + 1;
            }
            y = y + 1;
        }
        assert(house_walls().take(120) =~= house_walls());
        push_grid(&mut self.cubes, house_x, 500, house_z, 7, 1, 7, 100, BlockMaterial::HouseRoof);
    }

    /// Builds the cherry tree diorama: the ground, two cherry trees, a
    /// sidewalk around the house, grass under the house, glass and gold
    /// blocks, the axolotl with its eyes, mouth and gills, the pond and the
    /// house.
    pub fn build_cherry_tree_diorama(&mut self)
        ensures
            final(self).cubes@ == old(self).cubes@ + diorama_blocks(),
            final(self).meshes@ == old(self).meshes@.push(axolotl_placement()),
    {
        let ghost start = self.cubes@;
        // Dirt under the whole diorama, then grass blocks on top of it.
        push_grid(&mut self.cubes, -1000, -150, -1500, 20, 1, 21, 100, BlockMaterial::Dirt);
        push_grid(&mut self.cubes, -1000, -50, -1500, 20, 1, 21, 100, BlockMaterial::GrassBlock);
        assert(self.cubes@ =~= start + ground_blocks());

        self.build_cherry_tree(0, -100);
        self.build_cherry_tree(700, -400);

        // Sidewalk in front of the house, on its right and behind it.
        let ghost before_sidewalk = self.cubes@;
        push_grid(&mut self.cubes, -1200, 0, -1400, 23, 1, 4, 100, BlockMaterial::Sidewalk);
        push_grid(&mut self.cubes, -400, 0, -1000, 3, 1, 9, 100, BlockMaterial::Sidewalk);
        push_grid(&mut self.cubes, -1000, 0, -300, 9, 1, 2, 100, BlockMaterial::Sidewalk);
        assert(self.cubes@ =~= before_sidewalk + sidewalk_blocks());

        // Grass under the house.
        push_grid(&mut self.cubes, -1000, -50, -1000, 7, 1, 7, 100, BlockMaterial::Grass);

        let ghost before_decoration = self.cubes@;
        self.cubes.push(Block { x: 200, y: 0, z: -200, size: 100, material: BlockMaterial::Glass });
        self.cubes.push(Block { x: 400, y: 100, z: 0, size: 100, material: BlockMaterial::Gold });
        self.cubes.push(Block { x: -400, y: 0, z: -400, size: 100, material: BlockMaterial::Gold });

        self.meshes.push(
            MeshPlacement {
                model: Model::Axolotl,
                x: -100,
                y: 20,
                z: 400,
                scale: 15,
                half_turns_y: 1,
                material: BlockMaterial::AxolotlBody,
            },
        );

        // The axolotl's eyes, mouth and gills.
        self.cubes.push(Block { x: -115, y: 50, z: 375, size: 18, material: BlockMaterial::AxolotlEye });
        self.cubes.push(Block { x: -85, y: 50, z: 375, size: 18, material: BlockMaterial::AxolotlEye });
        self.cubes.push(
            Block { x: -100, y: 35, z: 365, size: 15, material: BlockMaterial::AxolotlMouth },
        );
        self.cubes.push(Block { x: -130, y: 40, z: 400, size: 8, material: BlockMaterial::AxolotlGill });
        self.cubes.push(Block { x: -135, y: 45, z: 400, size: 7, material: BlockMaterial::AxolotlGill });
        self.cubes.push(Block { x: -135, y: 35, z: 400, size: 7, material: BlockMaterial::AxolotlGill });
        self.cubes.push(Block { x: -70, y: 40, z: 400, size: 8, material: BlockMaterial::AxolotlGill });
        self.cubes.push(Block { x: -65, y: 45, z: 400, size: 7, material: BlockMaterial::AxolotlGill });
        self.cubes.push(Block { x: -65, y: 35, z: 400, size: 7, material: BlockMaterial::AxolotlGill });
        assert(self.cubes@ =~= before_decoration + decoration_blocks());

        self.build_pond();
        self.build_house();
        assert(self.cubes@ =~= start + diorama_blocks());
    }
}

} // verus!
