//! Axial hex coordinates, terrain, tiles and map generation.
use vstd::prelude::*;

verus! {

/// Absolute value on mathematical integers.
pub open spec fn abs_int(x: int) -> int {
    if x < 0 {
        -x
    } else {
        x
    }
}

/// Hex distance between two axial coordinates.
pub open spec fn hex_dist(q1: int, r1: int, q2: int, r2: int) -> int {
    (abs_int(q1 - q2) + abs_int(r1 - r2) + abs_int(q1 + r1 - q2 - r2)) / 2
}

/// Hex distance computed in 64-bit arithmetic, which never overflows on 32-bit inputs.
pub fn distance(q1: i32, r1: i32, q2: i32, r2: i32) -> (d: i64)
    ensures
        d == hex_dist(q1 as int, r1 as int, q2 as int, r2 as int),
        d >= 0,
{
    let dq: i64 = q1 as i64 - q2 as i64;
    let dr: i64 = r1 as i64 - r2 as i64;
    let ds: i64 = dq + dr;
    let aq: i64 = if dq < 0 { -dq } else { dq };
    let ar: i64 = if dr < 0 { -dr } else { dr };
    let a_s: i64 = if ds < 0 { -ds } else { ds };
    (aq + ar + a_s) / 2
}

/// Terrain of a tile.
#[derive(Clone, Copy, Debug, PartialEq, Eq, Structural)]
pub enum Terrain {
    Grassland,
    Forest,
    Mountain,
    Water,
    Desert,
}

/// Movement points needed to enter a terrain; `None` when it cannot be entered.
pub open spec fn terrain_cost(t: Terrain) -> Option<u32> {
    match t {
        Terrain::Mountain => Some(2u32),
        Terrain::Water => None,
        _ => Some(1u32),
    }
}

/// Whether a terrain may hold a starting position.
pub open spec fn is_start_terrain(t: Terrain) -> bool {
    t != Terrain::Water && t != Terrain::Mountain
}

/// The terrain that a random byte selects: its residue modulo five.
pub open spec fn terrain_of_byte(b: u8) -> Terrain {
    let k = b % 5;
    if k == 0 {
        Terrain::Grassland
    } else if k == 1 {
        Terrain::Forest
    } else if k == 2 {
        Terrain::Mountain
    } else if k == 3 {
        Terrain::Water
    } else {
        Terrain::Desert
    }
}

impl Terrain {
    /// Terrain selected by a byte of entropy.
    pub fn from_byte(b: u8) -> (t: Terrain)
        ensures
            t == terrain_of_byte(b),
    {
        let k: u8 = b % 5;
        if k == 0 {
            Terrain::Grassland
        } else if k == 1 {
            Terrain::Forest
        } else if k == 2 {
            Terrain::Mountain
        } else if k == 3 {
            Terrain::Water
        } else {
            Terrain::Desert
        }
    }
}

/// A single hex tile with axial coordinates.
#[derive(Copy, Debug)]
pub struct Tile {
    pub q: i32,
    pub r: i32,
    pub terrain: Terrain,
}

impl Clone for Tile {
    fn clone(&self) -> (t: Self)
        ensures
            t == *self,
    {
        *self
    }
}

/// The board: its tiles in scan order and the radius they were made for.
#[derive(Debug)]
pub struct GameMap {
    pub tiles: Vec<Tile>,
    pub radius: u32,
}

impl Clone for GameMap {
    fn clone(&self) -> (m: Self)
        ensures
            m.tiles@ == self.tiles@,
            m.radius == self.radius,
    {
        let tiles = self.tiles.clone();
        assert forall|i: int| 0 <= i < tiles@.len() implies tiles@[i] == self.tiles@[i] by {
            assert(cloned::<Tile>(self.tiles[i], tiles[i]));
        }
        assert(tiles@ =~= self.tiles@);
        GameMap { tiles, radius: self.radius }
    }
}

/// Lowest `r` of column `q` in the region of radius `rad`.
pub open spec fn column_low(q: int, rad: int) -> int {
    if -rad > -q - rad {
        -rad
    } else {
        -q - rad
    }
}

/// Highest `r` of column `q` in the region of radius `rad`.
pub open spec fn column_high(q: int, rad: int) -> int {
    if rad < -q + rad {
        rad
    } else {
        -q + rad
    }
}

/// The coordinates of column `q`, by increasing `r`.
pub open spec fn column(q: int, rad: int) -> Seq<(int, int)> {
    Seq::new(
        (column_high(q, rad) - column_low(q, rad) + 1) as nat,
        |j: int| (q, column_low(q, rad) + j),
    )
}

/// The coordinates of all columns left of `q`, in scan order.
pub open spec fn region_before(q: int, rad: int) -> Seq<(int, int)>
    decreases q + rad,
{
    if q <= -rad {
        Seq::empty()
    } else {
        region_before(q - 1, rad) + column(q - 1, rad)
    }
}

/// The hexagonal region of a radius: every `(q, r)` with `q` in `[-R, R]` and `r` in
/// `[max(-R, -q-R), min(R, -q+R)]`, column by column.
pub open spec fn hex_region(rad: int) -> Seq<(int, int)> {
    region_before(rad + 1, rad)
}

/// The coordinates of a sequence of tiles.
pub open spec fn tile_coords(tiles: Seq<Tile>) -> Seq<(int, int)> {
    tiles.map_values(|t: Tile| (t.q as int, t.r as int))
}

/// Relies on getrandom::getrandom: fills eight bytes from the system's entropy source,
/// read as one little-endian number; `None` when the source fails.
#[verifier::external_body]
pub(crate) fn random_u64() -> (r: Option<u64>) {
    let mut buf = [0u8; 8];
    match getrandom::getrandom(&mut buf) {
        Ok(()) => Some(u64::from_le_bytes(buf)),
        Err(_) => None,
    }
}

impl GameMap {
    /// Builds the hexagonal region of `radius` with a random terrain on each tile;
    /// `None` when entropy cannot be had.
    pub fn generate(radius: u32) -> (m: Option<GameMap>)
        requires
            radius <= i32::MAX,
        ensures
            m matches Some(map) ==> map.radius == radius && tile_coords(map.tiles@) == hex_region(
                radius as int,
            ),
    {
        let rad: i64 = radius as i64;
        let mut tiles: Vec<Tile> = Vec::new();
        let mut q: i64 = -rad;
        while q <= rad
            invariant
                rad == radius as int,
                rad <= i32::MAX,
                -rad <= q <= rad + 1,
                tile_coords(tiles@) == region_before(q as int, rad as int),
            decreases rad + 1 - q,
        {
            let lo: i64 = if -rad > -q - rad { -rad } else { -q - rad };
            let hi: i64 = if rad < -q + rad { rad } else { -q + rad };
            let mut r: i64 = lo;
            let ghost before = tiles@;
            while r <= hi
                invariant
                    rad == radius as int,
                    rad <= i32::MAX,
                    -rad <= q <= rad,
                    lo == column_low(q as int, rad as int),
                    hi == column_high(q as int, rad as int),
                    -rad <= lo <= r <= hi + 1,
                    hi <= rad,
                    tile_coords(before) == region_before(q as int, rad as int),
                    tiles@.len() == before.len() + (r - lo),
                    tile_coords(tiles@) == tile_coords(before) + column(q as int, rad as int).take(
                        r - lo,
                    ),
                decreases hi + 1 - r,
            {
                let n = random_u64();
                let b: u8 = match n {
                    Some(v) => (v % 256) as u8,
                    None => {
                        return None;
                    },
                };
                let t = Tile { q: q as i32, r: r as i32, terrain: Terrain::from_byte(b) };
                let ghost prev = tiles@;
                tiles.push(t);
                assert(tile_coords(tiles@) =~= tile_coords(prev).push((q as int, r as int)));
                assert(column(q as int, rad as int).take(r - lo + 1) =~= column(
                    q as int,
                    rad as int,
                ).take(r - lo).push((q as int, r as int)));
                r = r + 1;
            }
            assert(column(q as int, rad as int).take(hi - lo + 1) =~= column(q as int, rad as int));
            q = q + 1;
        }
        Some(GameMap { tiles, radius })
    }
}

} // verus!
