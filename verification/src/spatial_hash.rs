use vstd::prelude::*;

verus! {

/// Scaled coordinates are hundredths of screen units: the screen runs from
/// `-SCALE` to `SCALE` on both axes.
pub const SCALE: i32 = 100;

/// `|p|`, clamped into the screen: scaled positions at or beyond the border
/// are pulled back to the last cell coordinate inside it.
pub open spec fn clamped_abs(p: int) -> int {
    let a = if p < 0 { -p } else { p };
    if a >= SCALE { SCALE - 1 } else { a }
}

/// The cell coordinate of one axis. Cells are numbered from 1 outwards on
/// the positive side and from -1 outwards on the negative side; there is
/// no cell 0, and a position exactly at 0 belongs to cell 1.
pub open spec fn spec_cell_coordinate(p: int, cell_size: int) -> int {
    let m = (clamped_abs(p) + cell_size) / cell_size;
    if p < 0 { -m } else { m }
}

/// The absolute value of a scaled position.
fn abs_i32(p: i32) -> (a: i32)
    requires
        p > i32::MIN,
    ensures
        a == (if p < 0 { -(p as int) } else { p as int }),
{
    if p < 0 { -p } else { p }
}

/// The cell coordinate of one scaled position along one axis.
pub fn cell_coordinate(pos_scaled: i32, cell_size_scaled: i32) -> (c: i32)
    requires
        pos_scaled > i32::MIN,
        0 < cell_size_scaled <= i32::MAX - SCALE,
    ensures
        c == spec_cell_coordinate(pos_scaled as int, cell_size_scaled as int),
{
    let mut p: i32 = pos_scaled;
    let mut sign: i32 = if p > 0 { 1 } else if p < 0 { -1 } else { 0 };
    // Walk the position back towards the centre until it lies inside the screen.
    while abs_i32(p) >= SCALE
        invariant
            pos_scaled > i32::MIN,
            sign == (if pos_scaled > 0 { 1int } else if pos_scaled < 0 { -1int } else { 0int }),
            pos_scaled > 0 ==> 0 < p <= pos_scaled,
            pos_scaled < 0 ==> pos_scaled <= p < 0,
            pos_scaled == 0 ==> p == 0,
            pos_scaled >= SCALE ==> p >= SCALE - 1,
            pos_scaled <= -SCALE ==> p <= -(SCALE - 1),
            -SCALE < pos_scaled < SCALE ==> p == pos_scaled,
        decreases (if p < 0 { -(p as int) } else { p as int }),
    {
        p = p + (-1 * sign * 1);
    }
    if p == 0 {
        sign = 1;
    }
    let a: i32 = abs_i32(p);
    let m: i32 = (a + cell_size_scaled) / cell_size_scaled;
    m * sign
}


/// There is no cell 0: every position, on either axis, lands in a cell
/// numbered at least 1 away from the centre and at most one cell past the
/// last full cell inside the screen.
pub proof fn lemma_cell_coordinate_range(p: int, cell_size: int)
    requires
        0 < cell_size,
    ensures
        spec_cell_coordinate(p, cell_size) != 0,
        1 <= abs_int(spec_cell_coordinate(p, cell_size)) <= (SCALE - 1 + cell_size) / cell_size,
        p < 0 <==> spec_cell_coordinate(p, cell_size) < 0,
{
    let a = clamped_abs(p);
    assert((a + cell_size) / cell_size >= 1) by (nonlinear_arith)
        requires
            0 < cell_size,
            0 <= a,
    ;
    assert((a + cell_size) / cell_size <= (SCALE - 1 + cell_size) / cell_size) by (nonlinear_arith)
        requires
            0 < cell_size,
            0 <= a <= SCALE - 1,
    ;
}

/// The hash is symmetric about the centre: mirroring a position that is not
/// on an axis mirrors its cell.
pub proof fn lemma_cell_coordinate_mirror(p: int, cell_size: int)
    requires
        0 < cell_size,
        p != 0,
    ensures
        spec_cell_coordinate(-p, cell_size) == -spec_cell_coordinate(p, cell_size),
{
}

/// Inside the screen each cell is a band of `cell_size` hundredths: the
/// cell numbered `±m` holds exactly the positions whose distance from the
/// centre lies in `[(m - 1) * cell_size, m * cell_size)`.
pub proof fn lemma_cell_coordinate_band(p: int, cell_size: int)
    requires
        0 < cell_size,
        -SCALE < p < SCALE,
    ensures
        ({
            let m = abs_int(spec_cell_coordinate(p, cell_size));
            (m - 1) * cell_size <= abs_int(p) < m * cell_size
        }),
{
    let a = abs_int(p);
    let m = (a + cell_size) / cell_size;
    assert((m - 1) * cell_size <= a < m * cell_size) by (nonlinear_arith)
        requires
            0 < cell_size,
            0 <= a,
            m == (a + cell_size) / cell_size,
    ;
}

/// Absolute value of a mathematical integer.
pub open spec fn abs_int(x: int) -> int {
    if x < 0 { -x } else { x }
}

/// `key` names one of the `4 * columns * rows` cells of a grid that spans
/// `columns` cells on each side of the vertical axis and `rows` cells on
/// each side of the horizontal axis.
pub open spec fn in_grid(key: (i32, i32), columns: int, rows: int) -> bool {
    &&& 1 <= abs_int(key.0 as int) <= columns
    &&& 1 <= abs_int(key.1 as int) <= rows
}

/// `key` is among the cells created before the step that creates the cells
/// `(±i, ±j)`: all cells of columns `1..i`, and of column `i` the rows `1..j`.
pub open spec fn in_grid_before(key: (i32, i32), i: int, j: int, rows: int) -> bool {
    let a = abs_int(key.0 as int);
    let b = abs_int(key.1 as int);
    &&& 1 <= a
    &&& 1 <= b <= rows
    &&& (a < i || (a == i && b < j))
}

/// `steps` cells never reach past twice the extent they were counted in.
proof fn lemma_steps_within(steps: int, count: int, cell_size: int, extent: int)
    requires
        0 < cell_size,
        0 <= extent,
        count == extent / cell_size,
        0 <= steps <= 2 * count,
    ensures
        0 <= steps * cell_size <= 2 * extent,
{
    assert(count * cell_size <= extent) by (nonlinear_arith)
        requires
            0 < cell_size,
            0 <= extent,
            count == extent / cell_size,
    ;
    assert(0 <= steps * cell_size <= 2 * (count * cell_size)) by (nonlinear_arith)
        requires
            0 < cell_size,
            0 <= steps <= 2 * count,
    ;
}

/// The points of the border lines of a grid, in hundredths: for each of the
/// `2 * columns` vertical lines a point on the top and one on the bottom edge,
/// for each of the `2 * rows` horizontal lines a point on the right and one on
/// the left edge, then the eight corners of the bounding box.
pub open spec fn border_point(columns: int, rows: int, cell_size: int, n: int) -> (int, int) {
    if n < 4 * columns {
        let x = -SCALE + (n / 2) * cell_size;
        if n % 2 == 0 { (x, SCALE as int) } else { (x, -SCALE) }
    } else if n < 4 * columns + 4 * rows {
        let y = -SCALE + ((n - 4 * columns) / 2) * cell_size;
        if n % 2 == 0 { (SCALE as int, y) } else { (-SCALE, y) }
    } else {
        let c = n - 4 * columns - 4 * rows;
        if c == 0 { (SCALE as int, SCALE as int) }
        else if c == 1 { (-SCALE, SCALE as int) }
        else if c == 2 { (SCALE as int, -SCALE) }
        else if c == 3 { (-SCALE, -SCALE) }
        else if c == 4 { (SCALE as int, -SCALE) }
        else if c == 5 { (SCALE as int, SCALE as int) }
        else if c == 6 { (SCALE as int, -SCALE) }
        else { (SCALE as int, SCALE as int) }
    }
}

/// The map from cell keys to their contents that parallel key and bin
/// vectors stand for: each key maps to the bin at its position.
pub open spec fn bins_map<T>(keys: Seq<(i32, i32)>, bins: Seq<Vec<T>>) -> Map<(i32, i32), Seq<T>> {
    Map::new(|k: (i32, i32)| keys.contains(k), |k: (i32, i32)| bins[keys.index_of(k)]@)
}

/// Parallel key and bin vectors form a map: one bin per key, no key twice.
pub open spec fn bins_wf<T>(keys: Seq<(i32, i32)>, bins: Seq<Vec<T>>) -> bool {
    &&& keys.len() == bins.len()
    &&& keys.no_duplicates()
}

proof fn lemma_index_of_unique(keys: Seq<(i32, i32)>, i: int)
    requires
        keys.no_duplicates(),
        0 <= i < keys.len(),
    ensures
        keys.contains(keys[i]),
        keys.index_of(keys[i]) == i,
{
    assert(keys[i] == keys[i]);
    assert(keys.contains(keys[i]));
}

/// Appending a fresh key with its bin inserts that key into the map.
proof fn lemma_bins_map_push<T>(keys: Seq<(i32, i32)>, bins: Seq<Vec<T>>, k: (i32, i32), v: Vec<T>)
    requires
        bins_wf(keys, bins),
        !keys.contains(k),
    ensures
        bins_wf(keys.push(k), bins.push(v)),
        bins_map(keys.push(k), bins.push(v)) == bins_map(keys, bins).insert(k, v@),
{
    let nk = keys.push(k);
    let nb = bins.push(v);
    assert forall|a: int, b: int| 0 <= a < nk.len() && 0 <= b < nk.len() && a != b implies nk[a]
        != nk[b] by {
        if a == keys.len() {
            assert(keys[b] == nk[b]);
        } else if b == keys.len() {
            assert(keys[a] == nk[a]);
        }
    }
    assert forall|key: (i32, i32)| #[trigger] nk.contains(key) implies bins_map(nk, nb)[key]
        == bins_map(keys, bins).insert(k, v@)[key] by {
        let idx = nk.index_of(key);
        lemma_index_of_unique(nk, idx);
        if key == k {
            lemma_index_of_unique(nk, keys.len() as int);
        } else {
            assert(idx < keys.len());
            assert(keys[idx] == key);
            lemma_index_of_unique(keys, idx);
        }
    }
    assert forall|key: (i32, i32)| nk.contains(key) <==> keys.contains(key) || key == k by {
        if keys.contains(key) {
            let idx = choose|idx: int| 0 <= idx < keys.len() && keys[idx] == key;
            assert(nk[idx] == key);
        }
        if key == k {
            assert(nk[keys.len() as int] == key);
        }
        if nk.contains(key) && key != k {
            let idx = choose|idx: int| 0 <= idx < nk.len() && nk[idx] == key;
            assert(keys[idx] == key);
        }
    }
    assert(bins_map(nk, nb) =~= bins_map(keys, bins).insert(k, v@));
}

/// Replacing the bin at a position replaces the value of that key.
proof fn lemma_bins_map_update<T>(keys: Seq<(i32, i32)>, bins: Seq<Vec<T>>, i: int, v: Vec<T>)
    requires
        bins_wf(keys, bins),
        0 <= i < keys.len(),
    ensures
        bins_wf(keys, bins.update(i, v)),
        bins_map(keys, bins.update(i, v)) == bins_map(keys, bins).insert(keys[i], v@),
{
    let nb = bins.update(i, v);
    lemma_index_of_unique(keys, i);
    assert forall|key: (i32, i32)| #[trigger] keys.contains(key) implies bins_map(keys, nb)[key]
        == bins_map(keys, bins).insert(keys[i], v@)[key] by {
        let idx = keys.index_of(key);
        lemma_index_of_unique(keys, idx);
    }
    assert(bins_map(keys, nb) =~= bins_map(keys, bins).insert(keys[i], v@));
}

/// Finds the position of `key` among `keys`.
fn find_key(keys: &Vec<(i32, i32)>, key: (i32, i32)) -> (r: Option<usize>)
    ensures
        match r {
            Some(i) => i < keys@.len() && keys@[i as int] == key,
            None => !keys@.contains(key),
        },
{
    let mut i: usize = 0;
    while i < keys.len()
        invariant
            i <= keys@.len(),
            forall|j: int| 0 <= j < i ==> keys@[j] != key,
        decreases keys@.len() - i,
    {
        let k = keys[i];
        if k.0 == key.0 && k.1 == key.1 {
            return Some(i);
        }
        i = i + 1;
    }
    None
}

/// Sets the bin of `key` to `bin`, adding the key when it is new.
fn insert_bin<T>(keys: &mut Vec<(i32, i32)>, bins: &mut Vec<Vec<T>>, key: (i32, i32), bin: Vec<T>)
    requires
        bins_wf(old(keys)@, old(bins)@),
    ensures
        bins_wf(final(keys)@, final(bins)@),
        bins_map(final(keys)@, final(bins)@) == bins_map(old(keys)@, old(bins)@).insert(key, bin@),
{
    match find_key(keys, key) {
        Some(i) => {
            proof {
                lemma_bins_map_update(keys@, bins@, i as int, bin);
            }
            bins.set(i, bin);
        },
        None => {
            proof {
                lemma_bins_map_push(keys@, bins@, key, bin);
            }
            keys.push(key);
            bins.push(bin);
        },
    }
}


/// Circles (or any items) bucketed by the screen cell they lie in.
///
/// Lengths are kept in hundredths of screen units (see [`SCALE`]). The cell
/// map is held as parallel vectors of keys and bins; [`SpatialHash::cell_map`]
/// is the map they stand for.
pub struct SpatialHash<T> {
    width: i32,
    height: i32,
    cell_size: i32,
    keys: Vec<(i32, i32)>,
    bins: Vec<Vec<T>>,
}

impl<T> SpatialHash<T> {
    /// The contents of the hash: for each cell key, the items in that cell.
    pub closed spec fn cell_map(&self) -> Map<(i32, i32), Seq<T>> {
        bins_map(self.keys@, self.bins@)
    }

    /// Half the width of the hashed area, in hundredths.
    pub closed spec fn width(&self) -> int {
        self.width as int
    }

    /// Half the height of the hashed area, in hundredths.
    pub closed spec fn height(&self) -> int {
        self.height as int
    }

    /// The side of one cell, in hundredths.
    pub closed spec fn cell_size(&self) -> int {
        self.cell_size as int
    }

    /// Cells on each side of the vertical axis.
    pub open spec fn columns(&self) -> int {
        self.width() / self.cell_size()
    }

    /// Cells on each side of the horizontal axis.
    pub open spec fn rows(&self) -> int {
        self.height() / self.cell_size()
    }

    /// The cell that a scaled position falls into.
    pub open spec fn spec_hash_id(&self, pos_x_scaled: int, pos_y_scaled: int) -> (i32, i32) {
        (
            spec_cell_coordinate(pos_x_scaled, self.cell_size()) as i32,
            spec_cell_coordinate(pos_y_scaled, self.cell_size()) as i32,
        )
    }

    /// The hash is well formed: its dimensions are positive and at most the
    /// screen, and its cell map holds one bin per key.
    pub closed spec fn wf(&self) -> bool {
        &&& 0 < self.width <= SCALE
        &&& 0 < self.height <= SCALE
        &&& 0 < self.cell_size <= SCALE
        &&& bins_wf(self.keys@, self.bins@)
    }

    /// A hash over the whole screen with cells of half a screen unit and an
    /// empty cell map (call [`SpatialHash::init_hashmap`] to create the cells).
    pub fn new() -> (s: SpatialHash<T>)
        ensures
            s.wf(),
            s.width() == SCALE,
            s.height() == SCALE,
            s.cell_size() == SCALE / 2,
            s.cell_map() == Map::<(i32, i32), Seq<T>>::empty(),
    {
        let s = SpatialHash { width: SCALE, height: SCALE, cell_size: 50, keys: Vec::new(), bins: Vec::new() };
        assert(s.cell_map() =~= Map::<(i32, i32), Seq<T>>::empty());
        s
    }

    /// Replaces the cell map by one empty bin for each of the
    /// `4 * columns * rows` cells `(±i, ±j)`, `1 <= i <= columns`,
    /// `1 <= j <= rows`.
    pub fn init_hashmap(&mut self)
        requires
            old(self).wf(),
        ensures
            final(self).wf(),
            final(self).width() == old(self).width(),
            final(self).height() == old(self).height(),
            final(self).cell_size() == old(self).cell_size(),
            forall|k: (i32, i32)| #[trigger]
                final(self).cell_map().dom().contains(k) <==> in_grid(k, final(self).columns(), final(self).rows()),
            forall|k: (i32, i32)| #[trigger]
                final(self).cell_map().dom().contains(k) ==> final(self).cell_map()[k] == Seq::<T>::empty(),
    {
        let mut keys: Vec<(i32, i32)> = Vec::new();
        let mut bins: Vec<Vec<T>> = Vec::new();
        let cols: i32 = self.width / self.cell_size;
        let rows: i32 = self.height / self.cell_size;
        assert(bins_map(keys@, bins@) =~= Map::<(i32, i32), Seq<T>>::empty());
        let mut i: i32 = 1;
        while i < cols + 1
            invariant
                1 <= i <= cols + 1,
                0 <= cols <= SCALE,
                0 <= rows <= SCALE,
                bins_wf(keys@, bins@),
                forall|k: (i32, i32)| #[trigger]
                    bins_map(keys@, bins@).dom().contains(k) <==> in_grid_before(k, i as int, 1, rows as int),
                forall|k: (i32, i32)| #[trigger]
                    bins_map(keys@, bins@).dom().contains(k) ==> bins_map(keys@, bins@)[k] == Seq::<T>::empty(),
            decreases cols + 1 - i,
        {
            let mut j: i32 = 1;
            while j < rows + 1
                invariant
                    1 <= i <= cols,
                    1 <= j <= rows + 1,
                    0 <= cols <= SCALE,
                    0 <= rows <= SCALE,
                    bins_wf(keys@, bins@),
                    forall|k: (i32, i32)| #[trigger]
                        bins_map(keys@, bins@).dom().contains(k) <==> in_grid_before(k, i as int, j as int, rows as int),
                    forall|k: (i32, i32)| #[trigger]
                        bins_map(keys@, bins@).dom().contains(k) ==> bins_map(keys@, bins@)[k] == Seq::<T>::empty(),
                decreases rows + 1 - j,
            {
                insert_bin(&mut keys, &mut bins, (i, j), Vec::new());
                insert_bin(&mut keys, &mut bins, (i, -j), Vec::new());
                insert_bin(&mut keys, &mut bins, (-i, j), Vec::new());
                insert_bin(&mut keys, &mut bins, (-i, -j), Vec::new());
                j = j + 1;
            }
            i = i + 1;
        }
        self.keys = keys;
        self.bins = bins;
    }

    /// The points of the lines that outline the cells (see [`border_point`]),
    /// in hundredths of screen units.
    pub fn draw_borders(&self) -> (shape: Vec<(i32, i32)>)
        requires
            self.wf(),
        ensures
            shape@.len() == 4 * self.columns() + 4 * self.rows() + 8,
            forall|n: int| 0 <= n < shape@.len() ==>
                (#[trigger] shape@[n]).0 as int == border_point(self.columns(), self.rows(), self.cell_size(), n).0
                && shape@[n].1 as int == border_point(self.columns(), self.rows(), self.cell_size(), n).1,
    {
        let mut shape: Vec<(i32, i32)> = Vec::new();
        let cols: i32 = self.width / self.cell_size;
        let rows: i32 = self.height / self.cell_size;
        let ghost cs = self.cell_size as int;
        assert(0 * cs == 0);
        // the vertical lines
        let mut x_vert: i32 = -SCALE;
        for x in 0..2 * cols
            invariant
                self.wf(),
                cols == self.columns(),
                rows == self.rows(),
                cs == self.cell_size(),
                x_vert as int == -(SCALE as int) + (x as int) * cs,
                shape@.len() == 2 * x,
                forall|n: int| 0 <= n < shape@.len() ==>
                    (#[trigger] shape@[n]).0 as int == border_point(cols as int, rows as int, cs, n).0
                    && shape@[n].1 as int == border_point(cols as int, rows as int, cs, n).1,
        {
            proof {
                lemma_steps_within(x + 1, cols as int, cs, self.width as int);
            }
            shape.push((x_vert, SCALE));
            shape.push((x_vert, -SCALE));
            assert((2 * x) / 2 == x && (2 * x + 1) / 2 == x && (2 * x) % 2 == 0 && (2 * x + 1) % 2 == 1);
            assert((x as int + 1) * cs == (x as int) * cs + cs) by (nonlinear_arith);
            x_vert = x_vert + self.cell_size;
        }
        // the horizontal lines
        let mut y_vert: i32 = -SCALE;
        for y in 0..2 * rows
            invariant
                self.wf(),
                cols == self.columns(),
                rows == self.rows(),
                cs == self.cell_size(),
                y_vert as int == -(SCALE as int) + (y as int) * cs,
                shape@.len() == 4 * cols + 2 * y,
                forall|n: int| 0 <= n < shape@.len() ==>
                    (#[trigger] shape@[n]).0 as int == border_point(cols as int, rows as int, cs, n).0
                    && shape@[n].1 as int == border_point(cols as int, rows as int, cs, n).1,
        {
            proof {
                lemma_steps_within(y + 1, rows as int, cs, self.height as int);
            }
            shape.push((SCALE, y_vert));
            shape.push((-SCALE, y_vert));
            assert((4 * cols + 2 * y - 4 * cols) / 2 == y && (4 * cols + 2 * y + 1 - 4 * cols) / 2 == y
                && (4 * cols + 2 * y) % 2 == 0 && (4 * cols + 2 * y + 1) % 2 == 1);
            assert((y as int + 1) * cs == (y as int) * cs + cs) by (nonlinear_arith);
            y_vert = y_vert + self.cell_size;
        }
        // the bounding box
        shape.push((SCALE, SCALE));
        shape.push((-SCALE, SCALE));
        shape.push((SCALE, -SCALE));
        shape.push((-SCALE, -SCALE));
        shape.push((SCALE, -SCALE));
        shape.push((SCALE, SCALE));
        shape.push((SCALE, -SCALE));
        shape.push((SCALE, SCALE));
        shape
    }

    /// On a hash over the whole screen whose cell size divides the screen
    /// (such as one made by [`SpatialHash::new`]), once [`SpatialHash::init_hashmap`]
    /// has created the grid every position has its cell in the map, so
    /// [`SpatialHash::add`] always finds its bin.
    pub proof fn lemma_every_position_has_a_cell(&self, pos_x_scaled: int, pos_y_scaled: int)
        requires
            self.wf(),
            self.width() == SCALE,
            self.height() == SCALE,
            (SCALE as int) % self.cell_size() == 0,
            forall|k: (i32, i32)| #[trigger]
                self.cell_map().dom().contains(k) <==> in_grid(k, self.columns(), self.rows()),
        ensures
            self.cell_map().dom().contains(self.spec_hash_id(pos_x_scaled, pos_y_scaled)),
    {
        let cs = self.cell_size();
        lemma_cell_coordinate_range(pos_x_scaled, cs);
        lemma_cell_coordinate_range(pos_y_scaled, cs);
        assert((SCALE - 1 + cs) / cs == (SCALE as int) / cs) by (nonlinear_arith)
            requires
                0 < cs <= SCALE,
                (SCALE as int) % cs == 0,
        ;
        let key = self.spec_hash_id(pos_x_scaled, pos_y_scaled);
        assert(in_grid(key, self.columns(), self.rows()));
    }

    /// The cell of a position given in hundredths of screen units.
    pub fn hash_id(&self, pos_x_scaled: i32, pos_y_scaled: i32) -> (key: (i32, i32))
        requires
            self.wf(),
            pos_x_scaled > i32::MIN,
            pos_y_scaled > i32::MIN,
        ensures
            key == self.spec_hash_id(pos_x_scaled as int, pos_y_scaled as int),
            key.0 as int == spec_cell_coordinate(pos_x_scaled as int, self.cell_size()),
            key.1 as int == spec_cell_coordinate(pos_y_scaled as int, self.cell_size()),
    {
        let x = cell_coordinate(pos_x_scaled, self.cell_size);
        let y = cell_coordinate(pos_y_scaled, self.cell_size);
        (x, y)
    }

    /// Puts `item` into the bin of the cell of the position. Returns `false`,
    /// and leaves the hash as it was, when the cell map has no such cell.
    pub fn add(&mut self, pos_x_scaled: i32, pos_y_scaled: i32, item: T) -> (inserted: bool)
        requires
            old(self).wf(),
            pos_x_scaled > i32::MIN,
            pos_y_scaled > i32::MIN,
        ensures
            final(self).wf(),
            final(self).width() == old(self).width(),
            final(self).height() == old(self).height(),
            final(self).cell_size() == old(self).cell_size(),
            inserted == old(self).cell_map().dom().contains(
                old(self).spec_hash_id(pos_x_scaled as int, pos_y_scaled as int),
            ),
            inserted ==> final(self).cell_map() == old(self).cell_map().insert(
                old(self).spec_hash_id(pos_x_scaled as int, pos_y_scaled as int),
                old(self).cell_map()[old(self).spec_hash_id(pos_x_scaled as int, pos_y_scaled as int)].push(item),
            ),
            !inserted ==> final(self).cell_map() == old(self).cell_map(),
    {
        let key = self.hash_id(pos_x_scaled, pos_y_scaled);
        match find_key(&self.keys, key) {
            Some(i) => {
                let ghost old_bins = self.bins@;
                proof {
                    lemma_index_of_unique(self.keys@, i as int);
                }
                self.bins[i].push(item);
                proof {
                    assert(self.bins@ == old_bins.update(i as int, self.bins@[i as int]));
                    lemma_bins_map_update(self.keys@, old_bins, i as int, self.bins@[i as int]);
                }
                true
            },
            None => false,
        }
    }

    /// Empties every bin; the cells stay.
    pub fn reset(&mut self)
        requires
            old(self).wf(),
        ensures
            final(self).wf(),
            final(self).width() == old(self).width(),
            final(self).height() == old(self).height(),
            final(self).cell_size() == old(self).cell_size(),
            final(self).cell_map().dom() == old(self).cell_map().dom(),
            forall|k: (i32, i32)| #[trigger]
                final(self).cell_map().dom().contains(k) ==> final(self).cell_map()[k] == Seq::<T>::empty(),
    {
        let n = self.bins.len();
        for i in 0..n
            invariant
                self.keys@ == old(self).keys@,
                self.width == old(self).width,
                self.height == old(self).height,
                self.cell_size == old(self).cell_size,
                self.bins@.len() == n,
                old(self).wf(),
                forall|j: int| 0 <= j < i ==> (#[trigger] self.bins@[j])@ == Seq::<T>::empty(),
        {
            self.bins[i].clear();
        }
        proof {
            assert forall|k: (i32, i32)| #[trigger]
                self.cell_map().dom().contains(k) implies self.cell_map()[k] == Seq::<T>::empty() by {
                let idx = self.keys@.index_of(k);
                lemma_index_of_unique(self.keys@, idx);
            }
            assert(self.cell_map().dom() =~= old(self).cell_map().dom());
        }
    }

    /// The items in the cell `key`, or `None` when the map has no such cell.
    pub fn get(&self, key: (i32, i32)) -> (r: Option<&Vec<T>>)
        requires
            self.wf(),
        ensures
            r is Some <==> self.cell_map().dom().contains(key),
            r matches Some(v) ==> v@ == self.cell_map()[key],
    {
        match find_key(&self.keys, key) {
            Some(i) => {
                proof {
                    lemma_index_of_unique(self.keys@, i as int);
                }
                Some(&self.bins[i])
            },
            None => None,
        }
    }

    /// The keys of all cells, each once.
    pub fn cell_keys(&self) -> (r: &Vec<(i32, i32)>)
        requires
            self.wf(),
        ensures
            r@.no_duplicates(),
            r@.to_set() == self.cell_map().dom(),
    {
        assert(self.keys@.to_set() =~= self.cell_map().dom());
        &self.keys
    }
}

} // verus!
