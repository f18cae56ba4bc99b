use vstd::prelude::*;

verus! {

/// Identifier of an entity of the game world (the bits of its handle).
pub type EntityId = u64;

/// The cell index of column `x` and row `y` on a grid `width` cells wide.
pub open spec fn cell_index(width: u32, x: u32, y: u32) -> int {
    y * width + x
}

/// A cell on the grid has an index below `width * height`.
pub proof fn lemma_cell_index_in_range(width: u32, height: u32, x: u32, y: u32)
    requires
        in_bounds(width, height, x, y),
    ensures
        0 <= cell_index(width, x, y) < width * height,
{
    assert(y * width + x < width * height) by (nonlinear_arith)
        requires
            x < width,
            y < height,
    ;
}

/// Whether `(x, y)` lies on a `width` by `height` grid.
pub open spec fn in_bounds(width: u32, height: u32, x: u32, y: u32) -> bool {
    x < width && y < height
}

/// The cells after one occurrence of `entity` is put in cell `idx`: it is
/// appended there unless that cell already holds it.
pub open spec fn cells_with(cells: Seq<Seq<EntityId>>, idx: int, entity: EntityId) -> Seq<
    Seq<EntityId>,
> {
    if cells[idx].contains(entity) {
        cells
    } else {
        cells.update(idx, cells[idx].push(entity))
    }
}

/// The predicate "is not `entity`".
pub open spec fn other_than(entity: EntityId) -> spec_fn(EntityId) -> bool {
    |e: EntityId| e != entity
}

/// The cells after `entity` is taken out of cell `idx`, the others keeping their order.
pub open spec fn cells_without(cells: Seq<Seq<EntityId>>, idx: int, entity: EntityId) -> Seq<
    Seq<EntityId>,
> {
    cells.update(idx, cells[idx].filter(other_than(entity)))
}

/// The cells after resizing to `count`: the first cells are kept, new ones are empty.
pub open spec fn resized_cells(cells: Seq<Seq<EntityId>>, count: nat) -> Seq<Seq<EntityId>> {
    Seq::new(count, |i: int| if i < cells.len() { cells[i] } else { Seq::<EntityId>::empty() })
}

/// A grid of cells, each holding the entities standing on it, in the order
/// they arrived and without repetition.
pub struct Grid {
    cells: Vec<Vec<EntityId>>,
    width: u32,
    height: u32,
}

impl Grid {
    /// Side length of a cell in world units.
    pub const CELL_SIZE_UNITS: u32 = 32;

    /// The grid has `width * height` cells, none holding an entity twice.
    pub closed spec fn wf(self) -> bool {
        &&& self.width * self.height <= u32::MAX
        &&& self.cells@.len() == self.width * self.height
        &&& forall|i: int| 0 <= i < self.cells@.len() ==> (#[trigger] self.cells@[i])@.no_duplicates()
    }

    /// The contents of all cells, row by row.
    pub closed spec fn cells(self) -> Seq<Seq<EntityId>> {
        self.cells@.map_values(|c: Vec<EntityId>| c@)
    }

    pub closed spec fn spec_width(self) -> u32 {
        self.width
    }

    pub closed spec fn spec_height(self) -> u32 {
        self.height
    }

    /// What `wf` says, for callers outside this module.
    pub proof fn lemma_wf(self)
        requires
            self.wf(),
        ensures
            self.spec_width() * self.spec_height() <= u32::MAX,
            self.cells().len() == self.spec_width() * self.spec_height(),
            forall|i: int| 0 <= i < self.cells().len() ==> (#[trigger] self.cells()[i]).no_duplicates(),
    {
        assert forall|i: int| 0 <= i < self.cells().len() implies (#[trigger] self.cells()[i]).no_duplicates() by {
            assert(self.cells()[i] == self.cells@[i]@);
        }
    }

    /// An empty grid of `width` by `height` cells.
    pub fn new(width: u32, height: u32) -> (r: Grid)
        requires
            width * height <= u32::MAX,
        ensures
            r.wf(),
            r.spec_width() == width,
            r.spec_height() == height,
            r.cells() == Seq::new((width * height) as nat, |i: int| Seq::<EntityId>::empty()),
    {
        let capacity: u32 = width * height;
        let mut cells: Vec<Vec<EntityId>> = Vec::new();
        let mut i: u32 = 0;
        while i < capacity
            invariant
                i <= capacity,
                cells@.len() == i,
                forall|j: int| 0 <= j < i ==> (#[trigger] cells@[j])@ == Seq::<EntityId>::empty(),
            decreases capacity - i,
        {
            cells.push(Vec::new());
            i = i + 1;
        }
        let r = Grid { cells, width, height };
        assert(r.cells() =~= Seq::new((width * height) as nat, |i: int| Seq::<EntityId>::empty()));
        r
    }

    /// Changes the dimensions; the grid then holds exactly
    /// `new_width * new_height` cells: the first cells keep their entities,
    /// the other cells are dropped or added empty. The cell count is taken
    /// from the cells themselves, not from the storage's capacity, so that
    /// shrinking also leaves one cell per position (a shrunk grid never
    /// lacks the cells its new size promises).
    pub fn resize(&mut self, new_width: u32, new_height: u32)
        requires
            old(self).wf(),
            new_width * new_height <= u32::MAX,
        ensures
            final(self).wf(),
            final(self).spec_width() == new_width,
            final(self).spec_height() == new_height,
            final(self).cells() == resized_cells(old(self).cells(), (new_width * new_height) as nat),
    {
        let new_capacity: usize = (new_width * new_height) as usize;
        let old_capacity: usize = self.cells.len();
        let ghost old_cells = self.cells();
        if new_capacity == old_capacity {
            self.width = new_width;
            self.height = new_height;
            assert(self.cells() =~= resized_cells(old_cells, (new_width * new_height) as nat));
            return;
        }
        let mut cells: Vec<Vec<EntityId>> = Vec::new();
        std::mem::swap(&mut cells, &mut self.cells);
        if new_capacity > old_capacity {
            let mut i: usize = old_capacity;
            while i < new_capacity
                invariant
                    old_capacity <= i <= new_capacity,
                    cells@.len() == i,
                    forall|j: int| 0 <= j < old_capacity ==> (#[trigger] cells@[j])@ == old_cells[j],
                    forall|j: int|
                        old_capacity <= j < i ==> (#[trigger] cells@[j])@ == Seq::<EntityId>::empty(),
                    old_cells.len() == old_capacity,
                decreases new_capacity - i,
            {
                cells.push(Vec::new());
                i = i + 1;
            }
        } else {
            cells.truncate(new_capacity);
        }
        assert forall|j: int| 0 <= j < cells@.len() implies (#[trigger] cells@[j])@.no_duplicates() by {
            if j < old_capacity {
                assert(cells@[j]@ == old_cells[j]);
                assert(old_cells[j] == old(self).cells@[j]@);
            }
        }
        self.cells = cells;
        self.width = new_width;
        self.height = new_height;
        assert(self.cells() =~= resized_cells(old_cells, (new_width * new_height) as nat));
    }

    pub fn width(&self) -> (r: u32)
        ensures
            r == self.spec_width(),
    {
        self.width
    }

    pub fn height(&self) -> (r: u32)
        ensures
            r == self.spec_height(),
    {
        self.height
    }

    /// The index of cell `(x, y)`, or `None` when it lies off the grid.
    fn index(&self, x: u32, y: u32) -> (r: Option<usize>)
        requires
            self.wf(),
        ensures
            in_bounds(self.spec_width(), self.spec_height(), x, y) ==> (r matches Some(i) && i
                == cell_index(self.spec_width(), x, y)),
            !in_bounds(self.spec_width(), self.spec_height(), x, y) ==> r is None,
            r matches Some(i) ==> i < self.cells().len(),
    {
        if x >= self.width || y >= self.height {
            return None;
        }
        proof {
            assert(y * self.width + x < self.width * self.height) by (nonlinear_arith)
                requires
                    x < self.width,
                    y < self.height,
            ;
        }
        Some((y * self.width + x) as usize)
    }

    /// The entities on cell `(x, y)`, or `None` when it lies off the grid.
    pub fn get_cell(&self, x: u32, y: u32) -> (r: Option<&[EntityId]>)
        requires
            self.wf(),
        ensures
            in_bounds(self.spec_width(), self.spec_height(), x, y) ==> (r matches Some(s) && s@
                == self.cells()[cell_index(self.spec_width(), x, y)]),
            !in_bounds(self.spec_width(), self.spec_height(), x, y) ==> r is None,
    {
        match self.index(x, y) {
            Some(idx) => {
                assert(self.cells()[idx as int] == self.cells@[idx as int]@);
                Some(self.cells[idx].as_slice())
            },
            None => None,
        }
    }

    /// A copy of the entities on cell `(x, y)`, or `None` when it lies off the grid.
    pub fn get_cell_owned(&self, x: u32, y: u32) -> (r: Option<Vec<EntityId>>)
        requires
            self.wf(),
        ensures
            in_bounds(self.spec_width(), self.spec_height(), x, y) ==> (r matches Some(v) && v@
                == self.cells()[cell_index(self.spec_width(), x, y)]),
            !in_bounds(self.spec_width(), self.spec_height(), x, y) ==> r is None,
    {
        match self.index(x, y) {
            Some(idx) => {
                assert(self.cells()[idx as int] == self.cells@[idx as int]@);
                Some(self.cells[idx].clone())
            },
            None => None,
        }
    }

    /// Puts `entity` on cell `(x, y)` unless it is already there; does
    /// nothing off the grid.
    pub fn add_to_cell(&mut self, entity: EntityId, x: u32, y: u32)
        requires
            old(self).wf(),
        ensures
            final(self).wf(),
            final(self).spec_width() == old(self).spec_width(),
            final(self).spec_height() == old(self).spec_height(),
            in_bounds(old(self).spec_width(), old(self).spec_height(), x, y) ==> final(self).cells()
                == cells_with(
                old(self).cells(),
                cell_index(old(self).spec_width(), x, y),
                entity,
            ),
            !in_bounds(old(self).spec_width(), old(self).spec_height(), x, y) ==> final(self).cells() == old(self).cells(),
    {
        if let Some(idx) = self.index(x, y) {
            let ghost old_cells = self.cells();
            let mut cell: Vec<EntityId> = Vec::new();
            std::mem::swap(&mut cell, &mut self.cells[idx]);
            assert(cell@ == old_cells[idx as int]);
            let present = contains_entity(&cell, entity);
            if !present {
                cell.push(entity);
                proof {
                    assert forall|a: int, b: int|
                        0 <= a < cell@.len() && 0 <= b < cell@.len() && a != b implies cell@[a]
                        != cell@[b] by {
                        assert(old(self).cells@[idx as int]@.no_duplicates());
                    }
                }
            }
            self.cells.set(idx, cell);
            assert(self.cells() =~= cells_with(old_cells, idx as int, entity));
        }
    }

    /// Takes `entity` off cell `(x, y)`; does nothing off the grid.
    pub fn remove_from_cell(&mut self, entity: EntityId, x: u32, y: u32)
        requires
            old(self).wf(),
        ensures
            final(self).wf(),
            final(self).spec_width() == old(self).spec_width(),
            final(self).spec_height() == old(self).spec_height(),
            in_bounds(old(self).spec_width(), old(self).spec_height(), x, y) ==> final(self).cells()
                == cells_without(
                old(self).cells(),
                cell_index(old(self).spec_width(), x, y),
                entity,
            ),
            !in_bounds(old(self).spec_width(), old(self).spec_height(), x, y) ==> final(self).cells() == old(self).cells(),
    {
        if let Some(idx) = self.index(x, y) {
            let ghost old_cells = self.cells();
            let mut cell: Vec<EntityId> = Vec::new();
            std::mem::swap(&mut cell, &mut self.cells[idx]);
            assert(cell@ == old_cells[idx as int]);
            let kept = without_entity(&cell, entity);
            proof {
                let s = old_cells[idx as int];
                assert(s.no_duplicates()) by {
                    assert(old(self).cells@[idx as int]@ == s);
                }
                lemma_filter_keeps_no_duplicates(s, entity);
            }
            self.cells.set(idx, kept);
            assert(self.cells() =~= cells_without(old_cells, idx as int, entity));
        }
    }
}

/// Whether `cell` holds `entity`.
pub fn contains_entity(cell: &Vec<EntityId>, entity: EntityId) -> (r: bool)
    ensures
        r == cell@.contains(entity),
{
    let mut i: usize = 0;
    while i < cell.len()
        invariant
            i <= cell@.len(),
            forall|j: int| 0 <= j < i ==> cell@[j] != entity,
        decreases cell@.len() - i,
    {
        if cell[i] == entity {
            assert(cell@[i as int] == entity);
            return true;
        }
        i = i + 1;
    }
    false
}

/// The entities of `cell` other than `entity`, in order.
pub fn without_entity(cell: &Vec<EntityId>, entity: EntityId) -> (r: Vec<EntityId>)
    ensures
        r@ == cell@.filter(other_than(entity)),
{
    let mut kept: Vec<EntityId> = Vec::new();
    let mut i: usize = 0;
    while i < cell.len()
        invariant
            i <= cell@.len(),
            kept@ == cell@.take(i as int).filter(other_than(entity)),
        decreases cell@.len() - i,
    {
        proof {
            reveal_with_fuel(Seq::<_>::filter, 1);
            assert(cell@.take(i + 1).drop_last() =~= cell@.take(i as int));
        }
        if cell[i] != entity {
            kept.push(cell[i]);
        }
        i = i + 1;
    }
    assert(cell@.take(cell@.len() as int) =~= cell@);
    kept
}

/// Filtering a sequence without repetition keeps it without repetition.
pub proof fn lemma_filter_keeps_no_duplicates(s: Seq<EntityId>, entity: EntityId)
    requires
        s.no_duplicates(),
    ensures
        s.filter(other_than(entity)).no_duplicates(),
    decreases s.len(),
{
    reveal_with_fuel(Seq::<_>::filter, 1);
    if s.len() > 0 {
        let init = s.drop_last();
        assert(init.no_duplicates());
        lemma_filter_keeps_no_duplicates(init, entity);
        let f = s.filter(other_than(entity));
        let fi = init.filter(other_than(entity));
        assert(s.drop_last() == init);
        if s.last() != entity {
            assert(f == fi.push(s.last()));
            assert(!fi.contains(s.last())) by {
                if fi.contains(s.last()) {
                    init.lemma_filter_contains_rev(other_than(entity), s.last());
                    let k = choose|k: int| 0 <= k < init.len() && init[k] == s.last();
                    assert(s[k] == s[s.len() - 1]);
                }
            }
        } else {
            assert(f == fi);
        }
    }
}

/// Filtering out an entity that a sequence does not hold leaves it as it is.
pub proof fn lemma_filter_absent(s: Seq<EntityId>, entity: EntityId)
    requires
        !s.contains(entity),
    ensures
        s.filter(other_than(entity)) == s,
    decreases s.len(),
{
    reveal_with_fuel(Seq::<_>::filter, 1);
    if s.len() > 0 {
        let init = s.drop_last();
        assert(!init.contains(entity)) by {
            if init.contains(entity) {
                let k = choose|k: int| 0 <= k < init.len() && init[k] == entity;
                assert(s[k] == entity);
            }
        }
        lemma_filter_absent(init, entity);
        assert(s[s.len() - 1] != entity);
        assert(s.filter(other_than(entity)) =~= s);
    } else {
        assert(s.filter(other_than(entity)) =~= s);
    }
}

/// Taking an entity off a cell undoes putting it there, when the cell did
/// not hold it before.
pub proof fn law_take_off_undoes_put(cells: Seq<Seq<EntityId>>, idx: int, entity: EntityId)
    requires
        0 <= idx < cells.len(),
        !cells[idx].contains(entity),
    ensures
        cells_without(cells_with(cells, idx, entity), idx, entity) == cells,
{
    let once = cells_with(cells, idx, entity);
    assert(once == cells.update(idx, cells[idx].push(entity)));
    assert(once[idx] == cells[idx].push(entity));
    cells[idx].lemma_filter_push(entity, other_than(entity));
    assert(!(other_than(entity))(entity));
    lemma_filter_absent(cells[idx], entity);
    assert(once[idx].filter(other_than(entity)) == cells[idx]);
    assert(cells_without(once, idx, entity) =~= cells);
}

/// Putting an entity on a cell twice is the same as putting it there once.
pub proof fn law_put_is_idempotent(cells: Seq<Seq<EntityId>>, idx: int, entity: EntityId)
    requires
        0 <= idx < cells.len(),
    ensures
        cells_with(cells_with(cells, idx, entity), idx, entity) == cells_with(cells, idx, entity),
        cells_with(cells, idx, entity)[idx].contains(entity),
{
    if !cells[idx].contains(entity) {
        let once = cells_with(cells, idx, entity);
        assert(once[idx][once[idx].len() - 1] == entity);
    }
}

/// After an entity is taken off a cell, the cell does not hold it and every
/// other cell is unchanged.
pub proof fn law_take_off_leaves_no_trace(cells: Seq<Seq<EntityId>>, idx: int, entity: EntityId)
    requires
        0 <= idx < cells.len(),
    ensures
        !cells_without(cells, idx, entity)[idx].contains(entity),
        cells_without(cells, idx, entity).len() == cells.len(),
        forall|j: int| 0 <= j < cells.len() && j != idx ==> #[trigger] cells_without(cells, idx, entity)[j] == cells[j],
{
    let kept = cells[idx].filter(other_than(entity));
    if kept.contains(entity) {
        let k = choose|k: int| 0 <= k < kept.len() && kept[k] == entity;
        cells[idx].lemma_filter_pred(other_than(entity), k);
    }
}

/// Two cells of a grid share an index only when they are the same cell.
pub proof fn lemma_cell_index_injective(width: u32, height: u32, x1: u32, y1: u32, x2: u32, y2: u32)
    requires
        in_bounds(width, height, x1, y1),
        in_bounds(width, height, x2, y2),
        cell_index(width, x1, y1) == cell_index(width, x2, y2),
    ensures
        x1 == x2,
        y1 == y2,
{
    let w = width as int;
    assert(y1 == y2) by (nonlinear_arith)
        requires
            0 <= x1 < w,
            0 <= x2 < w,
            0 <= y1,
            0 <= y2,
            y1 * w + x1 == y2 * w + x2,
    {
        if y1 < y2 {
            assert(y2 * w >= (y1 + 1) * w);
        } else if y2 < y1 {
            assert(y1 * w >= (y2 + 1) * w);
        }
    }
}

} // verus!
