//! The grid of columns: one optional trail per column, stepped, respawned and
//! rasterised once per tick.

use crate::counter::{CounterState, LimitedCounter};
use crate::random::{next_word, sample_between, spawn_hit, DRAW_OUTCOMES};
use crate::strain::{Alive, Strain, Trail};
use rand::rngs::StdRng;
use std::ops::Range;
use vstd::prelude::*;

verus! {

/// Mathematical state of a matrix: its size, what each column holds, how new
/// trails are drawn, and the cells last rasterised.
pub struct Rain<T> {
    pub height: int,
    pub width: int,
    pub strains: Seq<Option<Trail>>,
    pub spawn_chance: u64,
    pub start_interval: Range<u16>,
    pub len_interval: Range<u16>,
    pub speed_interval: Range<u16>,
    pub map: Seq<Seq<T>>,
}

impl<T> Rain<T> {
    /// One slot per column, every trail in a valid state, `height` rows of
    /// `width` cells, and intervals from which a trail can be drawn: none of
    /// them empty, no length or speed of zero.
    pub open spec fn wf(self) -> bool {
        &&& 0 <= self.height <= u16::MAX
        &&& 0 <= self.width <= u16::MAX
        &&& self.strains.len() == self.width
        &&& forall|col: int|
            0 <= col < self.width ==> ((#[trigger] self.strains[col]) matches Some(trail)
                ==> trail.wf())
        &&& self.map.len() == self.height
        &&& forall|row: int| 0 <= row < self.height ==> (#[trigger] self.map[row]).len() == self.width
        &&& self.start_interval.start < self.start_interval.end
        &&& 0 < self.len_interval.start < self.len_interval.end
        &&& 0 < self.speed_interval.start < self.speed_interval.end
    }

    /// Whether `trail` is one that a spawn can bring: fresh, with start,
    /// length and speed limit taken from the three intervals.
    pub open spec fn births(self, trail: Trail) -> bool {
        &&& self.start_interval.start <= trail.start < self.start_interval.end
        &&& self.len_interval.start <= trail.len < self.len_interval.end
        &&& self.speed_interval.start <= trail.speed.limit < self.speed_interval.end
        &&& trail == Trail::fresh(
            trail.start,
            trail.len,
            CounterState { count: 0, limit: trail.speed.limit },
        )
    }

    /// What a free column may hold once a spawn was tried on it: a trail
    /// that a spawn can bring, unless the chance is zero, or nothing, unless
    /// the chance is certain.
    pub open spec fn refills(self, slot: Option<Trail>) -> bool {
        match slot {
            Some(trail) => self.births(trail) && self.spawn_chance > 0,
            None => self.spawn_chance < DRAW_OUTCOMES,
        }
    }

    /// How stepping the trails takes a column from `before` to `after`: a
    /// trail that survives its step is kept in its new state, one that dies
    /// makes room for a spawn, and an empty column stays empty.
    pub open spec fn stepped(self, before: Option<Trail>, after: Option<Trail>) -> bool {
        match before {
            Some(trail) => if trail.survives(self.height) {
                after == Some(trail.step(self.height))
            } else {
                self.refills(after)
            },
            None => after is None,
        }
    }

    /// How spawning takes a column from `before` to `after`: a trail stays
    /// as it is, and a spawn is tried on an empty column.
    pub open spec fn filled(self, before: Option<Trail>, after: Option<Trail>) -> bool {
        match before {
            Some(_) => after == before,
            None => self.refills(after),
        }
    }

    /// How a whole tick takes a column from `before` to `after`: a trail that
    /// survives its step is kept in its new state, and every other column
    /// ends as a spawn leaves it.
    pub open spec fn ticked(self, before: Option<Trail>, after: Option<Trail>) -> bool {
        match before {
            Some(trail) if trail.survives(self.height) => after == Some(trail.step(self.height)),
            _ => self.refills(after),
        }
    }

    /// Whether every column holds a trail, so that no column is free for a
    /// spawn.
    pub open spec fn all_held(self) -> bool {
        forall|col: int| 0 <= col < self.width ==> (#[trigger] self.strains[col]) is Some
    }

    /// Whether every trail that a column holds survives its next step, so
    /// that no step makes room for a spawn.
    pub open spec fn none_dies(self) -> bool {
        forall|col: int|
            0 <= col < self.width ==> ((#[trigger] self.strains[col]) matches Some(trail)
                ==> trail.survives(self.height))
    }

    /// The state brought to `width` columns and `height` rows, the map
    /// apart: the columns that are kept hold what they held, the new ones are
    /// empty.
    pub open spec fn sized(self, width: int, height: int) -> Rain<T> {
        Rain { height, width, strains: resized_slots(self.strains, width), ..self }
    }

    /// Whether `other` differs from `self` in nothing but the trails.
    pub open spec fn same_but_strains(self, other: Rain<T>) -> bool {
        &&& self.height == other.height
        &&& self.width == other.width
        &&& self.same_tuning(other)
        &&& self.map == other.map
    }

    /// Whether the tuning of `self` and `other` is the same.
    pub open spec fn same_tuning(self, other: Rain<T>) -> bool {
        &&& self.spawn_chance == other.spawn_chance
        &&& self.start_interval == other.start_interval
        &&& self.len_interval == other.len_interval
        &&& self.speed_interval == other.speed_interval
    }
}

/// What a column shows on row `row`: the cell of its trail, or nothing where
/// the column is empty.
pub open spec fn column_cell(slot: Option<Trail>, bound: int, row: int) -> Option<u16> {
    match slot {
        Some(trail) => trail.cell(bound, row),
        None => None,
    }
}

/// The slots of a matrix brought to `width` columns: the columns that are
/// kept hold what they held, the columns that are new are empty.
pub open spec fn resized_slots(slots: Seq<Option<Trail>>, width: int) -> Seq<Option<Trail>> {
    Seq::new(
        width as nat,
        |col: int|
            if col < slots.len() {
                slots[col]
            } else {
                None
            },
    )
}

/// The mathematical state of an optional trail.
pub open spec fn slot_view(slot: Option<Strain<Alive>>) -> Option<Trail> {
    match slot {
        Some(strain) => Some(strain@),
        None => None,
    }
}

/// The simulation state of one rectangular grid.
#[derive(Debug)]
pub struct Matrix<T> {
    height: u16,
    width: u16,
    strains: Vec<Option<Strain<Alive>>>,
    strain_spawn_chance: u64,
    strain_start_interval: Range<u16>,
    strain_len_interval: Range<u16>,
    strain_speed_interval: Range<u16>,
    rng: StdRng,
    map: Vec<Vec<T>>,
}

impl<T> View for Matrix<T> {
    type V = Rain<T>;

    closed spec fn view(&self) -> Rain<T> {
        Rain {
            height: self.height as int,
            width: self.width as int,
            strains: self.strains@.map_values(|slot: Option<Strain<Alive>>| slot_view(slot)),
            spawn_chance: self.strain_spawn_chance,
            start_interval: self.strain_start_interval,
            len_interval: self.strain_len_interval,
            speed_interval: self.strain_speed_interval,
            map: self.map@.map_values(|row: Vec<T>| row@),
        }
    }
}

/// A grid of `height` rows of `width` cells, each the default of its type.
fn blank_map<T: Default>(height: u16, width: u16) -> (map: Vec<Vec<T>>)
    ensures
        map@.len() == height,
        forall|row: int| 0 <= row < height ==> (#[trigger] map@[row])@.len() == width,
        forall|row: int, col: int|
            0 <= row < height && 0 <= col < width ==> T::default.ensures(
                (),
                #[trigger] map@[row]@[col],
            ),
{
    let mut map: Vec<Vec<T>> = Vec::with_capacity(height as usize);
    let mut row: u16 = 0;
    while row < height
        invariant
            row <= height,
            map@.len() == row,
            forall|r: int| 0 <= r < row ==> (#[trigger] map@[r])@.len() == width,
            forall|r: int, c: int|
                0 <= r < row && 0 <= c < width ==> T::default.ensures((), #[trigger] map@[r]@[c]),
        decreases height - row,
    {
        let mut cells: Vec<T> = Vec::with_capacity(width as usize);
        let mut col: u16 = 0;
        while col < width
            invariant
                col <= width,
                cells@.len() == col,
                forall|c: int| 0 <= c < col ==> T::default.ensures((), #[trigger] cells@[c]),
            decreases width - col,
        {
            cells.push(T::default());
            col += 1;
        }
        map.push(cells);
        row += 1;
    }
    map
}

/// Adds empty slots at the end until there are `width` of them.
fn pad_slots(slots: &mut Vec<Option<Strain<Alive>>>, width: u16)
    requires
        old(slots)@.len() <= width,
    ensures
        final(slots)@.len() == width,
        final(slots)@.take(old(slots)@.len() as int) == old(slots)@,
        forall|col: int| old(slots)@.len() <= col < width ==> final(slots)@[col] is None,
{
    while slots.len() < width as usize
        invariant
            old(slots)@.len() <= slots@.len() <= width,
            slots@.take(old(slots)@.len() as int) == old(slots)@,
            forall|col: int| old(slots)@.len() <= col < slots@.len() ==> slots@[col] is None,
        decreases width - slots@.len(),
    {
        slots.push(None);
    }
}

/// Moves the cells of `column` into column `col` of `map`, from the top row
/// down.
fn write_column<T>(map: &mut Vec<Vec<T>>, col: usize, column: Vec<T>)
    requires
        column@.len() == old(map)@.len(),
        forall|row: int| 0 <= row < old(map)@.len() ==> col < (#[trigger] old(map)@[row])@.len(),
    ensures
        final(map)@.len() == old(map)@.len(),
        forall|row: int|
            0 <= row < old(map)@.len() ==> (#[trigger] final(map)@[row])@ == old(map)@[row]@.update(
                col as int,
                column@[row],
            ),
{
    let rows = map.len();
    let mut row: usize = 0;
    for cell in it: column
        invariant
            row == it.index(),
            rows == column@.len(),
            it.seq() == column@,
            column@.len() == old(map)@.len(),
            map@.len() == old(map)@.len(),
            forall|r: int| 0 <= r < old(map)@.len() ==> col < (#[trigger] old(map)@[r])@.len(),
            forall|r: int|
                0 <= r < row ==> (#[trigger] map@[r])@ == old(map)@[r]@.update(
                    col as int,
                    column@[r],
                ),
            forall|r: int| row <= r < map@.len() ==> map@[r] == old(map)@[r],
    {
        map[row][col] = cell;
        row += 1;
    }
}

impl<T> Matrix<T> where T: Default + Clone {
    /// Whether the matrix is in a valid state.
    pub open spec fn wf(&self) -> bool {
        self@.wf()
    }

    /// The generator that the matrix draws from, in its present state.
    pub closed spec fn generator(&self) -> StdRng {
        self.rng
    }

    /// An empty matrix of `height` rows and `width` columns.
    ///
    /// `strain_spawn_chance` is the number of uniform draws, out of
    /// `DRAW_OUTCOMES`, on which a free column gets a new trail.
    pub fn new(
        height: u16,
        width: u16,
        strain_spawn_chance: u64,
        strain_len_interval: Range<u16>,
        strain_speed_interval: Range<u16>,
        rng: StdRng,
    ) -> (matrix: Self)
        requires
            0 < strain_len_interval.start < strain_len_interval.end,
            0 < strain_speed_interval.start < strain_speed_interval.end,
        ensures
            matrix.wf(),
            matrix@.height == height,
            matrix@.width == width,
            matrix@.strains == Seq::new(width as nat, |col: int| None::<Trail>),
            matrix@.spawn_chance == strain_spawn_chance,
            matrix@.start_interval == (0u16..1u16),
            matrix@.len_interval == strain_len_interval,
            matrix@.speed_interval == strain_speed_interval,
            matrix.generator() == rng,
            forall|row: int, col: int|
                0 <= row < height && 0 <= col < width ==> T::default.ensures(
                    (),
                    #[trigger] matrix@.map[row][col],
                ),
    {
        let mut strains: Vec<Option<Strain<Alive>>> = Vec::with_capacity(width as usize);
        let mut col: u16 = 0;
        while col < width
            invariant
                col <= width,
                strains@.len() == col,
                forall|c: int| 0 <= c < col ==> strains@[c] is None,
            decreases width - col,
        {
            strains.push(None);
            col += 1;
        }
        let matrix = Matrix {
            height,
            width,
            strains,
            strain_spawn_chance,
            strain_start_interval: 0..1,
            strain_len_interval,
            strain_speed_interval,
            rng,
            map: blank_map(height, width),
        };
        assert(matrix@.strains =~= Seq::new(width as nat, |col: int| None::<Trail>));
        matrix
    }

    /// Brings the matrix to `new_width` columns and `new_height` rows.
    ///
    /// Nothing happens where the size is the same. Otherwise columns are cut
    /// off or added empty at the right, the trails of the columns that are
    /// kept stay as they are, and the map is made anew from default cells.
    pub fn notify_size(&mut self, new_width: u16, new_height: u16)
        requires
            old(self).wf(),
        ensures
            final(self).wf(),
            new_width == old(self)@.width && new_height == old(self)@.height ==> *final(self)
                == *old(self),
            final(self)@.width == new_width,
            final(self)@.height == new_height,
            final(self)@.strains.len() == new_width,
            final(self)@.strains == resized_slots(old(self)@.strains, new_width as int),
            final(self)@.same_tuning(old(self)@),
            final(self).generator() == old(self).generator(),
            new_width != old(self)@.width || new_height != old(self)@.height ==> forall|
                row: int,
                col: int,
            |
                0 <= row < new_height && 0 <= col < new_width ==> T::default.ensures(
                    (),
                    #[trigger] final(self)@.map[row][col],
                ),
    {
        let mut updated = false;
        if self.height != new_height {
            self.height = new_height;
            updated = true;
        }
        if self.width > new_width {
            self.strains.truncate(new_width as usize);
            self.width = new_width;
            updated = true;
        } else if self.width < new_width {
            pad_slots(&mut self.strains, new_width);
            self.width = new_width;
            updated = true;
        }
        if updated {
            self.map = blank_map(new_height, new_width);
        }
        assert(self@.strains =~= resized_slots(old(self)@.strains, new_width as int));
    }

    /// The cells of the last rasterisation, row by row.
    pub fn map(&self) -> (map: &Vec<Vec<T>>)
        ensures
            map@.len() == self@.map.len(),
            forall|row: int| 0 <= row < map@.len() ==> (#[trigger] map@[row])@ == self@.map[row],
    {
        &self.map
    }

    /// Steps every trail, spawns new ones, and rasterises every column into
    /// the map, asking `f` for each cell.
    pub fn tick<F>(&mut self, f: F) where F: FnMut(Option<u16>) -> T
        requires
            old(self).wf(),
            forall|shown: Option<u16>| f.requires((shown,)),
        ensures
            final(self).wf(),
            final(self)@.height == old(self)@.height,
            final(self)@.width == old(self)@.width,
            final(self)@.same_tuning(old(self)@),
            forall|col: int|
                0 <= col < old(self)@.width ==> old(self)@.ticked(
                    old(self)@.strains[col],
                    #[trigger] final(self)@.strains[col],
                ),
            forall|row: int, col: int|
                0 <= row < old(self)@.height && 0 <= col < old(self)@.width ==> f.ensures(
                    (column_cell(final(self)@.strains[col], old(self)@.height, row),),
                    #[trigger] final(self)@.map[row][col],
                ),
            old(self)@.all_held() && old(self)@.none_dies() ==> final(self).generator() == old(
                self,
            ).generator(),
    {
        self.tick_strains();
        self.generate_strains();
        self.update_raw_map(f);
    }

    /// Rasterises every column into the map: the mask of its trail, or an
    /// empty column where it has none.
    fn update_raw_map<F>(&mut self, f: F) where F: FnMut(Option<u16>) -> T
        requires
            old(self).wf(),
            forall|shown: Option<u16>| f.requires((shown,)),
        ensures
            final(self).wf(),
            final(self)@.height == old(self)@.height,
            final(self)@.width == old(self)@.width,
            final(self)@.same_tuning(old(self)@),
            final(self)@.strains == old(self)@.strains,
            final(self).generator() == old(self).generator(),
            forall|row: int, col: int|
                0 <= row < old(self)@.height && 0 <= col < old(self)@.width ==> f.ensures(
                    (column_cell(old(self)@.strains[col], old(self)@.height, row),),
                    #[trigger] final(self)@.map[row][col],
                ),
    {
        broadcast use vstd::function::group_function_axioms;

        if self.height == 0 {
            return ;
        }
        let mut paint = f;
        let mut col: usize = 0;
        while col < self.width as usize
            invariant
                old(self).wf(),
                self.wf(),
                self.height > 0,
                paint == f,
                col <= self@.width,
                self@.height == old(self)@.height,
                self@.width == old(self)@.width,
                self@.same_tuning(old(self)@),
                self@.strains == old(self)@.strains,
                self.generator() == old(self).generator(),
                forall|shown: Option<u16>| f.requires((shown,)),
                forall|row: int, c: int|
                    0 <= row < self@.height && 0 <= c < col ==> f.ensures(
                        (column_cell(self@.strains[c], self@.height, row),),
                        #[trigger] self@.map[row][c],
                    ),
            decreases self@.width - col,
        {
            let ghost before = self@;
            let column = match &self.strains[col] {
                Some(strain) => strain.mask(self.height, &mut paint),
                None => self.empty_mask(&mut paint),
            };
            assert(f.ensures(
                (column_cell(before.strains[col as int], before.height, 0),),
                column@[0],
            ));
            assert forall|row: int| 0 <= row < self.map@.len() implies col < (
            #[trigger] self.map@[row])@.len() by {
                assert(before.map[row].len() == before.width);
            }
            write_column(&mut self.map, col, column);
            assert forall|row: int| 0 <= row < self@.height implies #[trigger] self@.map[row]
                == before.map[row].update(col as int, column@[row]) by {
                assert(self.map@[row]@ == before.map[row].update(col as int, column@[row]));
            }
            col += 1;
        }
    }

    /// A column of `height` empty cells.
    fn empty_mask<F>(&self, f: F) -> (mask: Vec<T>) where F: FnMut(Option<u16>) -> T
        requires
            f.requires((None::<u16>,)),
        ensures
            mask@.len() == self@.height,
            forall|row: int|
                0 <= row < self@.height ==> f.ensures((None::<u16>,), #[trigger] mask@[row]),
    {
        let mut paint = f;
        let mut mask: Vec<T> = Vec::with_capacity(self.height as usize);
        let mut row: u16 = 0;
        while row < self.height
            invariant
                row <= self.height,
                paint == f,
                mask@.len() == row,
                f.requires((None::<u16>,)),
                forall|r: int| 0 <= r < row ==> f.ensures((None::<u16>,), #[trigger] mask@[r]),
            decreases self.height - row,
        {
            mask.push(paint(None));
            row += 1;
        }
        mask
    }

    /// Tries a spawn: draws once, and on a hit draws start, length and speed
    /// of a new trail.
    fn spawn(&mut self) -> (slot: Option<Strain<Alive>>)
        requires
            old(self).wf(),
        ensures
            final(self)@ == old(self)@,
            old(self)@.refills(slot_view(slot)),
    {
        let word = next_word(&mut self.rng);
        if spawn_hit(word, self.strain_spawn_chance) {
            let start = sample_between(
                &mut self.rng,
                self.strain_start_interval.start,
                self.strain_start_interval.end,
            );
            let len = sample_between(
                &mut self.rng,
                self.strain_len_interval.start,
                self.strain_len_interval.end,
            );
            let limit = sample_between(
                &mut self.rng,
                self.strain_speed_interval.start,
                self.strain_speed_interval.end,
            );
            Some(Strain::new(start, len, LimitedCounter::new(limit)))
        } else {
            None
        }
    }

    /// Steps the trail of every column that has one, and tries a spawn where
    /// a trail died.
    fn tick_strains(&mut self)
        requires
            old(self).wf(),
        ensures
            final(self).wf(),
            old(self)@.same_but_strains(final(self)@),
            forall|col: int|
                0 <= col < old(self)@.width ==> old(self)@.stepped(
                    old(self)@.strains[col],
                    #[trigger] final(self)@.strains[col],
                ),
            old(self)@.none_dies() ==> final(self).generator() == old(self).generator(),
    {
        let mut col: usize = 0;
        while col < self.strains.len()
            invariant
                old(self).wf(),
                self.wf(),
                col <= self@.width,
                old(self)@.same_but_strains(self@),
                old(self)@.none_dies() ==> self.generator() == old(self).generator(),
                forall|c: int|
                    0 <= c < col ==> old(self)@.stepped(
                        old(self)@.strains[c],
                        #[trigger] self@.strains[c],
                    ),
                forall|c: int| col <= c < self@.width ==> self@.strains[c] == old(self)@.strains[c],
            decreases self@.width - col,
        {
            let ghost before = self@;
            let taken = self.strains[col].take();
            assert(self@.strains =~= before.strains.update(col as int, None));
            assert(old(self)@.strains[col as int] == slot_view(taken));
            let next = match taken {
                Some(strain) => match strain.tick(self.height) {
                    Ok(stepped) => Some(stepped),
                    Err(_) => self.spawn(),
                },
                None => None,
            };
            let ghost emptied = self@;
            let ghost placed = slot_view(next);
            self.strains[col] = next;
            assert(self@.strains =~= emptied.strains.update(col as int, placed));
            col += 1;
        }
    }

    /// Tries a spawn on every empty column.
    fn generate_strains(&mut self)
        requires
            old(self).wf(),
        ensures
            final(self).wf(),
            old(self)@.same_but_strains(final(self)@),
            forall|col: int|
                0 <= col < old(self)@.width ==> old(self)@.filled(
                    old(self)@.strains[col],
                    #[trigger] final(self)@.strains[col],
                ),
            old(self)@.all_held() ==> final(self).generator() == old(self).generator(),
    {
        let mut col: usize = 0;
        while col < self.strains.len()
            invariant
                old(self).wf(),
                self.wf(),
                col <= self@.width,
                old(self)@.same_but_strains(self@),
                old(self)@.all_held() ==> self.generator() == old(self).generator(),
                forall|c: int|
                    0 <= c < col ==> old(self)@.filled(
                        old(self)@.strains[c],
                        #[trigger] self@.strains[c],
                    ),
                forall|c: int| col <= c < self@.width ==> self@.strains[c] == old(self)@.strains[c],
            decreases self@.width - col,
        {
            if self.strains[col].is_none() {
                assert(old(self)@.strains[col as int] is None);
                let next = self.spawn();
                let ghost before = self@;
                let ghost placed = slot_view(next);
                self.strains[col] = next;
                assert(self@.strains =~= before.strains.update(col as int, placed));
            }
            col += 1;
        }
    }
}

} // verus!
