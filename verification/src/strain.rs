//! A single falling trail and its life against a bounded column.

use crate::counter::{CounterState, LimitedCounter};
use std::marker::PhantomData;
use vstd::prelude::*;

verus! {

/// Mathematical state of a trail: the row on which it entered the column, the
/// row of its leading edge, the number of rows that are left of it, the number
/// it had when it was made, and its speed counter.
pub struct Trail {
    pub start: int,
    pub head: int,
    pub len: int,
    pub orig_len: int,
    pub speed: CounterState,
}

impl Trail {
    /// The head never lies before the start, the length is positive and never
    /// above the one the trail was made with, and everything fits the machine
    /// type. The head reaches the largest row only where the trail starts
    /// there.
    pub open spec fn wf(self) -> bool {
        &&& 0 <= self.start <= self.head <= u16::MAX
        &&& self.head == u16::MAX ==> self.start == u16::MAX
        &&& 0 < self.len <= self.orig_len <= u16::MAX
        &&& self.speed.wf()
    }

    /// The trail as it is created: head on the start row, full length.
    pub open spec fn fresh(start: int, len: int, speed: CounterState) -> Trail {
        Trail { start, head: start, len, orig_len: len, speed }
    }

    /// Whether this step moves the head: the trail starts inside the column
    /// and its speed counter wraps.
    pub open spec fn moves(self, bound: int) -> bool {
        self.start < bound && self.speed.wraps()
    }

    /// Rows by which the head, once moved down by one, lies past the last row
    /// of the column.
    pub open spec fn eaten(self, bound: int) -> int {
        if self.head + 1 >= bound {
            self.head + 2 - bound
        } else {
            0
        }
    }

    /// Whether the trail is still alive after one step against `bound`.
    pub open spec fn survives(self, bound: int) -> bool {
        self.start < bound && (self.moves(bound) ==> self.eaten(bound) < self.len)
    }

    /// The state after one step against `bound`. A trail that starts outside
    /// the column is left as it is. Otherwise the speed counter advances, and
    /// when it wraps the head moves down one row, is held on the last row of the
    /// column, and the rows that fell off the edge are taken from the length,
    /// unless that would use up the whole trail.
    pub open spec fn step(self, bound: int) -> Trail {
        if self.start >= bound {
            self
        } else if !self.speed.wraps() {
            Trail { speed: self.speed.advance(), ..self }
        } else {
            Trail {
                head: self.head + 1 - self.eaten(bound),
                len: if self.eaten(bound) < self.len {
                    self.len - self.eaten(bound)
                } else {
                    self.len
                },
                speed: self.speed.advance(),
                ..self
            }
        }
    }

    /// What row `row` of a column of `bound` rows shows: nothing, or the
    /// distance of the row from the head plus the number of rows that the
    /// trail has lost. Rows show the trail from the start row on, and as far
    /// behind the head as the trail is long.
    pub open spec fn cell(self, bound: int, row: int) -> Option<u16> {
        if self.start < bound && self.start <= row && self.head - self.len < row <= self.head {
            Some((self.head - row + (self.orig_len - self.len)) as u16)
        } else {
            None
        }
    }
}

/// Phase tag of a trail that can still be stepped.
#[derive(Debug)]
pub struct Alive;

/// Phase tag of a trail that has left its column for good.
#[derive(Debug)]
pub struct Dead;

/// One falling trail, tagged with its phase.
#[derive(Debug)]
pub struct Strain<P> {
    head: u16,
    len: u16,
    orig_len: u16,
    start: u16,
    speed: LimitedCounter,
    _p: PhantomData<P>,
}

impl<P> View for Strain<P> {
    type V = Trail;

    closed spec fn view(&self) -> Trail {
        Trail {
            start: self.start as int,
            head: self.head as int,
            len: self.len as int,
            orig_len: self.orig_len as int,
            speed: self.speed@,
        }
    }
}

impl<P> Strain<P> {
    /// Every value of this type is in a valid state.
    #[verifier::type_invariant]
    pub open spec fn inv(self) -> bool {
        self@.wf()
    }
}

impl Strain<Alive> {
    /// A trail of `len` rows whose head sits on row `start`.
    pub fn new(start: u16, len: u16, speed: LimitedCounter) -> (strain: Strain<Alive>)
        requires
            len > 0,
        ensures
            strain@ == Trail::fresh(start as int, len as int, speed@),
            strain@.wf(),
    {
        proof {
            use_type_invariant(speed);
        }
        Strain { head: start, len, orig_len: len, start, speed, _p: PhantomData }
    }

    /// Steps the trail once against a column of `bound` rows.
    pub fn tick(self, bound: u16) -> (r: Result<Strain<Alive>, Strain<Dead>>)
        ensures
            r is Ok <==> self@.survives(bound as int),
            match r {
                Ok(next) => next@ == self@.step(bound as int) && next@.wf(),
                Err(dead) => dead@ == self@.step(bound as int),
            },
            r matches Ok(next) ==> next@.len <= self@.len && next@.orig_len == self@.orig_len,
            self@.start >= bound ==> r is Err,
    {
        proof {
            use_type_invariant(&self);
            use_type_invariant(self.speed);
            self.speed@.lemma_advance();
        }
        if self.start >= bound {
            return Err(self.kill());
        }
        let mut speed = self.speed;
        if !speed.tick() {
            return Ok(Strain { speed, ..self });
        }
        let mut head = self.head + 1;
        let mut len = self.len;
        if head >= bound {
            let eaten = head - bound + 1;
            head -= eaten;
            if len <= eaten {
                return Err(Strain { head, speed, ..self }.kill());
            }
            len -= eaten;
        }
        Ok(Strain { head, len, speed, ..self })
    }

    /// What the trail shows on row `row` of a column of `bound` rows.
    pub fn cell(&self, bound: u16, row: u16) -> (cell: Option<u16>)
        ensures
            cell == self@.cell(bound as int, row as int),
    {
        proof {
            use_type_invariant(self);
        }
        if self.start < bound && self.start <= row && row <= self.head && self.head - row
            < self.len {
            Some(self.head - row + (self.orig_len - self.len))
        } else {
            None
        }
    }

    /// Rasterises the trail into a column of `bound` cells, asking `f` for
    /// each cell in turn, from the top row down.
    pub fn mask<T, F>(&self, bound: u16, f: F) -> (mask: Vec<T>) where F: FnMut(Option<u16>) -> T
        requires
            forall|row: int| 0 <= row < bound ==> f.requires((self@.cell(bound as int, row),)),
        ensures
            mask@.len() == bound,
            forall|row: int|
                0 <= row < bound ==> f.ensures(
                    (self@.cell(bound as int, row),),
                    #[trigger] mask@[row],
                ),
    {
        let mut paint = f;
        let mut mask: Vec<T> = Vec::with_capacity(bound as usize);
        let mut row: u16 = 0;
        while row < bound
            invariant
                row <= bound,
                paint == f,
                mask@.len() == row,
                forall|r: int| 0 <= r < bound ==> f.requires((self@.cell(bound as int, r),)),
                forall|r: int|
                    0 <= r < row ==> f.ensures(
                        (self@.cell(bound as int, r),),
                        #[trigger] mask@[r],
                    ),
            decreases bound - row,
        {
            let shown = self.cell(bound, row);
            mask.push(paint(shown));
            row += 1;
        }
        mask
    }

    /// Tries a step against `bound` without committing it: a trail that
    /// would survive comes back as it was, one that would not comes back dead.
    pub fn bump_bound(self, bound: u16) -> (r: Result<Strain<Alive>, Strain<Dead>>)
        ensures
            r is Ok <==> self@.survives(bound as int),
            match r {
                Ok(same) => same@ == self@,
                Err(dead) => dead@ == self@.step(bound as int),
            },
    {
        let probe = self.clone();
        match probe.tick(bound) {
            Ok(_) => Ok(self),
            Err(dead) => Err(dead),
        }
    }

    fn kill(self) -> (dead: Strain<Dead>)
        ensures
            dead@ == self@,
    {
        proof {
            use_type_invariant(&self);
        }
        Strain {
            head: self.head,
            len: self.len,
            orig_len: self.orig_len,
            start: self.start,
            speed: self.speed,
            _p: PhantomData,
        }
    }
}

impl Clone for Strain<Alive> {
    fn clone(&self) -> (copy: Self)
        ensures
            copy@ == self@,
    {
        proof {
            use_type_invariant(self);
        }
        Strain {
            head: self.head,
            len: self.len,
            orig_len: self.orig_len,
            start: self.start,
            speed: self.speed,
            _p: PhantomData,
        }
    }
}

} // verus!
