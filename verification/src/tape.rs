//! The machine's tape: cells addressed by any signed offset.

use vstd::prelude::*;
use vstd::std_specs::cmp::PartialEqSpecImpl;
use vstd::string::StringExecFns;
use crate::Symbol;
use crate::tape::doublevec::{calc_index, DoubleVec, IntoIter, Iter, IterMut, Sides};

pub mod doublevec;

verus! {

/// One slot of the tape.
#[derive(Debug, Eq)]
pub enum Cell {
    /// The slot holds a symbol.
    Symbol(Symbol),
    /// The slot is blank.
    Blank,
}

impl View for Cell {
    type V = Option<Seq<char>>;

    open spec fn view(&self) -> Option<Seq<char>> {
        match self {
            Cell::Symbol(s) => Some(s@),
            Cell::Blank => None,
        }
    }
}

impl Clone for Cell {
    fn clone(&self) -> (r: Self)
        ensures
            r == *self,
    {
        match self {
            Cell::Symbol(s) => Cell::Symbol(s.clone()),
            Cell::Blank => Cell::Blank,
        }
    }
}

impl PartialEq for Cell {
    fn eq(&self, other: &Self) -> (r: bool) {
        match (self, other) {
            (Cell::Symbol(a), Cell::Symbol(b)) => a.0 == b.0,
            (Cell::Blank, Cell::Blank) => true,
            _ => false,
        }
    }
}

impl PartialEqSpecImpl for Cell {
    open spec fn obeys_eq_spec() -> bool {
        true
    }

    open spec fn eq_spec(&self, other: &Self) -> bool {
        self@ == other@
    }
}

impl Default for Cell {
    fn default() -> (r: Self)
        ensures
            r == Cell::Blank,
    {
        Cell::Blank
    }
}

/// The text that stands for a cell: the label of its symbol, or `_` for a
/// blank.
pub open spec fn cell_text(cell: Option<Seq<char>>) -> Seq<char> {
    match cell {
        Some(label) => label,
        None => seq!['_'],
    }
}

impl Cell {
    /// The label of the symbol, or `_` for a blank cell.
    pub fn to_string(&self) -> (r: String)
        ensures
            r@ == cell_text(self@),
    {
        match self {
            Cell::Symbol(s) => s.0.clone(),
            Cell::Blank => {
                proof {
                    reveal_strlit("_");
                }
                let r = String::from_str("_");
                assert(r@ =~= seq!['_']);
                r
            },
        }
    }
}

/// The text of a row of cells: each cell as a space, its text, a space and a
/// bar.
pub open spec fn cells_text(cells: Seq<Option<Seq<char>>>) -> Seq<char>
    decreases cells.len(),
{
    if cells.len() == 0 {
        Seq::empty()
    } else {
        cells_text(cells.drop_last()) + seq![' '] + cell_text(cells.last()) + seq![' ', '|']
    }
}

/// The text of a tape: a bar, then its stored cells in ascending offset
/// order.
pub open spec fn tape_text(tape: TapeView) -> Seq<char> {
    seq!['|'] + cells_text(tape.ordered())
}

/// What each of the cells holds.
pub open spec fn cells_view(cells: Seq<Cell>) -> Seq<Option<Seq<char>>> {
    cells.map_values(|c: Cell| c@)
}

/// The mathematical content of a tape: what the cells of its two sides hold.
pub type TapeView = Sides<Option<Seq<char>>>;

/// An unbounded tape. It stores the cells between its lowest and its highest
/// written offset; every other cell is blank.
#[derive(Debug)]
pub struct Tape {
    buf: DoubleVec<Cell>,
}

impl View for Tape {
    type V = TapeView;

    closed spec fn view(&self) -> TapeView {
        Sides { back: cells_view(self.buf@.back), front: cells_view(self.buf@.front) }
    }
}

impl Tape {
    /// A tape on which every cell is blank and none is stored.
    pub fn new() -> (r: Self)
        ensures
            r@ == (TapeView { back: Seq::empty(), front: Seq::empty() }),
    {
        let r = Self { buf: DoubleVec::new() };
        assert(r@ =~= (TapeView { back: Seq::empty(), front: Seq::empty() }));
        r
    }

    /// A tape that holds `v` from offset 0 upwards.
    pub fn with(v: Vec<Cell>) -> (r: Self)
        ensures
            r@ == (TapeView { back: Seq::empty(), front: cells_view(v@) }),
    {
        let ghost cells = v@;
        let r = Self { buf: DoubleVec::with(Vec::new(), v) };
        assert(r@ =~= (TapeView { back: Seq::empty(), front: cells_view(cells) }));
        r
    }

    /// Whether the cell at `index` is stored.
    pub fn fits(&self, index: isize) -> (r: bool)
        ensures
            r == self@.fits(index as int),
    {
        self.buf.fits(index)
    }

    /// The cell at `index`: blank wherever nothing is stored. The tape does
    /// not grow.
    pub fn get(&self, index: isize) -> (r: &Cell)
        ensures
            r@ == self@.read(index as int, None),
    {
        match self.buf.get(index) {
            Some(s) => s,
            None => &Cell::Blank,
        }
    }

    /// A mutable reference to the cell at `index`. Where that cell is not
    /// stored yet, its side first grows with blank cells up to and including
    /// it; no stored cell moves or changes. Whatever is written through the
    /// reference lands at `index`.
    pub fn get_mut(&mut self, index: isize) -> (r: &mut Cell)
        ensures
            r@ == old(self)@.read(index as int, None),
            final(self)@ == old(self)@.write(index as int, None, final(r)@),
    {
        let (pos, is_front) = calc_index(index);
        let v = if is_front {
            self.buf.front_vec_mut()
        } else {
            self.buf.back_vec_mut()
        };
        if pos >= v.len() {
            v.resize(pos + 1, Cell::Blank);
        }
        let ghost grown = v@;
        assert(cells_view(grown) =~= old(self)@.covering(index as int, None).side(index as int));
        let r = &mut v[pos];
        proof {
            let after = grown.update(pos as int, *final(r));
            assert(cells_view(after) =~= cells_view(grown).update(pos as int, final(r)@));
        }
        r
    }

    /// Stores `cell` at `index`, growing the tape with blank cells where
    /// `index` is not stored yet.
    pub fn set(&mut self, index: isize, cell: Cell)
        ensures
            final(self)@ == old(self)@.write(index as int, None, cell@),
    {
        *self.get_mut(index) = cell;
    }

    /// A traversal of the stored cells in ascending offset order that leaves
    /// the tape untouched.
    pub fn iter(&self) -> (r: Iter<'_, Cell>)
        ensures
            cells_view(r.remaining()) == self@.ordered(),
    {
        let r = self.buf.iter();
        assert(cells_view(r.remaining()) =~= self@.ordered());
        r
    }

    /// A traversal of the stored cells in ascending offset order through
    /// which each cell can be changed in place.
    pub fn iter_mut(&mut self) -> (r: IterMut<'_, Cell>)
        ensures
            r.position() == old(self)@.lo(),
            cells_view(r.content().back) == old(self)@.back,
            cells_view(r.content().front) == old(self)@.front,
            cells_view(final(r.target())@.back) == final(self)@.back,
            cells_view(final(r.target())@.front) == final(self)@.front,
    {
        self.buf.iter_mut()
    }

    /// A traversal of the stored cells in ascending offset order that uses
    /// the tape up.
    pub fn into_iter(self) -> (r: IntoIter<Cell>)
        ensures
            cells_view(r.remaining()) == self@.ordered(),
    {
        let ghost me = self@;
        let r = self.buf.into_iter();
        assert(cells_view(r.remaining()) =~= me.ordered());
        r
    }

    /// The tape as text: a bar, then each stored cell, lowest offset first,
    /// as a space, the cell's text, a space and a bar.
    pub fn to_string(&self) -> (r: String)
        ensures
            r@ == tape_text(self@),
    {
        proof {
            reveal_strlit("|");
        }
        let mut out = String::from_str("|");
        let mut it = self.iter();
        let ghost all = it.remaining();
        let ghost mut done: Seq<Cell> = Seq::empty();
        assert(cells_view(done) =~= Seq::empty());
        assert(out@ =~= seq!['|'] + cells_text(cells_view(done)));
        loop
            invariant
                done + it.remaining() == all,
                out@ == seq!['|'] + cells_text(cells_view(done)),
            ensures
                done == all,
            decreases it.remaining().len(),
        {
            match it.next() {
                Some(cell) => {
                    let text = cell.to_string();
                    let ghost before = out@;
                    out.append(" ");
                    out.append(text.as_str());
                    out.append(" |");
                    proof {
                        reveal_strlit(" ");
                        reveal_strlit(" |");
                        let next = done.push(*cell);
                        assert(cells_view(next).drop_last() =~= cells_view(done));
                        assert(cells_view(next).last() == cell@);
                        assert(out@ =~= before + seq![' '] + cell_text(cell@) + seq![' ', '|']);
                        assert(out@ =~= seq!['|'] + cells_text(cells_view(next)));
                        assert(next + it.remaining() =~= all);
                        done = next;
                    }
                },
                None => {
                    assert(done =~= all);
                    break ;
                },
            }
        }
        out
    }
}

impl Clone for Tape {
    fn clone(&self) -> (r: Self)
        ensures
            r@ == self@,
    {
        let r = Self { buf: self.buf.clone() };
        assert(r@ =~= self@);
        r
    }
}

impl std::ops::Index<isize> for Tape {
    type Output = Cell;

    fn index(&self, index: isize) -> (r: &Cell)
        ensures
            r@ == self@.read(index as int, None),
    {
        self.get(index)
    }
}

impl vstd::std_specs::core::IndexSpecImpl<isize> for Tape {
    open spec fn index_req(&self, index: &isize) -> bool {
        true
    }
}

impl std::ops::IndexMut<isize> for Tape {
    fn index_mut(&mut self, index: isize) -> (r: &mut Cell)
        ensures
            r@ == old(self)@.read(index as int, None),
            final(self)@ == old(self)@.write(index as int, None, final(r)@),
    {
        self.get_mut(index)
    }
}

} // verus!
