use vstd::prelude::*;
use crate::value::{refs_within, Value, ValueView};

verus! {

/// The mutable store of a running program: cells, each holding one value, and vectors,
/// each an ordered list of cells (the elements of a vector value, or the fields of a
/// struct value). Variables and vector elements are cells, so a cell that
/// is reached from two places is shared by both.
pub struct Heap {
    cells: Vec<Value>,
    vectors: Vec<Vec<usize>>,
}

/// The model of the store.
pub struct HeapView {
    pub cells: Seq<ValueView>,
    pub vectors: Seq<Seq<usize>>,
}

impl HeapView {
    pub open spec fn with_vector(self, elems: Seq<usize>) -> HeapView {
        HeapView { cells: self.cells, vectors: self.vectors.push(elems) }
    }

    pub open spec fn with_cell(self, v: ValueView) -> HeapView {
        HeapView { cells: self.cells.push(v), vectors: self.vectors }
    }

    pub open spec fn set_cell(self, c: int, v: ValueView) -> HeapView {
        HeapView { cells: self.cells.update(c, v), vectors: self.vectors }
    }

    pub open spec fn set_vector(self, id: int, elems: Seq<usize>) -> HeapView {
        HeapView { cells: self.cells, vectors: self.vectors.update(id, elems) }
    }

    /// Every reference in the store points at something that exists.
    pub open spec fn wf(self) -> bool {
        &&& forall|c: int| 0 <= c < self.cells.len() ==> refs_within(#[trigger] self.cells[c], self.vectors.len())
        &&& forall|v: int, j: int|
            0 <= v < self.vectors.len() && 0 <= j < self.vectors[v].len()
                ==> #[trigger] self.vectors[v][j] < self.cells.len()
    }
}

impl View for Heap {
    type V = HeapView;

    closed spec fn view(&self) -> HeapView {
        HeapView { cells: self.cells@.map_values(|v: Value| v@), vectors: self.vectors@.map_values(|v: Vec<usize>| v@) }
    }
}

impl Heap {
    pub open spec fn wf(&self) -> bool {
        self@.wf()
    }

    /// An empty store.
    pub fn new() -> (h: Heap)
        ensures
            h@.cells.len() == 0,
            h@.vectors.len() == 0,
            h.wf(),
    {
        let h = Heap { cells: Vec::new(), vectors: Vec::new() };
        assert(h@.cells =~= Seq::<ValueView>::empty());
        h
    }

    pub fn cell_count(&self) -> (n: usize)
        ensures
            n == self@.cells.len(),
    {
        self.cells.len()
    }

    pub fn vector_count(&self) -> (n: usize)
        ensures
            n == self@.vectors.len(),
    {
        self.vectors.len()
    }

    /// A new cell holding `v`.
    pub fn alloc_cell(&mut self, v: Value) -> (c: usize)
        requires
            old(self).wf(),
            refs_within(v@, old(self)@.vectors.len()),
        ensures
            c == old(self)@.cells.len(),
            final(self)@ == old(self)@.with_cell(v@),
            final(self).wf(),
    {
        let c = self.cells.len();
        let ghost vv = v@;
        self.cells.push(v);
        assert(self@.cells =~= old(self)@.cells.push(vv));
        assert(self@.vectors =~= old(self)@.vectors);
        c
    }

    /// The value held by cell `c`.
    pub fn read(&self, c: usize) -> (v: &Value)
        requires
            c < self@.cells.len(),
        ensures
            v@ == self@.cells[c as int],
    {
        &self.cells[c]
    }

    /// Stores `v` into cell `c`.
    pub fn write(&mut self, c: usize, v: Value)
        requires
            old(self).wf(),
            c < old(self)@.cells.len(),
            refs_within(v@, old(self)@.vectors.len()),
        ensures
            final(self)@ == old(self)@.set_cell(c as int, v@),
            final(self).wf(),
    {
        let ghost vv = v@;
        self.cells.set(c, v);
        assert(self@.cells =~= old(self)@.cells.update(c as int, vv));
        assert(self@.vectors =~= old(self)@.vectors);
    }

    /// A new vector whose elements are the cells `elems`.
    pub fn alloc_vector(&mut self, elems: Vec<usize>) -> (id: usize)
        requires
            old(self).wf(),
            forall|j: int| 0 <= j < elems@.len() ==> #[trigger] elems@[j] < old(self)@.cells.len(),
        ensures
            id == old(self)@.vectors.len(),
            final(self)@ == old(self)@.with_vector(elems@),
            final(self).wf(),
    {
        let id = self.vectors.len();
        let ghost ev = elems@;
        self.vectors.push(elems);
        assert(self@.vectors =~= old(self)@.vectors.push(ev));
        assert(self@.cells =~= old(self)@.cells);
        proof {
            assert forall|c: int| 0 <= c < self@.cells.len() implies refs_within(#[trigger] self@.cells[c], self@.vectors.len()) by {
                assert(refs_within(old(self)@.cells[c], old(self)@.vectors.len()));
            }
        }
        id
    }

    /// The number of elements of vector `id`.
    /// A vector of the store has at most `usize::MAX` elements.
    pub proof fn lemma_vector_len_fits(&self, id: int)
        requires
            0 <= id < self@.vectors.len(),
        ensures
            self@.vectors[id].len() <= usize::MAX,
    {
        let v = self.vectors@[id];
        assert(self@.vectors[id] == v@);
        assert(v@.len() == v.len());
    }

    pub fn vector_len(&self, id: usize) -> (n: usize)
        requires
            id < self@.vectors.len(),
        ensures
            n == self@.vectors[id as int].len(),
    {
        self.vectors[id].len()
    }

    /// The cell that is element `i` of vector `id`.
    pub fn vector_cell(&self, id: usize, i: usize) -> (c: usize)
        requires
            id < self@.vectors.len(),
            i < self@.vectors[id as int].len(),
        ensures
            c == self@.vectors[id as int][i as int],
    {
        self.vectors[id][i]
    }

    /// A copy of the list of cells of vector `id`.
    pub fn vector_cells(&self, id: usize) -> (r: Vec<usize>)
        requires
            id < self@.vectors.len(),
        ensures
            r@ == self@.vectors[id as int],
    {
        self.vectors[id].clone()
    }

    /// Appends the cell `c` to vector `id`; every value naming that vector sees it.
    pub fn vector_push(&mut self, id: usize, c: usize)
        requires
            old(self).wf(),
            id < old(self)@.vectors.len(),
            c < old(self)@.cells.len(),
        ensures
            final(self)@ == old(self)@.set_vector(id as int, old(self)@.vectors[id as int].push(c)),
            final(self).wf(),
    {
        let mut elems = self.vectors[id].clone();
        elems.push(c);
        let ghost ev = elems@;
        self.vectors.set(id, elems);
        assert(self@.vectors =~= old(self)@.vectors.update(id as int, ev));
        assert(self@.cells =~= old(self)@.cells);
        assert forall|v: int, j: int| 0 <= v < self@.vectors.len() && 0 <= j < self@.vectors[v].len()
            implies #[trigger] self@.vectors[v][j] < self@.cells.len() by {
            if v == id && j < old(self)@.vectors[v].len() {
                assert(self@.vectors[v][j] == old(self)@.vectors[v][j]);
            }
        }
    }

    /// Makes element `i` of vector `id` the cell `c`.
    pub fn vector_set(&mut self, id: usize, i: usize, c: usize)
        requires
            old(self).wf(),
            id < old(self)@.vectors.len(),
            i < old(self)@.vectors[id as int].len(),
            c < old(self)@.cells.len(),
        ensures
            final(self)@ == old(self)@.set_vector(id as int, old(self)@.vectors[id as int].update(i as int, c)),
            final(self).wf(),
    {
        let mut elems = self.vectors[id].clone();
        elems.set(i, c);
        let ghost ev = elems@;
        self.vectors.set(id, elems);
        assert(self@.vectors =~= old(self)@.vectors.update(id as int, ev));
        assert(self@.cells =~= old(self)@.cells);
    }
}

} // verus!
