use crate::def::vmatrix::Vmatrix;
use vstd::prelude::*;

verus! {

/// Entry by entry, 1 where `cells` holds a value other than zero and `other` holds zero,
/// and 0 everywhere else.
pub open spec fn exclusive(cells: Seq<u32>, other: Seq<u32>) -> Seq<u32> {
    Seq::new(
        cells.len(),
        |i: int|
            if cells[i] != 0 && other[i] == 0 {
                1u32
            } else {
                0u32
            },
    )
}

/// Nothing is exclusive to a matrix when it is compared with itself.
pub proof fn exclusive_with_itself_is_empty(cells: Seq<u32>)
    ensures
        exclusive(cells, cells).len() == cells.len(),
        forall|i: int| 0 <= i < cells.len() ==> exclusive(cells, cells)[i] == 0,
{
}

impl Vmatrix<u32> {
    /// Return a new matrix that has 1 on the entries where `self` has a number different from
    /// zero but `other` has zero, and 0 on all others.
    pub fn xor(&self, other: &Vmatrix<u32>) -> (result: Vmatrix<u32>)
        requires
            self.wf(),
            self@.cells.len() == other@.cells.len(),
        ensures
            result.size == self.size,
            result@.cells == exclusive(self@.cells, other@.cells),
    {
        let set_length: usize = self.data.len();
        let mut result: Vmatrix<u32> = Vmatrix::<u32>::initialize(self.size, 0);

        let mut i: usize = 0;
        while i < set_length
            invariant
                i <= set_length,
                set_length == self@.cells.len(),
                set_length == other@.cells.len(),
                result.size == self.size,
                result@.cells.len() == set_length,
                forall|k: int|
                    0 <= k < i ==> result@.cells[k] == exclusive(self@.cells, other@.cells)[k],
            decreases set_length - i,
        {
            if self.data[i] != 0 && other.data[i] == 0 {
                result.data[i] = 1;
            } else {
                result.data[i] = 0;
            }
            i += 1;
        }
        assert(result@.cells =~= exclusive(self@.cells, other@.cells));

        result
    }
}

} // verus!
