use vstd::prelude::*;

verus! {

/// A square matrix kept in a flat, row-major vector: `size` is the number of entries per row,
/// and the entry of row `r` and column `c` lies at index `r * size + c`.
pub struct Vmatrix<T> {
    pub size: usize,
    pub data: Vec<T>,
}

/// What a matrix holds: the number of entries per row, and the entries in row-major order.
pub struct VmatrixView<T> {
    pub size: int,
    pub cells: Seq<T>,
}

impl<T> View for Vmatrix<T> {
    type V = VmatrixView<T>;

    open spec fn view(&self) -> VmatrixView<T> {
        VmatrixView { size: self.size as int, cells: self.data@ }
    }
}

/// The entries of a matrix after rows and columns have changed places. Entries beyond the
/// first `size * size` stay where they are.
pub open spec fn transposed<T>(cells: Seq<T>, size: int) -> Seq<T> {
    Seq::new(
        cells.len(),
        |k: int|
            if 0 <= k < size * size {
                cells[(k % size) * size + k / size]
            } else {
                cells[k]
            },
    )
}

/// Whether an index lies outside the strict interior of a matrix, that is in its first or
/// last row, in its first or last column, or beyond its last row.
pub open spec fn on_border(size: int, index: int) -> bool {
    size <= 0 || index / size <= 0 || index / size >= size - 1 || index % size == 0 || index % size
        == size - 1
}

/// Index arithmetic: the mirror image of an index inside the matrix lies inside it too, and
/// mirroring twice gives the index back.
pub proof fn mirrored_index(k: int, size: int)
    requires
        0 <= size,
        0 <= k < size * size,
    ensures
        size > 0,
        0 <= k % size < size,
        0 <= k / size < size,
        0 <= (k % size) * size + k / size < size * size,
        ((k % size) * size + k / size) % size == k / size,
        ((k % size) * size + k / size) / size == k % size,
        (k / size) * size + k % size == k,
{
    assert(size > 0) by (nonlinear_arith)
        requires
            0 <= size,
            0 <= k < size * size,
    ;
    vstd::arithmetic::div_mod::lemma_fundamental_div_mod(k, size);
    let row = k / size;
    let column = k % size;
    assert(size * row == row * size) by (nonlinear_arith);
    assert(0 <= row < size) by (nonlinear_arith)
        requires
            k == row * size + column,
            0 <= column < size,
            0 <= k < size * size,
    ;
    assert(0 <= column * size + row < size * size) by (nonlinear_arith)
        requires
            0 <= column < size,
            0 <= row < size,
    ;
    vstd::arithmetic::div_mod::lemma_fundamental_div_mod_converse(
        column * size + row,
        size,
        column,
        row,
    );
}

/// Transposing twice gives the matrix back.
pub proof fn transpose_is_involution<T>(cells: Seq<T>, size: int)
    requires
        0 <= size,
        size * size <= cells.len(),
    ensures
        transposed(transposed(cells, size), size) == cells,
{
    let once = transposed(cells, size);
    let twice = transposed(once, size);
    assert forall|k: int| 0 <= k < cells.len() implies twice[k] == cells[k] by {
        if k < size * size {
            mirrored_index(k, size);
        }
    }
    assert(twice =~= cells);
}

impl<T: Copy> Vmatrix<T> {
    /// Whether the matrix holds exactly `size * size` entries.
    pub open spec fn wf(&self) -> bool {
        self.data@.len() == self.size * self.size
    }

    /// Create a matrix of the given row size that holds no entries yet.
    pub fn new(size: usize) -> (matrix: Vmatrix<T>)
        ensures
            matrix.size == size,
            matrix@.cells.len() == 0,
    {
        Vmatrix { data: Vec::new(), size }
    }

    /// Create a new matrix with a starting value in every entry.
    pub fn initialize(size: usize, initial_value: T) -> (matrix: Vmatrix<T>)
        requires
            size * size <= usize::MAX,
        ensures
            matrix.size == size,
            matrix.wf(),
            forall|k: int| 0 <= k < size * size ==> matrix@.cells[k] == initial_value,
    {
        let mut new_instance = Vmatrix { data: Vec::new(), size };

        let total_data_size: usize = size * size;
        let mut x: usize = 0;
        while x < total_data_size
            invariant
                x <= total_data_size,
                new_instance.size == size,
                new_instance.data@.len() == x,
                forall|k: int| 0 <= k < x ==> new_instance.data@[k] == initial_value,
            decreases total_data_size - x,
        {
            new_instance.data.push(initial_value);
            x += 1;
        }

        new_instance
    }

    /// Build a new matrix using the entries of an existing vector.
    pub fn build(size: usize, new_data: Vec<T>) -> (matrix: Vmatrix<T>)
        ensures
            matrix.size == size,
            matrix@.cells == new_data@,
    {
        Vmatrix { data: new_data, size }
    }

    /// Rearrange the data so that columns are read as rows.
    pub fn transpose(&mut self)
        requires
            old(self).size * old(self).size <= old(self)@.cells.len(),
        ensures
            final(self).size == old(self).size,
            final(self)@.cells == transposed(old(self)@.cells, old(self).size as int),
            old(self).wf() ==> final(self).wf(),
    {
        let data_copy = self.normal_copy();
        let size: usize = self.size;
        let length: usize = self.data.len();
        assert(size * size <= length);
        let total: usize = size * size;

        let mut k: usize = 0;
        while k < total
            invariant
                k <= total,
                total == size * size,
                total <= self.data@.len(),
                self.size == size,
                data_copy@.cells == old(self)@.cells,
                self.data@.len() == old(self)@.cells.len(),
                forall|m: int|
                    0 <= m < k ==> self.data@[m] == transposed(old(self)@.cells, size as int)[m],
                forall|m: int| k <= m < self.data@.len() ==> self.data@[m] == old(self)@.cells[m],
            decreases total - k,
        {
            proof {
                mirrored_index(k as int, size as int);
            }
            let source: usize = (k % size) * size + k / size;
            self.data[k] = data_copy.data[source];
            k += 1;
        }
        assert(self.data@ =~= transposed(old(self)@.cells, size as int));
    }

    /// Get a copy of the matrix.
    pub fn normal_copy(&self) -> (copy: Vmatrix<T>)
        ensures
            copy.size == self.size,
            copy@.cells == self@.cells,
    {
        let mut new_instance: Vmatrix<T> = Vmatrix { data: Vec::new(), size: self.size };

        let length: usize = self.data.len();
        let mut k: usize = 0;
        while k < length
            invariant
                k <= length,
                length == self.data@.len(),
                new_instance.size == self.size,
                new_instance.data@ == self.data@.subrange(0, k as int),
            decreases length - k,
        {
            new_instance.data.push(self.data[k]);
            assert(new_instance.data@ =~= self.data@.subrange(0, k + 1));
            k += 1;
        }
        assert(new_instance.data@ =~= self.data@);

        new_instance
    }

    /// Get a new matrix transposed from the input.
    pub fn transposed_copy(&self) -> (copy: Vmatrix<T>)
        requires
            self.size * self.size <= self@.cells.len(),
        ensures
            copy.size == self.size,
            copy@.cells == transposed(self@.cells, self.size as int),
    {
        let mut new_instance = self.normal_copy();
        new_instance.transpose();
        new_instance
    }

    /// Check whether a given value is a valid index for the data.
    pub fn test_index(&self, input: usize) -> (valid: bool)
        ensures
            valid == (input < self@.cells.len()),
    {
        input < self.data.len()
    }

    /// Check whether an index lies outside the strict interior of the matrix: in the outermost
    /// ring of rows and columns, or beyond the last row.
    pub fn test_border_index(&self, input: usize) -> (border: bool)
        ensures
            border == on_border(self.size as int, input as int),
    {
        if self.size == 0 {
            return true;
        }
        let row: usize = input / self.size;
        let column: usize = input % self.size;
        row == 0 || row >= self.size - 1 || column == 0 || column == self.size - 1
    }
}

impl<T: Copy> Clone for Vmatrix<T> {
    fn clone(&self) -> (copy: Self)
        ensures
            copy.size == self.size,
            copy@.cells == self@.cells,
    {
        self.normal_copy()
    }
}

/// The first `count` entries of a row, written in decimal digits one after the other.
pub open spec fn row_text(cells: Seq<u32>, size: int, row: int, count: int) -> Seq<char>
    decreases count,
{
    if count <= 0 {
        Seq::empty()
    } else {
        row_text(cells, size, row, count - 1) + crate::def::text::digits_text(
            cells[row * size + count - 1] as int,
        )
    }
}

/// The first `rows` rows of a matrix as text, a line for each row.
pub open spec fn rows_text(cells: Seq<u32>, size: int, rows: int) -> Seq<char>
    decreases rows,
{
    if rows <= 0 {
        Seq::empty()
    } else {
        rows_text(cells, size, rows - 1) + row_text(cells, size, rows - 1, size) + seq!['\n']
    }
}

/// The name of the file that holds the matrix of a given number in a series.
pub open spec fn standard_name(file_name: Seq<char>, id: int) -> Seq<char> {
    file_name + seq!['#'] + crate::def::text::digits_text(id) + ".txt"@
}

impl Vmatrix<u32> {
    /// The matrix as text: the entries of a row one after the other, and a new line after
    /// every row.
    pub fn to_text(&self) -> (text: String)
        requires
            self.size * self.size <= self@.cells.len(),
        ensures
            text@ == rows_text(self@.cells, self.size as int, self.size as int),
    {
        let mut complete_output: String = String::new();
        let size: usize = self.size;
        let length: usize = self.data.len();
        proof {
            reveal_strlit("\n");
        }
        let mut i: usize = 0;
        assert(complete_output@ =~= rows_text(self@.cells, size as int, 0));
        while i < size
            invariant
                i <= size,
                size == self.size,
                length == self@.cells.len(),
                size * size <= self@.cells.len(),
                "\n"@ == seq!['\n'],
                complete_output@ == rows_text(self@.cells, size as int, i as int),
            decreases size - i,
        {
            let ghost before = complete_output@;
            let mut j: usize = 0;
            assert(complete_output@ =~= before + row_text(self@.cells, size as int, i as int, 0));
            while j < size
                invariant
                    j <= size,
                    i < size,
                    size == self.size,
                    length == self@.cells.len(),
                    size * size <= self@.cells.len(),
                    complete_output@ == before + row_text(self@.cells, size as int, i as int, j as int),
                decreases size - j,
            {
                assert(i * size + j < size * size) by (nonlinear_arith)
                    requires
                        i < size,
                        j < size,
                ;
                let ghost row_before = complete_output@;
                crate::def::text::append_digits(&mut complete_output, self.data[j + i * size] as u64);
                assert(complete_output@ =~= before + row_text(
                    self@.cells,
                    size as int,
                    i as int,
                    j + 1,
                ));
                j += 1;
            }
            complete_output.append("\n");
            assert(complete_output@ =~= rows_text(self@.cells, size as int, i + 1));
            i += 1;
        }
        complete_output
    }
}

/// Compose the name of the file for the matrix of a given number in a series: the name, a
/// number sign, the number, and the ending of a text file.
pub fn compose_standard_name(file_name: &str, id: usize) -> (composed_name: String)
    ensures
        composed_name@ == standard_name(file_name@, id as int),
{
    proof {
        reveal_strlit("#");
    }
    let mut composed_name: String = file_name.to_owned();
    composed_name.append("#");
    crate::def::text::append_digits(&mut composed_name, id as u64);
    composed_name.append(".txt");
    assert(composed_name@ =~= standard_name(file_name@, id as int));
    composed_name
}

} // verus!
