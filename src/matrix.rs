use vstd::prelude::*;

verus! {

/// Index of the cell at `row`, `col` in the column-major layout of a 4x4 grid.
pub open spec fn cell(row: int, col: int) -> int {
    row + 4 * col
}

/// A 4x4 grid of bytes, stored column by column: bytes 0..4 are column 0, and so on.
#[derive(Debug)]
pub struct Matrix {
    data: [u8; 16],
}

impl View for Matrix {
    type V = Seq<u8>;

    closed spec fn view(&self) -> Seq<u8> {
        self.data@
    }
}

impl Matrix {
    pub proof fn lemma_len(&self)
        ensures
            self@.len() == 16,
    {
    }

    /// A grid of zeros.
    pub fn new() -> (r: Self)
        ensures
            r@ == Seq::new(16, |i: int| 0u8),
    {
        let r = Matrix { data: [0u8; 16] };
        assert(r@ =~= Seq::new(16, |i: int| 0u8));
        r
    }

    /// A grid from its rows: `data[r][c]` is the cell at row `r`, column `c`.
    pub fn new_from_data(data: [[u8; 4]; 4]) -> (r: Self)
        ensures
            r@.len() == 16,
            forall|row: int, col: int|
                0 <= row < 4 && 0 <= col < 4 ==> r@[cell(row, col)] == data[row][col],
    {
        let mut m = Matrix::new();
        let mut row: usize = 0;
        while row < 4
            invariant
                row <= 4,
                m@.len() == 16,
                forall|r: int, c: int|
                    0 <= r < row && 0 <= c < 4 ==> m@[cell(r, c)] == data[r][c],
            decreases 4 - row,
        {
            let mut col: usize = 0;
            while col < 4
                invariant
                    row < 4,
                    col <= 4,
                    m@.len() == 16,
                    forall|r: int, c: int|
                        0 <= r < row && 0 <= c < 4 ==> m@[cell(r, c)] == data[r][c],
                    forall|c: int| 0 <= c < col ==> m@[cell(row as int, c)] == data[row as int][c],
                decreases 4 - col,
            {
                m.set(row, col, data[row][col]);
                col += 1;
            }
            row += 1;
        }
        m
    }

    /// The byte at `row`, `col`.
    pub fn get(&self, row: usize, col: usize) -> (v: u8)
        requires
            row < 4,
            col < 4,
        ensures
            v == self@[cell(row as int, col as int)],
    {
        self.data[row + 4 * col]
    }

    /// Replaces the byte at `row`, `col`.
    pub fn set(&mut self, row: usize, col: usize, value: u8)
        requires
            row < 4,
            col < 4,
        ensures
            final(self)@ == old(self)@.update(cell(row as int, col as int), value),
    {
        self.data[row + 4 * col] = value;
    }

    pub fn get_rows_amount(&self) -> (n: usize)
        ensures
            n == 4,
    {
        4
    }

    pub fn get_cols_amount(&self) -> (n: usize)
        ensures
            n == 4,
    {
        4
    }

    /// The four bytes of row `row`, from column 0 to column 3.
    pub fn get_row(&self, row: usize) -> (r: [u8; 4])
        requires
            row < 4,
        ensures
            forall|c: int| 0 <= c < 4 ==> r[c] == self@[cell(row as int, c)],
    {
        [self.get(row, 0), self.get(row, 1), self.get(row, 2), self.get(row, 3)]
    }

    /// The four columns, from column 0 to column 3.
    pub fn get_cols(&self) -> (r: Vec<[u8; 4]>)
        ensures
            r@.len() == 4,
            forall|c: int, i: int|
                0 <= c < 4 && 0 <= i < 4 ==> #[trigger] r@[c][i] == self@[cell(i, c)],
    {
        let mut r: Vec<[u8; 4]> = Vec::new();
        let mut c: usize = 0;
        while c < 4
            invariant
                c <= 4,
                r@.len() == c,
                forall|k: int, i: int|
                    0 <= k < c && 0 <= i < 4 ==> r@[k][i] == self@[cell(i, k)],
            decreases 4 - c,
        {
            r.push(self.get_col(c));
            c += 1;
        }
        r
    }

    /// The four bytes of column `col`, from row 0 to row 3.
    pub fn get_col(&self, col: usize) -> (r: [u8; 4])
        requires
            col < 4,
        ensures
            forall|i: int| 0 <= i < 4 ==> r[i] == self@[cell(i, col as int)],
    {
        [self.get(0, col), self.get(1, col), self.get(2, col), self.get(3, col)]
    }

    /// Replaces column `col` by `data`, row 0 first.
    pub fn set_col(&mut self, col: usize, data: [u8; 4])
        requires
            col < 4,
        ensures
            final(self)@.len() == 16,
            forall|i: int|
                0 <= i < 16 ==> #[trigger] final(self)@[i] == if i / 4 == col {
                    data[i % 4]
                } else {
                    old(self)@[i]
                },
    {
        self.set(0, col, data[0]);
        self.set(1, col, data[1]);
        self.set(2, col, data[2]);
        self.set(3, col, data[3]);
    }

    /// Rotates row `row` cyclically to the left by `amount` positions.
    pub fn shift_row_left(&mut self, row: usize, amount: usize)
        requires
            row < 4,
        ensures
            final(self)@.len() == 16,
            forall|i: int|
                0 <= i < 16 ==> #[trigger] final(self)@[i] == if i % 4 == row {
                    old(self)@[cell(row as int, (i / 4 + amount) % 4)]
                } else {
                    old(self)@[i]
                },
    {
        let old_row = self.get_row(row);
        let shift: usize = amount % 4;
        let mut c: usize = 0;
        while c < 4
            invariant
                c <= 4,
                shift == amount % 4,
                row < 4,
                self@.len() == 16,
                forall|k: int| 0 <= k < 4 ==> old_row[k] == old(self)@[cell(row as int, k)],
                forall|i: int|
                    0 <= i < 16 ==> #[trigger] self@[i] == if i % 4 == row && i / 4 < c {
                        old(self)@[cell(row as int, (i / 4 + amount) % 4)]
                    } else {
                        old(self)@[i]
                    },
            decreases 4 - c,
        {
            assert((c + shift) % 4 == (c + amount) % 4) by {
                assert(amount == (amount / 4) * 4 + shift);
                assert((c + amount) == (c + shift) + (amount / 4) * 4);
                vstd::arithmetic::div_mod::lemma_mod_multiples_vanish(
                    (amount / 4) as int,
                    (c + shift) as int,
                    4,
                );
            }
            self.set(row, c, old_row[(c + shift) % 4]);
            c += 1;
        }
    }

    /// Rotates row `row` cyclically to the right by `amount` positions.
    pub fn shift_row_right(&mut self, row: usize, amount: usize)
        requires
            row < 4,
        ensures
            final(self)@.len() == 16,
            forall|i: int|
                0 <= i < 16 ==> #[trigger] final(self)@[i] == if i % 4 == row {
                    old(self)@[cell(row as int, (i / 4 + 4 - amount % 4) % 4)]
                } else {
                    old(self)@[i]
                },
    {
        let old_row = self.get_row(row);
        let shift: usize = amount % 4;
        let mut c: usize = 0;
        while c < 4
            invariant
                c <= 4,
                shift == amount % 4,
                row < 4,
                self@.len() == 16,
                forall|k: int| 0 <= k < 4 ==> old_row[k] == old(self)@[cell(row as int, k)],
                forall|i: int|
                    0 <= i < 16 ==> #[trigger] self@[i] == if i % 4 == row && i / 4 < c {
                        old(self)@[cell(row as int, (i / 4 + 4 - amount % 4) % 4)]
                    } else {
                        old(self)@[i]
                    },
            decreases 4 - c,
        {
            self.set(row, c, old_row[(c + 4 - shift) % 4]);
            c += 1;
        }
    }
}

} // verus!
