use vstd::prelude::*;

verus! {

/// Number of rows, and of columns, of a matrix.
pub const SIZE: usize = 4;

/// The position in a row-major buffer of the entry in row `row` and column `col`.
pub open spec fn entry_index(row: int, col: int) -> int {
    row * 4 + col
}

/// The entries `entries` with rows and columns exchanged.
pub open spec fn transposed<S>(entries: Seq<S>) -> Seq<S> {
    Seq::new(16, |i: int| entries[entry_index(i % 4, i / 4)])
}

/// Four rows of four entries, stored row after row. `S` is the type of an entry;
/// the matrix never looks inside one.
#[derive(Clone, Copy, PartialEq)]
pub struct Matrix<S>(pub [S; 16]);

impl<S: Copy> Matrix<S> {
    /// The position in the buffer of the entry in row `row` and column `col`.
    pub fn index_for(&self, row: usize, col: usize) -> (i: usize)
        requires
            entry_index(row as int, col as int) <= usize::MAX,
        ensures
            i == entry_index(row as int, col as int),
    {
        row * SIZE + col
    }

    /// The entry in row `row` and column `col`.
    pub fn get(&self, row: usize, col: usize) -> (val: S)
        requires
            entry_index(row as int, col as int) < 16,
        ensures
            val == self.0@[entry_index(row as int, col as int)],
    {
        self.0[self.index_for(row, col)]
    }

    /// The entry in row `row` and column `col`, to be changed in place.
    pub fn get_mut(&mut self, row: usize, col: usize) -> (val: &mut S)
        requires
            entry_index(row as int, col as int) < 16,
        ensures
            *val == old(self).0@[entry_index(row as int, col as int)],
            final(self).0@ == old(self).0@.update(
                entry_index(row as int, col as int),
                *final(val),
            ),
    {
        let i = self.index_for(row, col);
        &mut self.0[i]
    }

    /// Stores `val` in row `row` and column `col`. No other entry changes.
    pub fn set(&mut self, row: usize, col: usize, val: S)
        requires
            entry_index(row as int, col as int) < 16,
        ensures
            final(self).0@ == old(self).0@.update(entry_index(row as int, col as int), val),
    {
        let i = self.index_for(row, col);
        self.0[i] = val;
    }

    /// Exchanges rows and columns.
    pub fn transpose(&mut self)
        ensures
            final(self).0@ == transposed(old(self).0@),
    {
        let ghost before = self.0@;
        let mut r: usize = 0;
        while r < SIZE
            invariant
                r <= 4,
                before.len() == 16,
                self.0@.len() == 16,
                forall|i: int, j: int|
                    0 <= i < 4 && 0 <= j < 4 ==> #[trigger] self.0@[entry_index(i, j)] == (if i < r
                        && j < r {
                        before[entry_index(j, i)]
                    } else {
                        before[entry_index(i, j)]
                    }),
            decreases 4 - r,
        {
            let mut c: usize = 0;
            while c < r
                invariant
                    r < 4,
                    c <= r,
                    before.len() == 16,
                    self.0@.len() == 16,
                    forall|i: int, j: int|
                        0 <= i < 4 && 0 <= j < 4 ==> #[trigger] self.0@[entry_index(i, j)] == (if (i
                            < r && j < r) || (i == r && j < c) || (j == r && i < c) {
                            before[entry_index(j, i)]
                        } else {
                            before[entry_index(i, j)]
                        }),
                decreases r - c,
            {
                let ghost previous = self.0@;
                let temp = self.get(r, c);
                let other = self.get(c, r);
                self.set(r, c, other);
                self.set(c, r, temp);
                proof {
                    assert forall|i: int, j: int| 0 <= i < 4 && 0 <= j < 4 implies #[trigger] self.0@[entry_index(
                        i,
                        j,
                    )] == (if (i < r && j < r) || (i == r && j < c + 1) || (j == r && i < c + 1) {
                        before[entry_index(j, i)]
                    } else {
                        before[entry_index(i, j)]
                    }) by {
                        assert(previous[entry_index(i, j)] == (if (i < r && j < r) || (i == r && j
                            < c) || (j == r && i < c) {
                            before[entry_index(j, i)]
                        } else {
                            before[entry_index(i, j)]
                        }));
                        assert(previous[entry_index(r as int, c as int)] == before[entry_index(
                            r as int,
                            c as int,
                        )]);
                        assert(previous[entry_index(c as int, r as int)] == before[entry_index(
                            c as int,
                            r as int,
                        )]);
                    }
                }
                c += 1;
            }
            r += 1;
        }
        proof {
            assert forall|k: int| 0 <= k < 16 implies self.0@[k] == transposed(before)[k] by {
                assert(k == entry_index(k / 4, k % 4));
                assert(self.0@[entry_index(k / 4, k % 4)] == before[entry_index(k % 4, k / 4)]);
            }
            assert(self.0@ =~= transposed(before));
        }
    }

    /// The matrix with rows and columns exchanged.
    pub fn transposition(&self) -> (result: Matrix<S>)
        ensures
            result.0@ == transposed(self.0@),
    {
        let mut result = *self;
        result.transpose();
        result
    }
}

/// Exchanging rows and columns twice gives the matrix back.
pub proof fn lemma_transposed_twice<S>(entries: Seq<S>)
    requires
        entries.len() == 16,
    ensures
        transposed(transposed(entries)) == entries,
{
    assert forall|k: int| 0 <= k < 16 implies transposed(transposed(entries))[k] == entries[k] by {
        let m = entry_index(k % 4, k / 4);
        assert(m % 4 == k / 4 && m / 4 == k % 4);
        assert(entry_index(m % 4, m / 4) == k);
    }
    assert(transposed(transposed(entries)) =~= entries);
}

} // verus!
