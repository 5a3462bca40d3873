//! Composite basis states of several qubits, and their density matrices.
//!
//! Each qubit is put into one of its two basis states. The state of all of
//! them is the Kronecker product of the single states, a row with a single
//! one; the density matrix is the product of that row with itself as a
//! column.

use vstd::prelude::*;
use vstd::arithmetic::power2::{
    pow2, lemma2_to64, lemma_pow2_pos, lemma_pow2_unfold, lemma_pow2_strictly_increases,
};
use vstd::arithmetic::div_mod::{lemma_small_mod, lemma_basic_div};
use crate::values::Complex;
use crate::matrix::{kronecker, kronecker_entry, kronecker_fn, is_matrix, all_bits};

verus! {

/// The binary digit that a choice stands for: zero picks the first basis
/// state, anything else the second.
pub open spec fn digit(choice: usize) -> nat {
    if choice == 0 {
        0
    } else {
        1
    }
}

/// The place of the one in the composite state: the choices read as a binary
/// number, the first qubit being the most significant digit.
pub open spec fn basis_index(choices: Seq<usize>) -> nat
    decreases choices.len(),
{
    if choices.len() == 0 {
        0
    } else {
        2 * basis_index(choices.drop_last()) + digit(choices.last())
    }
}

/// A row of `len` entries, all zero but a one at `index`.
pub open spec fn unit_row(len: nat, index: nat) -> Seq<Complex> {
    Seq::new(
        len,
        |c: int|
            if c == index {
                Complex::spec_one()
            } else {
                Complex::spec_zero()
            },
    )
}

/// A square matrix of `len` rows, all zero but a one on the diagonal at
/// `index`.
pub open spec fn projector(len: nat, index: nat) -> Seq<Seq<Complex>> {
    Seq::new(
        len,
        |r: int|
            Seq::new(
                len,
                |c: int|
                    if r == index && c == index {
                        Complex::spec_one()
                    } else {
                        Complex::spec_zero()
                    },
            ),
    )
}

/// The composite state of the chosen basis states: one row of `2^n` entries
/// for `n >= 1` qubits, and no row at all for none.
pub open spec fn composite(choices: Seq<usize>) -> Seq<Seq<Complex>> {
    if choices.len() == 0 {
        Seq::empty()
    } else {
        seq![unit_row(pow2(choices.len()), basis_index(choices))]
    }
}

/// The density matrix of the chosen basis states: `2^n` rows and columns for
/// `n >= 1` qubits, and an empty matrix for none.
pub open spec fn density(choices: Seq<usize>) -> Seq<Seq<Complex>> {
    if choices.len() == 0 {
        Seq::empty()
    } else {
        projector(pow2(choices.len()), basis_index(choices))
    }
}

/// The number of ones in `row`: the sum of its entries, where they are zeros
/// and ones.
pub open spec fn ones(row: Seq<Complex>) -> nat
    decreases row.len(),
{
    if row.len() == 0 {
        0
    } else {
        ones(row.drop_last()) + if row.last() == Complex::spec_one() {
            1nat
        } else {
            0nat
        }
    }
}

/// Column `c` of the matrix `m`.
pub open spec fn column(m: Seq<Seq<Complex>>, c: int) -> Seq<Complex> {
    Seq::new(m.len(), |r: int| m[r][c])
}

/// A row that holds a one at `index`, if that is a place in it, and zeros
/// elsewhere sums to one or to zero accordingly.
pub proof fn lemma_ones_of_unit(row: Seq<Complex>, index: int)
    requires
        forall|c: int|
            0 <= c < row.len() ==> #[trigger] row[c] == if c == index {
                Complex::spec_one()
            } else {
                Complex::spec_zero()
            },
    ensures
        ones(row) == if 0 <= index < row.len() {
            1nat
        } else {
            0nat
        },
    decreases row.len(),
{
    if row.len() > 0 {
        let shorter = row.drop_last();
        assert forall|c: int| 0 <= c < shorter.len() implies #[trigger] shorter[c] == if c
            == index {
            Complex::spec_one()
        } else {
            Complex::spec_zero()
        } by {
            assert(shorter[c] == row[c]);
        }
        lemma_ones_of_unit(shorter, index);
        assert(row.last() == row[row.len() - 1]);
    }
}

/// The matrix with a single one on the diagonal has `len` rows and columns
/// of zeros and ones. Its only one is at `index` in row `index`: that row
/// and that column sum to one, and every other row and column to zero.
pub proof fn lemma_projector(len: nat, index: nat)
    requires
        index < len,
    ensures
        projector(len, index).len() == len,
        crate::matrix::has_cols(projector(len, index), len),
        all_bits(projector(len, index)),
        forall|r: int, c: int|
            0 <= r < len && 0 <= c < len ==> (#[trigger] projector(len, index)[r][c]
                == Complex::spec_one() <==> r == index && c == index),
        forall|r: int|
            0 <= r < len ==> ones(#[trigger] projector(len, index)[r]) == if r == index {
                1nat
            } else {
                0nat
            },
        forall|c: int|
            0 <= c < len ==> ones(#[trigger] column(projector(len, index), c)) == if c == index {
                1nat
            } else {
                0nat
            },
{
    let m = projector(len, index);
    assert forall|r: int| 0 <= r < len implies ones(#[trigger] m[r]) == if r == index {
        1nat
    } else {
        0nat
    } by {
        lemma_ones_of_unit(m[r], if r == index { index as int } else { -1 });
    }
    assert forall|c: int| 0 <= c < len implies ones(#[trigger] column(m, c)) == if c == index {
        1nat
    } else {
        0nat
    } by {
        lemma_ones_of_unit(column(m, c), if c == index { index as int } else { -1 });
    }
}

/// The one of a composite state lies within the row.
pub proof fn lemma_basis_index_bound(choices: Seq<usize>)
    ensures
        basis_index(choices) < pow2(choices.len()),
    decreases choices.len(),
{
    if choices.len() == 0 {
        lemma_pow2_pos(0);
    } else {
        lemma_basis_index_bound(choices.drop_last());
        lemma_pow2_unfold(choices.len());
    }
}

/// The state of one qubit: `[[1, 0]]` for choice zero, else `[[0, 1]]`.
pub fn basis_state(choice: usize) -> (state: Vec<Vec<Complex>>)
    ensures
        state.deep_view() == seq![unit_row(2, digit(choice))],
{
    let row = if choice == 0 {
        vec![Complex::one(), Complex::zero()]
    } else {
        vec![Complex::zero(), Complex::one()]
    };
    let state = vec![row];
    proof {
        assert(state.deep_view()[0] =~= unit_row(2, digit(choice)));
        assert(state.deep_view() =~= seq![unit_row(2, digit(choice))]);
    }
    state
}

/// Joining one more qubit to a composite state doubles the row and moves the
/// one to twice its place, plus the digit of the new qubit.
proof fn lemma_join(len: nat, index: nat, d: nat)
    requires
        index < len,
        d < 2,
    ensures
        kronecker(seq![unit_row(len, index)], seq![unit_row(2, d)]) == seq![
            unit_row(2 * len, 2 * index + d),
        ],
{
    let a = seq![unit_row(len, index)];
    let b = seq![unit_row(2, d)];
    let k = kronecker(a, b);
    let want = seq![unit_row(2 * len, 2 * index + d)];
    assert(a.len() * b.len() == 1) by (nonlinear_arith)
        requires
            a.len() == 1,
            b.len() == 1,
    ;
    assert(a[0].len() * b[0].len() == 2 * len) by (nonlinear_arith)
        requires
            a[0].len() == len,
            b[0].len() == 2,
    ;
    assert(k.len() == 1);
    assert(k[0].len() == 2 * len);
    assert forall|y: int| 0 <= y < 2 * len implies k[0][y] == want[0][y] by {
        assert(k[0][y] == kronecker_entry(a, b, 0, y));
    }
    assert(k[0] =~= want[0]);
    assert(k =~= want);
}

/// The product of a composite state, as a row, with itself as a column is
/// the matrix with the single one on the diagonal.
proof fn lemma_outer(len: nat, index: nat, column: Seq<Seq<Complex>>)
    requires
        index < len,
        column.len() == len,
        forall|r: int| 0 <= r < len ==> #[trigger] column[r] == seq![unit_row(len, index)[r]],
    ensures
        kronecker(seq![unit_row(len, index)], column) == projector(len, index),
{
    let a = seq![unit_row(len, index)];
    let k = kronecker(a, column);
    let want = projector(len, index);
    assert(a.len() * column.len() == len) by (nonlinear_arith)
        requires
            a.len() == 1,
            column.len() == len,
    ;
    assert(column[0] == seq![unit_row(len, index)[0]]);
    assert(a[0].len() * column[0].len() == len) by (nonlinear_arith)
        requires
            a[0].len() == len,
            column[0].len() == 1,
    ;
    assert(k.len() == len);
    assert forall|x: int| 0 <= x < len implies k[x] =~= want[x] by {
        assert(k[x].len() == len);
        lemma_basic_div(x, len as int);
        lemma_small_mod(x as nat, len);
        assert(column[x] == seq![unit_row(len, index)[x]]);
        assert forall|y: int| 0 <= y < len implies k[x][y] == want[x][y] by {
            assert(k[x][y] == kronecker_entry(a, column, x, y));
        }
    }
    assert(k =~= want);
}

/// Builds the composite state of the chosen basis states by joining the
/// qubits one after the other.
pub fn composite_state(choices: &Vec<usize>) -> (statevec: Vec<Vec<Complex>>)
    requires
        pow2(choices@.len()) <= usize::MAX,
    ensures
        statevec.deep_view() == composite(choices@),
{
    let number_qubits = choices.len();
    if number_qubits == 0 {
        let statevec: Vec<Vec<Complex>> = Vec::new();
        assert(statevec.deep_view() =~= composite(choices@));
        return statevec;
    }
    let mut statevec = basis_state(choices[0]);
    proof {
        assert(choices@.take(1).drop_last() =~= Seq::<usize>::empty());
        assert(basis_index(choices@.take(1)) == digit(choices@[0])) by {
            reveal_with_fuel(basis_index, 2);
        }
        lemma2_to64();
    }
    let mut i: usize = 1;
    while i < number_qubits
        invariant
            1 <= i <= number_qubits,
            number_qubits == choices@.len(),
            pow2(choices@.len()) <= usize::MAX,
            statevec.deep_view() == seq![
                unit_row(pow2(i as nat), basis_index(choices@.take(i as int))),
            ],
        decreases number_qubits - i,
    {
        let next = basis_state(choices[i]);
        proof {
            let sv = statevec.deep_view();
            let nv = next.deep_view();
            let taken = choices@.take(i as int);
            lemma_basis_index_bound(taken);
            lemma_pow2_unfold((i + 1) as nat);
            if i + 1 < number_qubits {
                lemma_pow2_strictly_increases((i + 1) as nat, number_qubits as nat);
            }
            assert(is_matrix(sv));
            assert(is_matrix(nv));
            assert(all_bits(sv));
            assert(all_bits(nv));
            assert(statevec@[0]@.len() == sv[0].len());
            assert(next@[0]@.len() == nv[0].len());
            assert(statevec@.len() * next@.len() == 1) by (nonlinear_arith)
                requires
                    statevec@.len() == 1,
                    next@.len() == 1,
            ;
            assert(statevec@[0]@.len() * next@[0]@.len() == 2 * pow2(i as nat)) by (nonlinear_arith)
                requires
                    statevec@[0]@.len() == pow2(i as nat),
                    next@[0]@.len() == 2,
            ;
            lemma_join(pow2(i as nat), basis_index(taken), digit(choices@[i as int]));
            assert(choices@.take(i + 1).drop_last() =~= taken);
            assert(choices@.take(i + 1).last() == choices@[i as int]);
        }
        statevec = kronecker_fn(&statevec, &next);
        i += 1;
    }
    proof {
        assert(choices@.take(number_qubits as int) =~= choices@);
    }
    statevec
}

/// Builds the density matrix of the chosen basis states: the product of the
/// composite state, as a row, with itself as a column.
pub fn density_matrix(choices: &Vec<usize>) -> (matrix: Vec<Vec<Complex>>)
    requires
        pow2(choices@.len()) <= usize::MAX,
    ensures
        matrix.deep_view() == density(choices@),
{
    let statevec = composite_state(choices);
    if statevec.len() == 0 {
        let matrix: Vec<Vec<Complex>> = Vec::new();
        proof {
            assert(statevec.deep_view().len() == 0);
            assert(matrix.deep_view() =~= density(choices@));
        }
        return matrix;
    }
    let ghost len = pow2(choices@.len());
    let ghost index = basis_index(choices@);
    proof {
        assert(statevec.deep_view().len() == statevec@.len());
        assert(choices@.len() != 0);
        assert(statevec.deep_view()[0] == unit_row(len, index));
        assert(statevec@[0]@.len() == len);
        lemma_basis_index_bound(choices@);
    }
    let mut statevec_to_row: Vec<Complex> = Vec::new();
    let mut statevec_column: Vec<Vec<Complex>> = Vec::new();
    let width = statevec[0].len();
    let mut c: usize = 0;
    while c < width
        invariant
            c <= width,
            width == len,
            statevec@.len() > 0,
            statevec@[0]@.len() == width,
            statevec.deep_view()[0] == unit_row(len, index),
            statevec_to_row@.len() == c,
            statevec_column@.len() == c,
            forall|y: int| 0 <= y < c ==> #[trigger] statevec_to_row@[y] == unit_row(len, index)[y],
            forall|y: int|
                0 <= y < c ==> (#[trigger] statevec_column@[y])@ == seq![unit_row(len, index)[y]],
        decreases width - c,
    {
        let value = statevec[0][c];
        proof {
            assert(statevec.deep_view()[0][c as int] == value);
        }
        statevec_to_row.push(value);
        let cell = vec![value];
        assert(cell@ =~= seq![unit_row(len, index)[c as int]]);
        statevec_column.push(cell);
        c += 1;
    }
    let statevec_row = vec![statevec_to_row];
    proof {
        let rv = statevec_row.deep_view();
        let cv = statevec_column.deep_view();
        assert(rv[0] =~= unit_row(len, index));
        assert(rv =~= seq![unit_row(len, index)]);
        assert forall|r: int| 0 <= r < len implies #[trigger] cv[r] == seq![
            unit_row(len, index)[r],
        ] by {
            assert(cv[r] =~= statevec_column@[r]@);
        }
        assert(is_matrix(rv));
        assert(is_matrix(cv));
        assert(all_bits(rv));
        assert(all_bits(cv));
        assert(statevec_row@[0]@.len() == rv[0].len());
        assert(statevec_column@[0]@.len() == cv[0].len());
        assert(statevec_row@.len() * statevec_column@.len() == len) by (nonlinear_arith)
            requires
                statevec_row@.len() == 1,
                statevec_column@.len() == len,
        ;
        assert(statevec_row@[0]@.len() * statevec_column@[0]@.len() == len) by (nonlinear_arith)
            requires
                statevec_row@[0]@.len() == len,
                statevec_column@[0]@.len() == 1,
        ;
        lemma_outer(len, index, cv);
    }
    kronecker_fn(&statevec_row, &statevec_column)
}

} // verus!
