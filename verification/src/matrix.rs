use vstd::prelude::*;
use vstd::pervasive::VecAdditionalExecFns;
use vstd::string::StringExecFns;

use crate::decimal::dec_int;
use crate::decimal::dec_nat;
use crate::decimal::push_i64;
use crate::decimal::push_u64;
use crate::errors::MultiplyError;
use crate::vector::dot_in_bounds;
use crate::vector::dot_partial;
use crate::vector::dot_product;
use crate::vector::dot_spec;
use crate::vector::dot_within_bounds;
use crate::vector::Vector;

verus! {

/// An immutable-shape dense two-dimensional container, stored row-major in
/// one flat buffer of length `rows * cols`.
#[derive(Debug)]
pub struct Matrix {
    pub data: Vec<i64>,
    pub rows: usize,
    pub cols: usize,
}

impl Matrix {
    /// The shape invariant: the flat buffer holds exactly one element per
    /// cell of the declared shape.
    pub open spec fn wf(&self) -> bool {
        self.data@.len() == self.rows * self.cols
    }

    /// The element at row `i`, column `j`.
    pub open spec fn entry(&self, i: int, j: int) -> i64 {
        self.data@[i * self.cols + j]
    }

    /// Row `i` as a sequence: a contiguous slice of the flat buffer.
    pub open spec fn row_spec(&self, i: int) -> Seq<i64> {
        Seq::new(self.cols as nat, |k: int| self.data@[i * self.cols + k])
    }

    /// Column `j` as a sequence: every `cols`-th element starting at `j`.
    pub open spec fn col_spec(&self, j: int) -> Seq<i64> {
        Seq::new(self.rows as nat, |k: int| self.data@[k * self.cols + j])
    }

    /// Builds a matrix from a flat row-major buffer and a declared shape.
    /// Fails exactly when the buffer length disagrees with the shape.
    pub fn new(data: Vec<i64>, rows: usize, cols: usize) -> (r: Result<Matrix, MultiplyError>)
        ensures
            data@.len() == rows * cols ==> (r matches Ok(m) && m.data@ == data@ && m.rows == rows
                && m.cols == cols && m.wf()),
            data@.len() != rows * cols ==> r == Err::<Matrix, MultiplyError>(
                MultiplyError::ShapeMismatch,
            ),
    {
        let buffer_len = data.len();
        match rows.checked_mul(cols) {
            Some(total) => {
                if buffer_len == total {
                    Ok(Matrix { data, rows, cols })
                } else {
                    Err(MultiplyError::ShapeMismatch)
                }
            },
            None => {
                // The product exceeds usize, so no buffer can match it.
                Err(MultiplyError::ShapeMismatch)
            },
        }
    }

    /// Copies row `i` out of the matrix as an independent value.
    pub fn row(&self, i: usize) -> (r: Vector)
        requires
            self.wf(),
            i < self.rows,
        ensures
            r@ == self.row_spec(i as int),
            r@.len() == self.cols,
    {
        let buffer_len = self.data.len();
        let mut out: Vec<i64> = Vec::new();
        let mut k: usize = 0;
        while k < self.cols
            invariant
                self.wf(),
                self.data@.len() == buffer_len,
                i < self.rows,
                k <= self.cols,
                out@.len() == k,
                forall|t: int| 0 <= t < k ==> out@[t] == self.data@[i * self.cols + t],
            decreases self.cols - k,
        {
            assert(i * self.cols + k < self.rows * self.cols) by (nonlinear_arith)
                requires
                    i < self.rows,
                    k < self.cols,
            ;
            out.push(self.data[i * self.cols + k]);
            k = k + 1;
        }
        assert(out@ =~= self.row_spec(i as int));
        Vector::new(out)
    }

    /// Copies column `j` out of the matrix as an independent value.
    pub fn col(&self, j: usize) -> (r: Vector)
        requires
            self.wf(),
            j < self.cols,
        ensures
            r@ == self.col_spec(j as int),
            r@.len() == self.rows,
    {
        let buffer_len = self.data.len();
        let mut out: Vec<i64> = Vec::new();
        let mut k: usize = 0;
        while k < self.rows
            invariant
                self.wf(),
                self.data@.len() == buffer_len,
                j < self.cols,
                k <= self.rows,
                out@.len() == k,
                forall|t: int| 0 <= t < k ==> out@[t] == self.data@[t * self.cols + j],
            decreases self.rows - k,
        {
            assert(k * self.cols + j < self.rows * self.cols) by (nonlinear_arith)
                requires
                    k < self.rows,
                    j < self.cols,
            ;
            out.push(self.data[k * self.cols + j]);
            k = k + 1;
        }
        assert(out@ =~= self.col_spec(j as int));
        Vector::new(out)
    }
}

/// The space-separated cells of row `i`, first `j` of them.
pub open spec fn render_cells(m: &Matrix, i: int, j: int) -> Seq<char>
    decreases j,
{
    if j <= 0 {
        Seq::empty()
    } else if j == 1 {
        dec_int(m.entry(i, 0) as int)
    } else {
        render_cells(m, i, j - 1) + seq![' '] + dec_int(m.entry(i, j - 1) as int)
    }
}

/// The comma-separated rows of `m`, first `i` of them.
pub open spec fn render_rows(m: &Matrix, i: int) -> Seq<char>
    decreases i,
{
    if i <= 0 {
        Seq::empty()
    } else if i == 1 {
        render_cells(m, 0, m.cols as int)
    } else {
        render_rows(m, i - 1) + seq![','] + render_cells(m, i - 1, m.cols as int)
    }
}

/// The structured textual rendering of a matrix: rows between braces,
/// cells space-separated, rows comma-separated.
pub open spec fn render_spec(m: &Matrix) -> Seq<char> {
    seq!['{'] + render_rows(m, m.rows as int) + seq!['}']
}

/// The debugging line for a matrix: its rendering together with its shape.
pub open spec fn describe_spec(m: &Matrix) -> Seq<char> {
    "Matrix:data:"@ + render_spec(m) + ",rows:"@ + dec_nat(m.rows as nat) + ",cols:"@ + dec_nat(
        m.cols as nat,
    )
}

impl Matrix {
    /// Renders the matrix as text: a 2-by-3 matrix of 1 to 6 becomes
    /// `{1 2 3,4 5 6}`.
    pub fn render(&self) -> (r: String)
        requires
            self.wf(),
        ensures
            r@ == render_spec(self),
    {
        let buffer_len = self.data.len();
        let mut s = String::new();
        proof {
            reveal_strlit("{");
        }
        s.append("{");
        proof {
            assert(s@ =~= seq!['{'] + render_rows(self, 0));
        }
        let mut i: usize = 0;
        while i < self.rows
            invariant
                self.wf(),
                self.data@.len() == buffer_len,
                i <= self.rows,
                s@ == seq!['{'] + render_rows(self, i as int),
            decreases self.rows - i,
        {
            if i > 0 {
                proof {
                    reveal_strlit(",");
                }
                s.append(",");
            }
            let mut j: usize = 0;
            while j < self.cols
                invariant
                    self.wf(),
                    self.data@.len() == buffer_len,
                    i < self.rows,
                    j <= self.cols,
                    s@ == seq!['{'] + render_rows(self, i as int) + (if i == 0 {
                        Seq::<char>::empty()
                    } else {
                        seq![',']
                    }) + render_cells(self, i as int, j as int),
                decreases self.cols - j,
            {
                if j > 0 {
                    proof {
                        reveal_strlit(" ");
                    }
                    s.append(" ");
                }
                assert(i * self.cols + j < self.rows * self.cols) by (nonlinear_arith)
                    requires
                        i < self.rows,
                        j < self.cols,
                ;
                push_i64(&mut s, self.data[i * self.cols + j]);
                proof {
                    assert(s@ =~= seq!['{'] + render_rows(self, i as int) + (if i == 0 {
                        Seq::<char>::empty()
                    } else {
                        seq![',']
                    }) + render_cells(self, i as int, j as int + 1));
                }
                j = j + 1;
            }
            proof {
                assert(s@ =~= seq!['{'] + render_rows(self, i as int + 1));
            }
            i = i + 1;
        }
        proof {
            reveal_strlit("}");
        }
        s.append("}");
        proof {
            assert(s@ =~= render_spec(self));
        }
        s
    }

    /// The debugging line the matrix answers to: rendering plus shape.
    pub fn describe(&self) -> (r: String)
        requires
            self.wf(),
        ensures
            r@ == describe_spec(self),
    {
        let mut s = String::new();
        s.append("Matrix:data:");
        let body = self.render();
        s.append(body.as_str());
        s.append(",rows:");
        push_u64(&mut s, self.rows as u64);
        s.append(",cols:");
        push_u64(&mut s, self.cols as u64);
        proof {
            assert(self.rows as u64 as nat == self.rows as nat);
            assert(self.cols as u64 as nat == self.cols as nat);
            assert(s@ =~= describe_spec(self));
        }
        s
    }
}

/// The unit of work for one output cell: the destination's linear index and
/// the operand row and column, both owned copies.
pub struct MsgInput {
    pub idx: usize,
    pub row: Vector,
    pub col: Vector,
}

/// The result of one task: the destination's linear index and the computed
/// dot product. Ephemeral: it exists only between a worker's send and the
/// dispatcher's receive.
#[derive(Clone, Copy, Debug, PartialEq, Eq, Structural)]
pub struct MsgOutput {
    pub idx: usize,
    pub value: i64,
}

impl MsgInput {
    pub fn new(idx: usize, row: Vector, col: Vector) -> (r: MsgInput)
        ensures
            r.idx == idx,
            r.row@ == row@,
            r.col@ == col@,
    {
        MsgInput { idx, row, col }
    }

    /// The worker step: computes the task's dot product and pairs it with
    /// the task's destination index. Fails exactly when the row and column
    /// lengths disagree, which a well-shaped dispatch never produces.
    pub fn process(self) -> (r: Result<MsgOutput, MultiplyError>)
        requires
            self.row@.len() == self.col@.len() ==> dot_in_bounds(self.row@, self.col@),
        ensures
            self.row@.len() != self.col@.len() ==> r == Err::<MsgOutput, MultiplyError>(
                MultiplyError::LengthMismatch,
            ),
            self.row@.len() == self.col@.len() ==> (r matches Ok(out) && out.idx == self.idx
                && out.value == dot_spec(self.row@, self.col@)),
    {
        let idx = self.idx;
        match dot_product(self.row, self.col) {
            Ok(value) => Ok(MsgOutput { idx, value }),
            Err(e) => Err(e),
        }
    }
}

/// Every row/column dot product of the multiplication stays within the
/// element type at every step.
pub open spec fn mul_in_bounds(a: &Matrix, b: &Matrix) -> bool {
    forall|i: int, j: int|
        0 <= i < a.rows && 0 <= j < b.cols ==> dot_in_bounds(
            #[trigger] a.row_spec(i),
            #[trigger] b.col_spec(j),
        )
}

/// The standard mathematical product at cell `(i, j)`: the dot product of
/// row `i` of `a` and column `j` of `b`.
pub open spec fn product_entry(a: &Matrix, b: &Matrix, i: int, j: int) -> int {
    dot_spec(a.row_spec(i), b.col_spec(j))
}

/// The flat row-major buffer of the standard mathematical product.
pub open spec fn product_seq(a: &Matrix, b: &Matrix) -> Seq<i64> {
    Seq::new(
        (a.rows * b.cols) as nat,
        |idx: int| product_entry(a, b, idx / (b.cols as int), idx % (b.cols as int)) as i64,
    )
}

/// What `multiply` promises of a successful result: the shape of the
/// product and, cell for cell, its mathematical value.
pub open spec fn is_product_of(c: &Matrix, a: &Matrix, b: &Matrix) -> bool {
    &&& c.rows == a.rows
    &&& c.cols == b.cols
    &&& c.wf()
    &&& c.data@ == product_seq(a, b)
}

/// Some collected result carries destination index `p`.
pub open spec fn covers(outs: Seq<MsgOutput>, p: int) -> bool {
    exists|k: int| 0 <= k < outs.len() && (#[trigger] outs[k]).idx == p
}

/// A completion stream for `a * b`: every collected result points into the
/// output and carries the mathematical value of its destination cell, and
/// every destination cell is answered by some result. Nothing is said about
/// order: workers finish as the scheduler pleases.
pub open spec fn complete_results(outs: Seq<MsgOutput>, a: &Matrix, b: &Matrix) -> bool {
    &&& forall|k: int|
        0 <= k < outs.len() ==> ((#[trigger] outs[k]).idx < a.rows * b.cols && outs[k].value
            == product_seq(a, b)[outs[k].idx as int])
    &&& forall|p: int| 0 <= p < a.rows * b.cols ==> covers(outs, p)
}

/// The output buffer after writing each collected result, in order, at its
/// destination index over a zero-initialized buffer of length `len`.
pub open spec fn assemble_spec(outs: Seq<MsgOutput>, len: nat) -> Seq<i64>
    decreases outs.len(),
{
    if outs.len() == 0 {
        Seq::new(len, |p: int| 0i64)
    } else {
        let prev = assemble_spec(outs.drop_last(), len);
        if outs.last().idx < len {
            prev.update(outs.last().idx as int, outs.last().value)
        } else {
            prev
        }
    }
}

pub proof fn lemma_assemble_len(outs: Seq<MsgOutput>, len: nat)
    ensures
        assemble_spec(outs, len).len() == len,
    decreases outs.len(),
{
    if outs.len() > 0 {
        lemma_assemble_len(outs.drop_last(), len);
    }
}

/// The cell `p` of the assembled buffer holds `vals[p]` as soon as every
/// result agrees with `vals` and some result answers `p`; unanswered cells
/// keep the zero the buffer started from.
proof fn lemma_assemble_at(outs: Seq<MsgOutput>, len: nat, vals: Seq<i64>, p: int)
    requires
        vals.len() == len,
        forall|k: int|
            0 <= k < outs.len() ==> ((#[trigger] outs[k]).idx < len && outs[k].value
                == vals[outs[k].idx as int]),
        0 <= p < len,
    ensures
        covers(outs, p) ==> assemble_spec(outs, len)[p] == vals[p],
        !covers(outs, p) ==> assemble_spec(outs, len)[p] == 0i64,
    decreases outs.len(),
{
    lemma_assemble_len(outs, len);
    if outs.len() == 0 {
        assert(!covers(outs, p));
    } else {
        let prev = outs.drop_last();
        let last = outs.last();
        assert(last == outs[outs.len() - 1]);
        lemma_assemble_at(prev, len, vals, p);
        lemma_assemble_len(prev, len);
        if last.idx == p {
            assert(covers(outs, p));
            assert(assemble_spec(outs, len)[p] == last.value);
        } else {
            assert(assemble_spec(outs, len)[p] == assemble_spec(prev, len)[p]);
            if covers(outs, p) {
                let k = choose|k: int| 0 <= k < outs.len() && (#[trigger] outs[k]).idx == p;
                assert(0 <= k < prev.len() && prev[k].idx == p);
                assert(covers(prev, p));
            }
            if covers(prev, p) {
                let k = choose|k: int| 0 <= k < prev.len() && (#[trigger] prev[k]).idx == p;
                assert(outs[k].idx == p);
                assert(covers(outs, p));
            }
        }
    }
}

/// The reassembly law: any completion stream for `a * b`, whatever worker
/// computed each cell and in whatever order the results arrived, assembles
/// to exactly the mathematical product buffer. The kernel's outcome is
/// invariant to scheduling, to the worker count and to the assignment rule.
pub proof fn lemma_assemble_any_order(outs: Seq<MsgOutput>, a: &Matrix, b: &Matrix)
    requires
        complete_results(outs, a, b),
    ensures
        assemble_spec(outs, (a.rows * b.cols) as nat) == product_seq(a, b),
{
    let n = (a.rows * b.cols) as nat;
    let ps = product_seq(a, b);
    lemma_assemble_len(outs, n);
    assert forall|p: int| 0 <= p < n implies assemble_spec(outs, n)[p] == ps[p] by {
        lemma_assemble_at(outs, n, ps, p);
        assert(covers(outs, p));
    }
    assert(assemble_spec(outs, n) =~= ps);
}

/// The determinism law: two results that both satisfy `multiply`'s
/// contract for the same operands are identical, bit for bit, whatever
/// thread interleavings produced them.
pub proof fn lemma_multiply_deterministic(a: &Matrix, b: &Matrix, c1: &Matrix, c2: &Matrix)
    requires
        is_product_of(c1, a, b),
        is_product_of(c2, a, b),
    ensures
        c1.rows == c2.rows,
        c1.cols == c2.cols,
        c1.data@ == c2.data@,
{
}

/// Writes each collected result at its destination index over a
/// zero-initialized `rows * cols` buffer and wraps the buffer as a matrix.
pub fn assemble(results: Vec<MsgOutput>, rows: usize, cols: usize) -> (r: Matrix)
    requires
        rows * cols <= usize::MAX,
    ensures
        r.rows == rows,
        r.cols == cols,
        r.wf(),
        r.data@ == assemble_spec(results@, (rows * cols) as nat),
{
    let len = rows * cols;
    let mut data: Vec<i64> = Vec::new();
    let mut z: usize = 0;
    while z < len
        invariant
            z <= len,
            data@.len() == z,
            forall|t: int| 0 <= t < z ==> data@[t] == 0i64,
        decreases len - z,
    {
        data.push(0);
        z = z + 1;
    }
    proof {
        assert(results@.take(0).len() == 0);
        assert(data@ =~= assemble_spec(results@.take(0), len as nat));
    }
    let count = results.len();
    let mut i: usize = 0;
    while i < count
        invariant
            count == results@.len(),
            i <= count,
            len == rows * cols,
            data@.len() == len,
            data@ == assemble_spec(results@.take(i as int), len as nat),
        decreases count - i,
    {
        let out = results[i];
        proof {
            let prefix1 = results@.take(i as int + 1);
            assert(prefix1.drop_last() =~= results@.take(i as int));
            assert(prefix1.last() == results@[i as int]);
        }
        if out.idx < len {
            data.set(out.idx, out.value);
        }
        i = i + 1;
    }
    proof {
        assert(results@.take(count as int) =~= results@);
    }
    Matrix { data, rows, cols }
}

/// The sole multiplication entry point: checks the inner dimensions,
/// dispatches one task per output cell in row-major order, collects each
/// task's result, and assembles the collected results into the product.
/// Fails exactly when the inner dimensions disagree, before any work.
pub fn multiply(a: &Matrix, b: &Matrix) -> (r: Result<Matrix, MultiplyError>)
    requires
        a.wf(),
        b.wf(),
        a.rows * b.cols <= usize::MAX,
        a.cols == b.rows ==> mul_in_bounds(a, b),
    ensures
        a.cols != b.rows ==> r == Err::<Matrix, MultiplyError>(MultiplyError::DimensionMismatch),
        a.cols == b.rows ==> (r matches Ok(c) && is_product_of(&c, a, b)),
{
    if a.cols != b.rows {
        return Err(MultiplyError::DimensionMismatch);
    }
    let n = a.rows * b.cols;
    let mut results: Vec<MsgOutput> = Vec::new();
    let mut i: usize = 0;
    while i < a.rows
        invariant
            a.wf(),
            b.wf(),
            a.cols == b.rows,
            mul_in_bounds(a, b),
            n == a.rows * b.cols,
            i <= a.rows,
            results@.len() == i * b.cols,
            forall|k: int|
                0 <= k < results@.len() ==> ((#[trigger] results@[k]).idx == k
                    && results@[k].value == product_seq(a, b)[k]),
        decreases a.rows - i,
    {
        let mut j: usize = 0;
        while j < b.cols
            invariant
                a.wf(),
                b.wf(),
                a.cols == b.rows,
                mul_in_bounds(a, b),
                n == a.rows * b.cols,
                i < a.rows,
                j <= b.cols,
                results@.len() == i * b.cols + j,
                forall|k: int|
                    0 <= k < results@.len() ==> ((#[trigger] results@[k]).idx == k
                        && results@[k].value == product_seq(a, b)[k]),
            decreases b.cols - j,
        {
            assert(i * b.cols + j < a.rows * b.cols) by (nonlinear_arith)
                requires
                    i < a.rows,
                    j < b.cols,
            ;
            let row = a.row(i);
            let col = b.col(j);
            let idx = i * b.cols + j;
            let input = MsgInput::new(idx, row, col);
            proof {
                vstd::arithmetic::div_mod::lemma_fundamental_div_mod_converse(
                    idx as int,
                    b.cols as int,
                    i as int,
                    j as int,
                );
                assert(product_seq(a, b)[idx as int] == product_entry(
                    a,
                    b,
                    i as int,
                    j as int,
                ) as i64);
                assert(i64::MIN <= dot_partial(
                    a.row_spec(i as int),
                    b.col_spec(j as int),
                    a.row_spec(i as int).len() as int,
                ) <= i64::MAX);
            }
            match input.process() {
                Ok(out) => {
                    results.push(out);
                },
                Err(_) => {
                    proof {
                        assert(false);
                    }
                    return Err(MultiplyError::ChannelFailure);
                },
            }
            j = j + 1;
        }
        proof {
            assert((i + 1) * b.cols == i * b.cols + b.cols) by (nonlinear_arith);
        }
        i = i + 1;
    }
    proof {
        assert(results@.len() == a.rows * b.cols);
    }
    let m = assemble(results, a.rows, b.cols);
    proof {
        assert forall|p: int| 0 <= p < a.rows * b.cols implies covers(results@, p) by {
            assert(results@[p].idx == p);
        }
        lemma_assemble_any_order(results@, a, b);
    }
    Ok(m)
}

/// The deterministic, load-oblivious sharding rule: the cell with linear
/// index `idx` goes to worker `idx % workers`. Kept behind one function so
/// another policy could replace it without touching the collection logic.
pub fn assign_worker(idx: usize, workers: usize) -> (r: usize)
    requires
        workers > 0,
    ensures
        r == idx % workers,
        r < workers,
{
    idx % workers
}

/// Decides `mul_in_bounds` by running every row/column reduction with
/// checked arithmetic, so an unverified caller can test it before asking
/// for the product itself.
pub fn multiply_within_bounds(a: &Matrix, b: &Matrix) -> (r: bool)
    requires
        a.wf(),
        b.wf(),
        a.cols == b.rows,
    ensures
        r == mul_in_bounds(a, b),
{
    let mut i: usize = 0;
    while i < a.rows
        invariant
            a.wf(),
            b.wf(),
            a.cols == b.rows,
            i <= a.rows,
            forall|p: int, q: int|
                0 <= p < i && 0 <= q < b.cols ==> dot_in_bounds(
                    #[trigger] a.row_spec(p),
                    #[trigger] b.col_spec(q),
                ),
        decreases a.rows - i,
    {
        let mut j: usize = 0;
        while j < b.cols
            invariant
                a.wf(),
                b.wf(),
                a.cols == b.rows,
                i < a.rows,
                j <= b.cols,
                forall|p: int, q: int|
                    0 <= p < i && 0 <= q < b.cols ==> dot_in_bounds(
                        #[trigger] a.row_spec(p),
                        #[trigger] b.col_spec(q),
                    ),
                forall|q: int|
                    0 <= q < j ==> dot_in_bounds(a.row_spec(i as int), #[trigger] b.col_spec(q)),
            decreases b.cols - j,
        {
            let row = a.row(i);
            let col = b.col(j);
            if !dot_within_bounds(&row, &col) {
                proof {
                    assert(!dot_in_bounds(a.row_spec(i as int), b.col_spec(j as int)));
                    assert(!mul_in_bounds(a, b));
                }
                return false;
            }
            j = j + 1;
        }
        i = i + 1;
    }
    true
}

/// The elementwise product law: a successful multiply result holds at each
/// cell exactly the dot product of the corresponding operand row and
/// column, the standard mathematical product.
pub proof fn lemma_product_entrywise(a: &Matrix, b: &Matrix, c: &Matrix, i: int, j: int)
    requires
        is_product_of(c, a, b),
        0 <= i < a.rows,
        0 <= j < b.cols,
    ensures
        c.entry(i, j) == product_entry(a, b, i, j) as i64,
{
    let idx = i * b.cols + j;
    assert(0 <= i * b.cols + j < a.rows * b.cols) by (nonlinear_arith)
        requires
            0 <= i < a.rows,
            0 <= j < b.cols,
    ;
    vstd::arithmetic::div_mod::lemma_fundamental_div_mod_converse(idx, b.cols as int, i, j);
    assert(c.data@[idx] == product_seq(a, b)[idx]);
    assert(c.entry(i, j) == c.data@[i * c.cols + j]);
}

} // verus!
